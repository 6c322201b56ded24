//! The one-shot sample toggle: decides which file to toggle and draws the
//! random seek offset; the surrounding program drives the player with it.

use vstd::prelude::*;

use crate::random;

verus! {

/// Why a toggle request was rejected.
#[derive(Clone, Copy, Debug, PartialEq, Eq, Structural)]
pub enum BennyError {
    /// No sample file was configured.
    ResourcesUnavailable,
}

/// The toggle decision source: the configured sample file, if any.
pub struct Benny {
    file_path: Option<String>,
}

impl Benny {
    /// The configured file.
    pub closed spec fn path(self) -> Option<Seq<char>> {
        match self.file_path {
            Some(p) => Some(p@),
            None => None,
        }
    }

    pub fn new(benny_abs_path: Option<String>) -> (r: Benny)
        ensures
            match benny_abs_path {
                Some(p) => r.path() == Some(p@),
                None => r.path() is None,
            },
    {
        Benny { file_path: benny_abs_path }
    }

    /// Decides one toggle: the configured file together with a random seek
    /// below thirty seconds, or the error when no file is configured.
    pub fn toggle(&self) -> (r: Result<(String, i64), BennyError>)
        ensures
            r is Ok <==> self.path() is Some,
            r matches Ok(p) ==> p.0@ == self.path().unwrap() && 0 <= p.1 < 30000,
    {
        match &self.file_path {
            Some(p) => {
                let seek = random::random_below(30000) as i64;
                Ok((p.clone(), seek))
            },
            None => Err(BennyError::ResourcesUnavailable),
        }
    }
}

} // verus!
