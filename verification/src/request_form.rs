//! Reading one named value out of a form-encoded request body: the first
//! UTF-8 chunk of the bytes is parsed into key/value pairs, and the first
//! value under the requested name is returned.

use vstd::prelude::*;

use crate::strutil;

verus! {

/// The type of a failed UTF-8 conversion, from std.
#[verifier::external_type_specification]
#[verifier::external_body]
pub struct ExFromUtf8Error(std::string::FromUtf8Error);

/// Why no value could be read from a request body.
#[derive(Debug)]
pub enum RequestBodyError {
    /// The body held no bytes at all.
    EmptyBody,
    /// The body was not a UTF-8 string.
    NotAnUtf8Body(std::string::FromUtf8Error),
    /// The body had no pair under the requested name.
    NameNotFound(String),
}

/// What the first UTF-8 chunk of a byte string decodes to: a function of
/// the bytes alone.
pub uninterp spec fn first_chunk_of(b: Seq<u8>) -> Seq<char>;

/// Relies on `<[u8]>::utf8_chunks` from std (the valid part of its first
/// chunk): a function of the bytes alone; only an empty input yields no
/// chunk.
#[verifier::external_body]
fn first_utf8_chunk(body: &[u8]) -> (r: Option<String>)
    ensures
        r is Some <==> body@.len() > 0,
        r matches Some(s) ==> s@ == first_chunk_of(body@),
{
    body.utf8_chunks().next().map(|c| c.valid().to_string())
}

/// The character sequences of a sequence of string pairs.
pub open spec fn dv_pairs(s: Seq<(String, String)>) -> Seq<(Seq<char>, Seq<char>)> {
    s.map_values(|p: (String, String)| (p.0@, p.1@))
}

/// What url_encoded_data parses form text to: the percent-decoded pairs,
/// grouped under the first appearance of each key, in document order; a
/// function of the text alone.
pub uninterp spec fn form_pairs_of(s: Seq<char>) -> Seq<(Seq<char>, Seq<char>)>;

/// Relies on url_encoded_data's `UrlEncodedData::parse_str` and
/// `as_pairs_of_original_order`: the decoded pairs of the form text, in
/// the documented first-appearance order.
#[verifier::external_body]
fn parse_form_pairs(s: &str) -> (r: Vec<(String, String)>)
    ensures
        dv_pairs(r@) == form_pairs_of(s@),
{
    url_encoded_data::UrlEncodedData::parse_str(s)
        .as_pairs_of_original_order()
        .into_iter()
        .map(|(k, v)| (k.to_string(), v.to_string()))
        .collect()
}

/// The value of the first pair keyed `name`, if any.
pub open spec fn first_value_for(pairs: Seq<(Seq<char>, Seq<char>)>, name: Seq<char>) -> Option<
    Seq<char>,
>
    decreases pairs.len(),
{
    if pairs.len() == 0 {
        None
    } else if pairs[0].0 == name {
        Some(pairs[0].1)
    } else {
        first_value_for(pairs.drop_first(), name)
    }
}

/// Reads the value under `name` from a form-encoded body: an empty body is
/// rejected, a body without the name is rejected, and otherwise the first
/// value under the name comes back.
pub fn get_value_from_form_body(body: &[u8], name: &str) -> (r: Result<String, RequestBodyError>)
    ensures
        body@.len() == 0 ==> (r matches Err(e) && e is EmptyBody),
        body@.len() > 0 ==> (match first_value_for(
            form_pairs_of(first_chunk_of(body@)),
            name@,
        ) {
            Some(v) => r matches Ok(s) && s@ == v,
            None => r matches Err(e) && (e matches RequestBodyError::NameNotFound(n) && n@
                == name@),
        }),
{
    let chunk = match first_utf8_chunk(body) {
        None => {
            return Err(RequestBodyError::EmptyBody);
        },
        Some(c) => c,
    };
    let pairs = parse_form_pairs(chunk.as_str());
    let ghost pv = dv_pairs(pairs@);
    proof {
        assert(pv.skip(0) =~= pv);
    }
    let mut k: usize = 0;
    while k < pairs.len()
        invariant
            k <= pairs@.len(),
            body@.len() > 0,
            pv == dv_pairs(pairs@),
            pv == form_pairs_of(first_chunk_of(body@)),
            first_value_for(pv, name@) == first_value_for(pv.skip(k as int), name@),
        decreases pairs@.len() - k,
    {
        proof {
            assert(pv.skip(k as int)[0] == pv[k as int]);
            assert(pv.skip(k as int).drop_first() =~= pv.skip(k as int + 1));
        }
        if strutil::str_eq(pairs[k].0.as_str(), name) {
            proof {
                assert(pv[k as int] == (pairs@[k as int].0@, pairs@[k as int].1@));
                assert(first_value_for(pv.skip(k as int), name@) == Some(pv[k as int].1));
            }
            return Ok(pairs[k].1.clone());
        }
        k += 1;
    }
    proof {
        assert(pv.skip(pv.len() as int).len() == 0);
    }
    Err(RequestBodyError::NameNotFound(name.to_owned()))
}

} // verus!
