//! The playback state machine: one external media process at most, owned by
//! the `Playing` state. The machine decides every transition; the process
//! runner around it spawns and kills accordingly and reports back, so a
//! failed spawn or kill leaves the recorded state truthful.

use vstd::prelude::*;
use vstd::string::StringExecFns;

use crate::resource_catalogue::dv_strings;
use crate::strutil;

verus! {

/// The two states of the player: idle, or playing the described source.
pub enum PlayerState {
    Paused,
    Playing { description: String },
}

/// The model of a player state: the description playing, if any.
pub open spec fn desc_of(s: PlayerState) -> Option<Seq<char>> {
    match s {
        PlayerState::Paused => None,
        PlayerState::Playing { description } => Some(description@),
    }
}

/// The state after a `play` request for `d` goes through: always playing `d`.
pub open spec fn play_next(s: Option<Seq<char>>, d: Seq<char>) -> Option<Seq<char>> {
    Some(d)
}

/// Whether a `play` request for `d` spawns a process: only when `d` is not
/// already playing.
pub open spec fn play_spawns(s: Option<Seq<char>>, d: Seq<char>) -> bool {
    s != Some(d)
}

/// The state after a `toggle_play` request for `d` goes through.
pub open spec fn toggle_next(s: Option<Seq<char>>, d: Seq<char>) -> Option<Seq<char>> {
    if s == Some(d) {
        None
    } else {
        Some(d)
    }
}

/// The state after a `pause` request goes through.
pub open spec fn pause_next(s: Option<Seq<char>>) -> Option<Seq<char>> {
    None
}

/// What the process runner must do for a `play` request.
pub enum PlayAction {
    /// The source is already playing: leave the process alone.
    AlreadyPlaying,
    /// Idle: spawn a fresh process.
    SpawnOnly,
    /// Another source is playing: kill it, then spawn.
    PauseThenSpawn,
}

/// What the process runner must do for a `toggle_play` request.
pub enum ToggleAction {
    /// The same source is playing: kill it and stay paused.
    PauseOnly,
    /// Idle: spawn a fresh process.
    SpawnOnly,
    /// Another source is playing: kill it, then spawn.
    PauseThenSpawn,
}

impl PlayerState {
    /// Decides a `play` request against the current state, following the
    /// transition table: same description is a no-op, a different one is
    /// pause-then-play, idle spawns.
    pub fn play(&self, description: &str) -> (a: PlayAction)
        ensures
            a is AlreadyPlaying <==> desc_of(*self) == Some(description@),
            a is SpawnOnly <==> desc_of(*self) is None,
            a is PauseThenSpawn <==> desc_of(*self) is Some && desc_of(*self) != Some(
                description@,
            ),
            play_spawns(desc_of(*self), description@) == !(a is AlreadyPlaying),
    {
        match self {
            PlayerState::Playing { description: current } => {
                if strutil::str_eq(current.as_str(), description) {
                    PlayAction::AlreadyPlaying
                } else {
                    PlayAction::PauseThenSpawn
                }
            },
            PlayerState::Paused => PlayAction::SpawnOnly,
        }
    }

    /// Decides a `toggle_play` request: the same description pauses, any
    /// other case behaves as `play`.
    pub fn toggle_play(&self, description: &str) -> (a: ToggleAction)
        ensures
            a is PauseOnly <==> desc_of(*self) == Some(description@),
            a is SpawnOnly <==> desc_of(*self) is None,
            a is PauseThenSpawn <==> desc_of(*self) is Some && desc_of(*self) != Some(
                description@,
            ),
            toggle_next(desc_of(*self), description@) == (if a is PauseOnly {
                None
            } else {
                Some(description@)
            }),
    {
        match self {
            PlayerState::Playing { description: current } => {
                if strutil::str_eq(current.as_str(), description) {
                    ToggleAction::PauseOnly
                } else {
                    ToggleAction::PauseThenSpawn
                }
            },
            PlayerState::Paused => ToggleAction::SpawnOnly,
        }
    }

    /// Decides a `pause` request: true when a process must be killed.
    pub fn pause(&self) -> (kill: bool)
        ensures
            kill <==> desc_of(*self) is Some,
    {
        match self {
            PlayerState::Playing { .. } => true,
            PlayerState::Paused => false,
        }
    }

    /// Records that a process for `description` was spawned successfully.
    pub fn note_spawned(&mut self, description: String)
        ensures
            desc_of(*final(self)) == Some(description@),
    {
        *self = PlayerState::Playing { description };
    }

    /// Records that the playing process was killed and reaped.
    pub fn note_killed(&mut self)
        ensures
            desc_of(*final(self)) is None,
    {
        *self = PlayerState::Paused;
    }
}

/// Law: a second `play` of the same source is a no-op, so two identical
/// `play` requests spawn exactly one process from idle, and none when the
/// source was already playing.
pub proof fn lemma_play_twice_spawns_once(s: Option<Seq<char>>, d: Seq<char>)
    ensures
        play_next(s, d) == Some(d),
        !play_spawns(play_next(s, d), d),
        (if play_spawns(s, d) {
            1int
        } else {
            0
        }) + (if play_spawns(play_next(s, d), d) {
            1int
        } else {
            0
        }) == (if s == Some(d) {
            0int
        } else {
            1
        }),
{
}

/// Law: `toggle_play` of one source alternates the state deterministically:
/// paused goes to playing it, playing it goes to paused, and a double
/// toggle always lands back where one toggle from the start would.
pub proof fn lemma_toggle_alternates(s: Option<Seq<char>>, d: Seq<char>)
    ensures
        toggle_next(None::<Seq<char>>, d) == Some(d),
        toggle_next(Some(d), d) is None,
        toggle_next(toggle_next(toggle_next(s, d), d), d) == toggle_next(s, d),
{
}

/// The text of the temporary playlist manifest handed to the media process:
/// one `file <path>` line per path, in order.
pub open spec fn spec_manifest(paths: Seq<Seq<char>>) -> Seq<char>
    decreases paths.len(),
{
    if paths.len() == 0 {
        Seq::empty()
    } else {
        spec_manifest(paths.drop_last()) + "file "@ + paths.last() + "\n"@
    }
}

/// Renders the playlist manifest text.
pub fn render_playlist_manifest(paths: &Vec<String>) -> (r: String)
    ensures
        r@ == spec_manifest(dv_strings(paths@)),
{
    let ghost dvp = dv_strings(paths@);
    let mut r = String::new();
    proof {
        assert(dvp.take(0) =~= Seq::<Seq<char>>::empty());
        assert(r@ =~= spec_manifest(dvp.take(0)));
    }
    let mut i: usize = 0;
    while i < paths.len()
        invariant
            i <= paths@.len(),
            dvp == dv_strings(paths@),
            r@ == spec_manifest(dvp.take(i as int)),
        decreases paths@.len() - i,
    {
        r.append("file ");
        r.append(paths[i].as_str());
        r.append("\n");
        proof {
            assert(dvp.take(i + 1).drop_last() =~= dvp.take(i as int));
            assert(dvp.take(i + 1).last() == paths@[i as int]@);
            assert(r@ =~= spec_manifest(dvp.take(i + 1)));
        }
        i += 1;
    }
    proof {
        assert(dvp.take(dvp.len() as int) =~= dvp);
    }
    r
}

} // verus!
