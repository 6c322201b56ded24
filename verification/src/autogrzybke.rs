//! The playlist generator: decorates missing-player nicknames with audio
//! bumpers, throttles frequent triggering with interlude fillers, and
//! resolves every word through the catalogue.

use std::sync::Arc;
use vstd::prelude::*;

use crate::clock::{in_clock_range, now_millis};
use crate::random;
use crate::resource_catalogue::{
    cat_has_path, dv_strings, lemma_find_contains_has_path, pool_of, resolvable,
    CatalogueModel, ResourceCatalogue,
};
use crate::strutil;
use crate::strutil::{lower_of, strings_sorted};

verus! {

/// Length of the sliding usage window: fifteen minutes.
pub const USAGE_WINDOW_MILLIS: i64 = 900000;

/// A playback request: the nicknames still missing, and flags that switch
/// individual decorations off.
pub struct AutogrzybkeRequest {
    pub missing: Vec<String>,
    pub skip_lobby: bool,
    pub skip_prefix: bool,
    pub skip_suffix: bool,
    pub skip_interlude: bool,
}

/// The timestamps of `ts` still within the usage window at `now`.
pub open spec fn pruned(ts: Seq<i64>, now: i64) -> Seq<i64> {
    ts.filter(|t: i64| t + USAGE_WINDOW_MILLIS > now)
}

/// How many interlude fillers the n-th recent call earns:
/// `max(0, (n - 1) / 2 - 1)`, or none when interludes are skipped.
pub open spec fn spec_interlude_count(usage_count: int, skip_interlude: bool) -> int {
    if skip_interlude {
        0
    } else if (usage_count - 1) / 2 - 1 > 0 {
        (usage_count - 1) / 2 - 1
    } else {
        0
    }
}

/// The shape of a ready-mode playlist against catalogue `m`: one path from
/// the pool of `"everyone"` and one from the pool of `"ready"`, in that
/// order, each dropped when its tag does not resolve.
pub open spec fn ready_playlist_ok(m: CatalogueModel, r: Seq<String>) -> bool {
    let ne: int = if resolvable(m, "everyone"@) {
        1
    } else {
        0
    };
    let nr: int = if resolvable(m, "ready"@) {
        1
    } else {
        0
    };
    &&& r.len() == ne + nr
    &&& (resolvable(m, "everyone"@) ==> pool_of(m, "everyone"@).contains(r[0]@))
    &&& (resolvable(m, "ready"@) ==> pool_of(m, "ready"@).contains(r[r.len() - 1]@))
}

/// Copies a string vector, keeping every element.
pub fn clone_strings(v: &Vec<String>) -> (r: Vec<String>)
    ensures
        r@ == v@,
{
    let mut r: Vec<String> = Vec::new();
    let mut i: usize = 0;
    while i < v.len()
        invariant
            i <= v@.len(),
            r@ == v@.subrange(0, i as int),
        decreases v@.len() - i,
    {
        r.push(v[i].clone());
        proof {
            assert(r@ =~= v@.subrange(0, i + 1));
        }
        i += 1;
    }
    proof {
        assert(r@ =~= v@);
    }
    r
}

/// Computes the interlude filler count from the usage count.
pub fn interlude_count(usage_count: usize, skip_interlude: bool) -> (r: usize)
    ensures
        r == spec_interlude_count(usage_count as int, skip_interlude),
{
    if skip_interlude {
        0
    } else if usage_count == 0 {
        0
    } else {
        let base = (usage_count - 1) / 2;
        if base > 1 {
            base - 1
        } else {
            0
        }
    }
}

/// One Bernoulli trial: true with `chance_percent` in a hundred, never when
/// skipped, never at zero percent, always at a hundred or more.
pub fn bernoulli(chance_percent: u64, skip: bool) -> (b: bool)
    ensures
        skip ==> !b,
        chance_percent == 0 ==> !b,
        !skip && chance_percent >= 100 ==> b,
{
    if skip {
        false
    } else {
        random::random_below(100) < chance_percent
    }
}

/// The words of one shout-out group: the nickname, wrapped in the bumpers
/// that triggered, with silence on each side that carries a bumper.
pub open spec fn spec_shoutout(nick: Seq<char>, pre: bool, suf: bool) -> Seq<Seq<char>> {
    if pre && suf {
        seq!["silence"@, "prefix"@, nick, "suffix"@, "silence"@]
    } else if pre {
        seq!["silence"@, "prefix"@, nick, "silence"@]
    } else if suf {
        seq!["silence"@, nick, "suffix"@, "silence"@]
    } else {
        seq![nick]
    }
}

/// Builds one shout-out group around `nick`.
fn make_shoutout(nick: String, add_prefix: bool, add_suffix: bool) -> (g: Vec<String>)
    ensures
        dv_strings(g@) == spec_shoutout(nick@, add_prefix, add_suffix),
        g@.len() >= 1,
{
    let ghost nick_chars = nick@;
    let mut g: Vec<String> = Vec::new();
    if add_prefix || add_suffix {
        g.push("silence".to_owned());
    }
    if add_prefix {
        g.push("prefix".to_owned());
    }
    g.push(nick);
    if add_suffix {
        g.push("suffix".to_owned());
    }
    if add_prefix || add_suffix {
        g.push("silence".to_owned());
    }
    proof {
        assert(dv_strings(g@) =~= spec_shoutout(nick_chars, add_prefix, add_suffix));
    }
    g
}

/// What one Bernoulli decision for a bumper may come out as: never when
/// skipped, never at zero percent, always at a hundred or more.
pub open spec fn bumper_allowed(b: bool, chance_percent: u64, skip: bool) -> bool {
    &&& (skip ==> !b)
    &&& (chance_percent == 0 ==> !b)
    &&& (!skip && chance_percent >= 100 ==> b)
}

/// The groups before shuffling: one shout-out per nickname under the drawn
/// bumper decisions, then exactly `interludes` interlude fillers.
pub open spec fn base_groups(
    nicks: Seq<Seq<char>>,
    pre: Seq<bool>,
    suf: Seq<bool>,
    interludes: int,
) -> Seq<Seq<Seq<char>>> {
    Seq::new(nicks.len(), |i: int| spec_shoutout(nicks[i], pre[i], suf[i])) + Seq::new(
        interludes as nat,
        |i: int| seq!["kurwa"@],
    )
}

/// The model of a group vector: each group as its character sequences.
pub open spec fn dv_groups(gs: Seq<Vec<String>>) -> Seq<Seq<Seq<char>>> {
    gs.map_values(|g: Vec<String>| dv_strings(g@))
}

/// How one word resolves: a path from its own pool, or from the fallback
/// pool when the word itself does not resolve.
pub open spec fn resolves_word(m: CatalogueModel, word: Seq<char>, p: Seq<char>) -> bool {
    if resolvable(m, word) {
        pool_of(m, word).contains(p)
    } else if resolvable(m, "unknown"@) {
        pool_of(m, "unknown"@).contains(p)
    } else {
        false
    }
}

/// Whether a word contributes a path at all: itself or the fallback
/// resolves.
pub open spec fn word_emits(m: CatalogueModel, word: Seq<char>) -> bool {
    resolvable(m, word) || resolvable(m, "unknown"@)
}

/// `r` is the in-order resolution of the first `wi` words: each emitting
/// word contributes one path as `resolves_word` says, the rest contribute
/// nothing.
pub open spec fn resolved_prefix(
    m: CatalogueModel,
    words: Seq<Seq<char>>,
    wi: int,
    r: Seq<String>,
) -> bool
    decreases wi,
{
    if wi <= 0 {
        r.len() == 0
    } else {
        let w = words[wi - 1];
        if word_emits(m, w) {
            &&& r.len() >= 1
            &&& resolves_word(m, w, r.last()@)
            &&& resolved_prefix(m, words, wi - 1, r.drop_last())
        } else {
            resolved_prefix(m, words, wi - 1, r)
        }
    }
}

/// One witness for the waiting-mode content law: per-nickname bumper
/// decisions within their chances, and a reordering `gs` of the groups,
/// under which `r` is the in-order resolution of the flattened words with
/// the trailing lobby word unless skipped.
pub open spec fn waiting_witness_ok(
    m: CatalogueModel,
    nicks: Seq<Seq<char>>,
    prefix_chance: u64,
    suffix_chance: u64,
    skip_prefix: bool,
    skip_suffix: bool,
    skip_lobby: bool,
    interludes: int,
    r: Seq<String>,
    gs: Seq<Seq<Seq<char>>>,
    pre: Seq<bool>,
    suf: Seq<bool>,
) -> bool {
    let words = gs.flatten() + (if skip_lobby {
        Seq::<Seq<char>>::empty()
    } else {
        seq!["lobby"@]
    });
    &&& pre.len() == nicks.len()
    &&& suf.len() == nicks.len()
    &&& (forall|i: int|
        0 <= i < nicks.len() ==> bumper_allowed(#[trigger] pre[i], prefix_chance, skip_prefix))
    &&& (forall|i: int|
        0 <= i < nicks.len() ==> bumper_allowed(#[trigger] suf[i], suffix_chance, skip_suffix))
    &&& gs.to_multiset() == base_groups(nicks, pre, suf, interludes).to_multiset()
    &&& resolved_prefix(m, words, words.len() as int, r)
}

/// The waiting-mode content law: for some bumper decisions and some
/// reordering of the shout-out and interlude groups, the output is the
/// in-order resolution of the words.
pub open spec fn waiting_playlist_ok(
    m: CatalogueModel,
    nicks: Seq<Seq<char>>,
    prefix_chance: u64,
    suffix_chance: u64,
    skip_prefix: bool,
    skip_suffix: bool,
    skip_lobby: bool,
    interludes: int,
    r: Seq<String>,
) -> bool {
    exists|gs: Seq<Seq<Seq<char>>>, pre: Seq<bool>, suf: Seq<bool>|
        waiting_witness_ok(
            m,
            nicks,
            prefix_chance,
            suffix_chance,
            skip_prefix,
            skip_suffix,
            skip_lobby,
            interludes,
            r,
            gs,
            pre,
            suf,
        )
}

/// Two group vectors with the same multiset of groups have the same
/// multiset of group models.
proof fn lemma_dv_groups_multiset(s1: Seq<Vec<String>>, s2: Seq<Vec<String>>)
    requires
        s1.to_multiset() == s2.to_multiset(),
    ensures
        dv_groups(s1).to_multiset() == dv_groups(s2).to_multiset(),
    decreases s1.len(),
{
    broadcast use vstd::seq_lib::group_to_multiset_ensures;

    if s1.len() == 0 {
        assert(s1.to_multiset().len() == 0);
        assert(s2.len() == s2.to_multiset().len());
        assert(dv_groups(s1) =~= dv_groups(s2));
    } else {
        let x = s1.last();
        assert(s1.contains(x));
        assert(s2.to_multiset().count(x) > 0);
        assert(s2.contains(x));
        let i = choose|i: int| 0 <= i < s2.len() && s2[i] == x;

        // Dropping one occurrence of x from each side leaves equal multisets.
        assert(s1 =~= s1.drop_last().push(x));
        assert(s1.to_multiset() == s1.drop_last().to_multiset().insert(x));
        assert(s2.remove(i).to_multiset() == s2.to_multiset().remove(x));
        assert(s1.drop_last().to_multiset() =~= s2.remove(i).to_multiset()) by {
            assert(s1.drop_last().to_multiset() =~= s1.to_multiset().remove(x));
        }
        lemma_dv_groups_multiset(s1.drop_last(), s2.remove(i));

        // The maps relate the same way.
        let f1 = dv_groups(s1);
        let f2 = dv_groups(s2);
        let fx = dv_strings(x@);
        assert(dv_groups(s1.drop_last()) =~= f1.drop_last());
        assert(dv_groups(s2.remove(i)) =~= f2.remove(i));
        assert(f1 =~= f1.drop_last().push(fx));
        assert(f1.to_multiset() == f1.drop_last().to_multiset().insert(fx));
        assert(f2.remove(i).to_multiset() == f2.to_multiset().remove(fx));
        assert(f2.contains(fx)) by {
            assert(f2[i] == fx);
        }
        assert(f2.to_multiset().count(fx) > 0);
        assert(f1.to_multiset() =~= f2.to_multiset()) by {
            assert(f1.drop_last().to_multiset() == f2.to_multiset().remove(fx));
        }
    }
}

/// Keeps the timestamps still inside the usage window at `now`.
fn prune_timestamps(ts: &Vec<i64>, now: i64) -> (r: Vec<i64>)
    requires
        in_clock_range(now),
        forall|i: int| 0 <= i < ts@.len() ==> in_clock_range(#[trigger] ts@[i]),
    ensures
        r@ == pruned(ts@, now),
        forall|i: int| 0 <= i < r@.len() ==> in_clock_range(#[trigger] r@[i]),
{
    let ghost pred = |t: i64| t + USAGE_WINDOW_MILLIS > now;
    let mut r: Vec<i64> = Vec::new();
    proof {
        reveal(Seq::filter);
        assert(ts@.subrange(0, 0) =~= Seq::<i64>::empty());
        assert(r@ == ts@.subrange(0, 0).filter(pred));
    }
    let mut i: usize = 0;
    while i < ts.len()
        invariant
            i <= ts@.len(),
            forall|j: int| 0 <= j < ts@.len() ==> in_clock_range(#[trigger] ts@[j]),
            in_clock_range(now),
            pred == (|t: i64| t + USAGE_WINDOW_MILLIS > now),
            r@ == ts@.subrange(0, i as int).filter(pred),
            forall|j: int| 0 <= j < r@.len() ==> in_clock_range(#[trigger] r@[j]),
        decreases ts@.len() - i,
    {
        let t = ts[i];
        proof {
            reveal(Seq::filter);
            assert(ts@.subrange(0, i + 1).drop_last() =~= ts@.subrange(0, i as int));
            assert(ts@.subrange(0, i + 1).last() == ts@[i as int]);
        }
        if t + USAGE_WINDOW_MILLIS > now {
            r.push(t);
        }
        i += 1;
    }
    proof {
        assert(ts@.subrange(0, ts@.len() as int) =~= ts@);
    }
    r
}

/// The stateful playlist generator. It owns the sliding usage window and
/// the last-missing snapshot, and reads the shared catalogue.
pub struct Autogrzybke {
    resources: Arc<ResourceCatalogue>,
    recent_usage_timestamps: Vec<i64>,
    last_missing_list: Vec<String>,
    prefix_chance_percent: u64,
    suffix_chance_percent: u64,
}

impl Autogrzybke {
    /// Every remembered timestamp is a clock value.
    pub closed spec fn wf(self) -> bool {
        forall|i: int|
            0 <= i < self.recent_usage_timestamps@.len() ==> in_clock_range(
                #[trigger] self.recent_usage_timestamps@[i],
            )
    }

    /// The sliding window of recent non-empty call timestamps.
    pub closed spec fn timestamps(self) -> Seq<i64> {
        self.recent_usage_timestamps@
    }

    /// The sorted snapshot of the last non-empty request.
    pub closed spec fn last_missing(self) -> Seq<String> {
        self.last_missing_list@
    }

    /// The catalogue this generator resolves words against.
    pub closed spec fn resources_model(self) -> CatalogueModel {
        self.resources@
    }

    /// The configured bumper chances.
    pub closed spec fn prefix_chance(self) -> u64 {
        self.prefix_chance_percent
    }

    pub closed spec fn suffix_chance(self) -> u64 {
        self.suffix_chance_percent
    }

    /// A fresh generator over `resources` with the given bumper chances,
    /// an empty usage window and an empty snapshot.
    pub fn new(
        resources: Arc<ResourceCatalogue>,
        prefix_chance_percent: u64,
        suffix_chance_percent: u64,
    ) -> (r: Autogrzybke)
        ensures
            r.wf(),
            r.resources_model() == resources@,
            r.timestamps() == Seq::<i64>::empty(),
            r.last_missing() == Seq::<String>::empty(),
            r.prefix_chance() == prefix_chance_percent,
            r.suffix_chance() == suffix_chance_percent,
    {
        Autogrzybke {
            resources,
            recent_usage_timestamps: Vec::new(),
            last_missing_list: Vec::new(),
            prefix_chance_percent,
            suffix_chance_percent,
        }
    }

    /// The stored snapshot of the last non-empty request, sorted.
    pub fn get_last_missing(&self) -> (r: Vec<String>)
        ensures
            r@ == self.last_missing(),
    {
        clone_strings(&self.last_missing_list)
    }

    /// Ready mode: clears the usage window and the snapshot and resolves
    /// the fixed tags `"everyone"` and `"ready"`, dropping unresolved ones.
    fn generate_ready_playlist(&mut self) -> (r: Vec<String>)
        requires
            old(self).wf(),
        ensures
            final(self).wf(),
            final(self).timestamps() == Seq::<i64>::empty(),
            final(self).last_missing() == Seq::<String>::empty(),
            final(self).resources_model() == old(self).resources_model(),
            final(self).prefix_chance() == old(self).prefix_chance(),
            final(self).suffix_chance() == old(self).suffix_chance(),
            ready_playlist_ok(final(self).resources_model(), r@),
    {
        self.recent_usage_timestamps.clear();
        self.last_missing_list.clear();
        let mut out: Vec<String> = Vec::new();
        match self.resources.random_sample("everyone") {
            Some(p) => out.push(p),
            None => {},
        }
        match self.resources.random_sample("ready") {
            Some(p) => out.push(p),
            None => {},
        }
        out
    }

    /// Waiting mode at a given clock value: snapshots the sorted nicknames,
    /// slides the usage window, decorates each nickname, injects interlude
    /// fillers, shuffles, and resolves every word through the catalogue.
    fn generate_waiting_playlist(&mut self, req: AutogrzybkeRequest, now: i64) -> (r: Vec<String>)
        requires
            old(self).wf(),
            in_clock_range(now),
            req.missing@.len() > 0,
        ensures
            final(self).wf(),
            final(self).resources_model() == old(self).resources_model(),
            final(self).prefix_chance() == old(self).prefix_chance(),
            final(self).suffix_chance() == old(self).suffix_chance(),
            strings_sorted(final(self).last_missing()),
            final(self).last_missing().to_multiset() == req.missing@.to_multiset(),
            final(self).timestamps() == pruned(old(self).timestamps().push(now), now),
            forall|x: int|
                0 <= x < r@.len() ==> cat_has_path(
                    final(self).resources_model(),
                    #[trigger] r@[x]@,
                ),
            resolvable(old(self).resources_model(), "unknown"@) ==> r@.len()
                >= req.missing@.len() + spec_interlude_count(
                pruned(old(self).timestamps().push(now), now).len() as int,
                req.skip_interlude,
            ) + (if req.skip_lobby {
                0int
            } else {
                1
            }),
            waiting_playlist_ok(
                final(self).resources_model(),
                dv_strings(req.missing@),
                old(self).prefix_chance(),
                old(self).suffix_chance(),
                req.skip_prefix,
                req.skip_suffix,
                req.skip_lobby,
                spec_interlude_count(
                    pruned(old(self).timestamps().push(now), now).len() as int,
                    req.skip_interlude,
                ),
                r@,
            ),
    {
        broadcast use vstd::seq_lib::group_to_multiset_ensures;

        let ghost m = self.resources@;
        let ghost dvm = dv_strings(req.missing@);

        // Snapshot of the request, sorted for display.
        let mut snap = clone_strings(&req.missing);
        strutil::sort_strings(&mut snap);
        self.last_missing_list = snap;

        // Slide the usage window: this call joins it, stale entries leave.
        self.recent_usage_timestamps.push(now);
        let kept = prune_timestamps(&self.recent_usage_timestamps, now);
        self.recent_usage_timestamps = kept;
        let usage = self.recent_usage_timestamps.len();

        // One group per nickname, then the earned interlude fillers.
        let n_interludes = interlude_count(usage, req.skip_interlude);
        let ghost pc = old(self).prefix_chance();
        let ghost sc = old(self).suffix_chance();
        let ghost mut pres: Seq<bool> = Seq::empty();
        let ghost mut sufs: Seq<bool> = Seq::empty();
        let mut groups: Vec<Vec<String>> = Vec::new();
        proof {
            assert(dv_groups(groups@) =~= Seq::new(
                0,
                |jj: int| spec_shoutout(dvm[jj], pres[jj], sufs[jj]),
            ));
        }
        let mut i: usize = 0;
        while i < req.missing.len()
            invariant
                i <= req.missing@.len(),
                dvm == dv_strings(req.missing@),
                self.prefix_chance_percent == pc,
                self.suffix_chance_percent == sc,
                groups@.len() == i,
                pres.len() == i,
                sufs.len() == i,
                forall|jj: int|
                    0 <= jj < i ==> bumper_allowed(#[trigger] pres[jj], pc, req.skip_prefix),
                forall|jj: int|
                    0 <= jj < i ==> bumper_allowed(#[trigger] sufs[jj], sc, req.skip_suffix),
                dv_groups(groups@) == Seq::new(
                    i as nat,
                    |jj: int| spec_shoutout(dvm[jj], pres[jj], sufs[jj]),
                ),
                forall|g: int| 0 <= g < groups@.len() ==> #[trigger] groups@[g]@.len() >= 1,
            decreases req.missing@.len() - i,
        {
            let pre = bernoulli(self.prefix_chance_percent, req.skip_prefix);
            let suf = bernoulli(self.suffix_chance_percent, req.skip_suffix);
            let g = make_shoutout(req.missing[i].clone(), pre, suf);
            let ghost pre_groups = groups@;
            groups.push(g);
            proof {
                pres = pres.push(pre);
                sufs = sufs.push(suf);
                assert(dv_groups(groups@) =~= dv_groups(pre_groups).push(dv_strings(g@)));
                assert(dv_groups(groups@) =~= Seq::new(
                    (i + 1) as nat,
                    |jj: int| spec_shoutout(dvm[jj], pres[jj], sufs[jj]),
                ));
            }
            i += 1;
        }
        let ghost shout_part = dv_groups(groups@);
        proof {
            assert(dv_groups(groups@) =~= shout_part + Seq::new(0, |x: int| seq!["kurwa"@]));
        }
        let mut j: usize = 0;
        while j < n_interludes
            invariant
                j <= n_interludes,
                groups@.len() == req.missing@.len() + j,
                dv_groups(groups@) == shout_part + Seq::new(j as nat, |x: int| seq!["kurwa"@]),
                forall|g: int| 0 <= g < groups@.len() ==> #[trigger] groups@[g]@.len() >= 1,
            decreases n_interludes - j,
        {
            let mut g: Vec<String> = Vec::new();
            g.push("kurwa".to_owned());
            let ghost pre_groups = groups@;
            groups.push(g);
            proof {
                assert(dv_strings(g@) =~= seq!["kurwa"@]);
                assert(dv_groups(groups@) =~= dv_groups(pre_groups).push(dv_strings(g@)));
                assert(dv_groups(groups@) =~= shout_part + Seq::new(
                    (j + 1) as nat,
                    |x: int| seq!["kurwa"@],
                ));
            }
            j += 1;
        }
        proof {
            assert(dv_groups(groups@) =~= base_groups(dvm, pres, sufs, n_interludes as int));
        }

        let ghost groups_before = groups@;
        random::shuffle_groups(&mut groups);
        proof {
            lemma_dv_groups_multiset(groups@, groups_before);
            assert forall|g: int| 0 <= g < groups@.len() implies #[trigger] groups@[g]@.len()
                >= 1 by {
                assert(groups@.contains(groups@[g]));
                assert(groups_before.to_multiset().count(groups@[g]) > 0);
                assert(groups_before.contains(groups@[g]));
                let y = choose|y: int|
                    0 <= y < groups_before.len() && groups_before[y] == groups@[g];
                assert(groups_before[y]@.len() >= 1);
            }
        }
        let ghost gsw = dv_groups(groups@);

        // Flatten the groups into one word sequence.
        let mut words: Vec<String> = Vec::new();
        proof {
            assert(gsw.skip(0) =~= gsw);
            assert(dv_strings(words@) + gsw.flatten() =~= gsw.flatten());
        }
        let mut gi: usize = 0;
        while gi < groups.len()
            invariant
                gi <= groups@.len(),
                gsw == dv_groups(groups@),
                forall|g: int| 0 <= g < groups@.len() ==> #[trigger] groups@[g]@.len() >= 1,
                words@.len() >= gi,
                dv_strings(words@) + gsw.skip(gi as int).flatten() == gsw.flatten(),
            decreases groups@.len() - gi,
        {
            let glen = groups[gi].len();
            proof {
                assert(gsw.skip(gi as int).first() == gsw[gi as int]);
                assert(gsw.skip(gi as int).drop_first() =~= gsw.skip(gi as int + 1));
                assert(gsw[gi as int].skip(0) =~= gsw[gi as int]);
                assert(dv_strings(words@) + (gsw[gi as int].skip(0) + gsw.skip(
                    gi as int + 1,
                ).flatten()) =~= gsw.flatten());
            }
            let mut wi: usize = 0;
            while wi < glen
                invariant
                    gi < groups@.len(),
                    wi <= glen,
                    gsw == dv_groups(groups@),
                    glen == groups@[gi as int]@.len(),
                    words@.len() >= gi + wi,
                    dv_strings(words@) + (gsw[gi as int].skip(wi as int) + gsw.skip(
                        gi as int + 1,
                    ).flatten()) == gsw.flatten(),
                decreases glen - wi,
            {
                let word = groups[gi][wi].clone();
                let ghost pre_words = words@;
                words.push(word);
                proof {
                    assert(dv_strings(words@) =~= dv_strings(pre_words).push(
                        gsw[gi as int][wi as int],
                    ));
                    assert(dv_strings(words@) + (gsw[gi as int].skip(wi + 1) + gsw.skip(
                        gi as int + 1,
                    ).flatten()) =~= dv_strings(pre_words) + (gsw[gi as int].skip(wi as int)
                        + gsw.skip(gi as int + 1).flatten()));
                }
                wi += 1;
            }
            proof {
                assert(gsw[gi as int].skip(glen as int) =~= Seq::<Seq<char>>::empty());
                assert(dv_strings(words@) + gsw.skip(gi as int + 1).flatten() =~= dv_strings(
                    words@,
                ) + (gsw[gi as int].skip(glen as int) + gsw.skip(gi as int + 1).flatten()));
            }
            gi += 1;
        }
        proof {
            assert(gsw.skip(gsw.len() as int).flatten() =~= Seq::<Seq<char>>::empty());
            assert(dv_strings(words@) =~= dv_strings(words@) + gsw.skip(
                gsw.len() as int,
            ).flatten());
            assert(dv_strings(words@) == gsw.flatten());
        }

        // The trailing lobby call, unless disabled.
        if !req.skip_lobby {
            let ghost pre_words = words@;
            words.push("lobby".to_owned());
            proof {
                assert(dv_strings(words@) =~= dv_strings(pre_words).push("lobby"@));
                assert(dv_strings(words@) =~= gsw.flatten() + seq!["lobby"@]);
            }
        } else {
            proof {
                assert(dv_strings(words@) =~= gsw.flatten() + Seq::<Seq<char>>::empty());
            }
        }
        let ghost wm = dv_strings(words@);

        // Resolve every word; misses fall back to the unknown tag, and a
        // double miss contributes nothing.
        let mut out: Vec<String> = Vec::new();
        let mut k: usize = 0;
        while k < words.len()
            invariant
                k <= words@.len(),
                m == self.resources@,
                wm == dv_strings(words@),
                forall|x: int| 0 <= x < out@.len() ==> cat_has_path(m, #[trigger] out@[x]@),
                resolvable(m, "unknown"@) ==> out@.len() == k,
                resolved_prefix(m, wm, k as int, out@),
            decreases words@.len() - k,
        {
            proof {
                assert(words@[k as int]@ == wm[k as int]);
            }
            match self.resources.random_sample(words[k].as_str()) {
                Some(p) => {
                    proof {
                        lemma_find_contains_has_path(m, lower_of(words@[k as int]@), p@);
                    }
                    let ghost pre_out = out@;
                    out.push(p);
                    proof {
                        assert(out@.drop_last() =~= pre_out);
                        assert(resolves_word(m, wm[k as int], p@));
                        assert(resolved_prefix(m, wm, k + 1, out@));
                    }
                },
                None => {
                    match self.resources.random_sample("unknown") {
                        Some(p) => {
                            proof {
                                lemma_find_contains_has_path(m, lower_of("unknown"@), p@);
                            }
                            let ghost pre_out = out@;
                            out.push(p);
                            proof {
                                assert(out@.drop_last() =~= pre_out);
                                assert(!resolvable(m, wm[k as int]));
                                assert(resolves_word(m, wm[k as int], p@));
                                assert(resolved_prefix(m, wm, k + 1, out@));
                            }
                        },
                        None => {
                            proof {
                                assert(!resolvable(m, wm[k as int]));
                                assert(!resolvable(m, "unknown"@));
                                assert(!word_emits(m, wm[k as int]));
                                assert(resolved_prefix(m, wm, k + 1, out@));
                            }
                        },
                    }
                },
            }
            k += 1;
        }
        proof {
            if resolvable(m, "unknown"@) {
                assert(out@.len() == words@.len());
            }
            assert(resolved_prefix(m, wm, wm.len() as int, out@));
            assert(waiting_witness_ok(
                m,
                dvm,
                pc,
                sc,
                req.skip_prefix,
                req.skip_suffix,
                req.skip_lobby,
                spec_interlude_count(
                    pruned(old(self).timestamps().push(now), now).len() as int,
                    req.skip_interlude,
                ),
                out@,
                gsw,
                pres,
                sufs,
            ));
            assert(waiting_playlist_ok(
                m,
                dvm,
                pc,
                sc,
                req.skip_prefix,
                req.skip_suffix,
                req.skip_lobby,
                spec_interlude_count(
                    pruned(old(self).timestamps().push(now), now).len() as int,
                    req.skip_interlude,
                ),
                out@,
            ));
        }
        out
    }

    /// Generates a playlist at a given clock value: ready mode on an empty
    /// request, waiting mode otherwise. Exposed so that callers and tests
    /// can fix the clock; `generate_playlist` reads the real one.
    pub fn generate_playlist_at(&mut self, req: AutogrzybkeRequest, now: i64) -> (r: Vec<String>)
        requires
            old(self).wf(),
            in_clock_range(now),
        ensures
            final(self).wf(),
            final(self).resources_model() == old(self).resources_model(),
            final(self).prefix_chance() == old(self).prefix_chance(),
            final(self).suffix_chance() == old(self).suffix_chance(),
            req.missing@.len() == 0 ==> {
                &&& final(self).timestamps() == Seq::<i64>::empty()
                &&& final(self).last_missing() == Seq::<String>::empty()
                &&& ready_playlist_ok(final(self).resources_model(), r@)
            },
            req.missing@.len() > 0 ==> {
                &&& strings_sorted(final(self).last_missing())
                &&& final(self).last_missing().to_multiset() == req.missing@.to_multiset()
                &&& final(self).timestamps() == pruned(old(self).timestamps().push(now), now)
                &&& forall|x: int|
                    0 <= x < r@.len() ==> cat_has_path(
                        final(self).resources_model(),
                        #[trigger] r@[x]@,
                    )
                &&& (resolvable(old(self).resources_model(), "unknown"@) ==> r@.len()
                    >= req.missing@.len() + spec_interlude_count(
                    pruned(old(self).timestamps().push(now), now).len() as int,
                    req.skip_interlude,
                ) + (if req.skip_lobby {
                    0int
                } else {
                    1
                }))
                &&& waiting_playlist_ok(
                    final(self).resources_model(),
                    dv_strings(req.missing@),
                    old(self).prefix_chance(),
                    old(self).suffix_chance(),
                    req.skip_prefix,
                    req.skip_suffix,
                    req.skip_lobby,
                    spec_interlude_count(
                        pruned(old(self).timestamps().push(now), now).len() as int,
                        req.skip_interlude,
                    ),
                    r@,
                )
            },
    {
        if req.missing.len() == 0 {
            self.generate_ready_playlist()
        } else {
            self.generate_waiting_playlist(req, now)
        }
    }

    /// Generates a playlist for the request at the current clock value.
    pub fn generate_playlist(&mut self, req: AutogrzybkeRequest) -> (r: Vec<String>)
        requires
            old(self).wf(),
        ensures
            final(self).wf(),
            final(self).resources_model() == old(self).resources_model(),
            final(self).prefix_chance() == old(self).prefix_chance(),
            final(self).suffix_chance() == old(self).suffix_chance(),
            req.missing@.len() == 0 ==> {
                &&& final(self).timestamps() == Seq::<i64>::empty()
                &&& final(self).last_missing() == Seq::<String>::empty()
                &&& ready_playlist_ok(final(self).resources_model(), r@)
            },
            req.missing@.len() > 0 ==> {
                &&& strings_sorted(final(self).last_missing())
                &&& final(self).last_missing().to_multiset() == req.missing@.to_multiset()
                &&& forall|x: int|
                    0 <= x < r@.len() ==> cat_has_path(
                        final(self).resources_model(),
                        #[trigger] r@[x]@,
                    )
                &&& exists|now: i64|
                    {
                        &&& in_clock_range(now)
                        &&& final(self).timestamps() == pruned(old(self).timestamps().push(now), now)
                        &&& waiting_playlist_ok(
                            final(self).resources_model(),
                            dv_strings(req.missing@),
                            old(self).prefix_chance(),
                            old(self).suffix_chance(),
                            req.skip_prefix,
                            req.skip_suffix,
                            req.skip_lobby,
                            spec_interlude_count(
                                pruned(old(self).timestamps().push(now), now).len() as int,
                                req.skip_interlude,
                            ),
                            r@,
                        )
                    }
            },
    {
        let ghost dvm = dv_strings(req.missing@);
        let ghost n_missing = req.missing@.len();
        let ghost sp = req.skip_prefix;
        let ghost ss = req.skip_suffix;
        let ghost sl = req.skip_lobby;
        let ghost si = req.skip_interlude;
        let now = now_millis();
        let r = self.generate_playlist_at(req, now);
        proof {
            if n_missing > 0 {
                assert(in_clock_range(now) && self.timestamps() == pruned(
                    old(self).timestamps().push(now),
                    now,
                ) && waiting_playlist_ok(
                    self.resources_model(),
                    dvm,
                    old(self).prefix_chance(),
                    old(self).suffix_chance(),
                    sp,
                    ss,
                    sl,
                    spec_interlude_count(
                        pruned(old(self).timestamps().push(now), now).len() as int,
                        si,
                    ),
                    r@,
                ));
            }
        }
        r
    }
}

} // verus!
