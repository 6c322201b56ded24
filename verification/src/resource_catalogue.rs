//! The tag-indexed catalogue of audio files: key derivation from relative
//! paths, grouping of paths into variant pools, random sampling, and the
//! sorted audio listing.

use vstd::prelude::*;
use vstd::string::StrSliceExecFns;

use crate::strutil;
use crate::strutil::{lower_of, numeric_char, strings_sorted};

verus! {

/// What `Path::strip_prefix` yields for the canonical absolute paths the
/// catalogue works with: the remainder of `path` after `base` and the
/// separating slash.
pub open spec fn spec_strip_prefix(path: Seq<char>, base: Seq<char>) -> Option<Seq<char>> {
    if base.len() == 0 {
        Some(path)
    } else if base == seq!['/'] {
        if path.len() > 0 && path[0] == '/' {
            Some(path.skip(1))
        } else {
            None
        }
    } else if path == base {
        Some(Seq::empty())
    } else if path.len() > base.len() && path.take(base.len() as int) == base && path[base.len() as int]
        == '/' {
        Some(path.skip(base.len() as int + 1))
    } else {
        None
    }
}

/// Position of the last occurrence of `c` in `s`, or `-1`.
pub open spec fn last_pos(s: Seq<char>, c: char) -> int
    decreases s.len(),
{
    if s.len() == 0 {
        -1
    } else if s[s.len() - 1] == c {
        s.len() - 1
    } else {
        last_pos(s.drop_last(), c)
    }
}

/// Length of the extension of the last component of `rel`: the characters
/// after its last dot, unless that dot starts the component or there is none.
pub open spec fn spec_ext_len(rel: Seq<char>) -> int {
    let name_start = last_pos(rel, '/') + 1;
    let dot = last_pos(rel, '.');
    if dot > name_start {
        rel.len() - dot - 1
    } else {
        0
    }
}

/// `s` without its trailing run of dots.
pub open spec fn trim_end_dots(s: Seq<char>) -> Seq<char>
    decreases s.len(),
{
    if s.len() > 0 && s[s.len() - 1] == '.' {
        trim_end_dots(s.drop_last())
    } else {
        s
    }
}

/// `s` without its trailing run of numeric characters.
pub open spec fn trim_end_numeric(s: Seq<char>) -> Seq<char>
    decreases s.len(),
{
    if s.len() > 0 && numeric_char(s[s.len() - 1]) {
        trim_end_numeric(s.drop_last())
    } else {
        s
    }
}

/// The catalogue key of a relative path: drop the extension, trim trailing
/// dots, trim one trailing digit run, and lowercase what is left.
pub open spec fn spec_key_chars(rel: Seq<char>) -> Seq<char> {
    lower_of(trim_end_numeric(trim_end_dots(rel.take(rel.len() - spec_ext_len(rel)))))
}

/// The catalogue key of `path` relative to `base`, or `None` when `base`
/// is not a prefix of `path`.
pub open spec fn spec_key_from_path(path: Seq<char>, base: Seq<char>) -> Option<Seq<char>> {
    match spec_strip_prefix(path, base) {
        Some(rel) => Some(spec_key_chars(rel)),
        None => None,
    }
}

/// `last_pos` stays within the sequence.
pub proof fn lemma_last_pos_bounds(s: Seq<char>, c: char)
    ensures
        -1 <= last_pos(s, c) < s.len(),
    decreases s.len(),
{
    if s.len() == 0 {
    } else if s[s.len() - 1] == c {
    } else {
        lemma_last_pos_bounds(s.drop_last(), c);
    }
}

/// Finds the last occurrence of `c` in `s`.
fn last_pos_exec(s: &str, c: char) -> (r: Option<usize>)
    ensures
        match r {
            Some(i) => last_pos(s@, c) == i as int,
            None => last_pos(s@, c) == -1,
        },
{
    let n = s.unicode_len();
    let mut i: usize = n;
    proof {
        assert(s@.take(n as int) =~= s@);
    }
    while i > 0
        invariant
            i <= n,
            n == s@.len(),
            last_pos(s@, c) == last_pos(s@.take(i as int), c),
        decreases i,
    {
        let ch = s.get_char(i - 1);
        proof {
            assert(s@.take(i as int).drop_last() =~= s@.take(i - 1));
            assert(s@.take(i as int).last() == s@[i - 1]);
        }
        if ch == c {
            return Some(i - 1);
        }
        i -= 1;
    }
    proof {
        assert(s@.take(0) =~= Seq::<char>::empty());
    }
    None
}

/// Derives the catalogue key of `path` relative to `base`, as
/// `spec_key_from_path` describes it.
pub fn key_from_path(path: &str, base: &str) -> (r: Option<String>)
    ensures
        match r {
            Some(k) => spec_key_from_path(path@, base@) == Some(k@),
            None => spec_key_from_path(path@, base@) is None,
        },
{
    let lp = path.unicode_len();
    let lb = base.unicode_len();

    // Strip the base prefix, as Path::strip_prefix would on canonical paths.
    let rel: &str = if lb == 0 {
        path
    } else if lb == 1 && base.get_char(0) == '/' {
        proof {
            assert(base@ =~= seq!['/']);
        }
        if lp > 0 && path.get_char(0) == '/' {
            let rest = path.substring_char(1, lp);
            proof {
                assert(rest@ =~= path@.skip(1));
            }
            rest
        } else {
            return None;
        }
    } else if strutil::str_eq(path, base) {
        proof {
            assert(base@ != seq!['/']);
        }
        let rest = path.substring_char(0, 0);
        proof {
            assert(rest@ =~= Seq::<char>::empty());
        }
        rest
    } else {
        proof {
            assert(base@ != seq!['/']);
        }
        if lp > lb {
            let head = path.substring_char(0, lb);
            proof {
                assert(head@ =~= path@.take(lb as int));
            }
            if strutil::str_eq(head, base) && path.get_char(lb) == '/' {
                let rest = path.substring_char(lb + 1, lp);
                proof {
                    assert(rest@ =~= path@.skip(lb as int + 1));
                }
                rest
            } else {
                return None;
            }
        } else {
            return None;
        }
    };

    let rl = rel.unicode_len();

    // Extension length of the last component.
    let slash = last_pos_exec(rel, '/');
    let dot = last_pos_exec(rel, '.');
    proof {
        lemma_last_pos_bounds(rel@, '/');
    }
    let name_start: usize = match slash {
        Some(i) => i + 1,
        None => 0,
    };
    let ext_len: usize = match dot {
        Some(d) => {
            proof {
                lemma_last_pos_bounds(rel@, '.');
            }
            if d > name_start {
                rl - d - 1
            } else {
                0
            }
        },
        None => 0,
    };
    assert(ext_len == spec_ext_len(rel@));

    // Trim trailing dots, then one trailing run of numeric characters.
    let word_len: usize = rl - ext_len;
    let ghost w = rel@.take(word_len as int);
    let mut e: usize = word_len;
    proof {
        assert(w.take(e as int) =~= w);
    }
    while e > 0 && rel.get_char(e - 1) == '.'
        invariant
            e <= word_len,
            word_len <= rl,
            rl == rel@.len(),
            w == rel@.take(word_len as int),
            trim_end_dots(w) == trim_end_dots(w.take(e as int)),
        decreases e,
    {
        proof {
            assert(w.take(e as int).drop_last() =~= w.take(e - 1));
            assert(w.take(e as int).last() == rel@[e - 1]);
        }
        e -= 1;
    }
    proof {
        if e > 0 {
            assert(w.take(e as int).last() == rel@[e - 1]);
        }
        assert(trim_end_dots(w) == w.take(e as int));
    }

    let dots_end = e;
    let mut e2: usize = dots_end;
    proof {
        assert(w.take(dots_end as int).take(e2 as int) =~= w.take(e2 as int));
    }
    while e2 > 0 && strutil::is_numeric_char(rel.get_char(e2 - 1))
        invariant
            e2 <= dots_end,
            dots_end <= word_len,
            word_len <= rl,
            rl == rel@.len(),
            w == rel@.take(word_len as int),
            trim_end_dots(w) == w.take(dots_end as int),
            trim_end_numeric(w.take(dots_end as int)) == trim_end_numeric(w.take(e2 as int)),
        decreases e2,
    {
        proof {
            assert(w.take(e2 as int).drop_last() =~= w.take(e2 - 1));
            assert(w.take(e2 as int).last() == rel@[e2 - 1]);
        }
        e2 -= 1;
    }
    proof {
        if e2 > 0 {
            assert(w.take(e2 as int).last() == rel@[e2 - 1]);
        }
        assert(trim_end_numeric(w.take(dots_end as int)) == w.take(e2 as int));
    }

    let stem = rel.substring_char(0, e2);
    proof {
        assert(stem@ =~= w.take(e2 as int));
    }
    Some(strutil::to_lowercase(stem))
}

/// Whether a path ends in the supported audio extension.
pub open spec fn has_mp3_ext(p: Seq<char>) -> bool {
    p.len() >= 4 && p.skip(p.len() - 4) == seq!['.', 'm', 'p', '3']
}

/// Tests a path for the supported audio extension.
fn is_mp3(p: &str) -> (r: bool)
    ensures
        r == has_mp3_ext(p@),
{
    let n = p.unicode_len();
    if n < 4 {
        return false;
    }
    let r = p.get_char(n - 4) == '.' && p.get_char(n - 3) == 'm' && p.get_char(n - 2) == 'p'
        && p.get_char(n - 1) == '3';
    proof {
        let s = p@.skip(n - 4);
        assert(s.len() == 4);
        assert(s[0] == p@[n - 4] && s[1] == p@[n - 3] && s[2] == p@[n - 2] && s[3] == p@[n - 1]);
        if r {
            assert(s =~= seq!['.', 'm', 'p', '3']);
        } else {
            assert(s != seq!['.', 'm', 'p', '3'])  by {
                if s == seq!['.', 'm', 'p', '3'] {
                    assert(s[0] == '.' && s[1] == 'm' && s[2] == 'p' && s[3] == '3');
                }
            }
        }
    }
    r
}

/// The mathematical shape of the catalogue: keys with their variant pools,
/// in insertion order.
pub type CatalogueModel = Seq<(Seq<char>, Seq<Seq<char>>)>;

/// The character sequences of a sequence of strings.
pub open spec fn dv_strings(s: Seq<String>) -> Seq<Seq<char>> {
    s.map_values(|x: String| x@)
}

/// The model of the raw entry list.
pub open spec fn entries_model(es: Seq<(String, Vec<String>)>) -> CatalogueModel {
    Seq::new(es.len(), |i: int| (es[i].0@, dv_strings(es[i].1@)))
}

/// The pool of the first entry keyed `k`, if any.
pub open spec fn cat_find(m: CatalogueModel, k: Seq<char>) -> Option<Seq<Seq<char>>>
    decreases m.len(),
{
    if m.len() == 0 {
        None
    } else if m[0].0 == k {
        Some(m[0].1)
    } else {
        cat_find(m.skip(1), k)
    }
}

/// Whether some pool of the catalogue holds the path `p`.
pub open spec fn cat_has_path(m: CatalogueModel, p: Seq<char>) -> bool {
    exists|i: int, j: int|
        0 <= i < m.len() && 0 <= j < m[i].1.len() && m[i].1[j] == p
}

/// The catalogue after filing `p` under `k`: the path joins the first pool
/// keyed `k`, or a new entry is appended.
pub open spec fn cat_add(m: CatalogueModel, k: Seq<char>, p: Seq<char>) -> CatalogueModel
    decreases m.len(),
{
    if m.len() == 0 {
        seq![(k, seq![p])]
    } else if m[0].0 == k {
        seq![(m[0].0, m[0].1.push(p))] + m.skip(1)
    } else {
        seq![m[0]] + cat_add(m.skip(1), k, p)
    }
}

/// The catalogue grown from `m` by filing `paths[i..]` under their derived
/// keys; paths without a key are skipped.
pub open spec fn cat_build(m: CatalogueModel, base: Seq<char>, paths: Seq<Seq<char>>, i: int) -> CatalogueModel
    decreases paths.len() - i,
{
    if i < 0 || i >= paths.len() {
        m
    } else {
        match spec_key_from_path(paths[i], base) {
            Some(k) => cat_build(cat_add(m, k, paths[i]), base, paths, i + 1),
            None => cat_build(m, base, paths, i + 1),
        }
    }
}

proof fn lemma_cat_add_found(m: CatalogueModel, k: Seq<char>, p: Seq<char>, idx: int)
    requires
        0 <= idx < m.len(),
        m[idx].0 == k,
        forall|j: int| 0 <= j < idx ==> m[j].0 != k,
    ensures
        cat_add(m, k, p) == m.update(idx, (m[idx].0, m[idx].1.push(p))),
    decreases idx,
{
    if idx == 0 {
        assert(cat_add(m, k, p) =~= m.update(0, (m[0].0, m[0].1.push(p))));
    } else {
        assert(m[0].0 != k);
        lemma_cat_add_found(m.skip(1), k, p, idx - 1);
        assert(m.skip(1)[idx - 1] == m[idx]);
        assert(cat_add(m, k, p) == seq![m[0]] + cat_add(m.skip(1), k, p));
        assert(seq![m[0]] + m.skip(1).update(idx - 1, (m[idx].0, m[idx].1.push(p))) =~= m.update(
            idx,
            (m[idx].0, m[idx].1.push(p)),
        ));
    }
}

proof fn lemma_cat_add_absent(m: CatalogueModel, k: Seq<char>, p: Seq<char>)
    requires
        forall|j: int| 0 <= j < m.len() ==> m[j].0 != k,
    ensures
        cat_add(m, k, p) == m.push((k, seq![p])),
    decreases m.len(),
{
    if m.len() == 0 {
        assert(cat_add(m, k, p) =~= m.push((k, seq![p])));
    } else {
        assert(m[0].0 != k);
        lemma_cat_add_absent(m.skip(1), k, p);
        assert(seq![m[0]] + m.skip(1).push((k, seq![p])) =~= m.push((k, seq![p])));
    }
}

/// Whether `word`, looked up case-insensitively, resolves to a non-empty
/// variant pool of the catalogue `m`.
pub open spec fn resolvable(m: CatalogueModel, word: Seq<char>) -> bool {
    &&& cat_find(m, lower_of(word)) is Some
    &&& cat_find(m, lower_of(word)).unwrap().len() > 0
}

/// The pool `word` resolves to.
pub open spec fn pool_of(m: CatalogueModel, word: Seq<char>) -> Seq<Seq<char>> {
    cat_find(m, lower_of(word)).unwrap()
}

/// A path found through `cat_find` is a path of the catalogue.
pub proof fn lemma_find_contains_has_path(m: CatalogueModel, k: Seq<char>, p: Seq<char>)
    requires
        cat_find(m, k) is Some,
        cat_find(m, k).unwrap().contains(p),
    ensures
        cat_has_path(m, p),
    decreases m.len(),
{
    if m.len() == 0 {
    } else if m[0].0 == k {
        let j = choose|j: int| 0 <= j < m[0].1.len() && m[0].1[j] == p;
        assert(0 <= 0 < m.len() && 0 <= j < m[0].1.len() && m[0].1[j] == p);
    } else {
        lemma_find_contains_has_path(m.skip(1), k, p);
        let (i, j) = choose|i: int, j: int|
            0 <= i < m.skip(1).len() && 0 <= j < m.skip(1)[i].1.len() && m.skip(1)[i].1[j] == p;
        assert(m[i + 1] == m.skip(1)[i]);
        assert(0 <= i + 1 < m.len() && 0 <= j < m[i + 1].1.len() && m[i + 1].1[j] == p);
    }
}

/// The immutable index of audio assets: each semantic key owns a non-empty
/// pool of interchangeable file paths. Built once from a directory listing.
pub struct ResourceCatalogue {
    entries: Vec<(String, Vec<String>)>,
}

impl View for ResourceCatalogue {
    type V = CatalogueModel;

    /// The catalogue's mathematical content.
    closed spec fn view(&self) -> CatalogueModel {
        entries_model(self.entries@)
    }
}

impl ResourceCatalogue {

    /// An empty catalogue.
    pub fn new() -> (r: ResourceCatalogue)
        ensures
            r@ == Seq::<(Seq<char>, Seq<Seq<char>>)>::empty(),
    {
        let r = ResourceCatalogue { entries: Vec::new() };
        proof {
            assert(r@ =~= Seq::<(Seq<char>, Seq<Seq<char>>)>::empty());
        }
        r
    }

    /// Builds the catalogue from a directory listing: every path whose key
    /// derivation relative to `base` succeeds is filed under that key, in
    /// order; the rest are skipped.
    pub fn from_paths(base: &str, paths: &Vec<String>) -> (r: ResourceCatalogue)
        ensures
            r@ == cat_build(
                Seq::<(Seq<char>, Seq<Seq<char>>)>::empty(),
                base@,
                dv_strings(paths@),
                0,
            ),
    {
        let ghost dvp = dv_strings(paths@);
        let ghost target = cat_build(Seq::<(Seq<char>, Seq<Seq<char>>)>::empty(), base@, dvp, 0);
        let mut entries: Vec<(String, Vec<String>)> = Vec::new();
        proof {
            assert(entries_model(entries@) =~= Seq::<(Seq<char>, Seq<Seq<char>>)>::empty());
        }
        let mut i: usize = 0;
        while i < paths.len()
            invariant
                i <= paths@.len(),
                dvp == dv_strings(paths@),
                target == cat_build(Seq::<(Seq<char>, Seq<Seq<char>>)>::empty(), base@, dvp, 0),
                cat_build(entries_model(entries@), base@, dvp, i as int) == target,
            decreases paths@.len() - i,
        {
            proof {
                assert(dvp[i as int] == paths@[i as int]@);
            }
            match key_from_path(paths[i].as_str(), base) {
                Some(key) => {
                    let path = paths[i].clone();
                    let ghost kv = key@;
                    let ghost m_old = entries_model(entries@);
                    Self::add_path_entry(&mut entries, key, path);
                    proof {
                        assert(spec_key_from_path(dvp[i as int], base@) == Some(kv));
                        assert(entries_model(entries@) == cat_add(m_old, kv, dvp[i as int]));
                        assert(cat_build(m_old, base@, dvp, i as int) == cat_build(
                            cat_add(m_old, kv, dvp[i as int]),
                            base@,
                            dvp,
                            i + 1,
                        ));
                    }
                },
                None => {
                    proof {
                        assert(spec_key_from_path(dvp[i as int], base@) is None);
                        assert(cat_build(entries_model(entries@), base@, dvp, i as int)
                            == cat_build(entries_model(entries@), base@, dvp, i + 1));
                    }
                },
            }
            i += 1;
        }
        let r = ResourceCatalogue { entries };
        proof {
            assert(cat_build(entries_model(r.entries@), base@, dvp, paths@.len() as int)
                == entries_model(r.entries@));
        }
        r
    }

    /// Index of the first entry keyed exactly `key`, with the entries before
    /// it known to differ.
    fn find_key_index(entries: &Vec<(String, Vec<String>)>, key: &str) -> (r: Option<usize>)
        ensures
            match r {
                Some(j) => {
                    &&& (j as int) < entries@.len()
                    &&& entries@[j as int].0@ == key@
                    &&& forall|x: int| 0 <= x < j ==> entries@[x].0@ != key@
                },
                None => forall|x: int| 0 <= x < entries@.len() ==> entries@[x].0@ != key@,
            },
    {
        let mut j: usize = 0;
        while j < entries.len()
            invariant
                j <= entries@.len(),
                forall|x: int| 0 <= x < j ==> entries@[x].0@ != key@,
            decreases entries@.len() - j,
        {
            if strutil::str_eq(entries[j].0.as_str(), key) {
                return Some(j);
            }
            j += 1;
        }
        None
    }

    /// Files `path` under `key`, into the first matching pool or a fresh one.
    fn add_path_entry(entries: &mut Vec<(String, Vec<String>)>, key: String, path: String)
        ensures
            entries_model(final(entries)@) == cat_add(entries_model(old(entries)@), key@, path@),
    {
        let ghost m = entries_model(entries@);
        let ghost pre = entries@;
        match Self::find_key_index(entries, key.as_str()) {
            Some(j) => {
                entries[j].1.push(path);
                proof {
                    assert(forall|x: int| 0 <= x < j ==> m[x].0 != key@);
                    lemma_cat_add_found(m, key@, path@, j as int);
                    assert(dv_strings(pre[j as int].1@.push(path)) =~= dv_strings(
                        pre[j as int].1@,
                    ).push(path@));
                    assert(entries_model(entries@) =~= m.update(
                        j as int,
                        (m[j as int].0, m[j as int].1.push(path@)),
                    ));
                }
            },
            None => {
                let mut pool: Vec<String> = Vec::new();
                pool.push(path);
                let ghost pool_view = pool@;
                entries.push((key, pool));
                proof {
                    assert(forall|x: int| 0 <= x < m.len() ==> m[x].0 != key@);
                    lemma_cat_add_absent(m, key@, pool_view[0]@);
                    assert(dv_strings(pool_view) =~= seq![pool_view[0]@]);
                    assert(entries_model(entries@) =~= m.push((key@, dv_strings(pool_view))));
                }
            },
        }
    }

    /// Uniform random choice from the pool of `basename`, looked up
    /// case-insensitively: `None` exactly when the key is absent or its
    /// pool is empty; a returned path always belongs to that pool. The
    /// last clause records that lowercasing is idempotent, so looking a
    /// tag up and looking its lowercased form up reach the same pool.
    pub fn random_sample(&self, basename: &str) -> (r: Option<String>)
        ensures
            r is Some <==> {
                &&& cat_find(self@, lower_of(basename@)) is Some
                &&& cat_find(self@, lower_of(basename@)).unwrap().len() > 0
            },
            r matches Some(p) ==> cat_find(self@, lower_of(basename@)).unwrap().contains(
                p@,
            ),
            lower_of(lower_of(basename@)) == lower_of(basename@),
    {
        let key = strutil::to_lowercase(basename);
        match self.find_pool_index(key.as_str()) {
            None => None,
            Some(i) => {
                let n = self.entries[i].1.len();
                if n == 0 {
                    None
                } else {
                    let idx = crate::random::random_below(n as u64) as usize;
                    let p = self.entries[i].1[idx].clone();
                    proof {
                        assert(dv_strings(self.entries@[i as int].1@)[idx as int] == p@);
                    }
                    Some(p)
                }
            },
        }
    }

    /// Full sorted listing of the catalogued paths that carry the supported
    /// audio extension: every listed path is in the catalogue, and every
    /// catalogued audio path is listed.
    pub fn list_files(&self) -> (r: Vec<String>)
        ensures
            strings_sorted(r@),
            forall|x: int|
                0 <= x < r@.len() ==> cat_has_path(self@, #[trigger] r@[x]@)
                    && has_mp3_ext(r@[x]@),
            forall|a: int, b: int|
                0 <= a < self@.len() && 0 <= b < self@[a].1.len() && has_mp3_ext(
                    #[trigger] self@[a].1[b],
                ) ==> exists|x: int| 0 <= x < r@.len() && r@[x]@ == self@[a].1[b],
    {
        broadcast use vstd::seq_lib::group_to_multiset_ensures;

        let ghost m = self@;
        let mut out: Vec<String> = Vec::new();
        let mut i: usize = 0;
        while i < self.entries.len()
            invariant
                m == self@,
                m.len() == self.entries@.len(),
                i <= self.entries@.len(),
                forall|x: int|
                    0 <= x < out@.len() ==> cat_has_path(m, #[trigger] out@[x]@) && has_mp3_ext(
                        out@[x]@,
                    ),
                forall|a: int, b: int|
                    0 <= a < i && 0 <= b < m[a].1.len() && has_mp3_ext(#[trigger] m[a].1[b])
                        ==> exists|x: int| 0 <= x < out@.len() && out@[x]@ == m[a].1[b],
            decreases self.entries@.len() - i,
        {
            let pool_len = self.entries[i].1.len();
            let mut b: usize = 0;
            while b < pool_len
                invariant
                    m == self@,
                    m.len() == self.entries@.len(),
                    i < self.entries@.len(),
                    pool_len == self.entries@[i as int].1@.len(),
                    b <= pool_len,
                    forall|x: int|
                        0 <= x < out@.len() ==> cat_has_path(m, #[trigger] out@[x]@)
                            && has_mp3_ext(out@[x]@),
                    forall|a: int, bb: int|
                        0 <= a < i && 0 <= bb < m[a].1.len() && has_mp3_ext(#[trigger] m[a].1[bb])
                            ==> exists|x: int| 0 <= x < out@.len() && out@[x]@ == m[a].1[bb],
                    forall|bb: int|
                        0 <= bb < b && has_mp3_ext(#[trigger] m[i as int].1[bb]) ==> exists|x: int|
                            0 <= x < out@.len() && out@[x]@ == m[i as int].1[bb],
                decreases pool_len - b,
            {
                let pstr = self.entries[i].1[b].clone();
                proof {
                    assert(m[i as int].1[b as int] == pstr@);
                }
                if is_mp3(pstr.as_str()) {
                    proof {
                        assert(cat_has_path(m, pstr@)) by {
                            assert(0 <= i < m.len() && 0 <= b < m[i as int].1.len()
                                && m[i as int].1[b as int] == pstr@);
                        }
                    }
                    let ghost pre_out = out@;
                    out.push(pstr);
                    proof {
                        assert forall|a: int, bb: int|
                            0 <= a < i && 0 <= bb < m[a].1.len() && has_mp3_ext(
                                #[trigger] m[a].1[bb],
                            ) implies exists|x: int|
                            0 <= x < out@.len() && out@[x]@ == m[a].1[bb] by {
                            let x0 = choose|x0: int|
                                0 <= x0 < pre_out.len() && pre_out[x0]@ == m[a].1[bb];
                            assert(out@[x0]@ == m[a].1[bb]);
                        }
                        assert forall|bb: int|
                            0 <= bb < b + 1 && has_mp3_ext(
                                #[trigger] m[i as int].1[bb],
                            ) implies exists|x: int|
                            0 <= x < out@.len() && out@[x]@ == m[i as int].1[bb] by {
                            if bb < b {
                                let x0 = choose|x0: int|
                                    0 <= x0 < pre_out.len() && pre_out[x0]@ == m[i as int].1[bb];
                                assert(out@[x0]@ == m[i as int].1[bb]);
                            } else {
                                assert(out@[out@.len() - 1]@ == m[i as int].1[bb]);
                            }
                        }
                    }
                } else {
                    proof {
                        assert(!has_mp3_ext(m[i as int].1[b as int]));
                    }
                }
                b += 1;
            }
            i += 1;
        }
        let ghost pre = out@;
        strutil::sort_strings(&mut out);
        proof {
            assert forall|x: int| 0 <= x < out@.len() implies cat_has_path(
                m,
                #[trigger] out@[x]@,
            ) && has_mp3_ext(out@[x]@) by {
                assert(out@.contains(out@[x]));
                assert(pre.to_multiset().count(out@[x]) > 0);
                assert(pre.contains(out@[x]));
                let y = choose|y: int| 0 <= y < pre.len() && pre[y] == out@[x];
                assert(cat_has_path(m, pre[y]@) && has_mp3_ext(pre[y]@));
            }
            assert forall|a: int, bb: int|
                0 <= a < m.len() && 0 <= bb < m[a].1.len() && has_mp3_ext(
                    #[trigger] m[a].1[bb],
                ) implies exists|x: int| 0 <= x < out@.len() && out@[x]@ == m[a].1[bb] by {
                let x0 = choose|x0: int| 0 <= x0 < pre.len() && pre[x0]@ == m[a].1[bb];
                assert(pre.contains(pre[x0]));
                assert(out@.to_multiset().count(pre[x0]) > 0);
                assert(out@.contains(pre[x0]));
                let y = choose|y: int| 0 <= y < out@.len() && out@[y] == pre[x0];
                assert(0 <= y < out@.len() && out@[y]@ == m[a].1[bb]);
            }
        }
        out
    }

    /// Index of the first entry keyed exactly `key`.
    fn find_pool_index(&self, key: &str) -> (r: Option<usize>)
        ensures
            match r {
                Some(i) => {
                    &&& (i as int) < self.entries@.len()
                    &&& self.entries@[i as int].0@ == key@
                    &&& cat_find(self@, key@) == Some(
                        dv_strings(self.entries@[i as int].1@),
                    )
                },
                None => cat_find(self@, key@) is None,
            },
    {
        let ghost m = self@;
        proof {
            assert(m.skip(0) =~= m);
        }
        let mut i: usize = 0;
        while i < self.entries.len()
            invariant
                i <= self.entries@.len(),
                m == self@,
                m.len() == self.entries@.len(),
                cat_find(m, key@) == cat_find(m.skip(i as int), key@),
            decreases self.entries@.len() - i,
        {
            proof {
                assert(m.skip(i as int)[0] == m[i as int]);
            }
            if strutil::str_eq(self.entries[i].0.as_str(), key) {
                return Some(i);
            }
            proof {
                assert(m.skip(i as int).skip(1) =~= m.skip(i as int + 1));
            }
            i += 1;
        }
        proof {
            assert(m.skip(m.len() as int).len() == 0);
        }
        None
    }
}

} // verus!

