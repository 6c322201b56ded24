//! Character-level string utilities: lexicographic ordering by code point,
//! a verified sort for string vectors, equality tests, and the two
//! character-class operations the catalogue key derivation needs.

use vstd::prelude::*;
use vstd::string::StrSliceExecFns;

verus! {

/// Lexicographic order on character sequences, comparing code points.
/// For UTF-8 encoded strings this coincides with the byte order that
/// `str`'s `Ord` uses, so sorting by it matches the usual string sort.
pub open spec fn lex_le(a: Seq<char>, b: Seq<char>) -> bool
    decreases a.len(),
{
    if a.len() == 0 {
        true
    } else if b.len() == 0 {
        false
    } else if a[0] == b[0] {
        lex_le(a.skip(1), b.skip(1))
    } else {
        (a[0] as u32) < (b[0] as u32)
    }
}

/// `lex_le` relates every pair of sequences one way or the other.
pub proof fn lemma_lex_le_total(a: Seq<char>, b: Seq<char>)
    ensures
        lex_le(a, b) || lex_le(b, a),
    decreases a.len(),
{
    if a.len() == 0 || b.len() == 0 {
    } else if a[0] == b[0] {
        lemma_lex_le_total(a.skip(1), b.skip(1));
    } else {
        vstd::utf8::char_u32_cast(a[0], a[0] as u32);
        vstd::utf8::char_u32_cast(b[0], b[0] as u32);
        assert((a[0] as u32) != (b[0] as u32));
    }
}

/// `lex_le` is transitive.
pub proof fn lemma_lex_le_trans(a: Seq<char>, b: Seq<char>, c: Seq<char>)
    requires
        lex_le(a, b),
        lex_le(b, c),
    ensures
        lex_le(a, c),
    decreases a.len(),
{
    if a.len() == 0 {
    } else if b.len() == 0 {
        assert(false);
    } else if c.len() == 0 {
        assert(false);
    } else {
        if a[0] == b[0] && b[0] == c[0] {
            lemma_lex_le_trans(a.skip(1), b.skip(1), c.skip(1));
        }
    }
}

/// Compares two strings by code-point order, the order `lex_le` describes.
pub fn str_le(a: &str, b: &str) -> (r: bool)
    ensures
        r == lex_le(a@, b@),
    decreases a@.len(),
{
    let la = a.unicode_len();
    let lb = b.unicode_len();
    if la == 0 {
        true
    } else if lb == 0 {
        false
    } else {
        let ca = a.get_char(0);
        let cb = b.get_char(0);
        if ca == cb {
            let ra = a.substring_char(1, la);
            let rb = b.substring_char(1, lb);
            proof {
                assert(ra@ =~= a@.skip(1));
                assert(rb@ =~= b@.skip(1));
            }
            str_le(ra, rb)
        } else {
            (ca as u32) < (cb as u32)
        }
    }
}

/// Tests two strings for equality of their character sequences.
pub fn str_eq(a: &str, b: &str) -> (r: bool)
    ensures
        r == (a@ == b@),
{
    let la = a.unicode_len();
    let lb = b.unicode_len();
    if la != lb {
        return false;
    }
    let mut i: usize = 0;
    while i < la
        invariant
            la == a@.len(),
            la == b@.len(),
            i <= la,
            forall|j: int| 0 <= j < i ==> a@[j] == b@[j],
        decreases la - i,
    {
        if a.get_char(i) != b.get_char(i) {
            assert(a@[i as int] != b@[i as int]);
            return false;
        }
        i += 1;
    }
    proof {
        assert(a@ =~= b@);
    }
    true
}

/// A sequence of strings in ascending `lex_le` order.
pub open spec fn strings_sorted(s: Seq<String>) -> bool {
    forall|i: int, j: int| 0 <= i <= j < s.len() ==> lex_le(#[trigger] s[i]@, #[trigger] s[j]@)
}

/// Index of the first slot of `out` whose string is strictly above `x`,
/// assuming `out` is sorted; inserting at that index keeps the order.
fn insert_pos(out: &Vec<String>, x: &String) -> (p: usize)
    requires
        strings_sorted(out@),
    ensures
        p <= out@.len(),
        forall|i: int| 0 <= i < p ==> lex_le(#[trigger] out@[i]@, x@),
        p < out@.len() ==> !lex_le(out@[p as int]@, x@),
{
    let mut p: usize = 0;
    while p < out.len()
        invariant
            p <= out@.len(),
            forall|i: int| 0 <= i < p ==> lex_le(#[trigger] out@[i]@, x@),
        decreases out@.len() - p,
    {
        if !str_le(out[p].as_str(), x.as_str()) {
            return p;
        }
        p += 1;
    }
    p
}

/// Sorts the vector in ascending `lex_le` order; the multiset of strings is
/// unchanged.
pub fn sort_strings(v: &mut Vec<String>)
    ensures
        strings_sorted(final(v)@),
        final(v)@.to_multiset() == old(v)@.to_multiset(),
{
    let ghost orig = v@;
    let mut out: Vec<String> = Vec::new();
    proof {
        assert(orig.subrange(0, 0) =~= out@);
    }
    let mut k: usize = 0;
    while k < v.len()
        invariant
            v@ == orig,
            k <= orig.len(),
            strings_sorted(out@),
            out@.to_multiset() == orig.subrange(0, k as int).to_multiset(),
        decreases orig.len() - k,
    {
        let x = v[k].clone();
        let p = insert_pos(&out, &x);
        let ghost pre = out@;
        out.insert(p, x);
        proof {
            assert forall|i: int, j: int|
                0 <= i <= j < out@.len() implies lex_le(
                #[trigger] out@[i]@,
                #[trigger] out@[j]@,
            ) by {
                if i == j {
                    lemma_lex_le_total(out@[i]@, out@[i]@);
                } else if j < p {
                    assert(out@[i] == pre[i] && out@[j] == pre[j]);
                } else if i < p && j == p {
                    assert(out@[i] == pre[i]);
                } else if i < p && j > p {
                    assert(out@[i] == pre[i] && out@[j] == pre[j - 1]);
                    if p < pre.len() {
                        lemma_lex_le_total(pre[p as int]@, x@);
                        lemma_lex_le_trans(out@[i]@, x@, pre[p as int]@);
                        if j - 1 > p {
                            lemma_lex_le_trans(out@[i]@, pre[p as int]@, pre[j - 1]@);
                        }
                    }
                } else if i == p && j > p {
                    assert(out@[j] == pre[j - 1]);
                    lemma_lex_le_total(pre[p as int]@, x@);
                    if j - 1 > p {
                        lemma_lex_le_trans(x@, pre[p as int]@, pre[j - 1]@);
                    }
                } else {
                    assert(out@[i] == pre[i - 1] && out@[j] == pre[j - 1]);
                }
            }
            assert(out@ == pre.insert(p as int, x));
            vstd::seq_lib::to_multiset_insert(pre, p as int, x);
            assert(out@.to_multiset() == pre.to_multiset().insert(x));
            assert(orig.subrange(0, k + 1) =~= orig.subrange(0, k as int).push(orig[k as int]));
            vstd::seq_lib::to_multiset_build(orig.subrange(0, k as int), orig[k as int]);
            assert(orig.subrange(0, k + 1).to_multiset() == orig.subrange(0, k as int).to_multiset().insert(orig[k as int]));
        }
        k += 1;
    }
    proof {
        assert(orig.subrange(0, orig.len() as int) =~= orig);
    }
    *v = out;
}

/// What `str::to_lowercase` returns: a function of the characters alone.
pub uninterp spec fn lower_of(s: Seq<char>) -> Seq<char>;

/// The ASCII lowercase of one character: `A`..`Z` map down, others stay.
pub open spec fn ascii_lower_char(c: char) -> char {
    if 65 <= (c as u32) && (c as u32) <= 90 {
        ((c as u32) + 32) as char
    } else {
        c
    }
}

/// `lower_of` restricted to ASCII input, character by character.
pub open spec fn seq_ascii_lower(s: Seq<char>) -> Seq<char> {
    s.map_values(|c: char| ascii_lower_char(c))
}

/// Relies on `str::to_lowercase` from std: the result depends on the
/// characters alone; on ASCII input it lowercases `A`..`Z` in place; and
/// its output holds no uppercase characters, so lowercasing it again
/// changes nothing.
#[verifier::external_body]
pub fn to_lowercase(s: &str) -> (r: String)
    ensures
        r@ == lower_of(s@),
        vstd::utf8::is_ascii_chars(s@) ==> r@ == seq_ascii_lower(s@),
        lower_of(r@) == r@,
{
    s.to_lowercase()
}

/// What `char::is_numeric` returns for one character.
pub uninterp spec fn numeric_char(c: char) -> bool;

/// Relies on `char::is_numeric` from std: true exactly for Unicode numeric
/// characters; in the ASCII range those are the digits `0`..`9`.
#[verifier::external_body]
pub fn is_numeric_char(c: char) -> (r: bool)
    ensures
        r == numeric_char(c),
        (c as u32) < 128 ==> r == (48 <= (c as u32) && (c as u32) <= 57),
{
    c.is_numeric()
}

} // verus!
