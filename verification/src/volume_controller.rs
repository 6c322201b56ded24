//! Volume control decisions: parsing the mixer utility's output for the
//! current volume, and clamping a requested change to the percent scale.
//! Running the mixer itself is the surrounding program's work.

use vstd::prelude::*;
use vstd::string::StrSliceExecFns;

verus! {

/// An ASCII decimal digit.
pub open spec fn is_digit(c: char) -> bool {
    48 <= (c as u32) <= 57
}

/// Length of the digit run starting at `i`.
pub open spec fn digit_run_len(s: Seq<char>, i: int) -> int
    decreases s.len() - i,
{
    if i < 0 || i >= s.len() {
        0
    } else if is_digit(s[i]) {
        1 + digit_run_len(s, i + 1)
    } else {
        0
    }
}

/// Whether the volume pattern starts at `i`: an opening bracket, at least
/// one digit, a percent sign and a closing bracket.
pub open spec fn match_at(s: Seq<char>, i: int) -> bool {
    let n = digit_run_len(s, i + 1);
    &&& 0 <= i < s.len()
    &&& s[i] == '['
    &&& n >= 1
    &&& i + n + 2 < s.len()
    &&& s[i + n + 1] == '%'
    &&& s[i + n + 2] == ']'
}

/// The first position at or after `i` where the pattern matches.
pub open spec fn first_match(s: Seq<char>, i: int) -> Option<int>
    decreases s.len() - i,
{
    if i < 0 || i >= s.len() {
        None
    } else if match_at(s, i) {
        Some(i)
    } else {
        first_match(s, i + 1)
    }
}

/// The decimal value of the `n` digits starting at `i`.
pub open spec fn digits_value(s: Seq<char>, i: int, n: int) -> int
    decreases n,
{
    if n <= 0 {
        0
    } else {
        digits_value(s, i, n - 1) * 10 + ((s[i + n - 1] as u32) - 48)
    }
}

/// What the mixer output parses to: the digits of the first `[<digits>%]`
/// group, when they fit an `i32`.
pub open spec fn spec_parse_volume(s: Seq<char>) -> Option<int> {
    match first_match(s, 0) {
        None => None,
        Some(i) => {
            let v = digits_value(s, i + 1, digit_run_len(s, i + 1));
            if v <= i32::MAX {
                Some(v)
            } else {
                None
            }
        },
    }
}

/// A digit value is never negative.
proof fn lemma_digits_value_nonneg(s: Seq<char>, i: int, n: int)
    requires
        forall|j: int| 0 <= j < n ==> is_digit(#[trigger] s[i + j]),
    ensures
        digits_value(s, i, n) >= 0,
    decreases n,
{
    if n > 0 {
        lemma_digits_value_nonneg(s, i, n - 1);
        assert(is_digit(s[i + n - 1]));
        assert(digits_value(s, i, n - 1) * 10 >= 0) by (nonlinear_arith)
            requires
                digits_value(s, i, n - 1) >= 0,
        ;
    }
}

/// Appending digits never shrinks the value.
proof fn lemma_digits_value_monotone(s: Seq<char>, i: int, k: int, n: int)
    requires
        0 <= k <= n,
        forall|j: int| 0 <= j < n ==> is_digit(#[trigger] s[i + j]),
    ensures
        digits_value(s, i, k) <= digits_value(s, i, n),
    decreases n - k,
{
    if k < n {
        lemma_digits_value_monotone(s, i, k, n - 1);
        lemma_digits_value_nonneg(s, i, n - 1);
        assert(is_digit(s[i + n - 1]));
        assert(digits_value(s, i, n - 1) * 10 >= digits_value(s, i, n - 1)) by (nonlinear_arith)
            requires
                digits_value(s, i, n - 1) >= 0,
        ;
    }
}

/// Length of the digit run of `s` starting at `i`.
fn digit_run_exec(s: &str, i: usize) -> (n: usize)
    requires
        i <= s@.len(),
    ensures
        n == digit_run_len(s@, i as int),
        i + n <= s@.len(),
        forall|j: int| 0 <= j < n ==> is_digit(#[trigger] s@[i + j]),
{
    let len = s.unicode_len();
    let mut j: usize = i;
    while j < len
        invariant
            i <= j <= len,
            len == s@.len(),
            digit_run_len(s@, i as int) == digit_run_len(s@, j as int) + (j - i),
            forall|x: int| 0 <= x < j - i ==> is_digit(#[trigger] s@[i + x]),
        decreases len - j,
    {
        let c = s.get_char(j);
        let d = (c as u32) >= 48 && (c as u32) <= 57;
        if !d {
            return j - i;
        }
        j += 1;
    }
    j - i
}

/// Parses the first `[<digits>%]` group of the mixer's output, as
/// `spec_parse_volume` describes; a value beyond `i32` is a miss.
pub fn parse_volume_output(s: &str) -> (r: Option<i32>)
    ensures
        match r {
            Some(v) => spec_parse_volume(s@) == Some(v as int),
            None => spec_parse_volume(s@) is None,
        },
{
    let len = s.unicode_len();
    let mut i: usize = 0;
    while i < len
        invariant
            i <= len,
            len == s@.len(),
            first_match(s@, 0) == first_match(s@, i as int),
        decreases len - i,
    {
        if s.get_char(i) == '[' {
            let n = digit_run_exec(s, i + 1);
            let base = i + 1 + n;
            if n >= 1 && len - base >= 2 && s.get_char(base) == '%' && s.get_char(base + 1)
                == ']' {
                assert(match_at(s@, i as int));
                // The pattern matches here: read the digits, watching for
                // values beyond the percent scale's type.
                let mut acc: i64 = 0;
                let mut k: usize = 0;
                let mut too_big = false;
                while k < n
                    invariant
                        k <= n,
                        len == s@.len(),
                        i + 1 + n <= len,
                        n == digit_run_len(s@, i + 1),
                        forall|j: int| 0 <= j < n ==> is_digit(#[trigger] s@[i + 1 + j]),
                        !too_big ==> acc == digits_value(s@, i + 1, k as int) && acc <= i32::MAX,
                        too_big ==> digits_value(s@, i + 1, k as int) > i32::MAX,
                        0 <= acc <= i32::MAX,
                    decreases n - k,
                {
                    let c = s.get_char(i + 1 + k);
                    let d = (c as u32) - 48;
                    proof {
                        assert(is_digit(s@[i + 1 + k as int]));
                    }
                    if too_big {
                        proof {
                            lemma_digits_value_monotone(s@, i + 1, k as int, k + 1);
                            lemma_digits_value_nonneg(s@, i + 1, k as int);
                            assert(digits_value(s@, i + 1, k + 1) >= digits_value(
                                s@,
                                i + 1,
                                k as int,
                            ));
                        }
                    } else {
                        let next = acc * 10 + (d as i64);
                        if next > 2147483647 {
                            too_big = true;
                        } else {
                            acc = next;
                        }
                    }
                    k += 1;
                }
                proof {
                    assert(first_match(s@, i as int) == Some(i as int));
                }
                if too_big {
                    return None;
                }
                return Some(acc as i32);
            }
        }
        proof {
            assert(!match_at(s@, i as int));
        }
        i += 1;
    }
    None
}

/// Clamping a volume to the percent scale.
pub open spec fn spec_clamp_volume(v: int) -> int {
    if v < 0 {
        0
    } else if v > 100 {
        100
    } else {
        v
    }
}

/// The system volume controller: decides the volume to set from the
/// current one and a requested change. The surrounding program reads and
/// writes the mixer.
pub struct VolumeController {}

impl VolumeController {
    pub fn new() -> (r: VolumeController)
        ensures
            true,
    {
        VolumeController {  }
    }

    /// The volume to set: the current one moved by `delta_percent`, held
    /// inside the percent scale.
    pub fn change_volume(&self, current_volume: i32, delta_percent: i32) -> (target: i32)
        ensures
            target as int == spec_clamp_volume(current_volume + delta_percent),
    {
        let sum: i64 = current_volume as i64 + delta_percent as i64;
        if sum < 0 {
            0
        } else if sum > 100 {
            100
        } else {
            sum as i32
        }
    }
}

} // verus!
