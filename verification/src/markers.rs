//! Loop markers read from the container's comment list.
//!
//! The comments are a list of `(key, value)` pairs; when one key occurs
//! more than once the last occurrence wins. The `LoopStart` and `LoopEnd`
//! values are unsigned decimal numbers (an optional leading `+` and one or
//! more digits, the grammar of Rust's unsigned integer parsing); an absent
//! marker defaults to zero, and a present but non-numeric one is an error.

use vstd::prelude::*;

verus! {

/// A decimal digit.
pub open spec fn is_digit(c: char) -> bool {
    48 <= c as int <= 57
}

/// A decimal digit's numeric value.
pub open spec fn digit_val(c: char) -> int {
    c as int - 48
}

/// Every character of `s` is a decimal digit.
pub open spec fn all_digits(s: Seq<char>) -> bool {
    forall|i: int| 0 <= i < s.len() ==> is_digit(#[trigger] s[i])
}

/// The characters of `s` that carry the number: unsigned decimal parsing
/// accepts one optional leading `+`.
pub open spec fn digits_of(s: Seq<char>) -> Seq<char> {
    if s.len() > 0 && s[0] == '+' {
        s.skip(1)
    } else {
        s
    }
}

/// The number written by a sequence of decimal digits, most significant
/// first.
pub open spec fn digits_val(s: Seq<char>) -> int
    decreases s.len(),
{
    if s.len() == 0 {
        0
    } else {
        10 * digits_val(s.drop_last()) + digit_val(s.last())
    }
}

/// `s` parses as a `usize`: after the optional `+` there is at least one
/// character, all of them digits, and the value fits the machine.
pub open spec fn parses_to_usize(s: Seq<char>) -> bool {
    digits_of(s).len() > 0 && all_digits(digits_of(s)) && digits_val(digits_of(s)) <= usize::MAX
}

/// The parsed value of `s`.
pub open spec fn parsed_usize(s: Seq<char>) -> int {
    digits_val(digits_of(s))
}

/// A digit string never writes a negative number.
pub proof fn lemma_digits_val_nonneg(s: Seq<char>)
    requires
        all_digits(s),
    ensures
        digits_val(s) >= 0,
    decreases s.len(),
{
    if s.len() > 0 {
        assert forall|i: int| 0 <= i < s.drop_last().len() implies is_digit(
            #[trigger] s.drop_last()[i],
        ) by {
            assert(s.drop_last()[i] == s[i]);
        }
        lemma_digits_val_nonneg(s.drop_last());
    }
}

/// Dropping trailing digits never grows the value: a prefix of a digit
/// string writes at most the full string's number.
pub proof fn lemma_digits_val_prefix_le(s: Seq<char>, m: int)
    requires
        all_digits(s),
        0 <= m <= s.len(),
    ensures
        digits_val(s.subrange(0, m)) <= digits_val(s),
    decreases s.len() - m,
{
    if m == s.len() {
        assert(s.subrange(0, m) =~= s);
    } else {
        lemma_digits_val_prefix_le(s, m + 1);
        let p = s.subrange(0, m);
        let p1 = s.subrange(0, m + 1);
        assert(p1.drop_last() =~= p);
        assert forall|i: int| 0 <= i < p.len() implies is_digit(#[trigger] p[i]) by {
            assert(p[i] == s[i]);
        }
        lemma_digits_val_nonneg(p);
        assert(is_digit(s[m]));
        assert(digits_val(p1) == 10 * digits_val(p) + digit_val(p1.last()));
    }
}

/// Parses an unsigned decimal number, exactly as strict as `usize`
/// parsing: `None` on an empty or non-numeric string and on overflow.
pub fn parse_usize(s: &str) -> (r: Option<usize>)
    ensures
        r == if parses_to_usize(s@) {
            Some(parsed_usize(s@) as usize)
        } else {
            None::<usize>
        },
{
    let n = s.unicode_len();
    let mut start_idx: usize = 0;
    if n > 0 {
        let c0 = s.get_char(0);
        if c0 == '+' {
            start_idx = 1;
        }
    }
    let ghost d = digits_of(s@);
    proof {
        if start_idx == 0 {
            assert(d =~= s@);
        }
        assert(d.len() == n - start_idx);
        assert forall|j: int| 0 <= j < d.len() implies d[j] == s@[start_idx + j] by {
        }
    }
    if start_idx >= n {
        // nothing after the optional sign
        return None;
    }
    let mut val: usize = 0;
    let mut i: usize = start_idx;
    while i < n
        invariant
            start_idx <= i <= n,
            all_digits(d.subrange(0, i - start_idx)),
            val == digits_val(d.subrange(0, i - start_idx)),
        decreases n - i,
    {
        let c = s.get_char(i);
        let u = c as u32;
        let ghost cur = i - start_idx;
        proof {
            assert(d[cur as int] == c);
        }
        if u < 48 || u > 57 {
            proof {
                assert(!is_digit(c));
                assert(!all_digits(d));
            }
            return None;
        }
        let dig = (u - 48) as usize;
        let ghost p1 = d.subrange(0, cur as int + 1);
        proof {
            assert(p1.drop_last() =~= d.subrange(0, cur as int));
            assert(digits_val(p1) == 10 * val + dig);
        }
        if val > (usize::MAX - dig) / 10 {
            proof {
                assert(10 * val + dig > usize::MAX);
                if all_digits(d) {
                    lemma_digits_val_prefix_le(d, cur as int + 1);
                    assert(digits_val(d) > usize::MAX);
                }
                assert(!parses_to_usize(s@));
            }
            return None;
        }
        val = val * 10 + dig;
        i = i + 1;
        proof {
            assert(d.subrange(0, i - start_idx) =~= p1);
        }
    }
    proof {
        assert(d.subrange(0, n - start_idx) =~= d);
        lemma_digits_val_nonneg(d);
        assert(parses_to_usize(s@));
    }
    Some(val)
}

/// Why the loop markers could not be read.
#[derive(Clone, Copy, Debug, PartialEq, Eq, Structural)]
pub enum MarkerError {
    /// A `LoopStart` comment is present but is not a number.
    LoopStartNotNumeric,
    /// A `LoopEnd` comment is present but is not a number.
    LoopEndNotNumeric,
}

/// The value of the last comment with the given key, if any: a repeated
/// key is overridden by its later occurrences.
pub open spec fn last_value_for(comments: Seq<(String, String)>, key: Seq<char>) -> Option<
    Seq<char>,
>
    decreases comments.len(),
{
    if comments.len() == 0 {
        None
    } else if comments.last().0@ == key {
        Some(comments.last().1@)
    } else {
        last_value_for(comments.drop_last(), key)
    }
}

/// A marker's value: zero when its key is absent, the parsed number when
/// present and numeric, and nothing (an error) otherwise.
pub open spec fn marker_value(comments: Seq<(String, String)>, key: Seq<char>) -> Option<int> {
    match last_value_for(comments, key) {
        None => Some(0),
        Some(v) => if parses_to_usize(v) {
            Some(parsed_usize(v))
        } else {
            None
        },
    }
}

/// What reading both markers yields: `LoopStart` is read first, so a bad
/// `LoopStart` wins over a bad `LoopEnd`.
pub open spec fn spec_loop_markers(comments: Seq<(String, String)>) -> Result<
    (usize, usize),
    MarkerError,
> {
    match marker_value(comments, "LoopStart"@) {
        None => Err(MarkerError::LoopStartNotNumeric),
        Some(s) => match marker_value(comments, "LoopEnd"@) {
            None => Err(MarkerError::LoopEndNotNumeric),
            Some(e) => Ok((s as usize, e as usize)),
        },
    }
}

/// Finds the value of the last comment with the given key.
fn last_comment_value(comments: &Vec<(String, String)>, key: &String) -> (r: Option<String>)
    ensures
        match r {
            Some(v) => last_value_for(comments@, key@) == Some(v@),
            None => last_value_for(comments@, key@) is None,
        },
{
    proof {
        assert(comments@.subrange(0, comments@.len() as int) =~= comments@);
    }
    let mut idx = comments.len();
    while idx > 0
        invariant
            idx <= comments@.len(),
            last_value_for(comments@, key@) == last_value_for(
                comments@.subrange(0, idx as int),
                key@,
            ),
        decreases idx,
    {
        let pair = &comments[idx - 1];
        if pair.0 == *key {
            proof {
                assert(comments@.subrange(0, idx as int).last() == comments@[idx - 1]);
            }
            return Some(pair.1.clone());
        }
        idx = idx - 1;
        proof {
            let sub = comments@.subrange(0, idx as int + 1);
            assert(sub.last() == comments@[idx as int]);
            assert(sub.drop_last() =~= comments@.subrange(0, idx as int));
        }
    }
    None
}

/// Reads both loop markers from the comment list. An absent marker
/// defaults to zero; a present but non-numeric marker is an error,
/// `LoopStart` being read (and so failing) first.
pub fn loop_markers(comments: &Vec<(String, String)>) -> (r: Result<(usize, usize), MarkerError>)
    ensures
        r == spec_loop_markers(comments@),
{
    let start_key: String = "LoopStart".to_owned();
    let end_key: String = "LoopEnd".to_owned();
    let loop_start: usize = match last_comment_value(comments, &start_key) {
        None => 0,
        Some(v) => match parse_usize(v.as_str()) {
            Some(x) => x,
            None => {
                return Err(MarkerError::LoopStartNotNumeric);
            },
        },
    };
    let loop_end: usize = match last_comment_value(comments, &end_key) {
        None => 0,
        Some(v) => match parse_usize(v.as_str()) {
            Some(x) => x,
            None => {
                return Err(MarkerError::LoopEndNotNumeric);
            },
        },
    };
    Ok((loop_start, loop_end))
}

} // verus!
