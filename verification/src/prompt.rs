//! Interpretation of an interactive yes/no answer.
//!
//! The surrounding program reads a line and asks this module what it
//! means: `y`/`yes` and `n`/`no` (after trimming surrounding whitespace
//! and lowering ASCII letters), an empty line picks the prompt's default,
//! and anything else asks the caller to prompt again.

use vstd::prelude::*;

verus! {

/// A character of the Unicode white-space set, the one trimming removes:
/// tab through carriage return, space, next line, no-break space, ogham
/// space mark, the en-quad-to-hair-space range, line and paragraph
/// separators, narrow no-break space, medium mathematical space, and the
/// ideographic space.
pub open spec fn is_space(c: char) -> bool {
    (9 <= c as int <= 13) || c as int == 32 || c as int == 0x85 || c as int == 0xA0
        || c as int == 0x1680 || (0x2000 <= c as int <= 0x200A) || c as int == 0x2028
        || c as int == 0x2029 || c as int == 0x202F || c as int == 0x205F || c as int == 0x3000
}

/// `s` with its leading whitespace removed.
pub open spec fn trim_leading(s: Seq<char>) -> Seq<char>
    decreases s.len(),
{
    if s.len() > 0 && is_space(s[0]) {
        trim_leading(s.skip(1))
    } else {
        s
    }
}

/// `s` with its trailing whitespace removed.
pub open spec fn trim_trailing(s: Seq<char>) -> Seq<char>
    decreases s.len(),
{
    if s.len() > 0 && is_space(s.last()) {
        trim_trailing(s.drop_last())
    } else {
        s
    }
}

/// `s` with whitespace removed from both ends.
pub open spec fn trimmed(s: Seq<char>) -> Seq<char> {
    trim_trailing(trim_leading(s))
}

/// An ASCII upper-case letter mapped to its lower-case form; any other
/// character kept as it is.
pub open spec fn lower_char(c: char) -> char {
    if 65 <= c as int <= 90 {
        ((c as u8) + 32) as char
    } else {
        c
    }
}

/// `s` with every ASCII upper-case letter lowered.
pub open spec fn lower_all(s: Seq<char>) -> Seq<char> {
    s.map_values(|c: char| lower_char(c))
}

/// What an answer line means: `y`/`yes` is an assent, `n`/`no` a refusal,
/// an empty line the prompt's default, and anything else is no answer at
/// all (the caller prompts again).
pub open spec fn spec_answer(line: Seq<char>, default: bool) -> Option<bool> {
    let t = lower_all(trimmed(line));
    if t == seq!['y'] || t == seq!['y', 'e', 's'] {
        Some(true)
    } else if t == seq!['n'] || t == seq!['n', 'o'] {
        Some(false)
    } else if t.len() == 0 {
        Some(default)
    } else {
        None
    }
}

/// Trimming the lead of a string whose first `m` characters are
/// whitespace, and whose `m`-th is not, keeps exactly the tail from `m`.
proof fn lemma_trim_leading_at(s: Seq<char>, m: int)
    requires
        0 <= m <= s.len(),
        forall|k: int| 0 <= k < m ==> is_space(#[trigger] s[k]),
        m == s.len() || !is_space(s[m]),
    ensures
        trim_leading(s) == s.subrange(m, s.len() as int),
    decreases m,
{
    if m == 0 {
        assert(s.subrange(0, s.len() as int) =~= s);
    } else {
        let t = s.skip(1);
        assert forall|k: int| 0 <= k < m - 1 implies is_space(#[trigger] t[k]) by {
            assert(t[k] == s[k + 1]);
        }
        assert(m - 1 == t.len() || !is_space(t[m - 1]));
        lemma_trim_leading_at(t, m - 1);
        assert(t.subrange(m - 1, t.len() as int) =~= s.subrange(m, s.len() as int));
    }
}

/// Trimming the tail of a string whose characters from `h` on are
/// whitespace, and whose `h - 1`-th is not, keeps exactly the head up to
/// `h`.
proof fn lemma_trim_trailing_at(s: Seq<char>, h: int)
    requires
        0 <= h <= s.len(),
        forall|k: int| h <= k < s.len() ==> is_space(#[trigger] s[k]),
        h == 0 || !is_space(s[h - 1]),
    ensures
        trim_trailing(s) == s.subrange(0, h),
    decreases s.len() - h,
{
    if h == s.len() {
        assert(s.subrange(0, h) =~= s);
    } else {
        let t = s.drop_last();
        assert forall|k: int| h <= k < t.len() implies is_space(#[trigger] t[k]) by {
            assert(t[k] == s[k]);
        }
        assert(h == 0 || !is_space(t[h - 1]));
        lemma_trim_trailing_at(t, h);
        assert(t.subrange(0, h) =~= s.subrange(0, h));
    }
}

/// Whether `c` is white space; see [`is_space`].
fn is_space_char(c: char) -> (b: bool)
    ensures
        b == is_space(c),
{
    let u = c as u32;
    (9 <= u && u <= 13) || u == 32 || u == 0x85 || u == 0xA0 || u == 0x1680 || (0x2000 <= u && u
        <= 0x200A) || u == 0x2028 || u == 0x2029 || u == 0x202F || u == 0x205F || u == 0x3000
}

/// Lowers one ASCII upper-case letter; see [`lower_char`].
fn to_lower_char(c: char) -> (r: char)
    ensures
        r == lower_char(c),
{
    let u = c as u32;
    if 65 <= u && u <= 90 {
        ((u + 32) as u8) as char
    } else {
        c
    }
}

/// The first index at or after the start that holds no whitespace.
fn first_non_space(chars: &Vec<char>) -> (r: usize)
    ensures
        r <= chars@.len(),
        forall|k: int| 0 <= k < r ==> is_space(#[trigger] chars@[k]),
        r == chars@.len() || !is_space(chars@[r as int]),
{
    let mut i: usize = 0;
    while i < chars.len()
        invariant
            i <= chars@.len(),
            forall|k: int| 0 <= k < i ==> is_space(#[trigger] chars@[k]),
        decreases chars@.len() - i,
    {
        if !is_space_char(chars[i]) {
            return i;
        }
        i = i + 1;
    }
    i
}

/// One past the last index at or after `lo` that holds no whitespace.
fn last_non_space(chars: &Vec<char>, lo: usize) -> (h: usize)
    requires
        lo <= chars@.len(),
    ensures
        lo <= h <= chars@.len(),
        forall|k: int| h <= k < chars@.len() ==> is_space(#[trigger] chars@[k]),
        h == lo || !is_space(chars@[h - 1]),
{
    let mut j: usize = chars.len();
    while j > lo
        invariant
            lo <= j <= chars@.len(),
            forall|k: int| j <= k < chars@.len() ==> is_space(#[trigger] chars@[k]),
        decreases j,
    {
        if !is_space_char(chars[j - 1]) {
            return j;
        }
        j = j - 1;
    }
    j
}

/// Interprets one answer line; see [`spec_answer`]. Trimming follows the
/// Unicode white-space set; case folding is ASCII, which covers every
/// answer the prompt accepts.
pub fn interpret_answer(line: &str, default: bool) -> (r: Option<bool>)
    ensures
        r == spec_answer(line@, default),
{
    let n = line.unicode_len();
    let mut chars: Vec<char> = Vec::new();
    proof {
        assert(chars@ =~= line@.subrange(0, 0));
    }
    let mut i: usize = 0;
    while i < n
        invariant
            i <= n,
            chars@ == line@.subrange(0, i as int),
        decreases n - i,
    {
        chars.push(line.get_char(i));
        i = i + 1;
        proof {
            assert(chars@ =~= line@.subrange(0, i as int));
        }
    }
    proof {
        assert(chars@ =~= line@);
    }

    let lo = first_non_space(&chars);
    let hi = last_non_space(&chars, lo);
    let ghost mid = line@.subrange(lo as int, hi as int);
    proof {
        lemma_trim_leading_at(line@, lo as int);
        let tail = line@.subrange(lo as int, n as int);
        assert forall|k: int| hi - lo <= k < tail.len() implies is_space(#[trigger] tail[k]) by {
            assert(tail[k] == line@[lo + k]);
        }
        assert(hi - lo == 0 || !is_space(tail[hi - lo - 1]));
        lemma_trim_trailing_at(tail, hi - lo);
        assert(tail.subrange(0, hi - lo) =~= mid);
        assert(trimmed(line@) == mid);
    }

    let mut low: Vec<char> = Vec::new();
    let mut i: usize = lo;
    while i < hi
        invariant
            lo <= i <= hi,
            low@.len() == i - lo,
            forall|j: int| 0 <= j < i - lo ==> low@[j] == lower_char(#[trigger] line@[lo + j]),
        decreases hi - i,
    {
        low.push(to_lower_char(chars[i]));
        i = i + 1;
    }
    proof {
        assert forall|j: int| 0 <= j < mid.len() implies low@[j] == lower_all(mid)[j] by {
            assert(mid[j] == line@[lo + j]);
            assert(low@[j] == lower_char(line@[lo + j]));
        }
        assert(low@ =~= lower_all(mid));
    }

    if low.len() == 1 {
        let c0 = low[0];
        if c0 == 'y' {
            proof {
                assert(low@ =~= seq!['y']);
            }
            Some(true)
        } else if c0 == 'n' {
            proof {
                assert(low@ =~= seq!['n']);
            }
            Some(false)
        } else {
            None
        }
    } else if low.len() == 3 {
        if low[0] == 'y' && low[1] == 'e' && low[2] == 's' {
            proof {
                assert(low@ =~= seq!['y', 'e', 's']);
            }
            Some(true)
        } else {
            None
        }
    } else if low.len() == 2 {
        if low[0] == 'n' && low[1] == 'o' {
            proof {
                assert(low@ =~= seq!['n', 'o']);
            }
            Some(false)
        } else {
            None
        }
    } else if low.len() == 0 {
        Some(default)
    } else {
        None
    }
}

} // verus!
