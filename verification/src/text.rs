//! Trimming of message text: removal of leading and trailing
//! white space, the test that decides whether a note is blank.

use vstd::prelude::*;

verus! {

/// A white-space character, by its scalar value: the horizontal and
/// vertical spacing characters that trimming removes.
pub open spec fn is_space(c: char) -> bool {
    ||| (9 <= c as u32 && c as u32 <= 13)
    ||| c as u32 == 32
    ||| c as u32 == 0x85
    ||| c as u32 == 0xA0
    ||| c as u32 == 0x1680
    ||| (0x2000 <= c as u32 && c as u32 <= 0x200A)
    ||| c as u32 == 0x2028
    ||| c as u32 == 0x2029
    ||| c as u32 == 0x202F
    ||| c as u32 == 0x205F
    ||| c as u32 == 0x3000
}

/// The first index at or after `i` holding a character that trimming
/// keeps, or the length of `s` when only white space follows.
pub open spec fn kept_from(s: Seq<char>, i: int) -> int
    decreases s.len() - i,
{
    if i < 0 || i >= s.len() {
        s.len() as int
    } else if is_space(s[i]) {
        kept_from(s, i + 1)
    } else {
        i
    }
}

/// One past the last index below `i` holding a character that trimming
/// keeps, or 0 when only white space precedes `i`.
pub open spec fn kept_to(s: Seq<char>, i: int) -> int
    decreases i,
{
    if i <= 0 {
        0
    } else if is_space(s[i - 1]) {
        kept_to(s, i - 1)
    } else {
        i
    }
}

/// `s` with leading and trailing white space removed; empty when `s`
/// holds white space alone.
pub open spec fn trim_of(s: Seq<char>) -> Seq<char> {
    if kept_from(s, 0) == s.len() {
        Seq::empty()
    } else {
        s.subrange(kept_from(s, 0), kept_to(s, s.len() as int))
    }
}

/// When a kept character stands at index `a`, the backward scan from
/// any point past `a` stops past `a` as well.
proof fn lemma_kept_to_past(s: Seq<char>, a: int, i: int)
    requires
        0 <= a < s.len(),
        !is_space(s[a]),
        a + 1 <= i <= s.len(),
    ensures
        a + 1 <= kept_to(s, i) <= i,
    decreases i,
{
    if i > a + 1 && is_space(s[i - 1]) {
        lemma_kept_to_past(s, a, i - 1);
    }
}

fn space_char(c: char) -> (b: bool)
    ensures
        b == is_space(c),
{
    let u = c as u32;
    (9 <= u && u <= 13) || u == 32 || u == 0x85 || u == 0xA0 || u == 0x1680 || (0x2000 <= u && u
        <= 0x200A) || u == 0x2028 || u == 0x2029 || u == 0x202F || u == 0x205F || u == 0x3000
}

/// Removes leading and trailing white space from `s`.
pub fn trimmed(s: &str) -> (r: String)
    ensures
        r@ == trim_of(s@),
{
    let n = s.unicode_len();
    let mut a: usize = 0;
    while a < n && space_char(s.get_char(a))
        invariant
            a <= n,
            n == s@.len(),
            kept_from(s@, 0) == kept_from(s@, a as int),
        decreases n - a,
    {
        a = a + 1;
    }
    assert(kept_from(s@, 0) == a as int);
    if a == n {
        return String::new();
    }
    let mut b: usize = n;
    while space_char(s.get_char(b - 1))
        invariant
            a < b <= n,
            n == s@.len(),
            !is_space(s@[a as int]),
            kept_to(s@, n as int) == kept_to(s@, b as int),
        decreases b,
    {
        proof {
            lemma_kept_to_past(s@, a as int, b - 1);
        }
        b = b - 1;
    }
    assert(kept_to(s@, n as int) == b as int);
    String::from_str(s.substring_char(a, b))
}

} // verus!
