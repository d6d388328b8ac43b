//! Character classes and line-scanning primitives used by the field
//! parser: the digit and whitespace predicates, the label keyword,
//! colon-splitting into non-empty tokens, and whitespace trimming.
//!
//! Every specification here is stated over `Seq<char>`, the view of the
//! line's text; the executable functions return exactly what the
//! specification says.

use vstd::prelude::*;
use vstd::string::*;

use crate::geometry::Rectangle;

verus! {

/// One line of text recognized in an image, with the bounding boxes of
/// its words in left-to-right order.
#[derive(Debug)]
pub struct RecognizedLine {
    pub text: String,
    pub words: Vec<Rectangle>,
}

/// Number of characters in the label keyword.
pub const KEYWORD_LEN: usize = 8;

/// Number of characters in a valid tracking number.
pub const TRACK_LEN: usize = 14;

/// A decimal digit.
pub open spec fn is_digit(c: char) -> bool {
    48 <= c as u32 <= 57
}

/// The characters with the Unicode `White_Space` property, the set that
/// trimming removes from either end of a token.
pub open spec fn is_space(c: char) -> bool {
    ||| 0x09 <= c as u32 <= 0x0D
    ||| c as u32 == 0x20
    ||| c as u32 == 0x85
    ||| c as u32 == 0xA0
    ||| c as u32 == 0x1680
    ||| 0x2000 <= c as u32 <= 0x200A
    ||| c as u32 == 0x2028
    ||| c as u32 == 0x2029
    ||| c as u32 == 0x202F
    ||| c as u32 == 0x205F
    ||| c as u32 == 0x3000
}

/// A string is numeric iff it is non-empty and every character is a
/// decimal digit.
pub open spec fn numeric(s: Seq<char>) -> bool {
    s.len() > 0 && forall|k: int| 0 <= k < s.len() ==> is_digit(#[trigger] s[k])
}

/// The label keyword that marks the tracking-number field.
pub open spec fn keyword() -> Seq<char> {
    seq!['S', 'e', 'n', 'd', 'u', 'n', 'g', 's']
}

/// The keyword occurs in `s` starting at position `k`.
pub open spec fn keyword_at(s: Seq<char>, k: int) -> bool {
    0 <= k && k + KEYWORD_LEN <= s.len() && s.subrange(k, k + KEYWORD_LEN as int) == keyword()
}

/// The keyword occurs somewhere in `s`.
pub open spec fn contains_keyword(s: Seq<char>) -> bool {
    exists|k: int| keyword_at(s, k)
}

/// The index ranges `[start, end)` of the non-empty tokens that
/// splitting `s` on `':'` yields, scanning from position `i` with the
/// current token having begun at `start`.
pub open spec fn token_ranges_from(s: Seq<char>, i: int, start: int) -> Seq<(int, int)>
    recommends
        0 <= start <= i <= s.len(),
    decreases s.len() - i,
{
    if i < 0 || i >= s.len() {
        if 0 <= start < i {
            seq![(start, i)]
        } else {
            Seq::empty()
        }
    } else if s[i] == ':' {
        if start < i {
            seq![(start, i)] + token_ranges_from(s, i + 1, i + 1)
        } else {
            token_ranges_from(s, i + 1, i + 1)
        }
    } else {
        token_ranges_from(s, i + 1, start)
    }
}

/// The index ranges of the non-empty tokens of `s`, split on `':'`.
pub open spec fn token_ranges(s: Seq<char>) -> Seq<(int, int)> {
    token_ranges_from(s, 0, 0)
}

/// First position at or after `a` (but before `b`) holding a
/// non-whitespace character; `b` if there is none.
pub open spec fn skip_space_front(s: Seq<char>, a: int, b: int) -> int
    recommends
        0 <= a <= b <= s.len(),
    decreases b - a,
{
    if 0 <= a < b && b <= s.len() && is_space(s[a]) {
        skip_space_front(s, a + 1, b)
    } else {
        a
    }
}

/// Position after the last non-whitespace character before `b` (at or
/// after `a`); `a` if there is none.
pub open spec fn skip_space_back(s: Seq<char>, a: int, b: int) -> int
    recommends
        0 <= a <= b <= s.len(),
    decreases b - a,
{
    if 0 <= a < b && b <= s.len() && is_space(s[b - 1]) {
        skip_space_back(s, a, b - 1)
    } else {
        b
    }
}

/// The characters of `s[a..b)` with leading and trailing whitespace
/// removed.
pub open spec fn trimmed(s: Seq<char>, a: int, b: int) -> Seq<char>
    recommends
        0 <= a <= b <= s.len(),
{
    let a2 = skip_space_front(s, a, b);
    let b2 = skip_space_back(s, a2, b);
    s.subrange(a2, b2)
}

/// Whether `c` is a decimal digit.
pub fn digit_char(c: char) -> (b: bool)
    ensures
        b == is_digit(c),
{
    let u = c as u32;
    48 <= u && u <= 57
}

/// Whether `c` has the Unicode `White_Space` property.
pub fn space_char(c: char) -> (b: bool)
    ensures
        b == is_space(c),
{
    let u = c as u32;
    (0x09 <= u && u <= 0x0D) || u == 0x20 || u == 0x85 || u == 0xA0 || u == 0x1680 || (0x2000 <= u
        && u <= 0x200A) || u == 0x2028 || u == 0x2029 || u == 0x202F || u == 0x205F || u == 0x3000
}

/// Whether every character of `s[a..b)` is a decimal digit and the range
/// is non-empty.
pub fn digits_in_range(s: &str, a: usize, b: usize) -> (r: bool)
    requires
        a <= b <= s@.len(),
    ensures
        r == (a < b && forall|k: int| a <= k < b ==> is_digit(#[trigger] s@[k])),
{
    if a >= b {
        return false;
    }
    let mut k = a;
    while k < b
        invariant
            a <= k <= b <= s@.len(),
            forall|j: int| a <= j < k ==> is_digit(#[trigger] s@[j]),
        decreases b - k,
    {
        if !digit_char(s.get_char(k)) {
            return false;
        }
        k += 1;
    }
    true
}

/// The numeric test: non-empty and all decimal digits.
pub fn is_number(text: &str) -> (b: bool)
    ensures
        b == numeric(text@),
{
    let n = text.unicode_len();
    digits_in_range(text, 0, n)
}

/// Whether the keyword occurs in `s` at position `k`.
fn keyword_at_pos(s: &str, k: usize) -> (b: bool)
    requires
        k + KEYWORD_LEN <= s@.len() <= usize::MAX,
    ensures
        b == keyword_at(s@, k as int),
{
    let b = s.get_char(k) == 'S' && s.get_char(k + 1) == 'e' && s.get_char(k + 2) == 'n'
        && s.get_char(k + 3) == 'd' && s.get_char(k + 4) == 'u' && s.get_char(k + 5) == 'n'
        && s.get_char(k + 6) == 'g' && s.get_char(k + 7) == 's';
    proof {
        let ks = k as int;
        if b {
            assert(s@.subrange(ks, ks + KEYWORD_LEN as int) =~= keyword());
        } else {
            if keyword_at(s@, ks) {
                assert(forall|j: int|
                    0 <= j < KEYWORD_LEN ==> s@[ks + j] == #[trigger] keyword()[j]) by {
                    assert(forall|j: int|
                        0 <= j < KEYWORD_LEN ==> #[trigger] keyword()[j] == s@.subrange(
                            ks,
                            ks + KEYWORD_LEN as int,
                        )[j]);
                }
                assert(s@[ks] == 'S');
                assert(s@[ks + 1] == 'e');
                assert(s@[ks + 2] == 'n');
                assert(s@[ks + 3] == 'd');
                assert(s@[ks + 4] == 'u');
                assert(s@[ks + 5] == 'n');
                assert(s@[ks + 6] == 'g');
                assert(s@[ks + 7] == 's');
                assert(false);
            }
        }
    }
    b
}

/// Whether the keyword occurs anywhere in `s`.
pub fn has_keyword(s: &str) -> (b: bool)
    ensures
        b == contains_keyword(s@),
{
    let n = s.unicode_len();
    if n < KEYWORD_LEN {
        assert(!contains_keyword(s@)) by {
            if contains_keyword(s@) {
                let k = choose|k: int| keyword_at(s@, k);
                assert(false);
            }
        }
        return false;
    }
    let mut k: usize = 0;
    while k <= n - KEYWORD_LEN
        invariant
            n == s@.len(),
            KEYWORD_LEN <= n,
            k <= n - KEYWORD_LEN + 1,
            forall|j: int| 0 <= j < k ==> !keyword_at(s@, j),
        decreases n - k,
    {
        if keyword_at_pos(s, k) {
            return true;
        }
        k += 1;
    }
    assert(!contains_keyword(s@)) by {
        if contains_keyword(s@) {
            let j = choose|j: int| keyword_at(s@, j);
            assert(0 <= j < k);
            assert(false);
        }
    }
    false
}

/// Trims whitespace from both ends of the range `[a, b)` of `s`,
/// returning the trimmed range.
pub fn trim_range(s: &str, a: usize, b: usize) -> (r: (usize, usize))
    requires
        a <= b <= s@.len(),
    ensures
        a <= r.0 <= r.1 <= b,
        r.0 == skip_space_front(s@, a as int, b as int),
        r.1 == skip_space_back(s@, r.0 as int, b as int),
        trimmed(s@, a as int, b as int) == s@.subrange(r.0 as int, r.1 as int),
{
    let mut a2 = a;
    while a2 < b && space_char(s.get_char(a2))
        invariant
            a <= a2 <= b <= s@.len(),
            skip_space_front(s@, a as int, b as int) == skip_space_front(s@, a2 as int, b as int),
        decreases b - a2,
    {
        a2 += 1;
    }
    let mut b2 = b;
    while b2 > a2 && space_char(s.get_char(b2 - 1))
        invariant
            a2 <= b2 <= b <= s@.len(),
            skip_space_back(s@, a2 as int, b as int) == skip_space_back(s@, a2 as int, b2 as int),
        decreases b2,
    {
        b2 -= 1;
    }
    (a2, b2)
}

/// Splits `s` on `':'` into non-empty tokens; when there are exactly
/// two, returns the index range of the second.
pub fn token_pair(s: &str) -> (r: Option<(usize, usize)>)
    ensures
        (token_ranges(s@).len() == 2) == (r is Some),
        r matches Some(p) ==> token_ranges(s@)[1] == (p.0 as int, p.1 as int) && p.0 < p.1 <= s@.len(),
{
    let n = s.unicode_len();
    let ghost mut prefix: Seq<(int, int)> = Seq::empty();
    let mut count: usize = 0;
    let mut second: (usize, usize) = (0, 0);
    let mut start: usize = 0;
    let mut i: usize = 0;
    while i < n
        invariant
            n == s@.len(),
            start <= i <= n,
            count <= 3,
            token_ranges(s@) == prefix + token_ranges_from(s@, i as int, start as int),
            count == vstd::math::min(prefix.len() as int, 3),
            count >= 2 ==> prefix[1] == (second.0 as int, second.1 as int) && second.0 < second.1
                <= n,
        decreases n - i,
    {
        if s.get_char(i) == ':' {
            if start < i {
                proof {
                    assert(prefix + (seq![(start as int, i as int)] + token_ranges_from(
                        s@,
                        i as int + 1,
                        i as int + 1,
                    )) =~= prefix.push((start as int, i as int)) + token_ranges_from(
                        s@,
                        i as int + 1,
                        i as int + 1,
                    ));
                    prefix = prefix.push((start as int, i as int));
                }
                if count == 1 {
                    second = (start, i);
                }
                if count < 3 {
                    count += 1;
                }
            }
            start = i + 1;
        }
        i += 1;
    }
    if start < n {
        proof {
            assert(token_ranges_from(s@, n as int, start as int) =~= seq![(start as int, n as int)]);
            assert(prefix + seq![(start as int, n as int)] =~= prefix.push(
                (start as int, n as int),
            ));
            prefix = prefix.push((start as int, n as int));
        }
        if count == 1 {
            second = (start, n);
        }
        if count < 3 {
            count += 1;
        }
    } else {
        proof {
            assert(token_ranges_from(s@, n as int, start as int) =~= Seq::empty());
            assert(prefix + Seq::<(int, int)>::empty() =~= prefix);
        }
    }
    if count == 2 {
        Some(second)
    } else {
        None
    }
}

} // verus!
