use vstd::prelude::*;
use vstd::string::*;

verus! {

/// Whether `c` is an ASCII decimal digit.
pub open spec fn is_decimal_digit(c: char) -> bool {
    '0' <= c && c <= '9'
}

/// The numeric value of a decimal digit character.
pub open spec fn digit_value(c: char) -> int {
    (c as int) - ('0' as int)
}

/// The value of a string of decimal digits, most significant first.
pub open spec fn decimal_value(s: Seq<char>) -> int
    decreases s.len(),
{
    if s.len() == 0 {
        0
    } else {
        decimal_value(s.drop_last()) * 10 + digit_value(s.last())
    }
}

pub open spec fn all_decimal_digits(s: Seq<char>) -> bool {
    forall|i: int| 0 <= i < s.len() ==> #[trigger] is_decimal_digit(s[i])
}

/// The digits that `u8::from_str` reads: an optional leading `+` is dropped.
pub open spec fn unsigned_digits(s: Seq<char>) -> Seq<char> {
    if s.len() > 0 && s[0] == '+' {
        s.drop_first()
    } else {
        s
    }
}

/// What `str::parse::<u8>` gives back on `s`: `Some` of the value when `s` is an
/// optional `+` followed by at least one decimal digit and the value fits in a `u8`.
pub open spec fn parse_u8_spec(s: Seq<char>) -> Option<u8> {
    let d = unsigned_digits(s);
    if d.len() > 0 && all_decimal_digits(d) && decimal_value(d) <= 255 {
        Some(decimal_value(d) as u8)
    } else {
        None
    }
}

/// The value that `hex_to_u8` gives `s`, or `None` where it panics.
pub open spec fn hex_to_u8_spec(s: Seq<char>) -> Option<u8> {
    match parse_u8_spec(s) {
        Some(v) => Some(v),
        None => if s == seq!['A'] {
            Some(10u8)
        } else if s == seq!['B'] {
            Some(11u8)
        } else if s == seq!['C'] {
            Some(12u8)
        } else if s == seq!['D'] {
            Some(13u8)
        } else if s == seq!['E'] {
            Some(14u8)
        } else if s == seq!['F'] {
            Some(15u8)
        } else {
            None
        },
    }
}

/// A single character that `hex_to_u8` accepts: `0`..`9` or `A`..`F`.
pub open spec fn is_hex_digit(c: char) -> bool {
    is_decimal_digit(c) || ('A' <= c && c <= 'F')
}

/// The value of a hexadecimal digit character.
pub open spec fn hex_digit_value(c: char) -> int {
    if is_decimal_digit(c) {
        digit_value(c)
    } else {
        (c as int) - ('A' as int) + 10
    }
}

proof fn lemma_decimal_value_bound(s: Seq<char>)
    requires
        all_decimal_digits(s),
    ensures
        0 <= decimal_value(s),
    decreases s.len(),
{
    if s.len() > 0 {
        assert(is_decimal_digit(s[s.len() - 1]));
        lemma_decimal_value_bound(s.drop_last());
    }
}

/// Reads `s` as `str::parse::<u8>` does.
fn parse_u8(s: &str) -> (r: Option<u8>)
    ensures
        r == parse_u8_spec(s@),
{
    let n = s.unicode_len();
    let mut start: usize = 0;
    if n > 0 && s.get_char(0) == '+' {
        start = 1;
    }
    let ghost d = unsigned_digits(s@);
    assert(d =~= s@.subrange(start as int, n as int));
    if start >= n {
        return None;
    }
    let mut value: u16 = 0;
    let mut i: usize = start;
    while i < n
        invariant
            start <= i <= n,
            n == s@.len(),
            d =~= s@.subrange(start as int, n as int),
            d == unsigned_digits(s@),
            start < n,
            all_decimal_digits(s@.subrange(start as int, i as int)),
            value as int == decimal_value(s@.subrange(start as int, i as int)),
            value <= 255,
        decreases n - i,
    {
        let c = s.get_char(i);
        let ghost prev = s@.subrange(start as int, i as int);
        let ghost next = s@.subrange(start as int, i + 1);
        assert(next.drop_last() =~= prev);
        assert(next.last() == c);
        if !('0' <= c && c <= '9') {
            assert(!all_decimal_digits(d)) by {
                assert(d[i - start] == c);
                assert(!is_decimal_digit(d[i - start]));
            }
            return None;
        }
        let digit: u16 = (c as u32 - '0' as u32) as u16;
        let nv: u16 = value * 10 + digit;
        assert(all_decimal_digits(next)) by {
            assert forall|k: int| 0 <= k < next.len() implies #[trigger] is_decimal_digit(next[k]) by {
                if k < prev.len() {
                    assert(next[k] == prev[k]);
                }
            }
        }
        if nv > 255 {
            // every further digit only makes the value larger
            proof {
                assert(next =~= d.subrange(0, (i + 1 - start) as int));
                assert(decimal_value(next) == nv);
                lemma_prefix_value_grows(d, (i + 1 - start) as int);
            }
            return None;
        }
        value = nv;
        i = i + 1;
    }
    assert(s@.subrange(start as int, n as int) =~= d);
    Some(value as u8)
}

/// The value of a digit string is at least that of any of its prefixes.
proof fn lemma_prefix_value_grows(d: Seq<char>, k: int)
    requires
        0 <= k <= d.len(),
        all_decimal_digits(d.subrange(0, k)),
    ensures
        all_decimal_digits(d) ==> decimal_value(d) >= decimal_value(d.subrange(0, k)),
    decreases d.len() - k,
{
    if k < d.len() && all_decimal_digits(d) {
        let p = d.subrange(0, k);
        let q = d.subrange(0, k + 1);
        assert(q.drop_last() =~= p);
        assert(is_decimal_digit(d[k]));
        assert(all_decimal_digits(q)) by {
            assert forall|j: int| 0 <= j < q.len() implies #[trigger] is_decimal_digit(q[j]) by {
                assert(q[j] == d[j]);
            }
        }
        lemma_decimal_value_bound(p);
        lemma_prefix_value_grows(d, k + 1);
    } else if k == d.len() {
        assert(d.subrange(0, k) =~= d);
    }
}

/// Converts hexadecimal digit (0..F) to u8
pub fn hex_to_u8(hex: &str) -> (r: u8)
    requires
        hex_to_u8_spec(hex@) is Some,
    ensures
        Some(r) == hex_to_u8_spec(hex@),
{
    match parse_u8(hex) {
        Some(result) => result,
        None => {
            let n = hex.unicode_len();
            let c = hex.get_char(0);
            if c == 'A' {
                10
            } else if c == 'B' {
                11
            } else if c == 'C' {
                12
            } else if c == 'D' {
                13
            } else if c == 'E' {
                14
            } else {
                proof {
                    if n == 1 {
                        assert(hex@ =~= seq![c]);
                    }
                }
                15
            }
        },
    }
}


/// A one-character string holding a hexadecimal digit is read as that digit.
proof fn lemma_hex_digit_string(c: char)
    requires
        is_hex_digit(c),
    ensures
        hex_to_u8_spec(seq![c]) == Some(hex_digit_value(c) as u8),
{
    let s = seq![c];
    assert(unsigned_digits(s) =~= s);
    assert(s.drop_last() =~= Seq::<char>::empty());
    if is_decimal_digit(c) {
        assert(all_decimal_digits(s));
        assert(decimal_value(s.drop_last()) == 0);
        assert(s.last() == c);
        assert(decimal_value(s) == digit_value(c));
    } else {
        assert(!is_decimal_digit(s[0]));
        assert(!all_decimal_digits(s));
        let v = c as int;
        assert(65 <= v <= 70);
        if v == 65 {
            assert(s =~= seq!['A']);
        } else if v == 66 {
            assert(s =~= seq!['B']);
        } else if v == 67 {
            assert(s =~= seq!['C']);
        } else if v == 68 {
            assert(s =~= seq!['D']);
        } else if v == 69 {
            assert(s =~= seq!['E']);
        } else {
            assert(s =~= seq!['F']);
        }
    }
}

/// Converts hexadecimal digit pair (00..FF) to u8
/// Used for hexadecimal to RGBA conversion
pub fn hex_pair_to_u8(hex_pair: &str) -> (r: u8)
    requires
        hex_pair@.len() >= 2,
        is_hex_digit(hex_pair@[0]),
        is_hex_digit(hex_pair@[1]),
    ensures
        r == hex_digit_value(hex_pair@[0]) * 16 + hex_digit_value(hex_pair@[1]),
{
    let high = hex_pair.substring_char(0, 1);
    let low = hex_pair.substring_char(1, 2);
    proof {
        assert(high@ =~= seq![hex_pair@[0]]);
        assert(low@ =~= seq![hex_pair@[1]]);
        lemma_hex_digit_string(hex_pair@[0]);
        lemma_hex_digit_string(hex_pair@[1]);
    }
    hex_to_u8(high) * 16 + hex_to_u8(low)
}

}
