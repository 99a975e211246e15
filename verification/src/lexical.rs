//! The lexical pieces of number texts: digit runs, signs, the float lexeme,
//! the texts of `i64` and of binary64 literals.
use vstd::prelude::*;

verus! {

/// The byte at `i`, or -1 past either end.
pub open spec fn byte_at(s: Seq<u8>, i: int) -> int {
    if 0 <= i < s.len() {
        s[i] as int
    } else {
        -1
    }
}

pub open spec fn is_digit_at(s: Seq<u8>, i: int) -> bool {
    0x30 <= byte_at(s, i) <= 0x39
}

/// ASCII space, tab, line feed, carriage return (nom's `multispace`).
pub open spec fn is_space_at(s: Seq<u8>, i: int) -> bool {
    byte_at(s, i) == 0x20 || byte_at(s, i) == 0x09 || byte_at(s, i) == 0x0a || byte_at(s, i) == 0x0d
}

/// The end of the run of ASCII digits that starts at `i`.
pub open spec fn digits_end(s: Seq<u8>, i: int) -> int
    decreases s.len() - i,
{
    if 0 <= i < s.len() && is_digit_at(s, i) {
        digits_end(s, i + 1)
    } else {
        i
    }
}

/// The number the decimal digits `s[i..j]` denote.
pub open spec fn digits_value(s: Seq<u8>, i: int, j: int) -> nat
    decreases j - i,
{
    if j <= i {
        0
    } else {
        digits_value(s, i, j - 1) * 10 + ((s[j - 1] - 0x30) as nat)
    }
}

/// 1 where a `+` or `-` stands at `i`, else 0.
pub open spec fn sign_length(s: Seq<u8>, i: int) -> int {
    if byte_at(s, i) == 0x2b || byte_at(s, i) == 0x2d {
        1
    } else {
        0
    }
}

pub proof fn lemma_digits_end(s: Seq<u8>, i: int)
    requires
        0 <= i <= s.len(),
    ensures
        i <= digits_end(s, i) <= s.len(),
        forall|k: int| i <= k < digits_end(s, i) ==> is_digit_at(s, k),
        !is_digit_at(s, digits_end(s, i)),
    decreases s.len() - i,
{
    if i < s.len() && is_digit_at(s, i) {
        lemma_digits_end(s, i + 1);
    }
}

pub proof fn lemma_digits_value_grows(s: Seq<u8>, i: int, j: int, k: int)
    requires
        i <= j <= k,
        forall|m: int| i <= m < k ==> is_digit_at(s, m),
    ensures
        digits_value(s, i, j) <= digits_value(s, i, k),
    decreases k - j,
{
    if j < k {
        lemma_digits_value_grows(s, i, j, k - 1);
        assert(is_digit_at(s, k - 1));
    }
}

/// Scans the digit run at `i` and its value, when that value is at most `bound`.
pub fn digit_run(s: &[u8], i: usize, bound: u64) -> (r: (usize, Option<u64>))
    requires
        i <= s@.len(),
        bound <= 0x8000_0000_0000_0000,
    ensures
        r.0 == digits_end(s@, i as int),
        r.1 is Some <==> digits_value(s@, i as int, r.0 as int) <= bound,
        r.1 matches Some(v) ==> v == digits_value(s@, i as int, r.0 as int),
{
    proof {
        lemma_digits_end(s@, i as int);
    }
    let mut j = i;
    let mut value: u128 = 0;
    let mut fits = true;
    while j < s.len() && s[j] >= 0x30 && s[j] <= 0x39
        invariant
            i <= j <= s@.len(),
            digits_end(s@, j as int) == digits_end(s@, i as int),
            forall|k: int| i <= k < j ==> is_digit_at(s@, k),
            fits ==> value == digits_value(s@, i as int, j as int) && value <= bound,
            !fits ==> digits_value(s@, i as int, j as int) > bound,
            bound <= 0x8000_0000_0000_0000,
        decreases s@.len() - j,
    {
        let d = (s[j] - 0x30) as u128;
        if fits {
            let next = value * 10 + d;
            if next > bound as u128 {
                fits = false;
            } else {
                value = next;
            }
        } else {
            proof {
                lemma_digits_value_grows(s@, i as int, j as int, (j + 1) as int);
            }
        }
        j = j + 1;
    }
    if fits {
        (j, Some(value as u64))
    } else {
        (j, None)
    }
}

/// The value of the text of an `i64` (what `str::parse::<i64>` accepts): an
/// optional sign and at least one digit, and nothing else, in range.
pub open spec fn int_text_value(s: Seq<u8>) -> Option<int> {
    let i0 = sign_length(s, 0);
    if s.len() > i0 && digits_end(s, i0) == s.len() {
        let v = digits_value(s, i0, s.len() as int);
        let signed = if byte_at(s, 0) == 0x2d {
            -v
        } else {
            v as int
        };
        if i64::MIN <= signed <= i64::MAX {
            Some(signed)
        } else {
            None
        }
    } else {
        None
    }
}

/// A signed digit run at the start of `s`, as `nom`'s `i64` reads it: the
/// end of the run and the value, when there is at least one digit and the
/// value fits.
pub open spec fn leading_int(s: Seq<u8>) -> Option<(int, int)> {
    let i0 = sign_length(s, 0);
    let j = digits_end(s, i0);
    if j > i0 {
        let v = digits_value(s, i0, j);
        let signed = if byte_at(s, 0) == 0x2d {
            -v
        } else {
            v as int
        };
        if i64::MIN <= signed <= i64::MAX {
            Some((j, signed))
        } else {
            None
        }
    } else {
        None
    }
}

/// Reads a signed digit run at the start of `s` (`nom`'s `i64`).
pub fn read_leading_int(s: &[u8]) -> (r: Option<(usize, i64)>)
    ensures
        r is None <==> leading_int(s@) is None,
        r matches Some((j, v)) ==> leading_int(s@) == Some((j as int, v as int)),
{
    let i0: usize = if s.len() > 0 && (s[0] == 0x2b || s[0] == 0x2d) {
        1
    } else {
        0
    };
    let negative = s.len() > 0 && s[0] == 0x2d;
    assert(i0 == sign_length(s@, 0));
    assert(negative == (byte_at(s@, 0) == 0x2d));
    let bound: u64 = if negative {
        0x8000_0000_0000_0000
    } else {
        0x7FFF_FFFF_FFFF_FFFF
    };
    let (j, value) = digit_run(s, i0, bound);
    if j == i0 {
        return None;
    }
    proof {
        lemma_digits_end(s@, i0 as int);
    }
    let r = match value {
        None => None,
        Some(v) => {
            if negative {
                if v == 0x8000_0000_0000_0000 {
                    Some((j, i64::MIN))
                } else {
                    Some((j, -(v as i64)))
                }
            } else {
                Some((j, v as i64))
            }
        },
    };
    assert(r is None <==> leading_int(s@) is None);
    r
}

/// Reads the whole of `s` as the text of an `i64` (`str::parse::<i64>`).
pub fn parse_int_text(s: &[u8]) -> (r: Option<i64>)
    ensures
        match int_text_value(s@) {
            Some(v) => r == Some(v as i64),
            None => r is None,
        },
{
    proof {
        lemma_digits_end(s@, sign_length(s@, 0));
    }
    match read_leading_int(s) {
        Some((j, v)) => if j == s.len() {
            Some(v)
        } else {
            None
        },
        None => None,
    }
}

} // verus!
