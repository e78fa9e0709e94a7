//! Unsigned numbers written in a given base.

use vstd::prelude::*;

verus! {

/// The ASCII `+` sign that may precede the digits of an unsigned number.
pub const PLUS: u8 = 43;

/// The value of ASCII character `c` as a digit in base `radix`, if it is one:
/// `0`-`9`, then `a`-`z` or `A`-`Z` for the values from ten on.
pub open spec fn digit_value(c: u8, radix: nat) -> Option<nat> {
    let v: int = if 48 <= c <= 57 {
        c - 48
    } else if 97 <= c <= 122 {
        c - 97 + 10
    } else if 65 <= c <= 90 {
        c - 65 + 10
    } else {
        radix as int
    };
    if v < radix {
        Some(v as nat)
    } else {
        None
    }
}

/// Every character of `s` is a digit in base `radix`.
pub open spec fn all_digits(s: Seq<u8>, radix: nat) -> bool {
    forall|i: int| 0 <= i < s.len() ==> (#[trigger] digit_value(s[i], radix)) is Some
}

/// The number that the digits `s` spell in base `radix`, most significant first.
pub open spec fn digits_value(s: Seq<u8>, radix: nat) -> nat
    decreases s.len(),
{
    if s.len() == 0 {
        0
    } else {
        digits_value(s.drop_last(), radix) * radix + digit_value(s.last(), radix)->0
    }
}

/// The digits of an unsigned number: `s` without one leading `+`, if it has one.
pub open spec fn unsigned_digits(s: Seq<u8>) -> Seq<u8> {
    if s.len() > 0 && s[0] == PLUS {
        s.drop_first()
    } else {
        s
    }
}

/// An unsigned number in base `radix` that is at most `max`: an optional `+`
/// followed by at least one digit and nothing else.
pub open spec fn unsigned_of(s: Seq<u8>, radix: nat, max: nat) -> Option<nat> {
    let d = unsigned_digits(s);
    if d.len() > 0 && all_digits(d, radix) && digits_value(d, radix) <= max {
        Some(digits_value(d, radix))
    } else {
        None
    }
}

/// Appending digits never makes a number smaller.
pub proof fn lemma_digits_value_monotone(s: Seq<u8>, radix: nat, j: int)
    requires
        0 <= j <= s.len(),
        all_digits(s, radix),
    ensures
        digits_value(s.subrange(0, j), radix) <= digits_value(s, radix),
    decreases s.len() - j,
{
    if j < s.len() {
        lemma_digits_value_monotone(s, radix, j + 1);
        let p = s.subrange(0, j + 1);
        assert(p.drop_last() =~= s.subrange(0, j));
        assert(digit_value(s[j], radix) is Some);
        assert(digits_value(p.drop_last(), radix) <= digits_value(p.drop_last(), radix) * radix
            + digit_value(p.last(), radix)->0) by (nonlinear_arith)
            requires radix >= 1 || digits_value(p.drop_last(), radix) == 0
        {
        }
    } else {
        assert(s.subrange(0, j) =~= s);
    }
}

/// The value of ASCII character `c` as a digit in base `radix`.
fn digit_of(c: u8, radix: u32) -> (r: Option<u32>)
    requires
        2 <= radix <= 36,
    ensures
        r matches Some(v) ==> digit_value(c, radix as nat) == Some(v as nat) && v < radix,
        r is None ==> digit_value(c, radix as nat) is None,
{
    let v: u32 = if 48 <= c && c <= 57 {
        (c - 48) as u32
    } else if 97 <= c && c <= 122 {
        (c - 97 + 10) as u32
    } else if 65 <= c && c <= 90 {
        (c - 65 + 10) as u32
    } else {
        radix
    };
    if v < radix {
        Some(v)
    } else {
        None
    }
}

/// Reads an unsigned number in base `radix` that is at most `max`; `None` when
/// `s` is empty, holds a character that is not a digit (beside one leading `+`),
/// or spells a larger number.
pub fn parse_unsigned(s: &[u8], radix: u32, max: u32) -> (r: Option<u32>)
    requires
        2 <= radix <= 36,
    ensures
        r matches Some(v) ==> unsigned_of(s@, radix as nat, max as nat) == Some(v as nat),
        r is None ==> unsigned_of(s@, radix as nat, max as nat) is None,
{
    let start: usize = if s.len() > 0 && s[0] == PLUS {
        1
    } else {
        0
    };
    let ghost d = unsigned_digits(s@);
    assert(d =~= s@.subrange(start as int, s@.len() as int));
    if start >= s.len() {
        return None;
    }
    let mut acc: u64 = 0;
    let mut i: usize = start;
    while i < s.len()
        invariant
            start <= i <= s.len(),
            d == s@.subrange(start as int, s@.len() as int),
            d == unsigned_digits(s@),
            all_digits(d.subrange(0, i - start), radix as nat),
            acc as nat == digits_value(d.subrange(0, i - start), radix as nat),
            acc <= max,
            2 <= radix <= 36,
        decreases s.len() - i,
    {
        let c = s[i];
        let dv = digit_of(c, radix);
        let ghost p = d.subrange(0, i + 1 - start);
        assert(p.drop_last() =~= d.subrange(0, i - start));
        assert(p.last() == c);
        assert(d[i - start] == c);
        if dv.is_none() {
            assert(!all_digits(d, radix as nat)) by {
                assert(digit_value(d[i - start], radix as nat) is None);
            }
            return None;
        }
        let v = dv.unwrap();
        assert(all_digits(p, radix as nat)) by {
            assert forall|k: int| 0 <= k < p.len() implies (#[trigger] digit_value(
                p[k],
                radix as nat,
            )) is Some by {
                if k < p.len() - 1 {
                    assert(p[k] == d.subrange(0, i - start)[k]);
                }
            }
        }
        assert(acc * (radix as u64) + v as u64 <= u32::MAX as u64 * 36 + 36) by (nonlinear_arith)
            requires acc <= u32::MAX as u64, radix <= 36, v < radix;
        let next: u64 = acc * (radix as u64) + v as u64;
        assert(digits_value(p, radix as nat) == digits_value(p.drop_last(), radix as nat) * (radix as nat)
            + digit_value(p.last(), radix as nat)->0);
        assert(digits_value(p, radix as nat) == next as nat);
        if next > max as u64 {
            proof {
                if all_digits(d, radix as nat) {
                    lemma_digits_value_monotone(d, radix as nat, i + 1 - start);
                    assert(digits_value(d, radix as nat) > max);
                }
            }
            return None;
        }
        acc = next;
        i = i + 1;
    }
    assert(d.subrange(0, i - start) =~= d);
    Some(acc as u32)
}

} // verus!
