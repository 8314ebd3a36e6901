//! Identity derivation: the content-addressed capsule identity, and a
//! canonical decimal rendering of 128-bit identifiers.

use vstd::prelude::*;
use uuid::Uuid;

verus! {

/// The 128-bit name-based identity derived from a capsule key and content
/// hash. Re-ingesting the same `(key, hash)` pair always derives the same
/// identity, in every process and on every machine; that is what makes
/// capsule ingest idempotent at the storage layer.
pub uninterp spec fn stable_capsule_id(key: Seq<char>, hash: Seq<char>) -> u128;

/// Relies on `uuid::Uuid::new_v5`: a name-based UUID is a SHA-1 digest of
/// the namespace and name bytes (RFC 9562), so it is a deterministic
/// function of its arguments alone.
#[verifier::external_body]
pub(crate) fn derive_capsule_id(key: &str, hash: &str) -> (r: u128)
    ensures
        r == stable_capsule_id(key@, hash@),
{
    let name = format!("{}:{}", key, hash);
    Uuid::new_v5(&Uuid::NAMESPACE_URL, name.as_bytes()).as_u128()
}

/// The character for one decimal digit.
pub open spec fn decimal_digit_char(d: int) -> char {
    if d == 0 {
        '0'
    } else if d == 1 {
        '1'
    } else if d == 2 {
        '2'
    } else if d == 3 {
        '3'
    } else if d == 4 {
        '4'
    } else if d == 5 {
        '5'
    } else if d == 6 {
        '6'
    } else if d == 7 {
        '7'
    } else if d == 8 {
        '8'
    } else {
        '9'
    }
}

/// The decimal rendering of a non-negative integer: most significant digit
/// first, no leading zeroes (except for zero itself).
pub open spec fn spec_decimal(n: int) -> Seq<char>
    recommends
        0 <= n,
    decreases n,
{
    if n < 10 {
        seq![decimal_digit_char(n)]
    } else {
        spec_decimal(n / 10).push(decimal_digit_char(n % 10))
    }
}

/// Append the character of one decimal digit to a string.
fn append_digit(s: &mut String, d: u8)
    requires
        d < 10,
    ensures
        final(s)@ == old(s)@.push(decimal_digit_char(d as int)),
{
    match d {
        0 => {
            proof {
                reveal_strlit("0");
            }
            s.append("0");
        },
        1 => {
            proof {
                reveal_strlit("1");
            }
            s.append("1");
        },
        2 => {
            proof {
                reveal_strlit("2");
            }
            s.append("2");
        },
        3 => {
            proof {
                reveal_strlit("3");
            }
            s.append("3");
        },
        4 => {
            proof {
                reveal_strlit("4");
            }
            s.append("4");
        },
        5 => {
            proof {
                reveal_strlit("5");
            }
            s.append("5");
        },
        6 => {
            proof {
                reveal_strlit("6");
            }
            s.append("6");
        },
        7 => {
            proof {
                reveal_strlit("7");
            }
            s.append("7");
        },
        8 => {
            proof {
                reveal_strlit("8");
            }
            s.append("8");
        },
        _ => {
            proof {
                reveal_strlit("9");
            }
            s.append("9");
        },
    }
    proof {
        assert(s@ =~= old(s)@.push(decimal_digit_char(d as int)));
    }
}

/// The digit characters of a low-first digit sequence, reversed into
/// most-significant-first reading order.
pub open spec fn digits_reversed(ds: Seq<u8>) -> Seq<char> {
    ds.map_values(|d: u8| decimal_digit_char(d as int)).reverse()
}

/// Render a 128-bit identifier in decimal, most significant digit first.
pub fn u128_to_decimal(n: u128) -> (r: String)
    ensures
        r@ == spec_decimal(n as int),
{
    let mut digits: Vec<u8> = Vec::new();
    let mut m: u128 = n;
    loop
        invariant_except_break
            digits@.len() > 0 ==> m != 0 && spec_decimal(n as int) =~= spec_decimal(m as int)
                + digits_reversed(digits@),
        invariant
            forall|k: int| 0 <= k < digits@.len() ==> #[trigger] digits@[k] < 10,
            digits@.len() == 0 ==> m == n,
        ensures
            forall|k: int| 0 <= k < digits@.len() ==> #[trigger] digits@[k] < 10,
            spec_decimal(n as int) =~= digits_reversed(digits@),
            digits@.len() > 0,
        decreases m, (if digits@.len() == 0 { 1int } else { 0int }),
    {
        let ghost old_m = m;
        let ghost old_digits = digits@;
        let d: u8 = (m % 10) as u8;
        digits.push(d);
        m = m / 10;
        proof {
            assert(digits@.map_values(|x: u8| decimal_digit_char(x as int)) =~= old_digits
                .map_values(|x: u8| decimal_digit_char(x as int)).push(
                decimal_digit_char(d as int),
            ));
            assert(digits_reversed(digits@) =~= seq![decimal_digit_char(d as int)]
                + digits_reversed(old_digits));
            if old_digits.len() == 0 {
                if m == 0 {
                    assert(spec_decimal(n as int) =~= digits_reversed(digits@));
                } else {
                    assert(spec_decimal(n as int) =~= spec_decimal(m as int) + digits_reversed(
                        digits@,
                    ));
                }
            } else {
                if old_m < 10 {
                    assert(spec_decimal(old_m as int) =~= seq![decimal_digit_char(d as int)]);
                } else {
                    assert(spec_decimal(old_m as int) =~= spec_decimal(m as int).push(
                        decimal_digit_char(d as int),
                    ));
                }
                if m == 0 {
                    assert(spec_decimal(n as int) =~= digits_reversed(digits@));
                } else {
                    assert(spec_decimal(n as int) =~= spec_decimal(m as int) + digits_reversed(
                        digits@,
                    ));
                }
            }
        }
        if m == 0 {
            break;
        }
    }
    let mut s = String::new();
    let count = digits.len();
    let mut j: usize = 0;
    while j < count
        invariant
            forall|k: int| 0 <= k < digits@.len() ==> #[trigger] digits@[k] < 10,
            count == digits@.len(),
            j <= count,
            s@ =~= digits_reversed(digits@).take(j as int),
        decreases count - j,
    {
        let idx = count - 1 - j;
        let d = digits[idx];
        append_digit(&mut s, d);
        j = j + 1;
        proof {
            assert(digits_reversed(digits@)[j - 1] == decimal_digit_char(d as int));
            assert(s@ =~= digits_reversed(digits@).take(j as int));
        }
    }
    proof {
        assert(digits_reversed(digits@).take(count as int) =~= digits_reversed(digits@));
    }
    s
}

} // verus!
