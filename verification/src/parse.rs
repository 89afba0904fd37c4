//! Parsing a typed decimal price into a fixed-point amount.
//!
//! The alert setup accepts digits and at most one dot; this parser
//! turns such text into fixed-point ten-thousandths, truncating past
//! four decimals and rejecting anything malformed, empty, or beyond
//! the engine's range.

use vstd::prelude::*;
use crate::price::MAX_AMOUNT;

verus! {

/// Whether a character is a decimal digit.
pub open spec fn is_digit(c: char) -> bool {
    '0' <= c && c <= '9'
}

/// The value of a digit character.
pub open spec fn digit_val(c: char) -> int {
    c as int - '0' as int
}

/// Whether a sequence is all digits.
pub open spec fn all_digits(s: Seq<char>) -> bool {
    forall|i: int| 0 <= i < s.len() ==> is_digit(#[trigger] s[i])
}

/// The number the digit sequence writes.
pub open spec fn digits_val(s: Seq<char>) -> int
    decreases s.len(),
{
    if s.len() == 0 {
        0
    } else {
        digits_val(s.drop_last()) * 10 + digit_val(s.last())
    }
}

/// Digit sequences write non-negative numbers.
pub proof fn lemma_digits_val_nonneg(s: Seq<char>)
    requires
        all_digits(s),
    ensures
        digits_val(s) >= 0,
    decreases s.len(),
{
    if s.len() > 0 {
        lemma_digits_val_nonneg(s.drop_last());
    }
}

/// Where the first dot sits, `-1` when there is none.
pub open spec fn dot_index(s: Seq<char>) -> int
    decreases s.len(),
{
    if s.len() == 0 {
        -1
    } else if s[0] == '.' {
        0
    } else {
        let r = dot_index(s.drop_first());
        if r == -1 {
            -1
        } else {
            r + 1
        }
    }
}

/// What a found or missing dot means for the characters.
pub proof fn lemma_dot_props(s: Seq<char>)
    ensures
        dot_index(s) == -1 ==> forall|i: int| 0 <= i < s.len() ==> #[trigger] s[i] != '.',
        dot_index(s) != -1 ==> {
            &&& 0 <= dot_index(s) < s.len()
            &&& s[dot_index(s)] == '.'
            &&& forall|i: int| 0 <= i < dot_index(s) ==> #[trigger] s[i] != '.'
        },
    decreases s.len(),
{
    if s.len() > 0 {
        lemma_dot_props(s.drop_first());
        if dot_index(s) == -1 {
            assert forall|i: int| 0 <= i < s.len() implies #[trigger] s[i] != '.' by {
                if i > 0 {
                    assert(s[i] == s.drop_first()[i - 1]);
                }
            }
        } else {
            let d = dot_index(s);
            if d > 0 {
                assert(s[d] == s.drop_first()[d - 1]);
                assert forall|i: int| 0 <= i < d implies #[trigger] s[i] != '.' by {
                    if i > 0 {
                        assert(s[i] == s.drop_first()[i - 1]);
                    }
                }
            }
        }
    }
}

/// A dot preceded only by other characters is the first.
pub proof fn lemma_dot_at(s: Seq<char>, i: int)
    requires
        0 <= i < s.len(),
        s[i] == '.',
        forall|j: int| 0 <= j < i ==> #[trigger] s[j] != '.',
    ensures
        dot_index(s) == i,
    decreases s.len(),
{
    if i > 0 {
        lemma_dot_at(s.drop_first(), i - 1);
    }
}

/// Without any dot, nothing is found.
pub proof fn lemma_dot_none(s: Seq<char>)
    requires
        forall|j: int| 0 <= j < s.len() ==> #[trigger] s[j] != '.',
    ensures
        dot_index(s) == -1,
    decreases s.len(),
{
    if s.len() > 0 {
        lemma_dot_none(s.drop_first());
    }
}

/// A run of at most four digits writes at most four nines.
pub proof fn lemma_digits_val_small(s: Seq<char>)
    requires
        all_digits(s),
        s.len() <= 4,
    ensures
        digits_val(s) <= (if s.len() == 0 {
            0int
        } else if s.len() == 1 {
            9int
        } else if s.len() == 2 {
            99int
        } else if s.len() == 3 {
            999int
        } else {
            9_999int
        }),
    decreases s.len(),
{
    if s.len() > 0 {
        lemma_digits_val_small(s.drop_last());
    }
}

/// The fixed-point value of the fraction digits: the first four count,
/// shorter runs are scaled up.
pub open spec fn frac4(f: Seq<char>) -> int {
    if f.len() >= 4 {
        digits_val(f.subrange(0, 4))
    } else if f.len() == 3 {
        digits_val(f) * 10
    } else if f.len() == 2 {
        digits_val(f) * 100
    } else if f.len() == 1 {
        digits_val(f) * 1_000
    } else {
        0
    }
}

/// What parsing a typed price returns: the fixed-point amount of
/// `<digits>` or `<digits>.<digits>` (one side may be empty, not
/// both), `None` for anything else or beyond the engine's range.
pub open spec fn spec_parse_price(s: Seq<char>) -> Option<i64> {
    let d = dot_index(s);
    if d == -1 {
        if s.len() >= 1 && all_digits(s) && digits_val(s) * 10_000 <= MAX_AMOUNT {
            Some((digits_val(s) * 10_000) as i64)
        } else {
            None
        }
    } else {
        let ip = s.subrange(0, d);
        let f = s.subrange(d + 1, s.len() as int);
        if ip.len() + f.len() >= 1 && all_digits(ip) && all_digits(f) && digits_val(ip) * 10_000
            + frac4(f) <= MAX_AMOUNT {
            Some((digits_val(ip) * 10_000 + frac4(f)) as i64)
        } else {
            None
        }
    }
}

/// Parse a typed decimal price into fixed point.
pub fn parse_price(s: &str) -> (r: Option<i64>)
    ensures
        r == spec_parse_price(s@),
        r matches Some(v) ==> 0 <= v <= MAX_AMOUNT,
{
    let n = s.unicode_len();
    // find the first dot and check every other character is a digit
    let mut dot: Option<usize> = None;
    let mut i: usize = 0;
    while i < n
        invariant
            n == s@.len(),
            i <= n,
            match dot {
                Option::Some(d) => {
                    &&& d < i
                    &&& s@[d as int] == '.'
                    &&& forall|j: int| 0 <= j < d ==> #[trigger] s@[j] != '.'
                    &&& forall|j: int| 0 <= j < d ==> is_digit(#[trigger] s@[j])
                    &&& forall|j: int| d < j < i ==> is_digit(#[trigger] s@[j]) && s@[j] != '.'
                },
                Option::None => forall|j: int|
                    0 <= j < i ==> is_digit(#[trigger] s@[j]) && s@[j] != '.',
            },
        decreases n - i,
    {
        let c = s.get_char(i);
        if c == '.' {
            if let Some(d0) = dot {
                // a second dot: the fraction holds a non-digit
                proof {
                    let d = d0 as int;
                    lemma_dot_at(s@, d);
                    let f = s@.subrange(d + 1, n as int);
                    assert(f[i - d - 1] == '.');
                    assert(!all_digits(f));
                }
                return None;
            }
            dot = Some(i);
        } else if !('0' <= c && c <= '9') {
            proof {
                match dot {
                    Some(d) => {
                        lemma_dot_at(s@, d as int);
                        let f = s@.subrange(d as int + 1, n as int);
                        assert(f[i - d - 1] == c);
                        assert(!all_digits(f));
                    },
                    None => {
                        lemma_dot_props(s@);
                        if dot_index(s@) == -1 {
                            assert(!all_digits(s@));
                        } else {
                            let d2 = dot_index(s@);
                            assert(d2 >= i);
                            let ip = s@.subrange(0, d2);
                            assert(ip[i as int] == c);
                            assert(!all_digits(ip));
                        }
                    },
                }
            }
            return None;
        }
        i += 1;
    }
    proof {
        match dot {
            Some(d) => lemma_dot_at(s@, d as int),
            None => lemma_dot_none(s@),
        }
        assert(s@.subrange(0, n as int) =~= s@);
    }
    match dot {
        None => {
            if n == 0 {
                return None;
            }
            match accumulate_digits(s, 0, n) {
                Some(v) => {
                    if v <= MAX_AMOUNT / 10_000 {
                        Some(v * 10_000)
                    } else {
                        None
                    }
                },
                None => None,
            }
        },
        Some(d) => {
            if n == 1 {
                // the string is just the dot
                proof {
                    assert(s@.subrange(0, d as int).len() + s@.subrange(d as int + 1, n as int).len() == 0);
                }
                return None;
            }
            let ip_val = match accumulate_digits(s, 0, d) {
                Some(v) => v,
                None => {
                    proof {
                        let f = s@.subrange(d as int + 1, n as int);
                        lemma_digits_val_nonneg(f);
                        if f.len() >= 4 {
                            lemma_digits_val_nonneg(f.subrange(0, 4));
                        }
                    }
                    return None;
                },
            };
            let mut f_end = n;
            if n - d - 1 >= 4 {
                f_end = d + 5;
            }
            let f_val = match accumulate_digits(s, d + 1, f_end) {
                Some(v) => v,
                None => {
                    proof {
                        let run = s@.subrange(d as int + 1, f_end as int);
                        lemma_digits_val_small(run);
                        assert(false);
                    }
                    return None;
                },
            };
            proof {
                lemma_digits_val_nonneg(s@.subrange(d as int + 1, f_end as int));
            }
            let scale: i64 = if n - d - 1 >= 4 {
                1
            } else if n - d - 1 == 3 {
                10
            } else if n - d - 1 == 2 {
                100
            } else if n - d - 1 == 1 {
                1_000
            } else {
                10_000
            };
            proof {
                let f = s@.subrange(d as int + 1, n as int);
                if n - d - 1 >= 4 {
                    assert(s@.subrange(d as int + 1, f_end as int) =~= f.subrange(0, 4));
                } else {
                    assert(s@.subrange(d as int + 1, f_end as int) =~= f);
                }
            }
            if ip_val > MAX_AMOUNT / 10_000 {
                return None;
            }
            let v = ip_val * 10_000 + f_val * scale;
            if v <= MAX_AMOUNT {
                Some(v)
            } else {
                None
            }
        },
    }
}

/// Read the number the digits between `from` and `to` write; `None`
/// once it grows past the engine's range.
fn accumulate_digits(s: &str, from: usize, to: usize) -> (r: Option<i64>)
    requires
        from <= to <= s@.len(),
        forall|j: int| from <= j < to ==> is_digit(#[trigger] s@[j]),
    ensures
        match r {
            Option::Some(v) => v == digits_val(s@.subrange(from as int, to as int)) && 0 <= v
                <= MAX_AMOUNT,
            Option::None => digits_val(s@.subrange(from as int, to as int)) > MAX_AMOUNT,
        },
{
    let mut acc: i64 = 0;
    let mut i: usize = from;
    while i < to
        invariant
            from <= i <= to <= s@.len(),
            forall|j: int| from <= j < to ==> is_digit(#[trigger] s@[j]),
            acc == digits_val(s@.subrange(from as int, i as int)),
            0 <= acc <= MAX_AMOUNT,
        decreases to - i,
    {
        proof {
            assert(s@.subrange(from as int, i + 1) =~= s@.subrange(from as int, i as int).push(
                s@[i as int],
            ));
            assert(s@.subrange(from as int, i + 1).drop_last() =~= s@.subrange(
                from as int,
                i as int,
            ));
        }
        let c = s.get_char(i);
        let dv = (c as u32 - '0' as u32) as i64;
        let next = acc * 10 + dv;
        if next > MAX_AMOUNT {
            proof {
                lemma_digits_grow(s@, from as int, i + 1, to as int);
            }
            return None;
        }
        acc = next;
        i += 1;
    }
    Some(acc)
}

/// A digit run's value never shrinks as it extends.
proof fn lemma_digits_grow(s: Seq<char>, from: int, mid: int, to: int)
    requires
        0 <= from <= mid <= to <= s.len(),
        forall|j: int| from <= j < to ==> is_digit(#[trigger] s[j]),
    ensures
        digits_val(s.subrange(from, to)) >= digits_val(s.subrange(from, mid)),
    decreases to - mid,
{
    if mid < to {
        lemma_digits_grow(s, from, mid + 1, to);
        assert(s.subrange(from, mid + 1) =~= s.subrange(from, mid).push(s[mid]));
        assert(s.subrange(from, mid + 1).drop_last() =~= s.subrange(from, mid));
        lemma_digits_val_nonneg(s.subrange(from, mid));
        assert(digits_val(s.subrange(from, mid + 1)) >= digits_val(s.subrange(from, mid)));
    }
}

} // verus!
