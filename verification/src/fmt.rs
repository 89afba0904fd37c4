//! Verified plain-text rendering of numbers and labels.
//!
//! The engine hands its consumers raw values; these helpers render the
//! few strings the engine itself owes (error messages, export fields,
//! sparklines) with exactly specified content.

use vstd::prelude::*;

verus! {

/// The decimal digit character for a value below ten.
pub open spec fn spec_digit_char(d: int) -> char {
    if d == 0 {
        '0'
    } else if d == 1 {
        '1'
    } else if d == 2 {
        '2'
    } else if d == 3 {
        '3'
    } else if d == 4 {
        '4'
    } else if d == 5 {
        '5'
    } else if d == 6 {
        '6'
    } else if d == 7 {
        '7'
    } else if d == 8 {
        '8'
    } else {
        '9'
    }
}

/// The decimal digits of a non-negative number, most significant
/// first, no leading zeros except for zero itself.
pub open spec fn spec_digits(n: int) -> Seq<char>
    decreases n,
{
    if n < 10 {
        seq![spec_digit_char(n)]
    } else {
        spec_digits(n / 10).push(spec_digit_char(n % 10))
    }
}

/// One digit as a string.
fn digit_str(d: u64) -> (r: &'static str)
    requires
        d < 10,
    ensures
        r@ =~= seq![spec_digit_char(d as int)],
{
    proof {
        reveal_strlit("0");
        reveal_strlit("1");
        reveal_strlit("2");
        reveal_strlit("3");
        reveal_strlit("4");
        reveal_strlit("5");
        reveal_strlit("6");
        reveal_strlit("7");
        reveal_strlit("8");
        reveal_strlit("9");
    }
    if d == 0 {
        "0"
    } else if d == 1 {
        "1"
    } else if d == 2 {
        "2"
    } else if d == 3 {
        "3"
    } else if d == 4 {
        "4"
    } else if d == 5 {
        "5"
    } else if d == 6 {
        "6"
    } else if d == 7 {
        "7"
    } else if d == 8 {
        "8"
    } else {
        "9"
    }
}

/// Render a number in decimal.
pub fn u64_to_string(n: u64) -> (r: String)
    ensures
        r@ == spec_digits(n as int),
    decreases n,
{
    if n < 10 {
        String::from_str(digit_str(n))
    } else {
        let prefix = u64_to_string(n / 10);
        let r = prefix.concat(digit_str(n % 10));
        proof {
            assert(r@ =~= spec_digits(n as int / 10).push(spec_digit_char(n as int % 10)));
        }
        r
    }
}

/// A volume with a thousands suffix: one decimal and `K`, `M` or `B`
/// past each power of a thousand, plain digits below one thousand.
pub open spec fn spec_format_volume(v: int) -> Seq<char> {
    if v == 0 {
        seq!['0']
    } else if v >= 1_000_000_000 {
        spec_digits(v / 1_000_000_000) + seq!['.', spec_digit_char((v % 1_000_000_000) / 100_000_000), 'B']
    } else if v >= 1_000_000 {
        spec_digits(v / 1_000_000) + seq!['.', spec_digit_char((v % 1_000_000) / 100_000), 'M']
    } else if v >= 1_000 {
        spec_digits(v / 1_000) + seq!['.', spec_digit_char((v % 1_000) / 100), 'K']
    } else {
        spec_digits(v)
    }
}

/// Render a trading volume with `K`/`M`/`B` suffixes.
pub fn format_volume(volume: u64) -> (r: String)
    ensures
        r@ == spec_format_volume(volume as int),
{
    proof {
        reveal_strlit(".");
        reveal_strlit("B");
        reveal_strlit("M");
        reveal_strlit("K");
        reveal_strlit("0");
    }
    if volume == 0 {
        let r = String::from_str("0");
        proof {
            assert(r@ =~= spec_format_volume(volume as int));
        }
        r
    } else if volume >= 1_000_000_000 {
        let whole = u64_to_string(volume / 1_000_000_000);
        let frac = digit_str((volume % 1_000_000_000) / 100_000_000);
        let r = whole.concat(".").concat(frac).concat("B");
        proof {
            assert(r@ =~= spec_format_volume(volume as int));
        }
        r
    } else if volume >= 1_000_000 {
        let whole = u64_to_string(volume / 1_000_000);
        let frac = digit_str((volume % 1_000_000) / 100_000);
        let r = whole.concat(".").concat(frac).concat("M");
        proof {
            assert(r@ =~= spec_format_volume(volume as int));
        }
        r
    } else if volume >= 1_000 {
        let whole = u64_to_string(volume / 1_000);
        let frac = digit_str((volume % 1_000) / 100);
        let r = whole.concat(".").concat(frac).concat("K");
        proof {
            assert(r@ =~= spec_format_volume(volume as int));
        }
        r
    } else {
        u64_to_string(volume)
    }
}

/// A fixed-point amount rendered with two decimals and a leading minus
/// for negative values.
pub open spec fn spec_fp_2dp(v: int) -> Seq<char> {
    let m = if v < 0 {
        -v
    } else {
        v
    };
    let sign: Seq<char> = if v < 0 {
        seq!['-']
    } else {
        Seq::empty()
    };
    sign + spec_digits(m / 10_000) + seq!['.', spec_digit_char((m % 10_000) / 1_000), spec_digit_char((m % 1_000) / 100)]
}

/// Render a fixed-point amount with two decimals.
pub fn fp_to_string_2dp(v: i64) -> (r: String)
    requires
        v > i64::MIN,
    ensures
        r@ == spec_fp_2dp(v as int),
{
    proof {
        reveal_strlit("-");
        reveal_strlit("");
        reveal_strlit(".");
    }
    let m: u64 = if v < 0 {
        (-v) as u64
    } else {
        v as u64
    };
    let sign = if v < 0 {
        "-"
    } else {
        ""
    };
    let whole = u64_to_string(m / 10_000);
    let d1 = digit_str((m % 10_000) / 1_000);
    let d2 = digit_str((m % 1_000) / 100);
    let r = String::from_str(sign).concat(whole.as_str()).concat(".").concat(d1).concat(d2);
    proof {
        assert(r@ =~= spec_fp_2dp(v as int));
    }
    r
}

/// A string cut to a most `max_len` characters, the cut marked with an
/// ellipsis.
pub open spec fn spec_truncate(s: Seq<char>, max_len: int) -> Seq<char> {
    if s.len() <= max_len {
        s
    } else if max_len == 0 {
        seq!['…']
    } else {
        s.subrange(0, max_len - 1) + seq!['…']
    }
}

/// Cut a string to at most `max_len` characters, marking the cut.
pub fn truncate_string(s: &str, max_len: usize) -> (r: String)
    ensures
        r@ == spec_truncate(s@, max_len as int),
{
    proof {
        reveal_strlit("…");
    }
    let n = s.unicode_len();
    if n <= max_len {
        String::from_str(s)
    } else if max_len == 0 {
        let r = String::from_str("…");
        proof {
            assert(r@ =~= spec_truncate(s@, max_len as int));
        }
        r
    } else {
        let prefix = s.substring_char(0, max_len - 1);
        let r = String::from_str(prefix).concat("…");
        proof {
            assert(r@ =~= spec_truncate(s@, max_len as int));
        }
        r
    }
}

/// The glyph drawn for one sparkline level.
pub open spec fn spec_glyph(level: u8) -> char {
    if level == 0 {
        '▁'
    } else if level == 1 {
        '▂'
    } else if level == 2 {
        '▃'
    } else if level == 3 {
        '▄'
    } else if level == 4 {
        '▅'
    } else if level == 5 {
        '▆'
    } else if level == 6 {
        '▇'
    } else {
        '█'
    }
}

/// The glyphs of a run of sparkline levels.
pub open spec fn spec_glyphs(levels: Seq<u8>) -> Seq<char> {
    levels.map_values(|l: u8| spec_glyph(l))
}

/// One sparkline glyph as a string.
fn glyph_str(level: u8) -> (r: &'static str)
    ensures
        r@ =~= seq![spec_glyph(level)],
{
    proof {
        reveal_strlit("▁");
        reveal_strlit("▂");
        reveal_strlit("▃");
        reveal_strlit("▄");
        reveal_strlit("▅");
        reveal_strlit("▆");
        reveal_strlit("▇");
        reveal_strlit("█");
    }
    if level == 0 {
        "▁"
    } else if level == 1 {
        "▂"
    } else if level == 2 {
        "▃"
    } else if level == 3 {
        "▄"
    } else if level == 4 {
        "▅"
    } else if level == 5 {
        "▆"
    } else if level == 6 {
        "▇"
    } else {
        "█"
    }
}

/// Draw sparkline levels as a run of bar glyphs.
pub fn sparkline_string(levels: &Vec<u8>) -> (r: String)
    ensures
        r@ == spec_glyphs(levels@),
{
    let n = levels.len();
    let mut out = String::new();
    let mut i: usize = 0;
    while i < n
        invariant
            n == levels@.len(),
            i <= n,
            out@ == spec_glyphs(levels@.subrange(0, i as int)),
        decreases n - i,
    {
        out.append(glyph_str(levels[i]));
        proof {
            assert(out@ =~= spec_glyphs(levels@.subrange(0, i + 1)));
        }
        i += 1;
    }
    proof {
        assert(levels@.subrange(0, n as int) =~= levels@);
    }
    out
}

/// Relies on `String::push`: it appends exactly the given character
/// to the end of the string.
#[verifier::external_body]
pub fn push_char(s: &mut String, c: char)
    ensures
        final(s)@ == old(s)@.push(c),
{
    s.push(c);
}

} // verus!
