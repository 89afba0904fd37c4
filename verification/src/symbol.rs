//! Symbol validation and shorthand expansion.

use vstd::prelude::*;

verus! {

/// Longest symbol the engine accepts.
pub const MAX_SYMBOL_LEN: usize = 12;

/// Characters a symbol may contain: alphanumerics plus `- . ^ =`.
pub open spec fn is_allowed_char(c: char) -> bool {
    ('A' <= c && c <= 'Z') || ('a' <= c && c <= 'z') || ('0' <= c && c <= '9') || c == '-' || c
        == '.' || c == '^' || c == '='
}

/// A symbol is valid when it is non-empty, no longer than
/// `MAX_SYMBOL_LEN`, and made of allowed characters only.
pub open spec fn spec_valid_symbol(s: Seq<char>) -> bool {
    &&& 1 <= s.len() <= MAX_SYMBOL_LEN
    &&& forall|i: int| 0 <= i < s.len() ==> is_allowed_char(#[trigger] s[i])
}

/// Reject symbols that could not be a ticker before they reach a URL.
pub fn validate(symbol: &str) -> (r: bool)
    ensures
        r == spec_valid_symbol(symbol@),
{
    let n = symbol.unicode_len();
    if n == 0 || n > MAX_SYMBOL_LEN {
        return false;
    }
    let mut i: usize = 0;
    while i < n
        invariant
            n == symbol@.len(),
            1 <= n <= MAX_SYMBOL_LEN,
            i <= n,
            forall|j: int| 0 <= j < i ==> is_allowed_char(#[trigger] symbol@[j]),
        decreases n - i,
    {
        let c = symbol.get_char(i);
        let ok = ('A' <= c && c <= 'Z') || ('a' <= c && c <= 'z') || ('0' <= c && c <= '9') || c
            == '-' || c == '.' || c == '^' || c == '=';
        if !ok {
            return false;
        }
        i += 1;
    }
    true
}

/// Character-wise string equality, usable where contracts speak of views.
pub fn str_eq(a: &str, b: &str) -> (r: bool)
    ensures
        r == (a@ == b@),
{
    let na = a.unicode_len();
    let nb = b.unicode_len();
    if na != nb {
        return false;
    }
    let mut i: usize = 0;
    while i < na
        invariant
            na == a@.len(),
            nb == b@.len(),
            na == nb,
            i <= na,
            forall|j: int| 0 <= j < i ==> a@[j] == b@[j],
        decreases na - i,
    {
        if a.get_char(i) != b.get_char(i) {
            return false;
        }
        i += 1;
    }
    proof {
        assert(a@ =~= b@);
    }
    true
}

/// The well-known crypto tickers that expand to their `-USD` pair.
pub open spec fn spec_is_crypto_shortcut(s: Seq<char>) -> bool {
    ||| s == "BTC"@
    ||| s == "ETH"@
    ||| s == "SOL"@
    ||| s == "DOGE"@
    ||| s == "XRP"@
    ||| s == "ADA"@
    ||| s == "DOT"@
    ||| s == "MATIC"@
    ||| s == "LINK"@
    ||| s == "UNI"@
    ||| s == "AVAX"@
    ||| s == "ATOM"@
    ||| s == "LTC"@
}

/// What `expand_symbol` returns: a trailing `.X` is rewritten to `-USD`,
/// a known crypto ticker gains `-USD`, anything else is unchanged.
pub open spec fn spec_expand(s: Seq<char>) -> Seq<char> {
    if s.len() >= 2 && s.subrange(s.len() - 2, s.len() as int) == ".X"@ {
        s.subrange(0, s.len() - 2) + "-USD"@
    } else if spec_is_crypto_shortcut(s) {
        s + "-USD"@
    } else {
        s
    }
}

/// Expand shorthand tickers; total and deterministic.
pub fn expand_symbol(symbol: &str) -> (r: String)
    ensures
        r@ == spec_expand(symbol@),
{
    proof {
        reveal_strlit(".X");
    }
    let n = symbol.unicode_len();
    if n >= 2 && symbol.get_char(n - 2) == '.' && symbol.get_char(n - 1) == 'X' {
        let base = symbol.substring_char(0, n - 2);
        proof {
            assert(symbol@.subrange(n - 2, n as int) =~= ".X"@);
        }
        return String::from_str(base).concat("-USD");
    }
    proof {
        if symbol@.len() >= 2 && symbol@.subrange(symbol@.len() - 2, symbol@.len() as int)
            == ".X"@ {
            assert(symbol@[n - 2] == ".X"@[0]);
            assert(symbol@[n - 1] == ".X"@[1]);
        }
    }
    let hit = str_eq(symbol, "BTC") || str_eq(symbol, "ETH") || str_eq(symbol, "SOL") || str_eq(
        symbol,
        "DOGE",
    ) || str_eq(symbol, "XRP") || str_eq(symbol, "ADA") || str_eq(symbol, "DOT") || str_eq(
        symbol,
        "MATIC",
    ) || str_eq(symbol, "LINK") || str_eq(symbol, "UNI") || str_eq(symbol, "AVAX") || str_eq(
        symbol,
        "ATOM",
    ) || str_eq(symbol, "LTC");
    if hit {
        String::from_str(symbol).concat("-USD")
    } else {
        String::from_str(symbol)
    }
}

} // verus!
