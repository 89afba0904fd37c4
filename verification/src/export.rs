//! Plain-text, CSV and JSON renderings of the quote table.
//!
//! Every byte of the output is fixed by the specification functions
//! here; the host only writes the finished string out.

use vstd::prelude::*;
use crate::fmt::{spec_digits, spec_format_volume, spec_fp_2dp, format_volume, fp_to_string_2dp, u64_to_string};
use crate::quote::Quote;

verus! {

/// Export format of the quote table.
#[derive(Debug, Clone, Copy, PartialEq, Eq, Structural)]
pub enum ExportFormat {
    Text,
    Csv,
    Json,
}

/// One quote as CSV: quoted symbol and name, two-decimal prices, raw
/// volume, market capitalization digits or `N/A`.
pub open spec fn spec_csv_row(q: Quote) -> Seq<char> {
    seq!['"'] + q.symbol@ + "\",\""@ + q.name@ + seq!['"', ','] + spec_fp_2dp(q.price as int)
        + seq![','] + spec_fp_2dp(q.change as int) + seq![','] + spec_fp_2dp(
        q.change_percent as int,
    ) + seq![','] + spec_digits(q.volume as int) + seq![','] + (match q.market_cap {
        Some(mc) => spec_digits(mc as int),
        None => "N/A"@,
    }) + seq!['\n']
}

/// The whole CSV document: a header line, then one row per quote.
pub open spec fn spec_csv(qs: Seq<Quote>) -> Seq<char>
    decreases qs.len(),
{
    if qs.len() == 0 {
        "Symbol,Name,Price,Change,Change%,Volume,MarketCap\n"@
    } else {
        spec_csv(qs.drop_last()) + spec_csv_row(qs.last())
    }
}

/// One quote as a JSON object, two-decimal prices, `null` for a
/// missing market capitalization.
pub open spec fn spec_json_row(q: Quote) -> Seq<char> {
    "  {\n    \"symbol\": \""@ + q.symbol@ + "\",\n    \"name\": \""@ + q.name@
        + "\",\n    \"price\": "@ + spec_fp_2dp(q.price as int) + ",\n    \"change\": "@
        + spec_fp_2dp(q.change as int) + ",\n    \"changePercent\": "@ + spec_fp_2dp(
        q.change_percent as int,
    ) + ",\n    \"volume\": "@ + spec_digits(q.volume as int) + ",\n    \"marketCap\": "@
        + (match q.market_cap {
        Some(mc) => spec_digits(mc as int),
        None => "null"@,
    }) + "\n  }"@
}

/// The rows of the JSON array, comma-separated, each on its own line.
pub open spec fn spec_json_rows(qs: Seq<Quote>) -> Seq<char>
    decreases qs.len(),
{
    if qs.len() == 0 {
        Seq::empty()
    } else if qs.len() == 1 {
        spec_json_row(qs.last()) + seq!['\n']
    } else {
        spec_json_rows(qs.drop_last()).drop_last() + seq![','] + seq!['\n'] + spec_json_row(
            qs.last(),
        ) + seq!['\n']
    }
}

/// The whole JSON document: an array of quote objects.
pub open spec fn spec_json(qs: Seq<Quote>) -> Seq<char> {
    "[\n"@ + spec_json_rows(qs) + "]\n"@
}

/// One quote as labelled text lines.
pub open spec fn spec_text_row(q: Quote) -> Seq<char> {
    "Symbol: "@ + q.symbol@ + "\nName: "@ + q.name@ + "\nPrice: $"@ + spec_fp_2dp(q.price as int)
        + "\nChange: "@ + spec_fp_2dp(q.change as int) + "\nChange %: "@ + spec_fp_2dp(
        q.change_percent as int,
    ) + "%\nVolume: "@ + spec_format_volume(q.volume as int) + "\nMarket Cap: "@ + (
    match q.market_cap {
        Some(mc) => spec_digits(mc as int),
        None => "N/A"@,
    }) + "\n\n"@
}

/// The whole text document: a banner, then one block per quote.
pub open spec fn spec_text(qs: Seq<Quote>) -> Seq<char>
    decreases qs.len(),
{
    if qs.len() == 0 {
        "STONKTOP DATA EXPORT\n====================\n\n"@
    } else {
        spec_text(qs.drop_last()) + spec_text_row(qs.last())
    }
}

/// Render one quote as a CSV row.
fn csv_row(q: &Quote) -> (r: String)
    requires
        q.price > i64::MIN,
        q.change > i64::MIN,
        q.change_percent > i64::MIN,
    ensures
        r@ == spec_csv_row(*q),
{
    let mut out = String::from_str("\"");
    out = out.concat(q.symbol.as_str()).concat("\",\"").concat(q.name.as_str()).concat("\",");
    out = out.concat(fp_to_string_2dp(q.price).as_str()).concat(",");
    out = out.concat(fp_to_string_2dp(q.change).as_str()).concat(",");
    out = out.concat(fp_to_string_2dp(q.change_percent).as_str()).concat(",");
    out = out.concat(u64_to_string(q.volume).as_str()).concat(",");
    out = match q.market_cap {
        Some(mc) => out.concat(u64_to_string(mc).as_str()),
        None => out.concat("N/A"),
    };
    let r = out.concat("\n");
    proof {
        reveal_strlit("\"");
        reveal_strlit("\",\"");
        reveal_strlit("\",");
        reveal_strlit(",");
        reveal_strlit("\n");
        assert(r@ =~= spec_csv_row(*q));
    }
    r
}

/// Export the quotes as CSV.
pub fn export_csv(quotes: &Vec<Quote>) -> (r: String)
    requires
        forall|i: int| 0 <= i < quotes@.len() ==> (#[trigger] quotes@[i]).wf(),
    ensures
        r@ == spec_csv(quotes@),
{
    let mut out = String::from_str("Symbol,Name,Price,Change,Change%,Volume,MarketCap\n");
    proof {
        assert(out@ =~= spec_csv(quotes@.subrange(0, 0)));
    }
    let n = quotes.len();
    let mut i: usize = 0;
    while i < n
        invariant
            n == quotes@.len(),
            i <= n,
            forall|k: int| 0 <= k < n ==> (#[trigger] quotes@[k]).wf(),
            out@ == spec_csv(quotes@.subrange(0, i as int)),
        decreases n - i,
    {
        proof {
            assert(quotes@.subrange(0, i + 1) =~= quotes@.subrange(0, i as int).push(
                quotes@[i as int],
            ));
            assert(quotes@.subrange(0, i + 1).drop_last() =~= quotes@.subrange(0, i as int));
        }
        let row = csv_row(&quotes[i]);
        out = out.concat(row.as_str());
        i += 1;
    }
    proof {
        assert(quotes@.subrange(0, n as int) =~= quotes@);
    }
    out
}

/// Render one quote as a JSON object.
fn json_row(q: &Quote) -> (r: String)
    requires
        q.price > i64::MIN,
        q.change > i64::MIN,
        q.change_percent > i64::MIN,
    ensures
        r@ == spec_json_row(*q),
{
    let mut out = String::from_str("  {\n    \"symbol\": \"");
    out = out.concat(q.symbol.as_str()).concat("\",\n    \"name\": \"").concat(q.name.as_str());
    out = out.concat("\",\n    \"price\": ").concat(fp_to_string_2dp(q.price).as_str());
    out = out.concat(",\n    \"change\": ").concat(fp_to_string_2dp(q.change).as_str());
    out = out.concat(",\n    \"changePercent\": ").concat(
        fp_to_string_2dp(q.change_percent).as_str(),
    );
    out = out.concat(",\n    \"volume\": ").concat(u64_to_string(q.volume).as_str());
    out = out.concat(",\n    \"marketCap\": ");
    out = match q.market_cap {
        Some(mc) => out.concat(u64_to_string(mc).as_str()),
        None => out.concat("null"),
    };
    let r = out.concat("\n  }");
    proof {
        reveal_strlit("  {\n    \"symbol\": \"");
        reveal_strlit("\",\n    \"name\": \"");
        reveal_strlit("\",\n    \"price\": ");
        reveal_strlit(",\n    \"change\": ");
        reveal_strlit(",\n    \"changePercent\": ");
        reveal_strlit(",\n    \"volume\": ");
        reveal_strlit(",\n    \"marketCap\": ");
        reveal_strlit("null");
        reveal_strlit("\n  }");
        assert(r@ =~= spec_json_row(*q));
    }
    r
}

/// Export the quotes as a JSON array.
pub fn export_json(quotes: &Vec<Quote>) -> (r: String)
    requires
        forall|i: int| 0 <= i < quotes@.len() ==> (#[trigger] quotes@[i]).wf(),
    ensures
        r@ == spec_json(quotes@),
{
    proof {
        reveal_strlit("[\n");
        reveal_strlit("]\n");
        reveal_strlit(",\n");
        reveal_strlit("\n");
    }
    let mut body = String::new();
    let n = quotes.len();
    let mut i: usize = 0;
    while i < n
        invariant
            n == quotes@.len(),
            i <= n,
            forall|k: int| 0 <= k < n ==> (#[trigger] quotes@[k]).wf(),
            body@ == spec_json_rows(quotes@.subrange(0, i as int)),
        decreases n - i,
    {
        proof {
            assert(quotes@.subrange(0, i + 1) =~= quotes@.subrange(0, i as int).push(
                quotes@[i as int],
            ));
            assert(quotes@.subrange(0, i + 1).drop_last() =~= quotes@.subrange(0, i as int));
        }
        let row = json_row(&quotes[i]);
        proof {
            reveal_strlit("\n");
            reveal_strlit(",\n");
            assert(row@ == spec_json_row(quotes@[i as int]));
        }
        if i == 0 {
            body = row.concat("\n");
            proof {
                assert(quotes@.subrange(0, 1).last() == quotes@[0]);
                assert(body@ =~= spec_json_row(quotes@[0]) + seq!['\n']);
                assert(body@ =~= spec_json_rows(quotes@.subrange(0, 1)));
            }
        } else {
            let m = body.as_str().unicode_len();
            proof {
                assert(body@.len() > 0);
                assert(body@.last() == '\n');
            }
            let trimmed = String::from_str(body.as_str().substring_char(0, m - 1));
            body = trimmed.concat(",\n").concat(row.as_str()).concat("\n");
            proof {
                assert(body@ =~= spec_json_rows(quotes@.subrange(0, i + 1)));
            }
        }
        i += 1;
    }
    proof {
        assert(quotes@.subrange(0, n as int) =~= quotes@);
    }
    let r = String::from_str("[\n").concat(body.as_str()).concat("]\n");
    proof {
        assert(r@ =~= spec_json(quotes@));
    }
    r
}

/// Render one quote as labelled text.
fn text_row(q: &Quote) -> (r: String)
    requires
        q.price > i64::MIN,
        q.change > i64::MIN,
        q.change_percent > i64::MIN,
    ensures
        r@ == spec_text_row(*q),
{
    let mut out = String::from_str("Symbol: ");
    out = out.concat(q.symbol.as_str()).concat("\nName: ").concat(q.name.as_str());
    out = out.concat("\nPrice: $").concat(fp_to_string_2dp(q.price).as_str());
    out = out.concat("\nChange: ").concat(fp_to_string_2dp(q.change).as_str());
    out = out.concat("\nChange %: ").concat(fp_to_string_2dp(q.change_percent).as_str());
    out = out.concat("%\nVolume: ").concat(format_volume(q.volume).as_str());
    out = out.concat("\nMarket Cap: ");
    out = match q.market_cap {
        Some(mc) => out.concat(u64_to_string(mc).as_str()),
        None => out.concat("N/A"),
    };
    let r = out.concat("\n\n");
    proof {
        reveal_strlit("Symbol: ");
        reveal_strlit("\nName: ");
        reveal_strlit("\nPrice: $");
        reveal_strlit("\nChange: ");
        reveal_strlit("\nChange %: ");
        reveal_strlit("%\nVolume: ");
        reveal_strlit("\nMarket Cap: ");
        reveal_strlit("N/A");
        reveal_strlit("\n\n");
        assert(r@ =~= spec_text_row(*q));
    }
    r
}

/// Export the quotes as screen-reader-friendly text.
pub fn export_text(quotes: &Vec<Quote>) -> (r: String)
    requires
        forall|i: int| 0 <= i < quotes@.len() ==> (#[trigger] quotes@[i]).wf(),
    ensures
        r@ == spec_text(quotes@),
{
    let mut out = String::from_str("STONKTOP DATA EXPORT\n====================\n\n");
    proof {
        assert(out@ =~= spec_text(quotes@.subrange(0, 0)));
    }
    let n = quotes.len();
    let mut i: usize = 0;
    while i < n
        invariant
            n == quotes@.len(),
            i <= n,
            forall|k: int| 0 <= k < n ==> (#[trigger] quotes@[k]).wf(),
            out@ == spec_text(quotes@.subrange(0, i as int)),
        decreases n - i,
    {
        proof {
            assert(quotes@.subrange(0, i + 1) =~= quotes@.subrange(0, i as int).push(
                quotes@[i as int],
            ));
            assert(quotes@.subrange(0, i + 1).drop_last() =~= quotes@.subrange(0, i as int));
        }
        let row = text_row(&quotes[i]);
        out = out.concat(row.as_str());
        i += 1;
    }
    proof {
        assert(quotes@.subrange(0, n as int) =~= quotes@);
    }
    out
}

/// Export the quotes in the chosen format.
pub fn export_quotes(quotes: &Vec<Quote>, format: ExportFormat) -> (r: String)
    requires
        forall|i: int| 0 <= i < quotes@.len() ==> (#[trigger] quotes@[i]).wf(),
    ensures
        format == ExportFormat::Text ==> r@ == spec_text(quotes@),
        format == ExportFormat::Csv ==> r@ == spec_csv(quotes@),
        format == ExportFormat::Json ==> r@ == spec_json(quotes@),
{
    match format {
        ExportFormat::Text => export_text(quotes),
        ExportFormat::Csv => export_csv(quotes),
        ExportFormat::Json => export_json(quotes),
    }
}

} // verus!
