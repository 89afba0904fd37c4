//! Sort keys, directions, and the verified quote sort.
//!
//! Quotes are ordered by a chosen key and direction; sorting keeps
//! exactly the same quotes (as a multiset) and leaves them ordered by
//! the chosen comparison.

use vstd::prelude::*;
use vstd::multiset::Multiset;
use vstd::seq_lib::lemma_multiset_commutative;
use crate::quote::Quote;

verus! {

/// The column a quote table is sorted by.
#[derive(Debug, Clone, Copy, PartialEq, Eq, Structural, Default)]
pub enum SortOrder {
    #[default]
    Symbol,
    Name,
    Price,
    Change,
    ChangePercent,
    Volume,
    MarketCap,
}

impl SortOrder {
    /// The next key in the fixed cycle.
    pub fn next(self) -> (r: Self)
        ensures
            r == match self {
                SortOrder::Symbol => SortOrder::Name,
                SortOrder::Name => SortOrder::Price,
                SortOrder::Price => SortOrder::Change,
                SortOrder::Change => SortOrder::ChangePercent,
                SortOrder::ChangePercent => SortOrder::Volume,
                SortOrder::Volume => SortOrder::MarketCap,
                SortOrder::MarketCap => SortOrder::Symbol,
            },
    {
        match self {
            SortOrder::Symbol => SortOrder::Name,
            SortOrder::Name => SortOrder::Price,
            SortOrder::Price => SortOrder::Change,
            SortOrder::Change => SortOrder::ChangePercent,
            SortOrder::ChangePercent => SortOrder::Volume,
            SortOrder::Volume => SortOrder::MarketCap,
            SortOrder::MarketCap => SortOrder::Symbol,
        }
    }

    /// The column header shown for this key.
    pub fn header(&self) -> (r: &'static str)
        ensures
            *self == SortOrder::Symbol ==> r@ == "SYMBOL"@,
            *self == SortOrder::Name ==> r@ == "NAME"@,
            *self == SortOrder::Price ==> r@ == "PRICE"@,
            *self == SortOrder::Change ==> r@ == "CHANGE"@,
            *self == SortOrder::ChangePercent ==> r@ == "CHG%"@,
            *self == SortOrder::Volume ==> r@ == "VOLUME"@,
            *self == SortOrder::MarketCap ==> r@ == "MKT CAP"@,
    {
        match self {
            SortOrder::Symbol => "SYMBOL",
            SortOrder::Name => "NAME",
            SortOrder::Price => "PRICE",
            SortOrder::Change => "CHANGE",
            SortOrder::ChangePercent => "CHG%",
            SortOrder::Volume => "VOLUME",
            SortOrder::MarketCap => "MKT CAP",
        }
    }
}

/// Which way the chosen key orders the table.
#[derive(Debug, Clone, Copy, PartialEq, Eq, Structural, Default)]
pub enum SortDirection {
    #[default]
    Ascending,
    Descending,
}

impl SortDirection {
    /// The other direction.
    pub fn toggle(self) -> (r: Self)
        ensures
            self == SortDirection::Ascending ==> r == SortDirection::Descending,
            self == SortDirection::Descending ==> r == SortDirection::Ascending,
    {
        match self {
            SortDirection::Ascending => SortDirection::Descending,
            SortDirection::Descending => SortDirection::Ascending,
        }
    }
}

/// Lexicographic order on character sequences: the empty sequence
/// first, then by first difference, shorter prefixes first.
pub open spec fn lex_le(a: Seq<char>, b: Seq<char>) -> bool
    decreases a.len(),
{
    if a.len() == 0 {
        true
    } else if b.len() == 0 {
        false
    } else if a[0] != b[0] {
        a[0] < b[0]
    } else {
        lex_le(a.drop_first(), b.drop_first())
    }
}

/// Equal prefixes do not decide the order.
proof fn lemma_lex_unroll(a: Seq<char>, b: Seq<char>, i: int)
    requires
        0 <= i <= a.len(),
        i <= b.len(),
        forall|j: int| 0 <= j < i ==> a[j] == b[j],
    ensures
        lex_le(a, b) == lex_le(a.skip(i), b.skip(i)),
    decreases i,
{
    if i > 0 {
        lemma_lex_unroll(a.drop_first(), b.drop_first(), i - 1);
        assert(a.drop_first().skip(i - 1) =~= a.skip(i));
        assert(b.drop_first().skip(i - 1) =~= b.skip(i));
        assert(forall|j: int|
            0 <= j < i - 1 ==> a.drop_first()[j] == b.drop_first()[j]);
    } else {
        assert(a.skip(0) =~= a);
        assert(b.skip(0) =~= b);
    }
}

/// Any two character sequences compare one way or the other.
pub proof fn lemma_lex_total(a: Seq<char>, b: Seq<char>)
    ensures
        lex_le(a, b) || lex_le(b, a),
    decreases a.len(),
{
    if a.len() > 0 && b.len() > 0 && a[0] == b[0] {
        lemma_lex_total(a.drop_first(), b.drop_first());
    }
}

/// Lexicographic order is transitive.
pub proof fn lemma_lex_trans(a: Seq<char>, b: Seq<char>, c: Seq<char>)
    requires
        lex_le(a, b),
        lex_le(b, c),
    ensures
        lex_le(a, c),
    decreases a.len(),
{
    if a.len() > 0 && b.len() > 0 && c.len() > 0 && a[0] == b[0] && b[0] == c[0] {
        lemma_lex_trans(a.drop_first(), b.drop_first(), c.drop_first());
    }
}

/// Compare two strings lexicographically.
pub fn str_le(a: &str, b: &str) -> (r: bool)
    ensures
        r == lex_le(a@, b@),
{
    let na = a.unicode_len();
    let nb = b.unicode_len();
    let limit = if na <= nb {
        na
    } else {
        nb
    };
    let mut i: usize = 0;
    while i < limit
        invariant
            na == a@.len(),
            nb == b@.len(),
            limit <= na,
            limit <= nb,
            i <= limit,
            forall|j: int| 0 <= j < i ==> a@[j] == b@[j],
        decreases limit - i,
    {
        let ca = a.get_char(i);
        let cb = b.get_char(i);
        if ca != cb {
            proof {
                lemma_lex_unroll(a@, b@, i as int);
            }
            return ca < cb;
        }
        i += 1;
    }
    proof {
        lemma_lex_unroll(a@, b@, limit as int);
    }
    na <= nb
}

/// Whether `a` may stand before `b` under the chosen key, ascending.
pub open spec fn spec_key_le(order: SortOrder, a: Quote, b: Quote) -> bool {
    match order {
        SortOrder::Symbol => lex_le(a.symbol@, b.symbol@),
        SortOrder::Name => lex_le(a.name@, b.name@),
        SortOrder::Price => a.price <= b.price,
        SortOrder::Change => a.change <= b.change,
        SortOrder::ChangePercent => a.change_percent <= b.change_percent,
        SortOrder::Volume => a.volume <= b.volume,
        SortOrder::MarketCap => match (a.market_cap, b.market_cap) {
            (Option::None, _) => true,
            (Option::Some(_), Option::None) => false,
            (Option::Some(x), Option::Some(y)) => x <= y,
        },
    }
}

/// Whether `a` may stand before `b` under the chosen key and
/// direction.
pub open spec fn spec_quote_le(order: SortOrder, dir: SortDirection, a: Quote, b: Quote) -> bool {
    match dir {
        SortDirection::Ascending => spec_key_le(order, a, b),
        SortDirection::Descending => spec_key_le(order, b, a),
    }
}

/// The quote order is total.
pub proof fn lemma_quote_le_total(order: SortOrder, dir: SortDirection, a: Quote, b: Quote)
    ensures
        spec_quote_le(order, dir, a, b) || spec_quote_le(order, dir, b, a),
{
    match order {
        SortOrder::Symbol => lemma_lex_total(a.symbol@, b.symbol@),
        SortOrder::Name => lemma_lex_total(a.name@, b.name@),
        _ => {},
    }
}

/// The quote order is transitive.
pub proof fn lemma_quote_le_trans(
    order: SortOrder,
    dir: SortDirection,
    a: Quote,
    b: Quote,
    c: Quote,
)
    requires
        spec_quote_le(order, dir, a, b),
        spec_quote_le(order, dir, b, c),
    ensures
        spec_quote_le(order, dir, a, c),
{
    match (order, dir) {
        (SortOrder::Symbol, SortDirection::Ascending) => lemma_lex_trans(
            a.symbol@,
            b.symbol@,
            c.symbol@,
        ),
        (SortOrder::Symbol, SortDirection::Descending) => lemma_lex_trans(
            c.symbol@,
            b.symbol@,
            a.symbol@,
        ),
        (SortOrder::Name, SortDirection::Ascending) => lemma_lex_trans(a.name@, b.name@, c.name@),
        (SortOrder::Name, SortDirection::Descending) => lemma_lex_trans(
            c.name@,
            b.name@,
            a.name@,
        ),
        _ => {},
    }
}

/// Compare two quotes under the chosen key and direction.
pub fn quote_le(order: SortOrder, dir: SortDirection, a: &Quote, b: &Quote) -> (r: bool)
    ensures
        r == spec_quote_le(order, dir, *a, *b),
{
    let (x, y) = match dir {
        SortDirection::Ascending => (a, b),
        SortDirection::Descending => (b, a),
    };
    match order {
        SortOrder::Symbol => str_le(x.symbol.as_str(), y.symbol.as_str()),
        SortOrder::Name => str_le(x.name.as_str(), y.name.as_str()),
        SortOrder::Price => x.price <= y.price,
        SortOrder::Change => x.change <= y.change,
        SortOrder::ChangePercent => x.change_percent <= y.change_percent,
        SortOrder::Volume => x.volume <= y.volume,
        SortOrder::MarketCap => match (x.market_cap, y.market_cap) {
            (Option::None, _) => true,
            (Option::Some(_), Option::None) => false,
            (Option::Some(mx), Option::Some(my)) => mx <= my,
        },
    }
}

/// A sequence ordered by the chosen key and direction.
pub open spec fn spec_sorted(s: Seq<Quote>, order: SortOrder, dir: SortDirection) -> bool {
    forall|i: int, j: int|
        0 <= i < j < s.len() ==> spec_quote_le(order, dir, #[trigger] s[i], #[trigger] s[j])
}

/// Inserting an element anywhere adds exactly it to the multiset.
proof fn lemma_insert_to_multiset(s: Seq<Quote>, j: int, x: Quote)
    requires
        0 <= j <= s.len(),
    ensures
        s.insert(j, x).to_multiset() =~= s.to_multiset().insert(x),
{
    let l = s.subrange(0, j);
    let r = s.subrange(j, s.len() as int);
    assert(s.insert(j, x) =~= l.push(x) + r);
    assert(s =~= l + r);
    lemma_multiset_commutative(l.push(x), r);
    lemma_multiset_commutative(l, r);
    l.to_multiset_ensures();
    assert(l.push(x).to_multiset() =~= l.to_multiset().insert(x));
    assert(l.to_multiset().insert(x).add(r.to_multiset()) =~= l.to_multiset().add(
        r.to_multiset(),
    ).insert(x));
}

/// Where a new element lands among already-sorted ones: before the
/// first element that may not stand before it, so after every element
/// that compares equal.
pub open spec fn spec_insert_pos(s: Seq<Quote>, x: Quote, order: SortOrder, dir: SortDirection) -> int
    decreases s.len(),
{
    if s.len() == 0 {
        0
    } else if !spec_quote_le(order, dir, s[0], x) {
        0
    } else {
        1 + spec_insert_pos(s.drop_first(), x, order, dir)
    }
}

/// The landing spot is always inside the run.
pub proof fn lemma_insert_pos_range(s: Seq<Quote>, x: Quote, order: SortOrder, dir: SortDirection)
    ensures
        0 <= spec_insert_pos(s, x, order, dir) <= s.len(),
    decreases s.len(),
{
    if s.len() > 0 && spec_quote_le(order, dir, s[0], x) {
        lemma_insert_pos_range(s.drop_first(), x, order, dir);
    }
}

/// A position preceded only by elements that stand before `x`, and
/// holding one that does not (or the end), is the landing spot.
proof fn lemma_insert_pos_at(
    s: Seq<Quote>,
    x: Quote,
    order: SortOrder,
    dir: SortDirection,
    j: int,
)
    requires
        0 <= j <= s.len(),
        forall|k: int| 0 <= k < j ==> spec_quote_le(order, dir, #[trigger] s[k], x),
        j < s.len() ==> !spec_quote_le(order, dir, s[j], x),
    ensures
        spec_insert_pos(s, x, order, dir) == j,
    decreases s.len(),
{
    if j > 0 {
        assert(forall|k: int|
            0 <= k < j - 1 ==> spec_quote_le(order, dir, #[trigger] s.drop_first()[k], x));
        if j - 1 < s.drop_first().len() {
            assert(s.drop_first()[j - 1] == s[j]);
        }
        lemma_insert_pos_at(s.drop_first(), x, order, dir, j - 1);
    }
}

/// The stable sort of a quote run: each element, in turn, inserted
/// after its equals. Being a function of the input, it fixes the order
/// of equal-key quotes: they keep their relative order.
pub open spec fn spec_stable_sort(s: Seq<Quote>, order: SortOrder, dir: SortDirection) -> Seq<
    Quote,
>
    decreases s.len(),
{
    if s.len() == 0 {
        Seq::empty()
    } else {
        let sorted = spec_stable_sort(s.drop_last(), order, dir);
        sorted.insert(spec_insert_pos(sorted, s.last(), order, dir), s.last())
    }
}

/// Where the element at `i` belongs within the sorted prefix before it:
/// the first position whose element may not stand before it.
fn find_insert_pos(quotes: &Vec<Quote>, i: usize, order: SortOrder, dir: SortDirection) -> (j:
    usize)
    requires
        i < quotes@.len(),
    ensures
        j <= i,
        forall|k: int|
            0 <= k < j ==> spec_quote_le(order, dir, #[trigger] quotes@[k], quotes@[i as int]),
        j < i ==> !spec_quote_le(order, dir, quotes@[j as int], quotes@[i as int]),
{
    let mut j: usize = 0;
    while j < i
        invariant
            i < quotes@.len(),
            j <= i,
            forall|k: int|
                0 <= k < j ==> spec_quote_le(order, dir, #[trigger] quotes@[k], quotes@[i as int]),
        decreases i - j,
    {
        if !quote_le(order, dir, &quotes[j], &quotes[i]) {
            return j;
        }
        j += 1;
    }
    j
}

/// Sort quotes in place by the chosen key and direction: the result
/// holds exactly the same quotes, ordered, and is exactly the stable
/// sort — equal-key quotes keep their relative order.
pub fn sort_quotes_vec(quotes: &mut Vec<Quote>, order: SortOrder, dir: SortDirection)
    ensures
        final(quotes)@.to_multiset() == old(quotes)@.to_multiset(),
        spec_sorted(final(quotes)@, order, dir),
        final(quotes)@ == spec_stable_sort(old(quotes)@, order, dir),
{
    let n = quotes.len();
    let mut i: usize = 1;
    if n < 2 {
        proof {
            if n == 1 {
                assert(spec_stable_sort(quotes@.drop_last(), order, dir) =~= Seq::<Quote>::empty());
                assert(quotes@ =~= spec_stable_sort(quotes@, order, dir));
            } else {
                assert(quotes@ =~= spec_stable_sort(quotes@, order, dir));
            }
        }
        return ;
    }
    proof {
        let orig1 = old(quotes)@.subrange(0, 1);
        assert(orig1.len() == 1);
        assert(orig1.drop_last() =~= Seq::<Quote>::empty());
        assert(orig1.last() == old(quotes)@[0]);
        let sorted0 = spec_stable_sort(orig1.drop_last(), order, dir);
        assert(sorted0 == spec_stable_sort(Seq::<Quote>::empty(), order, dir));
        assert(sorted0 =~= Seq::<Quote>::empty());
        assert(spec_insert_pos(sorted0, orig1.last(), order, dir) == 0);
        assert(spec_stable_sort(orig1, order, dir) == sorted0.insert(0, orig1.last()));
        assert(quotes@.subrange(0, 1) =~= sorted0.insert(0, orig1.last()));
    }
    while i < n
        invariant
            n == quotes@.len(),
            n == old(quotes)@.len(),
            1 <= i <= n,
            quotes@.to_multiset() == old(quotes)@.to_multiset(),
            spec_sorted(quotes@.subrange(0, i as int), order, dir),
            quotes@.subrange(0, i as int) == spec_stable_sort(
                old(quotes)@.subrange(0, i as int),
                order,
                dir,
            ),
            quotes@.subrange(i as int, n as int) == old(quotes)@.subrange(i as int, n as int),
        decreases n - i,
    {
        let j = find_insert_pos(quotes, i, order, dir);
        let ghost before = quotes@;
        proof {
            before.to_multiset_ensures();
            if j < i {
                lemma_quote_le_total(order, dir, before[j as int], before[i as int]);
            }
        }
        let x = quotes.remove(i);
        let ghost removed = quotes@;
        quotes.insert(j, x);
        proof {
            assert(removed =~= before.remove(i as int));
            lemma_insert_to_multiset(removed, j as int, x);
            assert(quotes@.to_multiset() =~= before.to_multiset());
            // the new prefix is the stable sort of one more element
            assert(before[i as int] == old(quotes)@[i as int]) by {
                assert(before.subrange(i as int, n as int)[0] == before[i as int]);
                assert(old(quotes)@.subrange(i as int, n as int)[0] == old(quotes)@[i as int]);
            }
            lemma_insert_pos_at(before.subrange(0, i as int), x, order, dir, j as int);
            assert(old(quotes)@.subrange(0, i as int + 1).drop_last() =~= old(
                quotes,
            )@.subrange(0, i as int));
            assert(old(quotes)@.subrange(0, i as int + 1).last() == old(quotes)@[i as int]);
            assert(quotes@.subrange(0, i as int + 1) =~= before.subrange(0, i as int).insert(
                j as int,
                x,
            ));
            assert(quotes@.subrange(0, i as int + 1) == spec_stable_sort(
                old(quotes)@.subrange(0, i as int + 1),
                order,
                dir,
            ));
            assert forall|k: int| i + 1 <= k < n implies quotes@[k] == old(quotes)@[k] by {
                assert(quotes@[k] == removed[k - 1]);
                assert(removed[k - 1] == before[k]);
                assert(before.subrange(i as int, n as int)[k - i] == before[k]);
                assert(old(quotes)@.subrange(i as int, n as int)[k - i] == old(quotes)@[k]);
            }
            assert(quotes@.subrange(i as int + 1, n as int) =~= old(quotes)@.subrange(
                i as int + 1,
                n as int,
            ));
            // the new prefix of length i + 1 is sorted
            let s1 = quotes@;
            assert forall|p: int, q: int|
                0 <= p < q < i + 1 implies spec_quote_le(order, dir, s1[p], s1[q]) by {
                let old_of = |t: int| if t < j {
                    before[t]
                } else if t == j {
                    before[i as int]
                } else {
                    before[t - 1]
                };
                assert(s1[p] == old_of(p));
                assert(s1[q] == old_of(q));
                if p < j && q == j {
                    // scanned elements stand before x
                } else if p == j && q > j {
                    // x stands before the first element that refused it,
                    // and transitively before the rest
                    assert(!spec_quote_le(order, dir, before[j as int], before[i as int]));
                    assert(spec_quote_le(order, dir, before[i as int], before[j as int]));
                    if q > j + 1 {
                        assert(spec_quote_le(order, dir, before[j as int], before[q - 1])) by {
                            assert(before.subrange(0, i as int)[j as int] == before[j as int]);
                            assert(before.subrange(0, i as int)[q - 1] == before[q - 1]);
                        }
                        lemma_quote_le_trans(
                            order,
                            dir,
                            before[i as int],
                            before[j as int],
                            before[q - 1],
                        );
                    }
                } else if p < j && q > j {
                    // both were in the sorted prefix
                } else {
                    // both inside the old prefix, order kept
                }
            }
            assert(spec_sorted(s1.subrange(0, i + 1), order, dir));
        }
        i += 1;
    }
    proof {
        assert(quotes@.subrange(0, n as int) =~= quotes@);
        assert(old(quotes)@.subrange(0, n as int) =~= old(quotes)@);
    }
}

} // verus!
