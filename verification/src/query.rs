//! The query pipeline: a pure transformation of a product snapshot by a
//! `ProductQuery` — filter by category, price bounds and search term, then
//! sort by a requested key, then paginate. The three stages are applied in
//! that fixed order; pagination always sees the filtered and sorted list.

use vstd::prelude::*;
use crate::models::Product;
use crate::models::ProductQuery;
use crate::text::contains_seq;
use crate::text::lemma_lex_le_total;
use crate::text::lemma_lex_le_trans;
use crate::text::lex_le;
use crate::text::lower_of;
use crate::text::lowercase;
use crate::text::str_contains;
use crate::text::str_eq;
use crate::text::str_le;

verus! {

/// The category characters used for sorting: a missing category sorts as
/// the empty string.
pub open spec fn category_view(p: Product) -> Seq<char> {
    match p.category {
        Option::Some(c) => c@,
        Option::None => Seq::empty(),
    }
}

/// The product's category equals `c` exactly; products without a category
/// match no category filter.
pub open spec fn matches_category(p: Product, c: Seq<char>) -> bool {
    match p.category {
        Option::Some(pc) => pc@ == c,
        Option::None => false,
    }
}

/// The case-folded search term occurs in the case-folded name,
/// description, or category; absent optional fields do not match.
pub open spec fn matches_search(p: Product, term: Seq<char>) -> bool {
    ||| contains_seq(lower_of(p.name@), lower_of(term))
    ||| match p.description {
        Option::Some(d) => contains_seq(lower_of(d@), lower_of(term)),
        Option::None => false,
    }
    ||| match p.category {
        Option::Some(c) => contains_seq(lower_of(c@), lower_of(term)),
        Option::None => false,
    }
}

/// The product passes every filter the query carries; absent filters
/// pass everything.
pub open spec fn passes_filters(p: Product, q: ProductQuery) -> bool {
    &&& match q.category {
        Option::Some(c) => matches_category(p, c@),
        Option::None => true,
    }
    &&& match q.min_price {
        Option::Some(lo) => p.price >= lo,
        Option::None => true,
    }
    &&& match q.max_price {
        Option::Some(hi) => p.price <= hi,
        Option::None => true,
    }
    &&& match q.search_term {
        Option::Some(t) => matches_search(p, t@),
        Option::None => true,
    }
}

/// The subsequence of `products` passing the query's filters, in the
/// original order.
pub open spec fn filtered(products: Seq<Product>, q: ProductQuery) -> Seq<Product> {
    products.filter(|p: Product| passes_filters(p, q))
}

/// The case-folded `term` occurs in the case-folded name, description, or
/// category of `p`.
fn matches_search_exec(p: &Product, term: &str) -> (r: bool)
    ensures
        r == matches_search(*p, term@),
{
    let folded_term = lowercase(term);
    let folded_name = lowercase(p.name.as_str());
    if str_contains(folded_name.as_str(), folded_term.as_str()) {
        return true;
    }
    if let Option::Some(d) = &p.description {
        let folded = lowercase(d.as_str());
        if str_contains(folded.as_str(), folded_term.as_str()) {
            return true;
        }
    }
    if let Option::Some(c) = &p.category {
        let folded = lowercase(c.as_str());
        if str_contains(folded.as_str(), folded_term.as_str()) {
            return true;
        }
    }
    false
}

/// Whether `p` passes every filter of `q`.
fn passes_filters_exec(p: &Product, q: &ProductQuery) -> (r: bool)
    ensures
        r == passes_filters(*p, *q),
{
    if let Option::Some(c) = &q.category {
        let matched = match &p.category {
            Option::Some(pc) => str_eq(pc.as_str(), c.as_str()),
            Option::None => false,
        };
        if !matched {
            return false;
        }
    }
    if let Option::Some(lo) = &q.min_price {
        if p.price < *lo {
            return false;
        }
    }
    if let Option::Some(hi) = &q.max_price {
        if p.price > *hi {
            return false;
        }
    }
    if let Option::Some(t) = &q.search_term {
        if !matches_search_exec(p, t.as_str()) {
            return false;
        }
    }
    true
}

/// Keeps exactly the products passing the query's filters, in order.
pub fn filter_products(products: &Vec<Product>, query: &ProductQuery) -> (r: Vec<Product>)
    ensures
        r@ == filtered(products@, *query),
{
    let mut out: Vec<Product> = Vec::new();
    let mut idx: usize = 0;
    while idx < products.len()
        invariant
            0 <= idx <= products@.len(),
            out@ == filtered(products@.subrange(0, idx as int), *query),
        decreases products@.len() - idx,
    {
        let keep = passes_filters_exec(&products[idx], query);
        proof {
            reveal(Seq::filter);
            let prefix = products@.subrange(0, idx as int);
            let step = products@.subrange(0, idx + 1);
            assert(step.drop_last() =~= prefix);
            assert(step.last() == products@[idx as int]);
        }
        if keep {
            out.push(products[idx].clone());
        }
        idx = idx + 1;
    }
    proof {
        assert(products@.subrange(0, products@.len() as int) =~= products@);
    }
    out
}

/// The key a list can be sorted by.
#[derive(Clone, Copy, Debug)]
pub enum SortKey {
    Name,
    Price,
    Category,
}

/// The sort key a query names, if it names a recognized one.
pub open spec fn sort_key_of(s: Seq<char>) -> Option<SortKey> {
    if s == "name"@ {
        Option::Some(SortKey::Name)
    } else if s == "price"@ {
        Option::Some(SortKey::Price)
    } else if s == "category"@ {
        Option::Some(SortKey::Category)
    } else {
        Option::None
    }
}

/// Recognizes the three sort-key names; anything else is no key.
pub fn parse_sort_key(s: &str) -> (r: Option<SortKey>)
    ensures
        r == sort_key_of(s@),
{
    if str_eq(s, "name") {
        Option::Some(SortKey::Name)
    } else if str_eq(s, "price") {
        Option::Some(SortKey::Price)
    } else if str_eq(s, "category") {
        Option::Some(SortKey::Category)
    } else {
        Option::None
    }
}

/// Ascending comparison of two products under one sort key: name and
/// category lexicographically (a missing category as the empty string),
/// price numerically.
pub open spec fn key_le(k: SortKey, a: Product, b: Product) -> bool {
    match k {
        SortKey::Name => lex_le(a.name@, b.name@),
        SortKey::Price => a.price <= b.price,
        SortKey::Category => lex_le(category_view(a), category_view(b)),
    }
}

/// The comparison actually requested: the key's order, reversed when the
/// direction is descending.
pub open spec fn cmp_le(k: SortKey, desc: bool, a: Product, b: Product) -> bool {
    if desc {
        key_le(k, b, a)
    } else {
        key_le(k, a, b)
    }
}

/// Any two products compare one way or the other under any key and
/// direction.
pub proof fn lemma_cmp_le_total(k: SortKey, desc: bool, a: Product, b: Product)
    ensures
        cmp_le(k, desc, a, b) || cmp_le(k, desc, b, a),
{
    match k {
        SortKey::Name => lemma_lex_le_total(a.name@, b.name@),
        SortKey::Price => {},
        SortKey::Category => lemma_lex_le_total(category_view(a), category_view(b)),
    }
}

/// The requested comparison is transitive.
pub proof fn lemma_cmp_le_trans(k: SortKey, desc: bool, a: Product, b: Product, c: Product)
    requires
        cmp_le(k, desc, a, b),
        cmp_le(k, desc, b, c),
    ensures
        cmp_le(k, desc, a, c),
{
    match k {
        SortKey::Name => {
            if desc {
                lemma_lex_le_trans(c.name@, b.name@, a.name@);
            } else {
                lemma_lex_le_trans(a.name@, b.name@, c.name@);
            }
        },
        SortKey::Price => {},
        SortKey::Category => {
            if desc {
                lemma_lex_le_trans(category_view(c), category_view(b), category_view(a));
            } else {
                lemma_lex_le_trans(category_view(a), category_view(b), category_view(c));
            }
        },
    }
}

/// Every pair of the sequence, in order, satisfies the requested
/// comparison.
pub open spec fn sorted_by_key(s: Seq<Product>, k: SortKey, desc: bool) -> bool {
    forall|i: int, j: int| 0 <= i < j < s.len() ==> cmp_le(k, desc, s[i], s[j])
}

/// Compares two products under the requested key and direction.
fn product_le(k: SortKey, desc: bool, a: &Product, b: &Product) -> (r: bool)
    ensures
        r == cmp_le(k, desc, *a, *b),
{
    let (x, y) = if desc { (b, a) } else { (a, b) };
    match k {
        SortKey::Name => str_le(x.name.as_str(), y.name.as_str()),
        SortKey::Price => x.price <= y.price,
        SortKey::Category => {
            proof {
                reveal_strlit("");
                assert(""@ =~= Seq::<char>::empty());
            }
            let cx = match &x.category {
                Option::Some(c) => c.as_str(),
                Option::None => "",
            };
            let cy = match &y.category {
                Option::Some(c) => c.as_str(),
                Option::None => "",
            };
            str_le(cx, cy)
        },
    }
}

/// Where a stable sort puts `x` into the already-sorted `s`: after
/// every element that compares at or below it, so that ties keep the
/// earlier element first.
pub open spec fn insert_sorted(x: Product, s: Seq<Product>, k: SortKey, desc: bool) -> Seq<Product>
    decreases s.len(),
{
    if s.len() == 0 {
        seq![x]
    } else if cmp_le(k, desc, s.last(), x) {
        s.push(x)
    } else {
        insert_sorted(x, s.drop_last(), k, desc).push(s.last())
    }
}

/// The stable sort of `s` under the requested comparison: each element
/// inserted in turn, ties keeping their original order.
pub open spec fn stable_sorted(s: Seq<Product>, k: SortKey, desc: bool) -> Seq<Product>
    decreases s.len(),
{
    if s.len() == 0 {
        s
    } else {
        insert_sorted(s.last(), stable_sorted(s.drop_last(), k, desc), k, desc)
    }
}

/// Where the split point of a stable insertion is known — everything at
/// or below `x` before `p`, everything after `p` strictly above `x` —
/// the insertion is exactly the sequence with `x` placed at `p`.
proof fn lemma_insert_sorted_split(x: Product, s: Seq<Product>, k: SortKey, desc: bool, p: int)
    requires
        0 <= p <= s.len(),
        p == 0 || cmp_le(k, desc, s[p - 1], x),
        forall|m: int| p <= m < s.len() ==> !cmp_le(k, desc, s[m], x),
    ensures
        insert_sorted(x, s, k, desc) == s.subrange(0, p) + seq![x] + s.subrange(p, s.len() as int),
    decreases s.len(),
{
    if s.len() == 0 {
        assert(insert_sorted(x, s, k, desc) =~= s.subrange(0, p) + seq![x] + s.subrange(
            p,
            s.len() as int,
        ));
    } else if cmp_le(k, desc, s.last(), x) {
        if p < s.len() {
            assert(!cmp_le(k, desc, s[s.len() - 1], x));
            assert(false);
        }
        assert(s.push(x) =~= s.subrange(0, p) + seq![x] + s.subrange(p, s.len() as int));
    } else {
        if p == s.len() {
            assert(cmp_le(k, desc, s[p - 1], x));
            assert(false);
        }
        let dl = s.drop_last();
        assert(forall|m: int| p <= m < dl.len() ==> !cmp_le(k, desc, dl[m], x));
        lemma_insert_sorted_split(x, dl, k, desc, p);
        assert(dl.subrange(0, p) =~= s.subrange(0, p));
        assert(insert_sorted(x, s, k, desc) =~= s.subrange(0, p) + seq![x] + s.subrange(
            p,
            s.len() as int,
        ));
    }
}

/// Swapping two positions of a sequence leaves its multiset of elements
/// unchanged.
proof fn lemma_swap_multiset(s: Seq<Product>, i: int, j: int)
    requires
        0 <= i < s.len(),
        0 <= j < s.len(),
    ensures
        s.update(i, s[j]).update(j, s[i]).to_multiset() == s.to_multiset(),
{
    broadcast use vstd::seq_lib::group_to_multiset_ensures;
    broadcast use vstd::seq_lib::to_multiset_update;
    broadcast use vstd::multiset::group_multiset_axioms;

    let t = s.update(i, s[j]).update(j, s[i]);
    assert(s.update(i, s[j])[j] == if i == j { s[j] } else { s[j] });
    assert(t.to_multiset() =~= s.to_multiset());
}

/// Sorts the products in place by the requested key and direction. The
/// result is exactly the stable sort of the input: the same products,
/// every pair in order satisfying the requested comparison, and ties
/// keeping their original order.
pub fn sort_products(v: &mut Vec<Product>, k: SortKey, desc: bool)
    ensures
        final(v)@.len() == old(v)@.len(),
        final(v)@.to_multiset() == old(v)@.to_multiset(),
        sorted_by_key(final(v)@, k, desc),
        final(v)@ == stable_sorted(old(v)@, k, desc),
{
    let n = v.len();
    if n == 0 {
        return;
    }
    proof {
        let first = old(v)@.subrange(0, 1);
        assert(first.drop_last() =~= Seq::<Product>::empty());
        assert(stable_sorted(first.drop_last(), k, desc) == first.drop_last());
        assert(insert_sorted(first.last(), first.drop_last(), k, desc) =~= seq![first.last()]);
        assert(stable_sorted(first, k, desc) =~= first);
    }
    if n == 1 {
        proof {
            assert(old(v)@.subrange(0, 1) =~= old(v)@);
        }
        return;
    }
    let mut i: usize = 1;
    while i < n
        invariant
            n == v@.len(),
            v@.len() == old(v)@.len(),
            v@.to_multiset() == old(v)@.to_multiset(),
            1 <= i <= n,
            forall|a: int, b: int| 0 <= a < b < i ==> cmp_le(k, desc, v@[a], v@[b]),
            v@.subrange(0, i as int) == stable_sorted(old(v)@.subrange(0, i as int), k, desc),
            v@.skip(i as int) == old(v)@.skip(i as int),
        decreases n - i,
    {
        let ghost sp = stable_sorted(old(v)@.subrange(0, i as int), k, desc);
        let ghost x = v@[i as int];
        proof {
            assert(sp.len() == i);
            assert(v@.skip(i as int)[0] == v@[i as int]);
            assert(old(v)@.skip(i as int)[0] == old(v)@[i as int]);
            assert(x == old(v)@[i as int]);
            assert(v@.subrange(0, i as int) =~= sp.subrange(0, i as int));
            assert(v@.subrange(i + 1, i + 1) =~= sp.subrange(i as int, i as int));
            assert forall|m: int| i + 1 <= m < n as int implies v@[m] == old(v)@[m] by {
                assert(v@.skip(i as int)[m - i] == old(v)@.skip(i as int)[m - i]);
            }
            assert(v@.skip(i + 1) =~= old(v)@.skip(i + 1));
        }
        let mut j: usize = i;
        while j > 0 && !product_le(k, desc, &v[j - 1], &v[j])
            invariant
                n == v@.len(),
                v@.len() == old(v)@.len(),
                v@.to_multiset() == old(v)@.to_multiset(),
                0 <= j <= i < n,
                forall|a: int, b: int|
                    0 <= a < b <= i as int && b != j as int ==> cmp_le(k, desc, v@[a], v@[b]),
                sp == stable_sorted(old(v)@.subrange(0, i as int), k, desc),
                sp.len() == i,
                x == old(v)@[i as int],
                v@.subrange(0, j as int) == sp.subrange(0, j as int),
                v@[j as int] == x,
                v@.subrange(j + 1, i + 1) == sp.subrange(j as int, i as int),
                forall|m: int| j <= m < i as int ==> !cmp_le(k, desc, sp[m], x),
                v@.skip(i + 1) == old(v)@.skip(i + 1),
            decreases j,
        {
            proof {
                lemma_cmp_le_total(k, desc, v@[j - 1], v@[j as int]);
                lemma_swap_multiset(v@, j - 1, j as int);
            }
            let ghost before = v@;
            let x_prev = v[j - 1].clone();
            let y_cur = v[j].clone();
            v.set(j - 1, y_cur);
            v.set(j, x_prev);
            proof {
                assert(v@ =~= before.update(j - 1, before[j as int]).update(
                    j as int,
                    before[j - 1],
                ));
                assert(before.subrange(0, j as int)[j - 1] == sp.subrange(0, j as int)[j - 1]);
                assert(before[j - 1] == sp[j - 1]);
                assert(!cmp_le(k, desc, sp[j - 1], x));
                assert forall|m: int| 0 <= m < j - 1 implies v@[m] == sp[m] by {
                    assert(before.subrange(0, j as int)[m] == sp.subrange(0, j as int)[m]);
                }
                assert(v@.subrange(0, j - 1) =~= sp.subrange(0, j - 1));
                assert forall|m: int| j <= m <= i as int implies v@[m] == sp[m - 1] by {
                    if m > j as int {
                        assert(before.subrange(j + 1, i + 1)[m - j - 1] == sp.subrange(
                            j as int,
                            i as int,
                        )[m - j - 1]);
                    }
                }
                assert(v@.subrange(j as int, i + 1) =~= sp.subrange(j - 1, i as int));
                assert(v@.skip(i + 1) =~= before.skip(i + 1));
            }
            j = j - 1;
        }
        proof {
            if j > 0 {
                assert(v@.subrange(0, j as int)[j - 1] == sp.subrange(0, j as int)[j - 1]);
                assert(cmp_le(k, desc, sp[j - 1], x));
                assert forall|a: int, b: int|
                    0 <= a < b <= i as int implies cmp_le(k, desc, v@[a], v@[b]) by {
                    if b == j as int {
                        assert(cmp_le(k, desc, v@[j - 1], v@[j as int]));
                        if a < j - 1 {
                            assert(cmp_le(k, desc, v@[a], v@[j - 1]));
                            lemma_cmp_le_trans(k, desc, v@[a], v@[j - 1], v@[j as int]);
                        }
                    }
                }
            }
            lemma_insert_sorted_split(x, sp, k, desc, j as int);
            assert forall|m: int| 0 <= m <= i as int implies v@[m] == (sp.subrange(0, j as int)
                + seq![x] + sp.subrange(j as int, i as int))[m] by {
                if m < j as int {
                    assert(v@.subrange(0, j as int)[m] == sp.subrange(0, j as int)[m]);
                } else if m > j as int {
                    assert(v@.subrange(j + 1, i + 1)[m - j - 1] == sp.subrange(
                        j as int,
                        i as int,
                    )[m - j - 1]);
                }
            }
            assert(v@.subrange(0, i + 1) =~= sp.subrange(0, j as int) + seq![x] + sp.subrange(
                j as int,
                i as int,
            ));
            let nextp = old(v)@.subrange(0, i + 1);
            assert(nextp.drop_last() =~= old(v)@.subrange(0, i as int));
            assert(nextp.last() == old(v)@[i as int]);
            assert(stable_sorted(nextp, k, desc) == insert_sorted(x, sp, k, desc));
            assert(v@.subrange(0, i + 1) == stable_sorted(nextp, k, desc));
        }
        i = i + 1;
    }
    proof {
        assert(v@.subrange(0, n as int) =~= v@);
        assert(old(v)@.subrange(0, n as int) =~= old(v)@);
    }
}

/// The query asks for the reversed order.
pub open spec fn descending(q: ProductQuery) -> bool {
    match q.sort_order {
        Option::Some(o) => o@ == "desc"@,
        Option::None => false,
    }
}

/// The sort the query requests: a recognized key together with the
/// direction, or nothing — an absent or unrecognized key leaves the
/// order untouched.
pub open spec fn sort_spec_of(q: ProductQuery) -> Option<(SortKey, bool)> {
    match q.sort_by {
        Option::Some(s) => match sort_key_of(s@) {
            Option::Some(k) => Option::Some((k, descending(q))),
            Option::None => Option::None,
        },
        Option::None => Option::None,
    }
}

/// What filtering-then-sorting returns: with no requested sort, exactly
/// the filtered list; with one, exactly the stable sort of the filtered
/// list — the same products, every pair in order satisfying the
/// requested comparison, ties keeping their filtered order.
pub open spec fn filter_and_sort_post(products: Seq<Product>, q: ProductQuery, r: Seq<Product>) -> bool {
    match sort_spec_of(q) {
        Option::Some((k, desc)) => {
            &&& r == stable_sorted(filtered(products, q), k, desc)
            &&& r.len() == filtered(products, q).len()
            &&& r.to_multiset() == filtered(products, q).to_multiset()
            &&& sorted_by_key(r, k, desc)
        },
        Option::None => r == filtered(products, q),
    }
}

/// Filters, then sorts if the query names a recognized sort key.
pub fn filter_and_sort_products(products: &Vec<Product>, query: &ProductQuery) -> (r: Vec<Product>)
    ensures
        filter_and_sort_post(products@, *query, r@),
{
    let mut out = filter_products(products, query);
    if let Option::Some(sort_by) = &query.sort_by {
        if let Option::Some(k) = parse_sort_key(sort_by.as_str()) {
            let desc = match &query.sort_order {
                Option::Some(o) => str_eq(o.as_str(), "desc"),
                Option::None => false,
            };
            sort_products(&mut out, k, desc);
        }
    }
    out
}

/// The page `[offset, offset + limit)` of a sequence, clipped to its
/// length; an offset past the end gives the empty page.
pub open spec fn page_of(s: Seq<Product>, offset: int, limit: int) -> Seq<Product>
    recommends
        offset >= 0,
        limit >= 0,
{
    if offset >= s.len() {
        Seq::empty()
    } else if offset + limit <= s.len() {
        s.subrange(offset, offset + limit)
    } else {
        s.subrange(offset, s.len() as int)
    }
}

/// Copies the page `[offset, offset + limit)` of the list, clipped to
/// its length.
pub fn paginate(products: &Vec<Product>, offset: usize, limit: usize) -> (r: Vec<Product>)
    ensures
        r@ == page_of(products@, offset as int, limit as int),
{
    let mut out: Vec<Product> = Vec::new();
    let n = products.len();
    if offset >= n {
        return out;
    }
    let end = if limit < n - offset {
        offset + limit
    } else {
        n
    };
    let mut i: usize = offset;
    while i < end
        invariant
            n == products@.len(),
            offset <= i <= end <= n,
            end as int == if offset + limit <= n as int {
                offset + limit as int
            } else {
                n as int
            },
            out@ == products@.subrange(offset as int, i as int),
        decreases end - i,
    {
        out.push(products[i].clone());
        proof {
            assert(products@.subrange(offset as int, i + 1) =~= products@.subrange(
                offset as int,
                i as int,
            ).push(products@[i as int]));
        }
        i = i + 1;
    }
    out
}

/// The pagination offset the query requests; 0 when absent.
pub open spec fn offset_of(q: ProductQuery) -> int {
    match q.offset {
        Option::Some(o) => o as int,
        Option::None => 0,
    }
}

/// The page size the query requests; 6 when absent.
pub open spec fn limit_of(q: ProductQuery) -> int {
    match q.limit {
        Option::Some(l) => l as int,
        Option::None => 6,
    }
}

/// What the whole pipeline returns: the requested page of some list that
/// filtering-then-sorting could have produced.
pub open spec fn apply_post(products: Seq<Product>, q: ProductQuery, r: Seq<Product>) -> bool {
    exists|mid: Seq<Product>|
        #[trigger] filter_and_sort_post(products, q, mid) && r == page_of(
            mid,
            offset_of(q),
            limit_of(q),
        )
}

/// The whole pipeline: filter, sort, then paginate, in that order.
pub fn apply(products: &Vec<Product>, query: &ProductQuery) -> (r: Vec<Product>)
    ensures
        apply_post(products@, *query, r@),
{
    let mid = filter_and_sort_products(products, query);
    let offset = match query.offset {
        Option::Some(o) => o,
        Option::None => 0,
    };
    let limit = match query.limit {
        Option::Some(l) => l,
        Option::None => 6,
    };
    let r = paginate(&mid, offset, limit);
    proof {
        assert(filter_and_sort_post(products@, *query, mid@) && r@ == page_of(
            mid@,
            offset_of(*query),
            limit_of(*query),
        ));
    }
    r
}

/// With no requested sort, the pipeline's result is pinned down
/// exactly: the requested page of the filtered list.
pub proof fn lemma_apply_unsorted_exact(products: Seq<Product>, q: ProductQuery, r: Seq<Product>)
    requires
        apply_post(products, q, r),
        sort_spec_of(q) is None,
    ensures
        r == page_of(filtered(products, q), offset_of(q), limit_of(q)),
{
    let mid = choose|mid: Seq<Product>|
        #[trigger] filter_and_sort_post(products, q, mid) && r == page_of(
            mid,
            offset_of(q),
            limit_of(q),
        );
    assert(mid == filtered(products, q));
}

/// With a recognized sort, the pipeline's result is pinned down
/// exactly: the requested page of the stable sort of the filtered list.
pub proof fn lemma_apply_sorted_exact(
    products: Seq<Product>,
    q: ProductQuery,
    r: Seq<Product>,
    k: SortKey,
    desc: bool,
)
    requires
        apply_post(products, q, r),
        sort_spec_of(q) == Option::Some((k, desc)),
    ensures
        r == page_of(stable_sorted(filtered(products, q), k, desc), offset_of(q), limit_of(q)),
{
    let mid = choose|mid: Seq<Product>|
        #[trigger] filter_and_sort_post(products, q, mid) && r == page_of(
            mid,
            offset_of(q),
            limit_of(q),
        );
    assert(mid == stable_sorted(filtered(products, q), k, desc));
}

/// Every product the pipeline returns passes every filter the query
/// carries.
pub proof fn lemma_apply_passes_filters(
    products: Seq<Product>,
    q: ProductQuery,
    r: Seq<Product>,
    i: int,
)
    requires
        apply_post(products, q, r),
        0 <= i < r.len(),
    ensures
        passes_filters(r[i], q),
{
    broadcast use vstd::seq_lib::group_to_multiset_ensures;

    let mid = choose|mid: Seq<Product>|
        #[trigger] filter_and_sort_post(products, q, mid) && r == page_of(
            mid,
            offset_of(q),
            limit_of(q),
        );
    let o = offset_of(q);
    assert(o < mid.len());
    assert(r[i] == mid[o + i]);
    assert(mid.contains(mid[o + i]));
    let f = filtered(products, q);
    if sort_spec_of(q) is Some {
        assert(mid.to_multiset().count(r[i]) > 0);
        assert(f.contains(r[i]));
    } else {
        assert(f.contains(r[i]));
    }
    let idx = choose|idx: int| 0 <= idx < f.len() && f[idx] == r[i];
    products.lemma_filter_pred(|p: Product| passes_filters(p, q), idx);
}

/// With a category filter, every product the pipeline returns has
/// exactly that category.
pub proof fn lemma_apply_category(
    products: Seq<Product>,
    q: ProductQuery,
    r: Seq<Product>,
    c: String,
    i: int,
)
    requires
        apply_post(products, q, r),
        q.category == Option::Some(c),
        0 <= i < r.len(),
    ensures
        matches_category(r[i], c@),
{
    lemma_apply_passes_filters(products, q, r, i);
}

/// With price bounds `[lo, hi]`, every product the pipeline returns has
/// its price in `[lo, hi]`.
pub proof fn lemma_apply_price_bounds(
    products: Seq<Product>,
    q: ProductQuery,
    r: Seq<Product>,
    lo: i64,
    hi: i64,
    i: int,
)
    requires
        apply_post(products, q, r),
        q.min_price == Option::Some(lo),
        q.max_price == Option::Some(hi),
        0 <= i < r.len(),
    ensures
        lo <= r[i].price <= hi,
{
    lemma_apply_passes_filters(products, q, r, i);
}

/// With a search term, every product the pipeline returns contains the
/// term, case-folded, in its name, description, or category.
pub proof fn lemma_apply_search(
    products: Seq<Product>,
    q: ProductQuery,
    r: Seq<Product>,
    t: String,
    i: int,
)
    requires
        apply_post(products, q, r),
        q.search_term == Option::Some(t),
        0 <= i < r.len(),
    ensures
        matches_search(r[i], t@),
{
    lemma_apply_passes_filters(products, q, r, i);
}

/// With a requested sort, every pair the pipeline returns, in order,
/// satisfies the requested comparison.
pub proof fn lemma_apply_sorted(
    products: Seq<Product>,
    q: ProductQuery,
    r: Seq<Product>,
    k: SortKey,
    desc: bool,
    i: int,
    j: int,
)
    requires
        apply_post(products, q, r),
        sort_spec_of(q) == Option::Some((k, desc)),
        0 <= i < j < r.len(),
    ensures
        cmp_le(k, desc, r[i], r[j]),
{
    let mid = choose|mid: Seq<Product>|
        #[trigger] filter_and_sort_post(products, q, mid) && r == page_of(
            mid,
            offset_of(q),
            limit_of(q),
        );
    let o = offset_of(q);
    assert(o < mid.len());
    assert(r[i] == mid[o + i]);
    assert(r[j] == mid[o + j]);
}

/// Sorting by price ascending: prices are non-decreasing along the
/// returned page.
pub proof fn lemma_apply_price_ascending(
    products: Seq<Product>,
    q: ProductQuery,
    r: Seq<Product>,
    i: int,
    j: int,
)
    requires
        apply_post(products, q, r),
        sort_spec_of(q) == Option::Some((SortKey::Price, false)),
        0 <= i < j < r.len(),
    ensures
        r[i].price <= r[j].price,
{
    lemma_apply_sorted(products, q, r, SortKey::Price, false, i, j);
}

/// Sorting by price descending: prices are non-increasing along the
/// returned page.
pub proof fn lemma_apply_price_descending(
    products: Seq<Product>,
    q: ProductQuery,
    r: Seq<Product>,
    i: int,
    j: int,
)
    requires
        apply_post(products, q, r),
        sort_spec_of(q) == Option::Some((SortKey::Price, true)),
        0 <= i < j < r.len(),
    ensures
        r[i].price >= r[j].price,
{
    lemma_apply_sorted(products, q, r, SortKey::Price, true, i, j);
}

/// The pipeline returns exactly `min(limit, max(0, filtered length -
/// offset))` products.
pub proof fn lemma_apply_page_len(products: Seq<Product>, q: ProductQuery, r: Seq<Product>)
    requires
        apply_post(products, q, r),
    ensures
        r.len() == vstd::math::min(
            limit_of(q),
            vstd::math::max(0, filtered(products, q).len() - offset_of(q)),
        ),
{
    let mid = choose|mid: Seq<Product>|
        #[trigger] filter_and_sort_post(products, q, mid) && r == page_of(
            mid,
            offset_of(q),
            limit_of(q),
        );
    assert(mid.len() == filtered(products, q).len());
}

} // verus!
