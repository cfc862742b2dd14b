//! "Sounds-like" search over a collection sorted by fingerprint.
use vstd::prelude::*;
use crate::packing::{all_ones, ones, prefix_range};
use crate::phonemes::Phonehash;
use crate::repr::PhonehashRepr;

verus! {

/// The Damerau-Levenshtein distance between two texts.
pub uninterp spec fn edit_distance(a: Seq<char>, b: Seq<char>) -> nat;

/// Relies on `strsim::damerau_levenshtein`: the edit distance between the
/// two texts, counting insertions, deletions, substitutions and
/// transpositions of characters. It depends on the texts alone.
#[verifier::external_body]
fn distance(a: &str, b: &str) -> (r: usize)
    ensures
        r as nat == edit_distance(a@, b@),
{
    strsim::damerau_levenshtein(a, b)
}

/// An item that can be searched for: a text and its fingerprint.
pub trait SearchableItem: Clone {
    type Repr: PhonehashRepr;

    /// The fingerprint, as a number. An implementation checked by Verus
    /// defines it; for one outside, it is whatever `as_phoneme` returns.
    closed spec fn phoneme(&self) -> u128 {
        arbitrary()
    }

    /// The text. An implementation checked by Verus defines it; for one
    /// outside, it is whatever `as_str` returns.
    closed spec fn text(&self) -> Seq<char> {
        arbitrary()
    }

    fn as_phoneme(&self) -> (r: Phonehash<Self::Repr>)
        ensures
            r@ == self.phoneme(),
    ;

    fn as_str(&self) -> (r: &str)
        ensures
            r@ == self.text(),
    ;
}

/// The items are in ascending order of fingerprint.
pub open spec fn sorted_by_phoneme<I: SearchableItem>(list: Seq<I>) -> bool {
    forall|i: int, j: int| 0 <= i <= j < list.len() ==> list[i].phoneme() <= list[j].phoneme()
}

/// The first index from `i` on whose fingerprint is not below `q`.
pub open spec fn first_not_below<I: SearchableItem>(list: Seq<I>, q: u128, i: int) -> int
    decreases list.len() - i,
{
    if i < 0 || i >= list.len() || list[i].phoneme() >= q {
        i
    } else {
        first_not_below(list, q, i + 1)
    }
}

/// The end of the run of fingerprints equal to `q` that starts at `i`.
pub open spec fn exact_end<I: SearchableItem>(list: Seq<I>, q: u128, i: int) -> int
    decreases list.len() - i,
{
    if i < 0 || i >= list.len() || list[i].phoneme() != q {
        i
    } else {
        exact_end(list, q, i + 1)
    }
}

/// The end of the run, starting at `i` and stopping at `limit`, of
/// fingerprints that start with `q`, the tail mask growing from `m`.
pub open spec fn fuzzy_end<I: SearchableItem>(
    list: Seq<I>,
    q: u128,
    m: u128,
    i: int,
    limit: int,
) -> int
    decreases limit - i,
{
    if i < 0 || i >= limit || i >= list.len() || !prefix_range(list[i].phoneme(), q, m) {
        i
    } else {
        fuzzy_end(list, q, m, i + 1, limit)
    }
}

/// Where the candidates of a search begin: the lower bound of the query's
/// fingerprint.
pub open spec fn window_start<I: SearchableItem>(list: Seq<I>, query: I) -> int {
    first_not_below(list, query.phoneme(), 0)
}

/// Where the candidates of a search end: after the run of equal
/// fingerprints, and after the run of fingerprints that start with the
/// query's, this one stopping at `max_items` past the start.
pub open spec fn window_end<I: SearchableItem>(list: Seq<I>, query: I, max_items: nat) -> int {
    let lb = window_start(list, query);
    let e = exact_end(list, query.phoneme(), lb);
    let limit = if lb + max_items < list.len() {
        lb + max_items
    } else {
        list.len() as int
    };
    fuzzy_end(list, query.phoneme(), ones(I::Repr::width()) as u128, e, limit)
}

/// The distance of item `i`'s text from the query's.
pub open spec fn dist<I: SearchableItem>(list: Seq<I>, query: I, i: int) -> nat {
    edit_distance(list[i].text(), query.text())
}

/// Item `i` ranks before item `j`: nearer the query, or as near and earlier.
pub open spec fn ranks_before<I: SearchableItem>(list: Seq<I>, query: I, i: int, j: int) -> bool {
    dist(list, query, i) < dist(list, query, j) || (dist(list, query, i) == dist(list, query, j)
        && i < j)
}

/// `r` lists the indices of the best-ranked candidates, best first: as many as
/// `max_items` allows, and every candidate left out ranks after all of them.
pub open spec fn is_ranking<I: SearchableItem>(
    list: Seq<I>,
    query: I,
    max_items: nat,
    r: Seq<usize>,
) -> bool {
    let lb = window_start(list, query);
    let fe = window_end(list, query, max_items);
    &&& r.len() == if max_items < fe - lb {
        max_items as int
    } else {
        fe - lb
    }
    &&& forall|k: int| 0 <= k < r.len() ==> lb <= #[trigger] r[k] < fe
    &&& forall|k: int, l: int|
        0 <= k < l < r.len() ==> ranks_before(list, query, r[k] as int, r[l] as int)
    &&& forall|j: int, k: int|
        lb <= j < fe && !r.contains(j as usize) && 0 <= k < r.len() ==> #[trigger] ranks_before(
            list,
            query,
            r[k] as int,
            j,
        )
}

/// Position `a` ranks before position `b` by distance, then position.
pub open spec fn local_before(d: Seq<usize>, a: int, b: int) -> bool {
    d[a] < d[b] || (d[a] == d[b] && a < b)
}

/// The positions `0..d.len()` in ranking order.
fn rank_positions(d: &Vec<usize>) -> (r: Vec<usize>)
    ensures
        r.len() == d.len(),
        forall|k: int| 0 <= k < r.len() ==> r[k] < d.len(),
        forall|k: int, l: int| 0 <= k < l < r.len() ==> local_before(d@, r[k] as int, r[l] as int),
        forall|p: usize| p < d.len() ==> r@.contains(p),
{
    let mut sorted: Vec<usize> = Vec::new();
    let mut k: usize = 0;
    while k < d.len()
        invariant
            k <= d.len(),
            sorted.len() == k,
            forall|t: int| 0 <= t < sorted.len() ==> sorted[t] < k,
            forall|a: int, b: int|
                0 <= a < b < sorted.len() ==> local_before(d@, sorted[a] as int, sorted[b] as int),
            forall|p: usize| p < k ==> sorted@.contains(p),
        decreases d.len() - k,
    {
        let dk = d[k];
        let mut pos: usize = 0;
        while pos < sorted.len() && d[sorted[pos]] <= dk
            invariant
                pos <= sorted.len(),
                k < d.len(),
                dk == d[k as int],
                forall|t: int| 0 <= t < sorted.len() ==> sorted[t] < k,
                forall|t: int| 0 <= t < pos ==> d[sorted[t] as int] <= dk,
            decreases sorted.len() - pos,
        {
            pos = pos + 1;
        }
        let ghost old_sorted = sorted@;
        proof {
            assert forall|t: int| pos <= t < old_sorted.len() implies d[old_sorted[t] as int] > dk by {
                if t > pos {
                    assert(local_before(d@, old_sorted[pos as int] as int, old_sorted[t] as int));
                }
            }
        }
        sorted.insert(pos, k);
        proof {
            assert(sorted@ =~= old_sorted.insert(pos as int, k));
            assert forall|p: usize| p < k + 1 implies sorted@.contains(p) by {
                if p == k {
                    assert(sorted@[pos as int] == k);
                } else {
                    assert(old_sorted.contains(p));
                    let idx = choose|idx: int| 0 <= idx < old_sorted.len() && old_sorted[idx] == p;
                    if idx < pos {
                        assert(sorted@[idx] == p);
                    } else {
                        assert(sorted@[idx + 1] == p);
                    }
                }
            }
        }
        k = k + 1;
    }
    sorted
}

/// A collection that can be searched, sorted by fingerprint.
pub trait SearchableList {
    type ListItem: SearchableItem;

    /// The items in order.
    spec fn items(&self) -> Seq<Self::ListItem>;

    /// The length of the list.
    fn len(&self) -> (r: usize)
        ensures
            r == self.items().len(),
    ;

    /// The item at `index`.
    fn item_at(&self, index: usize) -> (r: &Self::ListItem)
        requires
            index < self.items().len(),
        ensures
            *r == self.items()[index as int],
    ;

    /// The indices of the items found for `query`, best first: see
    /// `phonehash_search`.
    fn phonehash_search_indices(&self, query: &Self::ListItem, max_items: usize) -> (r: Vec<usize>)
        requires
            sorted_by_phoneme(self.items()),
        ensures
            is_ranking(self.items(), *query, max_items as nat, r@),
            forall|k: int| 0 <= k < r.len() ==> #[trigger] r[k] < self.items().len(),
            self.items().len() == 0 || max_items == 0 ==> r.len() == 0,
    {
        let n = self.len();
        let ghost list = self.items();
        let ghost q = query.phoneme();
        let qp = query.as_phoneme();
        let mut size: usize = n;
        let mut base: usize = 0;
        while size > 0
            invariant
                n == list.len(),
                list == self.items(),
                sorted_by_phoneme(list),
                qp@ == q,
                base + size <= n,
                forall|j: int| 0 <= j < base ==> list[j].phoneme() < q,
                forall|j: int| base + size <= j < n ==> list[j].phoneme() >= q,
            decreases size,
        {
            let half = size / 2;
            let mid = base + half;
            if self.item_at(mid).as_phoneme().less_than(&qp) {
                base = mid + 1;
                size = size - half - 1;
            } else {
                size = half;
            }
        }
        proof {
            lemma_first_not_below(list, q, 0, base as int);
        }
        let start: usize = base;
        let ghost lb = base as int;
        let limit: usize = if max_items < n - base {
            base + max_items
        } else {
            n
        };
        let mut dists: Vec<usize> = Vec::new();
        while base < n && self.item_at(base).as_phoneme().same_as(&qp)
            invariant
                n == list.len(),
                list == self.items(),
                qp@ == q,
                lb <= base <= n,
                exact_end(list, q, lb) == exact_end(list, q, base as int),
                dists.len() == base - lb,
                forall|t: int| 0 <= t < dists.len() ==> dists[t] == dist(list, *query, lb + t),
            decreases n - base,
        {
            let item = self.item_at(base);
            let dd = distance(item.as_str(), query.as_str());
            dists.push(dd);
            base = base + 1;
        }
        let ghost e = base as int;
        let m = all_ones(<Self::ListItem as SearchableItem>::Repr::bits());
        while base < limit && self.item_at(base).as_phoneme().starts_with(qp)
            invariant
                n == list.len(),
                list == self.items(),
                qp@ == q,
                m == ones(<Self::ListItem as SearchableItem>::Repr::width()) as u128,
                limit <= n,
                lb <= e <= base,
                base <= limit || base == e,
                e == exact_end(list, q, lb),
                fuzzy_end(list, q, m, e, limit as int) == fuzzy_end(list, q, m, base as int, limit as int),
                dists.len() == base - lb,
                forall|t: int| 0 <= t < dists.len() ==> dists[t] == dist(list, *query, lb + t),
            decreases n - base,
        {
            let item = self.item_at(base);
            let dd = distance(item.as_str(), query.as_str());
            dists.push(dd);
            base = base + 1;
        }
        let ghost fe = base as int;
        proof {
            assert(fe == window_end(list, *query, max_items as nat));
        }
        let order = rank_positions(&dists);
        let count: usize = if max_items < order.len() {
            max_items
        } else {
            order.len()
        };
        let mut r: Vec<usize> = Vec::new();
        let mut i: usize = 0;
        while i < count
            invariant
                i <= count <= order.len(),
                order.len() == dists.len(),
                start == lb,
                lb + dists.len() == fe,
                fe <= n,
                forall|k: int| 0 <= k < order.len() ==> order[k] < dists.len(),
                r.len() == i,
                forall|t: int| 0 <= t < i ==> r[t] == start + order[t],
            decreases count - i,
        {
            r.push(start + order[i]);
            i = i + 1;
        }
        proof {
            let d = dists@;
            assert forall|k: int, l: int| 0 <= k < l < r.len() implies ranks_before(
                list,
                *query,
                r[k] as int,
                r[l] as int,
            ) by {
                assert(local_before(d, order[k] as int, order[l] as int));
            }
            assert forall|j: int, k: int|
                lb <= j < fe && !r@.contains(j as usize) && 0 <= k < r.len() implies #[trigger] ranks_before(
                list,
                *query,
                r[k] as int,
                j,
            ) by {
                let p = (j - lb) as usize;
                assert(order@.contains(p));
                let idx = choose|idx: int| 0 <= idx < order.len() && order[idx] == p;
                if idx < count {
                    assert(r@[idx] == j as usize);
                }
                assert(local_before(d, order[k] as int, order[idx] as int));
            }
        }
        r
    }

    /// Searches the list, which must be sorted by fingerprint, for items that
    /// sound like `query`: the items whose fingerprint equals the query's,
    /// then those that follow and start with it (up to `max_items` past the
    /// first), ranked by edit distance to the query's text and cut to
    /// `max_items`.
    fn phonehash_search(&self, query: &Self::ListItem, max_items: usize) -> (r: Vec<&Self::ListItem>)
        requires
            sorted_by_phoneme(self.items()),
        ensures
            exists|idx: Seq<usize>|
                is_ranking(self.items(), *query, max_items as nat, idx) && idx.len() == r.len()
                    && forall|k: int| 0 <= k < idx.len() ==> *r[k] == self.items()[#[trigger] idx[k] as int],
            self.items().len() == 0 || max_items == 0 ==> r.len() == 0,
    {
        let idx = self.phonehash_search_indices(query, max_items);
        let mut out: Vec<&Self::ListItem> = Vec::new();
        let mut i: usize = 0;
        while i < idx.len()
            invariant
                i <= idx.len(),
                forall|k: int| 0 <= k < idx.len() ==> #[trigger] idx[k] < self.items().len(),
                out.len() == i,
                forall|k: int| 0 <= k < i ==> *out[k] == self.items()[#[trigger] idx[k] as int],
            decreases idx.len() - i,
        {
            out.push(self.item_at(idx[i]));
            i = i + 1;
        }
        out
    }
}

impl<T: SearchableItem> SearchableList for Vec<T> {
    type ListItem = T;

    open spec fn items(&self) -> Seq<T> {
        self@
    }

    fn len(&self) -> (r: usize) {
        self.len()
    }

    fn item_at(&self, index: usize) -> (r: &T) {
        &self[index]
    }
}

impl<T: SearchableItem> SearchableList for [T] {
    type ListItem = T;

    open spec fn items(&self) -> Seq<T> {
        self@
    }

    fn len(&self) -> (r: usize) {
        self.len()
    }

    fn item_at(&self, index: usize) -> (r: &T) {
        &self[index]
    }
}

proof fn lemma_first_not_below<I: SearchableItem>(list: Seq<I>, q: u128, i: int, b: int)
    requires
        0 <= i <= b <= list.len(),
        forall|j: int| 0 <= j < b ==> list[j].phoneme() < q,
        forall|j: int| b <= j < list.len() ==> list[j].phoneme() >= q,
    ensures
        first_not_below(list, q, i) == b,
    decreases b - i,
{
    if i < b {
        lemma_first_not_below(list, q, i + 1, b);
    }
}

} // verus!
