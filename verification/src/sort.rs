//! Stable sorting under a strict weak order.
use vstd::prelude::*;

use crate::order::{
    goes_before, lemma_goes_before_is_weak_order, lemma_row_order_laws, lemma_sort_mode_fields,
    precedes, ties_with, ConditionRow, SortMode,
};
use crate::text::{lemma_text_order_equal, text_order};
use crate::time::later_than;

verus! {

/// A strict weak order on `T` with an executable test.
pub trait StableOrder<T>: Sized {
    /// `a` goes strictly before `b`.
    spec fn before(&self, a: T, b: T) -> bool;

    /// Neither of `a` and `b` goes before the other.
    spec fn tied(&self, a: T, b: T) -> bool;

    /// "Goes before" is irreflexive and asymmetric, ties are the pairs that
    /// neither goes before, and "does not go before" is transitive.
    proof fn lemma_weak_order(&self, a: T, b: T, c: T)
        ensures
            !self.before(a, a),
            self.before(a, b) ==> !self.before(b, a),
            self.tied(a, b) <==> (!self.before(a, b) && !self.before(b, a)),
            !self.before(b, a) && !self.before(c, b) ==> !self.before(c, a),
    ;

    /// Whether `a` goes strictly before `b`.
    fn precedes(&self, a: &T, b: &T) -> (r: bool)
        ensures
            r == self.before(*a, *b),
    ;
}

/// `p` lists every position below `n` exactly once.
pub open spec fn is_permutation(p: Seq<int>, n: int) -> bool {
    &&& p.len() == n
    &&& forall|i: int| 0 <= i < n ==> 0 <= #[trigger] p[i] < n
    &&& forall|i: int, j: int| 0 <= i < j < n ==> p[i] != p[j]
}

/// No item of `s` goes before an item that precedes it.
pub open spec fn in_order_by<T, O: StableOrder<T>>(order: O, s: Seq<T>) -> bool {
    forall|i: int, j: int| 0 <= i < j < s.len() ==> !#[trigger] order.before(s[j], s[i])
}

/// `out` is `inp` rearranged by `p` (item `i` of `out` is item `p[i]` of
/// `inp`), in order, with tied items kept in their input order.
pub open spec fn stable_arrangement_by<T, O: StableOrder<T>>(
    order: O,
    out: Seq<T>,
    inp: Seq<T>,
    p: Seq<int>,
) -> bool {
    &&& is_permutation(p, inp.len() as int)
    &&& out.len() == inp.len()
    &&& forall|i: int| 0 <= i < out.len() ==> out[i] == inp[#[trigger] p[i]]
    &&& in_order_by(order, out)
    &&& forall|i: int, j: int|
        0 <= i < j < out.len() && #[trigger] order.tied(out[i], out[j]) ==> p[i] < p[j]
}

/// `out` is a stable sort of `inp` under `order`.
pub open spec fn sorted_by<T, O: StableOrder<T>>(order: O, out: Seq<T>, inp: Seq<T>) -> bool {
    exists|p: Seq<int>| stable_arrangement_by(order, out, inp, p)
}

/// Calls `<[T]>::swap`.  Claimed: the two entries trade places and nothing
/// else changes; the `requires` keeps both positions in bounds, where the
/// call does not panic.
#[verifier::external_body]
fn swap_entries<T>(s: &mut [T], i: usize, j: usize)
    requires
        i < old(s)@.len(),
        j < old(s)@.len(),
    ensures
        final(s)@ == old(s)@.update(i as int, old(s)@[j as int]).update(j as int, old(s)@[i as int]),
{
    s.swap(i, j)
}

/// Sorts `rows` stably under `order`: an insertion sort that moves each item
/// back past the items it goes strictly before.
pub fn stable_sort<T, O: StableOrder<T>>(order: &O, rows: &mut [T])
    ensures
        sorted_by(*order, final(rows)@, old(rows)@),
{
    let n = rows.len();
    let ghost orig = rows@;
    let ghost mut p: Seq<int> = Seq::new(n as nat, |i: int| i);
    let mut k: usize = 0;
    while k < n
        invariant
            rows@.len() == n,
            orig.len() == n,
            orig == old(rows)@,
            p.len() == n,
            k <= n,
            forall|i: int| 0 <= i < n ==> 0 <= #[trigger] p[i] < n,
            forall|i: int, j: int| 0 <= i < j < n ==> p[i] != p[j],
            forall|i: int| 0 <= i < n ==> rows@[i] == orig[#[trigger] p[i]],
            forall|i: int| k <= i < n ==> #[trigger] p[i] == i,
            forall|i: int| 0 <= i < k ==> #[trigger] p[i] < k,
            forall|a: int, b: int|
                0 <= a < b < k ==> !#[trigger] order.before(rows@[b], rows@[a]),
            forall|a: int, b: int|
                0 <= a < b < k && #[trigger] order.tied(rows@[a], rows@[b]) ==> p[a]
                    < p[b],
        decreases n - k,
    {
        let mut j: usize = k;
        while j > 0 && order.precedes(&rows[j], &rows[j - 1])
            invariant
                rows@.len() == n,
                orig.len() == n,
                p.len() == n,
                0 <= j <= k < n,
                forall|i: int| 0 <= i < n ==> 0 <= #[trigger] p[i] < n,
                forall|i: int, m: int| 0 <= i < m < n ==> p[i] != p[m],
                forall|i: int| 0 <= i < n ==> rows@[i] == orig[#[trigger] p[i]],
                forall|i: int| k < i < n ==> #[trigger] p[i] == i,
                p[j as int] == k,
                forall|i: int| 0 <= i <= k && i != j ==> #[trigger] p[i] < k,
                forall|a: int, b: int|
                    0 <= a < b <= k && a != j && b != j ==> !#[trigger] order.before(rows@[b], rows@[a]),
                forall|a: int, b: int|
                    0 <= a < b <= k && a != j && b != j && #[trigger] order.tied(rows@[a], rows@[b]) ==> p[a] < p[b],
                forall|m: int|
                    j < m <= k ==> #[trigger] order.before(rows@[j as int], rows@[m]),
            decreases j,
        {
            let ghost before = rows@;
            let ghost pb = p;
            swap_entries(rows, j - 1, j);
            proof {
                p = pb.update(j - 1, pb[j as int]).update(j as int, pb[j - 1]);
                assert forall|a: int, b: int|
                    0 <= a < b <= k && a != j - 1 && b != j - 1 implies !#[trigger] order.before(rows@[b], rows@[a]) && (order.tied(rows@[a], rows@[b]) ==> p[a] < p[b]) by {
                    let oa = if a == j {
                        j - 1
                    } else {
                        a
                    };
                    let ob = if b == j {
                        j - 1
                    } else {
                        b
                    };
                    assert(rows@[a] == before[oa]);
                    assert(rows@[b] == before[ob]);
                    assert(p[a] == pb[oa]);
                    assert(p[b] == pb[ob]);
                    assert(!order.before(before[ob], before[oa]));
                }
                assert forall|m: int| j - 1 < m <= k implies #[trigger] order.before(rows@[j - 1], rows@[m]) by {
                    if m > j {
                        assert(order.before(before[j as int], before[m]));
                    }
                }
                assert forall|i: int, m: int| 0 <= i < m < n implies p[i] != p[m] by {
                    let oi = if i == j {
                        j - 1
                    } else if i == j - 1 {
                        j as int
                    } else {
                        i
                    };
                    let om = if m == j {
                        j - 1
                    } else if m == j - 1 {
                        j as int
                    } else {
                        m
                    };
                    assert(p[i] == pb[oi]);
                    assert(p[m] == pb[om]);
                    if oi < om {
                        assert(pb[oi] != pb[om]);
                    } else {
                        assert(pb[om] != pb[oi]);
                    }
                }
            }
            j = j - 1;
        }
        proof {
            assert forall|a: int, b: int| 0 <= a < b <= k implies !#[trigger] order.before(rows@[b], rows@[a]) by {
                if b == j && a < j - 1 {
                    order.lemma_weak_order(rows@[a],
                        rows@[j - 1],
                        rows@[j as int],
                    );
                } else if a == j {
                    order.lemma_weak_order(rows@[a], rows@[b], rows@[b]);
                }
            }
            assert forall|a: int, b: int|
                0 <= a < b <= k && #[trigger] order.tied(rows@[a], rows@[b]) implies p[a]
                < p[b] by {
                if a == j {
                    order.lemma_weak_order(rows@[a], rows@[b], rows@[b]);
                }
            }
        }
        k = k + 1;
    }
    assert(stable_arrangement_by(*order, rows@, orig, p));
}

/// The order of rows under a sort mode, reversed when `reverse` is set.
pub struct RowOrder {
    pub mode: SortMode,
    pub reverse: bool,
}

impl StableOrder<ConditionRow> for RowOrder {
    open spec fn before(&self, a: ConditionRow, b: ConditionRow) -> bool {
        goes_before(self.mode, self.reverse, a, b)
    }

    open spec fn tied(&self, a: ConditionRow, b: ConditionRow) -> bool {
        ties_with(self.mode, self.reverse, a, b)
    }

    proof fn lemma_weak_order(&self, a: ConditionRow, b: ConditionRow, c: ConditionRow) {
        lemma_goes_before_is_weak_order(self.mode, self.reverse, a, b, c);
    }

    fn precedes(&self, a: &ConditionRow, b: &ConditionRow) -> (r: bool) {
        precedes(a, b, self.mode, self.reverse)
    }
}

/// `out` is a stable sort of `inp` under `mode` and `reverse`: a
/// rearrangement of it in which no row goes before an earlier one and tied
/// rows keep their input order.
pub open spec fn sorted_stably(
    out: Seq<ConditionRow>,
    inp: Seq<ConditionRow>,
    mode: SortMode,
    reverse: bool,
) -> bool {
    sorted_by(RowOrder { mode, reverse }, out, inp)
}

/// Sorts the rows stably under `mode`; `reverse` turns the order around, and
/// `SortMode::Unsorted` keeps the rows as they are.
pub fn sort_rows(rows: &mut [ConditionRow], mode: SortMode, reverse: bool)
    ensures
        sorted_stably(final(rows)@, old(rows)@, mode, reverse),
        mode == SortMode::Unsorted ==> final(rows)@ == old(rows)@,
{
    let order = RowOrder { mode, reverse };
    if let SortMode::Unsorted = mode {
        let ghost p: Seq<int> = Seq::new(rows@.len(), |i: int| i);
        assert(stable_arrangement_by(order, rows@, rows@, p));
        return;
    }
    stable_sort(&order, rows);
}

/// Reversing a sort mode's order swaps which of two rows goes first.
pub proof fn lemma_reverse_swaps_order(mode: SortMode, a: ConditionRow, b: ConditionRow)
    ensures
        goes_before(mode, true, a, b) == goes_before(mode, false, b, a),
        ties_with(mode, true, a, b) == ties_with(mode, false, a, b),
{
    lemma_row_order_laws(mode, false, a, b, b);
}

/// After a time sort, rows without a last-transition time come after all
/// rows with one, and no row has a later instant than a row before it.
pub proof fn lemma_time_sort_recent_first(out: Seq<ConditionRow>, inp: Seq<ConditionRow>, i: int, j: int)
    requires
        sorted_stably(out, inp, SortMode::Time, false),
        0 <= i < j < out.len(),
    ensures
        out[i].last_transition_ts is None ==> out[j].last_transition_ts is None,
        out[i].last_transition_ts matches Some(x) ==> (out[j].last_transition_ts matches Some(y)
            ==> !later_than(y, x)),
{
    let order = RowOrder { mode: SortMode::Time, reverse: false };
    let p = choose|p: Seq<int>| stable_arrangement_by(order, out, inp, p);
    assert(!order.before(out[j], out[i]));
}

/// After a sort by type, the types ascend; after a sort by status, the
/// statuses do.
pub proof fn lemma_sorted_keys_ascend(out: Seq<ConditionRow>, inp: Seq<ConditionRow>, i: int, j: int)
    requires
        0 <= i < j < out.len(),
    ensures
        sorted_stably(out, inp, SortMode::Type, false) ==> !(text_order(out[j].type_@, out[i].type_@)
            == std::cmp::Ordering::Less),
        sorted_stably(out, inp, SortMode::Status, false) ==> !(text_order(
            out[j].status@,
            out[i].status@,
        ) == std::cmp::Ordering::Less),
        sorted_stably(out, inp, SortMode::Type, false) && out[i].type_@ == out[j].type_@ ==> !(
        text_order(out[j].status@, out[i].status@) == std::cmp::Ordering::Less),
        sorted_stably(out, inp, SortMode::Status, false) && out[i].status@ == out[j].status@ ==> !(
        text_order(out[j].type_@, out[i].type_@) == std::cmp::Ordering::Less),
{
    lemma_sort_mode_fields(out[j], out[i]);
    lemma_text_order_equal(out[j].type_@, out[i].type_@);
    lemma_text_order_equal(out[j].status@, out[i].status@);
    if sorted_stably(out, inp, SortMode::Type, false) {
        let order = RowOrder { mode: SortMode::Type, reverse: false };
        let p = choose|p: Seq<int>| stable_arrangement_by(order, out, inp, p);
        assert(!order.before(out[j], out[i]));
    }
    if sorted_stably(out, inp, SortMode::Status, false) {
        let order = RowOrder { mode: SortMode::Status, reverse: false };
        let p = choose|p: Seq<int>| stable_arrangement_by(order, out, inp, p);
        assert(!order.before(out[j], out[i]));
    }
}

} // verus!
