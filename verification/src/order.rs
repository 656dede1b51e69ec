//! Condition rows and the orders in which a table lists them.
use std::cmp::Ordering;
use vstd::prelude::*;

use crate::table::texts;
use crate::text::{
    compare_text, flipped, lemma_text_order_equal, lemma_text_order_flip,
    lemma_text_order_transitive, text_order,
};
use crate::time::{later_than, Timestamp};

verus! {

/// One condition as the table shows it.
#[derive(Clone, Debug)]
pub struct ConditionRow {
    pub type_: String,
    pub status: String,
    pub reason: String,
    /// The age of the last transition as displayed, or `-`.
    pub last_transition: String,
    /// The instant of the last transition, when it parsed.
    pub last_transition_ts: Option<Timestamp>,
}

impl ConditionRow {
    /// The four displayed cells: type, status, reason, last transition.
    pub fn to_cells(&self) -> (r: Vec<String>)
        ensures
            texts(r@) == seq![self.type_@, self.status@, self.reason@, self.last_transition@],
    {
        let mut r: Vec<String> = Vec::new();
        r.push(self.type_.clone());
        r.push(self.status.clone());
        r.push(self.reason.clone());
        r.push(self.last_transition.clone());
        assert(texts(r@) =~= seq![self.type_@, self.status@, self.reason@, self.last_transition@]);
        r
    }
}

/// How the rows of a table are ordered.
#[derive(Clone, Copy, Debug, PartialEq, Eq)]
pub enum SortMode {
    /// By type, then status, then reason.
    Type,
    /// By status, then type, then reason.
    Status,
    /// By last transition, most recent first and missing times last, then type.
    Time,
    /// In the order of the document.
    Unsorted,
}

/// A signed 64-bit integer as a mathematical integer.
pub open spec fn widen_i64(x: i64) -> int {
    x as int
}

/// An unsigned 32-bit integer as a mathematical integer.
pub open spec fn widen_u32(x: u32) -> int {
    x as int
}

/// The order of two integers.
pub open spec fn int_order(a: int, b: int) -> Ordering {
    if a < b {
        Ordering::Less
    } else if a == b {
        Ordering::Equal
    } else {
        Ordering::Greater
    }
}

/// `first`, and `second` where `first` is a tie.
pub open spec fn then_order(first: Ordering, second: Ordering) -> Ordering {
    match first {
        Ordering::Equal => second,
        _ => first,
    }
}

/// Order of last-transition instants: more recent first, missing last.
pub open spec fn timestamp_order(a: Option<Timestamp>, b: Option<Timestamp>) -> Ordering {
    match (a, b) {
        (Some(x), Some(y)) => then_order(
            int_order(widen_i64(y@.0), widen_i64(x@.0)),
            int_order(widen_u32(y@.1), widen_u32(x@.1)),
        ),
        (Some(_), None) => Ordering::Less,
        (None, Some(_)) => Ordering::Greater,
        (None, None) => Ordering::Equal,
    }
}

/// The order of two rows under `mode`, before any reversal.
pub open spec fn key_order(mode: SortMode, a: ConditionRow, b: ConditionRow) -> Ordering {
    match mode {
        SortMode::Type => then_order(
            then_order(text_order(a.type_@, b.type_@), text_order(a.status@, b.status@)),
            text_order(a.reason@, b.reason@),
        ),
        SortMode::Status => then_order(
            then_order(text_order(a.status@, b.status@), text_order(a.type_@, b.type_@)),
            text_order(a.reason@, b.reason@),
        ),
        SortMode::Time => then_order(
            timestamp_order(a.last_transition_ts, b.last_transition_ts),
            text_order(a.type_@, b.type_@),
        ),
        SortMode::Unsorted => Ordering::Equal,
    }
}

/// The order of two rows under `mode`, reversed when `reverse` is set.
pub open spec fn row_order(mode: SortMode, reverse: bool, a: ConditionRow, b: ConditionRow) -> Ordering {
    if reverse {
        flipped(key_order(mode, a, b))
    } else {
        key_order(mode, a, b)
    }
}

/// Order facts about three texts: flipping, equality and transitivity.
pub proof fn lemma_text_facts(a: Seq<char>, b: Seq<char>, c: Seq<char>)
    ensures
        text_order(b, a) == flipped(text_order(a, b)),
        text_order(c, b) == flipped(text_order(b, c)),
        text_order(c, a) == flipped(text_order(a, c)),
        (text_order(a, b) == Ordering::Equal) <==> (a == b),
        (text_order(b, c) == Ordering::Equal) <==> (b == c),
        (text_order(a, c) == Ordering::Equal) <==> (a == c),
        text_order(a, b) == Ordering::Less && text_order(b, c) == Ordering::Less ==> text_order(
            a,
            c,
        ) == Ordering::Less,
        text_order(c, b) == Ordering::Less && text_order(b, a) == Ordering::Less ==> text_order(
            c,
            a,
        ) == Ordering::Less,
{
    lemma_text_order_flip(a, b);
    lemma_text_order_flip(b, c);
    lemma_text_order_flip(a, c);
    lemma_text_order_equal(a, b);
    lemma_text_order_equal(b, c);
    lemma_text_order_equal(a, c);
    if text_order(a, b) == Ordering::Less && text_order(b, c) == Ordering::Less {
        lemma_text_order_transitive(a, b, c);
    }
    if text_order(c, b) == Ordering::Less && text_order(b, a) == Ordering::Less {
        lemma_text_order_transitive(c, b, a);
    }
}

/// The order of rows is a total preorder: swapping the rows flips the answer,
/// "not after" is transitive, and so are ties.
pub proof fn lemma_row_order_laws(
    mode: SortMode,
    reverse: bool,
    a: ConditionRow,
    b: ConditionRow,
    c: ConditionRow,
)
    ensures
        row_order(mode, reverse, b, a) == flipped(row_order(mode, reverse, a, b)),
        row_order(mode, reverse, a, a) == Ordering::Equal,
        row_order(mode, reverse, a, b) != Ordering::Greater && row_order(mode, reverse, b, c)
            != Ordering::Greater ==> row_order(mode, reverse, a, c) != Ordering::Greater,
        row_order(mode, reverse, a, b) == Ordering::Equal && row_order(mode, reverse, b, c)
            == Ordering::Equal ==> row_order(mode, reverse, a, c) == Ordering::Equal,
{
    lemma_text_facts(a.type_@, b.type_@, c.type_@);
    lemma_text_facts(a.status@, b.status@, c.status@);
    lemma_text_facts(a.reason@, b.reason@, c.reason@);
    lemma_text_order_equal(a.type_@, a.type_@);
    lemma_text_order_equal(a.status@, a.status@);
    lemma_text_order_equal(a.reason@, a.reason@);
}

/// Compares two integers.
fn order_of(a: i64, b: i64) -> (r: Ordering)
    ensures
        r == int_order(widen_i64(a), widen_i64(b)),
{
    if a < b {
        Ordering::Less
    } else if a == b {
        Ordering::Equal
    } else {
        Ordering::Greater
    }
}

/// Compares two nanosecond counts.
fn order_of_nanos(a: u32, b: u32) -> (r: Ordering)
    ensures
        r == int_order(widen_u32(a), widen_u32(b)),
{
    if a < b {
        Ordering::Less
    } else if a == b {
        Ordering::Equal
    } else {
        Ordering::Greater
    }
}

/// Order for the time sort: the more recent instant first; rows without a
/// timestamp after all rows with one.
pub fn cmp_last_transition_time(a: &ConditionRow, b: &ConditionRow) -> (r: Ordering)
    ensures
        r == timestamp_order(a.last_transition_ts, b.last_transition_ts),
{
    match (&a.last_transition_ts, &b.last_transition_ts) {
        (Some(ta), Some(tb)) => {
            let first = order_of(tb.unix_seconds(), ta.unix_seconds());
            match first {
                Ordering::Equal => order_of_nanos(tb.subsec_nanos(), ta.subsec_nanos()),
                _ => first,
            }
        },
        (Some(_), None) => Ordering::Less,
        (None, Some(_)) => Ordering::Greater,
        (None, None) => Ordering::Equal,
    }
}

/// `first`, and `second` where `first` is a tie.
pub fn tie_break(first: Ordering, second: Ordering) -> (r: Ordering)
    ensures
        r == then_order(first, second),
{
    match first {
        Ordering::Equal => second,
        _ => first,
    }
}

/// The same order read from the other side.
fn flip(o: Ordering) -> (r: Ordering)
    ensures
        r == flipped(o),
{
    match o {
        Ordering::Less => Ordering::Greater,
        Ordering::Equal => Ordering::Equal,
        Ordering::Greater => Ordering::Less,
    }
}

/// Compares two rows under `mode`, reversed when `reverse` is set.
pub fn compare_rows(a: &ConditionRow, b: &ConditionRow, mode: SortMode, reverse: bool) -> (r: Ordering)
    ensures
        r == row_order(mode, reverse, *a, *b),
{
    let o = match mode {
        SortMode::Type => {
            let t = compare_text(a.type_.as_str(), b.type_.as_str());
            let s = compare_text(a.status.as_str(), b.status.as_str());
            let c = compare_text(a.reason.as_str(), b.reason.as_str());
            tie_break(tie_break(t, s), c)
        },
        SortMode::Status => {
            let s = compare_text(a.status.as_str(), b.status.as_str());
            let t = compare_text(a.type_.as_str(), b.type_.as_str());
            let c = compare_text(a.reason.as_str(), b.reason.as_str());
            tie_break(tie_break(s, t), c)
        },
        SortMode::Time => {
            let w = cmp_last_transition_time(a, b);
            let t = compare_text(a.type_.as_str(), b.type_.as_str());
            tie_break(w, t)
        },
        SortMode::Unsorted => Ordering::Equal,
    };
    if reverse {
        flip(o)
    } else {
        o
    }
}

/// Row `a` goes strictly before row `b` under `mode` and `reverse`.
pub open spec fn goes_before(mode: SortMode, reverse: bool, a: ConditionRow, b: ConditionRow) -> bool {
    row_order(mode, reverse, a, b) == Ordering::Less
}

/// Rows `a` and `b` tie under `mode` and `reverse`.
pub open spec fn ties_with(mode: SortMode, reverse: bool, a: ConditionRow, b: ConditionRow) -> bool {
    row_order(mode, reverse, a, b) == Ordering::Equal
}

/// "Goes before" is a strict weak order on rows: irreflexive, asymmetric and
/// transitive, with ties exactly the pairs that neither goes before, and
/// "does not go before" transitive as well.
pub proof fn lemma_goes_before_is_weak_order(
    mode: SortMode,
    reverse: bool,
    a: ConditionRow,
    b: ConditionRow,
    c: ConditionRow,
)
    ensures
        !goes_before(mode, reverse, a, a),
        ties_with(mode, reverse, a, a),
        goes_before(mode, reverse, a, b) ==> !goes_before(mode, reverse, b, a),
        ties_with(mode, reverse, a, b) <==> (!goes_before(mode, reverse, a, b) && !goes_before(
            mode,
            reverse,
            b,
            a,
        )),
        goes_before(mode, reverse, a, b) && goes_before(mode, reverse, b, c) ==> goes_before(
            mode,
            reverse,
            a,
            c,
        ),
        !goes_before(mode, reverse, b, a) && !goes_before(mode, reverse, c, b) ==> !goes_before(
            mode,
            reverse,
            c,
            a,
        ),
        ties_with(mode, reverse, a, b) && ties_with(mode, reverse, b, c) ==> ties_with(
            mode,
            reverse,
            a,
            c,
        ),
{
    lemma_row_order_laws(mode, reverse, a, b, c);
    lemma_row_order_laws(mode, reverse, a, c, b);
    lemma_row_order_laws(mode, reverse, b, a, c);
    lemma_row_order_laws(mode, reverse, b, c, a);
    lemma_row_order_laws(mode, reverse, c, a, b);
    lemma_row_order_laws(mode, reverse, c, b, a);
}

/// What each sort mode compares, field by field: by type, then status, then
/// reason; by status, then type, then reason; by instant (a later one first,
/// a missing one last), then type; or not at all.
pub proof fn lemma_sort_mode_fields(a: ConditionRow, b: ConditionRow)
    ensures
        text_order(a.type_@, b.type_@) == Ordering::Less ==> goes_before(SortMode::Type, false, a, b),
        text_order(a.type_@, b.type_@) == Ordering::Equal && text_order(a.status@, b.status@)
            == Ordering::Less ==> goes_before(SortMode::Type, false, a, b),
        text_order(a.type_@, b.type_@) == Ordering::Equal && text_order(a.status@, b.status@)
            == Ordering::Equal && text_order(a.reason@, b.reason@) == Ordering::Less ==> goes_before(
            SortMode::Type,
            false,
            a,
            b,
        ),
        a.type_@ == b.type_@ && a.status@ == b.status@ && a.reason@ == b.reason@ ==> ties_with(
            SortMode::Type,
            false,
            a,
            b,
        ),
        text_order(a.status@, b.status@) == Ordering::Less ==> goes_before(SortMode::Status, false, a, b),
        text_order(a.status@, b.status@) == Ordering::Equal && text_order(a.type_@, b.type_@)
            == Ordering::Less ==> goes_before(SortMode::Status, false, a, b),
        text_order(a.status@, b.status@) == Ordering::Equal && text_order(a.type_@, b.type_@)
            == Ordering::Equal && text_order(a.reason@, b.reason@) == Ordering::Less ==> goes_before(
            SortMode::Status,
            false,
            a,
            b,
        ),
        a.type_@ == b.type_@ && a.status@ == b.status@ && a.reason@ == b.reason@ ==> ties_with(
            SortMode::Status,
            false,
            a,
            b,
        ),
        a.last_transition_ts is Some && b.last_transition_ts is None ==> goes_before(
            SortMode::Time,
            false,
            a,
            b,
        ),
        a.last_transition_ts matches Some(x) ==> (b.last_transition_ts matches Some(y) ==> (
        later_than(x, y) ==> goes_before(SortMode::Time, false, a, b))),
        a.last_transition_ts == b.last_transition_ts && text_order(a.type_@, b.type_@)
            == Ordering::Less ==> goes_before(SortMode::Time, false, a, b),
        a.last_transition_ts == b.last_transition_ts && a.type_@ == b.type_@ ==> ties_with(
            SortMode::Time,
            false,
            a,
            b,
        ),
        ties_with(SortMode::Unsorted, false, a, b),
        ties_with(SortMode::Unsorted, true, a, b),
{
    lemma_text_order_equal(a.type_@, b.type_@);
    lemma_text_order_equal(a.status@, b.status@);
    lemma_text_order_equal(a.reason@, b.reason@);
}

/// Whether `a` strictly precedes `b` under `mode` and `reverse`.
pub fn precedes(a: &ConditionRow, b: &ConditionRow, mode: SortMode, reverse: bool) -> (r: bool)
    ensures
        r == goes_before(mode, reverse, *a, *b),
{
    match compare_rows(a, b, mode, reverse) {
        Ordering::Less => true,
        _ => false,
    }
}

/// The sort mode that command-line flags select: `unsorted`, `by_status` and
/// `by_time` exclude one another, and none of them selects the type order.
pub open spec fn mode_of_flags(unsorted: bool, by_status: bool, by_time: bool) -> Option<SortMode> {
    if (unsorted && by_status) || (unsorted && by_time) || (by_status && by_time) {
        None
    } else if unsorted {
        Some(SortMode::Unsorted)
    } else if by_status {
        Some(SortMode::Status)
    } else if by_time {
        Some(SortMode::Time)
    } else {
        Some(SortMode::Type)
    }
}

/// The sort mode of the `-U`, `-s` and `-t` flags, or `None` when more than
/// one of them is given.
pub fn sort_mode_from_flags(unsorted: bool, by_status: bool, by_time: bool) -> (r: Option<SortMode>)
    ensures
        r == mode_of_flags(unsorted, by_status, by_time),
{
    if (unsorted && by_status) || (unsorted && by_time) || (by_status && by_time) {
        None
    } else if unsorted {
        Some(SortMode::Unsorted)
    } else if by_status {
        Some(SortMode::Status)
    } else if by_time {
        Some(SortMode::Time)
    } else {
        Some(SortMode::Type)
    }
}

} // verus!
