//! Condition rows read from JSON objects, and the whole condition table.
use vstd::prelude::*;

use crate::json::{deref_all, lookup, object_get, walk_outcome, walk_path, Json, PathError};
use crate::order::{ConditionRow, SortMode};
use crate::sort::{sort_rows, sorted_stably};
use crate::table::{
    cell_len, column_start, column_width, column_widths, format_padded_line, grid, header_texts,
    lemma_cells_fit, lemma_columns_align, nat_widths, padded_line, table_header_strings, texts,
    width_at, COLUMN_COUNT,
};
use crate::time::{parse_last_transition_time, relative_text, relative_time_at, rfc3339_instant, Timestamp};

verus! {

/// The text of member `key` when it is a JSON string, else `-`.
pub open spec fn field_text(entries: Seq<(String, Json)>, key: Seq<char>) -> Seq<char> {
    match lookup(entries, key) {
        Some(Json::String(s)) => s@,
        _ => seq!['-'],
    }
}

/// The string member `key` of an object, or `-` when it is missing or not a
/// string.
pub fn str_field(obj: &[(String, Json)], key: &str) -> (r: String)
    ensures
        r@ == field_text(obj@, key@),
{
    match object_get(obj, key) {
        Some(Json::String(s)) => s.clone(),
        _ => {
            proof {
                reveal_strlit("-");
            }
            String::from_str("-")
        },
    }
}

/// `row` is what the table shows for a condition object with these members
/// at the instant `now`.
pub open spec fn describes_object(row: ConditionRow, entries: Seq<(String, Json)>, now: Timestamp) -> bool {
    &&& row.type_@ == field_text(entries, "type"@)
    &&& row.status@ == field_text(entries, "status"@)
    &&& row.reason@ == field_text(entries, "reason"@)
    &&& match lookup(entries, "lastTransitionTime"@) {
        Some(Json::String(raw)) => {
            &&& row.last_transition@ == relative_text(raw@, now)
            &&& match rfc3339_instant(raw@) {
                Some(t) => row.last_transition_ts matches Some(x) && x@ == t,
                None => row.last_transition_ts is None,
            }
        },
        _ => row.last_transition@ == seq!['-'] && row.last_transition_ts is None,
    }
}

/// The row of a condition object: its `type`, `status` and `reason`
/// strings (`-` where missing), and the age and instant of its
/// `lastTransitionTime` relative to `now`.
pub fn condition_row_from_object(obj: &[(String, Json)], now: Timestamp) -> (r: ConditionRow)
    ensures
        describes_object(r, obj@, now),
        match lookup(obj@, "lastTransitionTime"@) {
            Some(Json::String(raw)) => match rfc3339_instant(raw@) {
                Some(t) => r.last_transition_ts matches Some(x) && x@ == t,
                None => r.last_transition_ts is None,
            },
            _ => r.last_transition_ts is None,
        },
{
    let raw: Option<&str> = match object_get(obj, "lastTransitionTime") {
        Some(Json::String(s)) => Some(s.as_str()),
        _ => None,
    };
    let (last_transition, last_transition_ts) = match raw {
        Some(s) => (relative_time_at(s, now), parse_last_transition_time(s)),
        None => {
            proof {
                reveal_strlit("-");
            }
            (String::from_str("-"), None)
        },
    };
    let row = ConditionRow {
        type_: str_field(obj, "type"),
        status: str_field(obj, "status"),
        reason: str_field(obj, "reason"),
        last_transition,
        last_transition_ts,
    };
    proof {
        match lookup(obj@, "lastTransitionTime"@) {
            Some(Json::String(s)) => {
                assert(raw matches Some(x) && x@ == s@);
                assert(row.last_transition@ == relative_text(s@, now));
            },
            _ => {
                assert(raw is None);
                assert(row.last_transition@ == seq!['-']);
            },
        }
        assert(row.type_@ == field_text(obj@, "type"@));
        assert(row.status@ == field_text(obj@, "status"@));
    }
    row
}

/// A row read from a condition object keeps the instant of its
/// `lastTransitionTime` whenever that text parses, so the time sort orders
/// by it.
pub proof fn lemma_row_keeps_parsed_instant(
    row: ConditionRow,
    entries: Seq<(String, Json)>,
    now: Timestamp,
    raw: String,
    t: (i64, u32),
)
    requires
        describes_object(row, entries, now),
        lookup(entries, "lastTransitionTime"@) == Some(Json::String(raw)),
        rfc3339_instant(raw@) == Some(t),
    ensures
        row.last_transition_ts matches Some(x) && x@ == t,
{
}

/// The row read from a condition object shows its type, status and reason
/// strings, or `-` for those that are missing or not strings.
pub proof fn lemma_row_shows_fields(row: ConditionRow, entries: Seq<(String, Json)>, now: Timestamp)
    requires
        describes_object(row, entries, now),
    ensures
        lookup(entries, "type"@) matches Some(Json::String(s)) ==> row.type_@ == s@,
        !(lookup(entries, "type"@) matches Some(Json::String(_))) ==> row.type_@ == seq!['-'],
        lookup(entries, "status"@) matches Some(Json::String(s)) ==> row.status@ == s@,
        !(lookup(entries, "status"@) matches Some(Json::String(_))) ==> row.status@ == seq!['-'],
        lookup(entries, "reason"@) matches Some(Json::String(s)) ==> row.reason@ == s@,
        !(lookup(entries, "reason"@) matches Some(Json::String(_))) ==> row.reason@ == seq!['-'],
{
}

/// The members of each object among `items`, in order; other values are
/// left out.
pub open spec fn objects_in(items: Seq<Json>) -> Seq<Seq<(String, Json)>>
    decreases items.len(),
{
    if items.len() == 0 {
        seq![]
    } else {
        let rest = objects_in(items.drop_last());
        match items.last() {
            Json::Object(entries) => rest.push(entries@),
            _ => rest,
        }
    }
}

/// Each row describes the object at its position.
pub open spec fn describes_objects(
    rows: Seq<ConditionRow>,
    objects: Seq<Seq<(String, Json)>>,
    now: Timestamp,
) -> bool {
    &&& rows.len() == objects.len()
    &&& forall|i: int| 0 <= i < rows.len() ==> #[trigger] describes_object(rows[i], objects[i], now)
}

/// The displayed cells of a row.
pub open spec fn row_cells(row: ConditionRow) -> Seq<Seq<char>> {
    seq![row.type_@, row.status@, row.reason@, row.last_transition@]
}

/// The header of a table, unless `no_header`.
pub open spec fn table_header(no_header: bool) -> Option<Seq<Seq<char>>> {
    if no_header {
        None
    } else {
        Some(header_texts())
    }
}

/// The column widths of a table of `cells`.
pub open spec fn table_widths(no_header: bool, cells: Seq<Seq<Seq<char>>>) -> Seq<nat> {
    Seq::new(COLUMN_COUNT as nat, |i: int| column_width(table_header(no_header), cells, i))
}

/// The lines of a table of `cells`: the header line unless `no_header`, then
/// one line per row, every column padded to its widest cell.
pub open spec fn table_lines(no_header: bool, cells: Seq<Seq<Seq<char>>>) -> Seq<Seq<char>> {
    let widths = table_widths(no_header, cells);
    let body = cells.map_values(|row: Seq<Seq<char>>| padded_line(row, widths));
    if no_header {
        body
    } else {
        seq![padded_line(header_texts(), widths)] + body
    }
}

/// A table has one line per row, after the header line unless `no_header`;
/// the header line is there even when there are no rows.
pub proof fn lemma_table_has_header_and_rows(no_header: bool, cells: Seq<Seq<Seq<char>>>)
    ensures
        table_lines(no_header, cells).len() == cells.len() + if no_header {
            0int
        } else {
            1int
        },
        !no_header ==> table_lines(no_header, cells)[0] == padded_line(
            header_texts(),
            table_widths(no_header, cells),
        ),
{
}

/// Every line of a table is equally long, and in every row each cell stands
/// at the start of its column: the columns line up.
pub proof fn lemma_table_aligned(no_header: bool, cells: Seq<Seq<Seq<char>>>)
    requires
        forall|r: int| 0 <= r < cells.len() ==> #[trigger] cells[r].len() == COLUMN_COUNT,
    ensures
        forall|l: int|
            0 <= l < table_lines(no_header, cells).len() ==> #[trigger] table_lines(no_header, cells)[l].len()
                == column_start(table_widths(no_header, cells), 3) + table_widths(no_header, cells)[3],
        forall|r: int, k: int|
            0 <= r < cells.len() && 0 <= k < COLUMN_COUNT ==> table_lines(no_header, cells)[r + (
            if no_header {
                0int
            } else {
                1int
            })].subrange(
                column_start(table_widths(no_header, cells), k),
                column_start(table_widths(no_header, cells), k) + cells[r][k].len(),
            ) == #[trigger] cells[r][k],
{
    let w = table_widths(no_header, cells);
    let lines = table_lines(no_header, cells);
    let off: int = if no_header {
        0
    } else {
        1
    };
    lemma_cells_fit(table_header(no_header), cells, 0);
    lemma_cells_fit(table_header(no_header), cells, 1);
    lemma_cells_fit(table_header(no_header), cells, 2);
    lemma_cells_fit(table_header(no_header), cells, 3);
    assert forall|r: int, k: int| 0 <= r < cells.len() && 0 <= k < COLUMN_COUNT implies lines[r
        + off].subrange(column_start(w, k), column_start(w, k) + cells[r][k].len()) == #[trigger] cells[r][k]
        && lines[r + off].len() == column_start(w, 3) + w[3] by {
        assert forall|j: int| 0 <= j < cells[r].len() implies #[trigger] cells[r][j].len() <= width_at(w, j) by {
            assert(cell_len(cells[r], j) <= column_width(table_header(no_header), cells, j));
        }
        assert(lines[r + off] == padded_line(cells[r], w));
        lemma_columns_align(cells[r], w, k);
    }
    if !no_header {
        assert forall|j: int| 0 <= j < header_texts().len() implies #[trigger] header_texts()[j].len()
            <= width_at(w, j) by {
            assert(cell_len(header_texts(), j) <= column_width(table_header(no_header), cells, j));
        }
        lemma_columns_align(header_texts(), w, 0);
    }
    assert forall|l: int| 0 <= l < lines.len() implies #[trigger] lines[l].len() == column_start(w, 3)
        + w[3] by {
        if l >= off {
            // The row facts above speak of each cell; take the first one.
            let first = cells[l - off][0];
        }
    }
}

/// `lines` is the table of the condition objects among `items`: their rows,
/// stably sorted under `mode` and `reverse`, laid out by `table_lines`.
pub open spec fn table_of_items(
    items: Seq<Json>,
    mode: SortMode,
    reverse: bool,
    no_header: bool,
    now: Timestamp,
    lines: Seq<Seq<char>>,
) -> bool {
    exists|rows: Seq<ConditionRow>, sorted: Seq<ConditionRow>|
        {
            &&& describes_objects(rows, objects_in(items), now)
            &&& sorted_stably(sorted, rows, mode, reverse)
            &&& lines == table_lines(no_header, sorted.map_values(|row: ConditionRow| row_cells(row)))
        }
}

/// A table outcome as texts.
pub open spec fn lines_result(r: Result<Vec<String>, PathError>) -> Result<Seq<Seq<char>>, PathError> {
    match r {
        Ok(lines) => Ok(texts(lines@)),
        Err(e) => Err(e),
    }
}

/// `r` is what the condition table of `root` at `path` comes to: the walk's
/// error, or the table of the items that the walk yields.
pub open spec fn table_result(
    root: Json,
    path: Seq<char>,
    mode: SortMode,
    reverse: bool,
    no_header: bool,
    now: Timestamp,
    r: Result<Seq<Seq<char>>, PathError>,
) -> bool {
    match r {
        Err(e) => walk_outcome(root, path, Err(e)),
        Ok(lines) => table_of_walk(root, path, mode, reverse, no_header, now, lines),
    }
}

/// `lines` is the table of the items that the walk along `path` yields.
pub open spec fn table_of_walk(
    root: Json,
    path: Seq<char>,
    mode: SortMode,
    reverse: bool,
    no_header: bool,
    now: Timestamp,
    lines: Seq<Seq<char>>,
) -> bool {
    exists|items: Seq<Json>|
        #![trigger table_of_items(items, mode, reverse, no_header, now, lines)]
        {
            &&& walk_outcome(root, path, Ok(items))
            &&& table_of_items(items, mode, reverse, no_header, now, lines)
        }
}

/// The condition table of the document `root` as lines: the conditions at
/// `path` (an array of them or a single object; entries that are not objects
/// are skipped), sorted under `mode` and `reverse`, with a header line
/// unless `no_header`, ages taken relative to `now`.
pub fn format_condition_table(
    root: &Json,
    path: &str,
    mode: SortMode,
    reverse: bool,
    no_header: bool,
    now: Timestamp,
) -> (r: Result<Vec<String>, PathError>)
    ensures
        table_result(*root, path@, mode, reverse, no_header, now, lines_result(r)),
        forall|items: Seq<Json>|
            walk_outcome(*root, path@, Ok(items)) ==> (r matches Ok(lines) && lines@.len() == objects_in(
                items,
            ).len() + if no_header {
                0int
            } else {
                1int
            }),
        r matches Ok(lines) ==> (!no_header ==> lines@.len() >= 1 && exists|w: Seq<nat>|
            lines@[0]@ == padded_line(header_texts(), w)),
{
    let items = match walk_path(root, path) {
        Ok(v) => v,
        Err(e) => {
            let failed: Result<Vec<String>, PathError> = Err(e);
            assert(lines_result(failed) == Err::<Seq<Seq<char>>, PathError>(e));
            assert(table_result(*root, path@, mode, reverse, no_header, now, Err(e)));
            return failed;
        },
    };
    let ghost values = deref_all(items@);
    let mut rows: Vec<ConditionRow> = Vec::new();
    let n = items.len();
    for i in 0..n
        invariant
            n == items@.len(),
            values == deref_all(items@),
            describes_objects(rows@, objects_in(values.take(i as int)), now),
    {
        let ghost before = rows@;
        assert(values.take(i + 1).drop_last() =~= values.take(i as int));
        assert(values.take(i + 1).last() == *items@[i as int]);
        match items[i] {
            Json::Object(obj) => {
                rows.push(condition_row_from_object(obj.as_slice(), now));
                assert(describes_objects(rows@, objects_in(values.take(i + 1)), now)) by {
                    assert forall|k: int| 0 <= k < rows@.len() implies #[trigger] describes_object(
                        rows@[k],
                        objects_in(values.take(i + 1))[k],
                        now,
                    ) by {
                        if k < before.len() {
                            assert(rows@[k] == before[k]);
                        }
                    }
                }
            },
            _ => {},
        }
    }
    assert(values.take(n as int) =~= values);
    let ghost unsorted = rows@;
    sort_rows(rows.as_mut_slice(), mode, reverse);
    let ghost sorted = rows@;
    let mut display: Vec<Vec<String>> = Vec::new();
    let m = rows.len();
    for i in 0..m
        invariant
            m == rows@.len(),
            sorted == rows@,
            grid(display@) =~= sorted.take(i as int).map_values(|row: ConditionRow| row_cells(row)),
    {
        let cells = rows[i].to_cells();
        let ghost before = display@;
        display.push(cells);
        assert(grid(display@) =~= grid(before).push(texts(cells@)));
        assert(sorted.take(i + 1) =~= sorted.take(i as int).push(sorted[i as int]));
    }
    assert(sorted.take(m as int) =~= sorted);
    let ghost cells = grid(display@);
    let header = table_header_strings();
    let widths = if no_header {
        column_widths(None, display.as_slice())
    } else {
        column_widths(Some(header.as_slice()), display.as_slice())
    };
    let ghost spec_widths = table_widths(no_header, cells);
    assert(nat_widths(widths@) =~= spec_widths);
    let ghost body = cells.map_values(|row: Seq<Seq<char>>| padded_line(row, spec_widths));
    let mut lines: Vec<String> = Vec::new();
    if !no_header {
        lines.push(format_padded_line(header.as_slice(), widths.as_slice()));
        assert(texts(lines@) =~= seq![padded_line(header_texts(), spec_widths)]);
    } else {
        assert(texts(lines@) =~= Seq::<Seq<char>>::empty());
    }
    let ghost start = lines@.len();
    let ghost head = texts(lines@);
    for i in 0..m
        invariant
            m == display@.len(),
            cells == grid(display@),
            nat_widths(widths@) == spec_widths,
            start == head.len(),
            texts(lines@) =~= head + body.take(i as int),
            body == cells.map_values(|row: Seq<Seq<char>>| padded_line(row, spec_widths)),
    {
        let line = format_padded_line(display[i].as_slice(), widths.as_slice());
        assert(cells[i as int] == texts(display@[i as int]@));
        let ghost before = lines@;
        lines.push(line);
        assert(texts(lines@) =~= texts(before).push(line@));
        assert(body.take(i + 1) =~= body.take(i as int).push(body[i as int]));
    }
    assert(body.take(m as int) =~= body);
    assert(texts(lines@) =~= table_lines(no_header, sorted.map_values(|row: ConditionRow| row_cells(row))));
    assert(sorted_stably(sorted, unsorted, mode, reverse));
    assert(describes_objects(unsorted, objects_in(values), now));
    let ghost shown = texts(lines@);
    if !no_header {
        assert(shown[0] == lines@[0]@);
        assert(lines@[0]@ == padded_line(header_texts(), spec_widths));
    }
    assert(table_of_items(values, mode, reverse, no_header, now, shown));
    assert(walk_outcome(*root, path@, Ok(values)));
    assert(table_result(*root, path@, mode, reverse, no_header, now, Ok(shown)));
    let table: Result<Vec<String>, PathError> = Ok(lines);
    assert(lines_result(table) == Ok::<Seq<Seq<char>>, PathError>(shown));
    table
}

/// How many of `items` are not objects.
pub open spec fn non_objects(items: Seq<Json>) -> nat
    decreases items.len(),
{
    if items.len() == 0 {
        0
    } else {
        non_objects(items.drop_last()) + if items.last() is Object {
            0nat
        } else {
            1nat
        }
    }
}

/// Every entry is either an object, which gives a row, or skipped.
pub proof fn lemma_entries_are_rows_or_skipped(items: Seq<Json>)
    ensures
        objects_in(items).len() + non_objects(items) == items.len(),
    decreases items.len(),
{
    if items.len() > 0 {
        lemma_entries_are_rows_or_skipped(items.drop_last());
    }
}

/// How many entries at `path` from `root` a condition table skips because
/// they are not objects; zero where the path leads to no entries.
pub fn skipped_entry_count(root: &Json, path: &str) -> (r: usize)
    ensures
        forall|items: Seq<Json>| walk_outcome(*root, path@, Ok(items)) ==> r == non_objects(items),
        forall|e: PathError| walk_outcome(*root, path@, Err(e)) ==> r == 0,
{
    match walk_path(root, path) {
        Err(_) => 0,
        Ok(items) => {
            let ghost values = deref_all(items@);
            let n = items.len();
            let mut count: usize = 0;
            for i in 0..n
                invariant
                    n == items@.len(),
                    values == deref_all(items@),
                    count == non_objects(values.take(i as int)),
                    count <= i,
            {
                assert(values.take(i + 1).drop_last() =~= values.take(i as int));
                assert(values.take(i + 1).last() == *items@[i as int]);
                match items[i] {
                    Json::Object(_) => {},
                    _ => {
                        count = count + 1;
                    },
                }
            }
            assert(values.take(n as int) =~= values);
            count
        },
    }
}

} // verus!
