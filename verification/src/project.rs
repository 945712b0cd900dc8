//! Projects simplified records to delimited text with dynamic column
//! detection.
//!
//! A fixed, ordered universe of known column names is the candidate set. A
//! column is emitted exactly when at least one record carries a present,
//! non-null value for it that is not the empty string; every emitted row
//! then has a cell (possibly empty) for every emitted column. Fields are
//! quoted only where the delimiter, a quote or a line break demands it, and
//! embedded quotes are doubled.

use vstd::prelude::*;
use vstd::string::StrSliceExecFns;
use vstd::string::StringExecFns;
use crate::PipelineError;
use crate::json::{JsonNode, JsonValue, spec_obj_get};
use crate::serial::{spec_compact, to_compact_string};
use crate::text::{chars_of, push_char, spec_join, string_of_chars, views_of};

verus! {

/// The fixed, ordered universe of candidate column names.
pub open spec fn spec_column_universe() -> Seq<Seq<char>> {
    seq![
        "id"@,
        "Type"@,
        "Title"@,
        "Description"@,
        "Acceptance"@,
        "Column"@,
        "Lane"@,
        "Priority"@,
        "AssignedTo"@,
        "CreatedBy"@,
        "CreatedDate"@,
        "ChangedBy"@,
        "ChangedDate"@,
        "AreaPath"@,
        "Iteration"@,
        "Project"@,
        "Tags"@,
        "StartDate"@,
        "TargetDate"@,
        "Effort"@,
        "Risk"@,
        "Justification"@,
        "ValueArea"@,
        "StackRank"@,
        "History"@,
        "comments"@,
    ]
}

/// The fixed, ordered universe of candidate column names.
pub fn column_universe() -> (r: Vec<String>)
    ensures
        views_of(r@) == spec_column_universe(),
{
    let mut r: Vec<String> = Vec::new();
    r.push(String::from_str("id"));
    r.push(String::from_str("Type"));
    r.push(String::from_str("Title"));
    r.push(String::from_str("Description"));
    r.push(String::from_str("Acceptance"));
    r.push(String::from_str("Column"));
    r.push(String::from_str("Lane"));
    r.push(String::from_str("Priority"));
    r.push(String::from_str("AssignedTo"));
    r.push(String::from_str("CreatedBy"));
    r.push(String::from_str("CreatedDate"));
    r.push(String::from_str("ChangedBy"));
    r.push(String::from_str("ChangedDate"));
    r.push(String::from_str("AreaPath"));
    r.push(String::from_str("Iteration"));
    r.push(String::from_str("Project"));
    r.push(String::from_str("Tags"));
    r.push(String::from_str("StartDate"));
    r.push(String::from_str("TargetDate"));
    r.push(String::from_str("Effort"));
    r.push(String::from_str("Risk"));
    r.push(String::from_str("Justification"));
    r.push(String::from_str("ValueArea"));
    r.push(String::from_str("StackRank"));
    r.push(String::from_str("History"));
    r.push(String::from_str("comments"));
    proof {
        assert(views_of(r@) =~= spec_column_universe());
    }
    r
}

/// The value a record holds under a column, if the record is an object.
pub open spec fn spec_row_get(row: JsonNode, col: Seq<char>) -> Option<JsonNode> {
    match row {
        JsonNode::Obj(pairs) => spec_obj_get(pairs, col),
        _ => Option::None,
    }
}

/// Whether a cell counts towards making its column active: present, not
/// null, and not the empty string.
pub open spec fn spec_cell_active(cell: Option<JsonNode>) -> bool {
    match cell {
        Option::None => false,
        Option::Some(JsonNode::Null) => false,
        Option::Some(JsonNode::Str(s)) => s.len() > 0,
        Option::Some(_) => true,
    }
}

/// Whether any record makes the column active.
pub open spec fn spec_col_active(rows: Seq<JsonNode>, col: Seq<char>) -> bool {
    exists|i: int| 0 <= i < rows.len() && spec_cell_active(spec_row_get(rows[i], col))
}

/// The active columns, in universe order.
pub open spec fn spec_active_columns(cols: Seq<Seq<char>>, rows: Seq<JsonNode>) -> Seq<Seq<char>>
    decreases cols.len(),
{
    if cols.len() == 0 {
        Seq::empty()
    } else if spec_col_active(rows, cols[0]) {
        seq![cols[0]] + spec_active_columns(cols.drop_first(), rows)
    } else {
        spec_active_columns(cols.drop_first(), rows)
    }
}

/// Every active column really is active, so a column with no non-empty
/// value anywhere is pruned from the output entirely.
pub proof fn lemma_inactive_column_pruned(cols: Seq<Seq<char>>, rows: Seq<JsonNode>, col: Seq<char>)
    requires
        !spec_col_active(rows, col),
    ensures
        !spec_active_columns(cols, rows).contains(col),
    decreases cols.len(),
{
    if cols.len() > 0 {
        lemma_inactive_column_pruned(cols.drop_first(), rows, col);
        if spec_col_active(rows, cols[0]) {
            let picked = spec_active_columns(cols, rows);
            assert forall|i: int| 0 <= i < picked.len() implies picked[i] != col by {
                if i > 0 {
                    assert(picked[i] == spec_active_columns(cols.drop_first(), rows)[i - 1]);
                    assert(spec_active_columns(cols.drop_first(), rows).contains(picked[i]));
                }
            }
        } else {
            assert forall|i: int|
                0 <= i < spec_active_columns(cols, rows).len() implies spec_active_columns(
                cols,
                rows,
            )[i] != col by {
                assert(spec_active_columns(cols.drop_first(), rows).contains(
                    spec_active_columns(cols, rows)[i],
                ));
            }
        }
    }
}

/// A string cell with line breaks and tabs written out as two-character
/// escapes and carriage returns dropped.
pub open spec fn spec_escaped_cell_char(c: char) -> Seq<char> {
    if c == '\n' {
        seq!['\\', 'n']
    } else if c == '\t' {
        seq!['\\', 't']
    } else if c == '\r' {
        Seq::empty()
    } else {
        seq![c]
    }
}

/// The escaped text of a string cell.
pub open spec fn spec_escape_cell(s: Seq<char>) -> Seq<char>
    decreases s.len(),
{
    if s.len() == 0 {
        Seq::empty()
    } else {
        spec_escaped_cell_char(s[0]) + spec_escape_cell(s.drop_first())
    }
}

/// Appending one character extends the escaped cell text.
proof fn lemma_escape_cell_push(s: Seq<char>, c: char)
    ensures
        spec_escape_cell(s.push(c)) == spec_escape_cell(s) + spec_escaped_cell_char(c),
    decreases s.len(),
{
    if s.len() == 0 {
        assert(s.push(c).drop_first() =~= Seq::<char>::empty());
        assert(s.push(c)[0] == c);
        assert(spec_escape_cell(Seq::<char>::empty()) =~= Seq::<char>::empty());
        assert(spec_escape_cell(s.push(c)) =~= spec_escaped_cell_char(c) + Seq::<char>::empty());
        assert(spec_escaped_cell_char(c) + Seq::<char>::empty() =~= spec_escaped_cell_char(c));
        assert(spec_escape_cell(s) + spec_escaped_cell_char(c) =~= spec_escaped_cell_char(c));
    } else {
        assert(s.push(c).drop_first() =~= s.drop_first().push(c));
        lemma_escape_cell_push(s.drop_first(), c);
        assert(spec_escaped_cell_char(s[0]) + (spec_escape_cell(s.drop_first())
            + spec_escaped_cell_char(c)) =~= (spec_escaped_cell_char(s[0]) + spec_escape_cell(
            s.drop_first(),
        )) + spec_escaped_cell_char(c));
    }
}

/// Escapes the text of a string cell.
fn escape_cell(s: &str) -> (r: String)
    ensures
        r@ == spec_escape_cell(s@),
{
    let chars = chars_of(s);
    let mut out: Vec<char> = Vec::new();
    let mut i: usize = 0;
    while i < chars.len()
        invariant
            i <= chars@.len(),
            chars@ == s@,
            out@ == spec_escape_cell(s@.take(i as int)),
        decreases chars@.len() - i,
    {
        let c = chars[i];
        if c == '\n' {
            out.push('\\');
            out.push('n');
        } else if c == '\t' {
            out.push('\\');
            out.push('t');
        } else if c == '\r' {
        } else {
            out.push(c);
        }
        i = i + 1;
        proof {
            assert(s@.take(i as int) =~= s@.take(i - 1).push(s@[i - 1]));
            lemma_escape_cell_push(s@.take(i - 1), s@[i - 1]);
            assert(out@ =~= spec_escape_cell(s@.take(i - 1)) + spec_escaped_cell_char(s@[i - 1]));
        }
    }
    proof {
        assert(s@.take(s@.len() as int) =~= s@);
    }
    string_of_chars(&out)
}

/// The text of one cell: escaped strings, numbers and booleans in literal
/// form, a comments array as compact JSON, anything else empty.
pub open spec fn spec_cell_text(cell: Option<JsonNode>, col: Seq<char>) -> Seq<char> {
    match cell {
        Option::Some(JsonNode::Str(s)) => spec_escape_cell(s),
        Option::Some(JsonNode::Num(t)) => t,
        Option::Some(JsonNode::Bool(b)) => if b {
            "true"@
        } else {
            "false"@
        },
        Option::Some(JsonNode::Arr(items)) => if col == "comments"@ {
            spec_compact(JsonNode::Arr(items))
        } else {
            Seq::empty()
        },
        _ => Seq::empty(),
    }
}

/// The text of one cell of a record.
fn cell_text(row: &JsonValue, col: &str) -> (r: String)
    ensures
        r@ == spec_cell_text(spec_row_get(row@, col@), col@),
{
    match row {
        JsonValue::Obj(pairs) => {
            match crate::json::obj_get(pairs, col) {
                Option::Some(v) => match v {
                    JsonValue::Str(s) => escape_cell(s.as_str()),
                    JsonValue::Num(t) => t.clone(),
                    JsonValue::Bool(b) => {
                        if *b {
                            String::from_str("true")
                        } else {
                            String::from_str("false")
                        }
                    },
                    JsonValue::Arr(_) => {
                        if crate::text::str_eq(col, "comments") {
                            to_compact_string(v)
                        } else {
                            String::new()
                        }
                    },
                    _ => String::new(),
                },
                Option::None => String::new(),
            }
        },
        _ => String::new(),
    }
}

/// Whether a field must be quoted: it embeds the delimiter, a quote or a
/// line break.
pub open spec fn spec_needs_quote(s: Seq<char>) -> bool {
    exists|i: int| 0 <= i < s.len() && (s[i] == ',' || s[i] == '"' || s[i] == '\n' || s[i] == '\r')
}

/// The field with every embedded quote doubled.
pub open spec fn spec_double_quotes(s: Seq<char>) -> Seq<char>
    decreases s.len(),
{
    if s.len() == 0 {
        Seq::empty()
    } else {
        (if s[0] == '"' {
            seq!['"', '"']
        } else {
            seq![s[0]]
        }) + spec_double_quotes(s.drop_first())
    }
}

/// The field as it stands in a record: quoted (with embedded quotes
/// doubled) only where necessary.
pub open spec fn spec_csv_field(s: Seq<char>) -> Seq<char> {
    if spec_needs_quote(s) {
        seq!['"'] + spec_double_quotes(s) + seq!['"']
    } else {
        s
    }
}

/// One record line: the fields, quoted where necessary, joined with commas
/// and terminated by a newline.
pub open spec fn spec_csv_record(fields: Seq<Seq<char>>) -> Seq<char> {
    spec_join(fields.map_values(|f: Seq<char>| spec_csv_field(f)), ","@) + "\n"@
}

/// Appending one character extends the quote doubling.
proof fn lemma_double_quotes_push(s: Seq<char>, c: char)
    ensures
        spec_double_quotes(s.push(c)) == spec_double_quotes(s) + (if c == '"' {
            seq!['"', '"']
        } else {
            seq![c]
        }),
    decreases s.len(),
{
    let head: Seq<char> = if c == '"' {
        seq!['"', '"']
    } else {
        seq![c]
    };
    if s.len() == 0 {
        assert(s.push(c).drop_first() =~= Seq::<char>::empty());
        assert(s.push(c)[0] == c);
        assert(spec_double_quotes(Seq::<char>::empty()) =~= Seq::<char>::empty());
        assert(spec_double_quotes(s.push(c)) =~= head + Seq::<char>::empty());
        assert(head + Seq::<char>::empty() =~= head);
        assert(spec_double_quotes(s) + head =~= head);
    } else {
        assert(s.push(c).drop_first() =~= s.drop_first().push(c));
        lemma_double_quotes_push(s.drop_first(), c);
        let h0: Seq<char> = if s[0] == '"' {
            seq!['"', '"']
        } else {
            seq![s[0]]
        };
        assert(spec_double_quotes(s.push(c)) == h0 + (spec_double_quotes(s.drop_first()) + head));
        assert(h0 + (spec_double_quotes(s.drop_first()) + head) =~= (h0 + spec_double_quotes(
            s.drop_first(),
        )) + head);
    }
}

/// The field as it stands in a record: quoted only where necessary.
fn csv_field(s: &str) -> (r: String)
    ensures
        r@ == spec_csv_field(s@),
{
    let chars = chars_of(s);
    let mut needs: bool = false;
    let mut i: usize = 0;
    while i < chars.len()
        invariant
            i <= chars@.len(),
            chars@ == s@,
            needs == exists|j: int|
                0 <= j < i && (s@[j] == ',' || s@[j] == '"' || s@[j] == '\n' || s@[j] == '\r'),
        decreases chars@.len() - i,
    {
        let c = chars[i];
        if c == ',' || c == '"' || c == '\n' || c == '\r' {
            needs = true;
        }
        i = i + 1;
    }
    if !needs {
        proof {
            assert(!spec_needs_quote(s@));
        }
        return String::from_str(s);
    }
    let mut out: Vec<char> = Vec::new();
    out.push('"');
    let mut i: usize = 0;
    while i < chars.len()
        invariant
            i <= chars@.len(),
            chars@ == s@,
            out@ == seq!['"'] + spec_double_quotes(s@.take(i as int)),
        decreases chars@.len() - i,
    {
        let c = chars[i];
        if c == '"' {
            out.push('"');
            out.push('"');
        } else {
            out.push(c);
        }
        i = i + 1;
        proof {
            assert(s@.take(i as int) =~= s@.take(i - 1).push(s@[i - 1]));
            lemma_double_quotes_push(s@.take(i - 1), s@[i - 1]);
            assert(out@ =~= seq!['"'] + (spec_double_quotes(s@.take(i - 1)) + (if s@[i - 1] == '"' {
                seq!['"', '"']
            } else {
                seq![s@[i - 1]]
            })));
        }
    }
    out.push('"');
    proof {
        assert(s@.take(s@.len() as int) =~= s@);
        assert(out@ =~= seq!['"'] + spec_double_quotes(s@) + seq!['"']);
    }
    string_of_chars(&out)
}

/// Appends one record line to the output.
pub fn write_csv_record(fields: &Vec<String>, out: &mut String)
    ensures
        final(out)@ == old(out)@ + spec_csv_record(views_of(fields@)),
{
    let mut quoted: Vec<String> = Vec::new();
    let mut i: usize = 0;
    while i < fields.len()
        invariant
            i <= fields@.len(),
            quoted@.len() == i,
            forall|j: int| 0 <= j < i ==> quoted@[j]@ == spec_csv_field(fields@[j]@),
        decreases fields@.len() - i,
    {
        quoted.push(csv_field(fields[i].as_str()));
        i = i + 1;
    }
    proof {
        assert(views_of(quoted@) =~= views_of(fields@).map_values(
            |f: Seq<char>| spec_csv_field(f),
        ));
    }
    let line = crate::text::join_strings(&quoted, ",");
    out.append(line.as_str());
    out.append("\n");
    proof {
        assert(out@ =~= old(out)@ + spec_csv_record(views_of(fields@)));
    }
}

/// The cell texts of one record under the given columns.
pub open spec fn spec_row_cells(row: JsonNode, cols: Seq<Seq<char>>) -> Seq<Seq<char>> {
    cols.map_values(|c: Seq<char>| spec_cell_text(spec_row_get(row, c), c))
}

/// The record lines of all rows under the given columns.
pub open spec fn spec_row_lines(rows: Seq<JsonNode>, cols: Seq<Seq<char>>) -> Seq<char>
    decreases rows.len(),
{
    if rows.len() == 0 {
        Seq::empty()
    } else {
        spec_csv_record(spec_row_cells(rows[0], cols)) + spec_row_lines(rows.drop_first(), cols)
    }
}

/// The full projection of a non-empty row set: a header of the active
/// columns, then one line per record.
pub open spec fn spec_project_rows(rows: Seq<JsonNode>) -> Seq<char> {
    if rows.len() == 0 {
        Seq::empty()
    } else {
        let active = spec_active_columns(spec_column_universe(), rows);
        spec_csv_record(active) + spec_row_lines(rows, active)
    }
}

/// The records a tree projects: an array yields its elements, a single
/// object yields itself.
pub open spec fn spec_rows_of(n: JsonNode) -> Seq<JsonNode> {
    match n {
        JsonNode::Arr(items) => items,
        _ => seq![n],
    }
}

/// Projecting equal record trees yields byte-identical output: the
/// projection is a pure function of the records alone, so projecting the
/// same records twice gives the same text.
pub proof fn lemma_projection_deterministic(a: JsonNode, b: JsonNode)
    requires
        a == b,
    ensures
        spec_project_rows(spec_rows_of(a)) == spec_project_rows(spec_rows_of(b)),
{
}

/// Appends the record line of one row to the output.
fn write_row(row: &JsonValue, active: &Vec<String>, out: &mut String)
    ensures
        final(out)@ == old(out)@ + spec_csv_record(spec_row_cells(row@, views_of(active@))),
{
    let mut cells: Vec<String> = Vec::new();
    let mut i: usize = 0;
    while i < active.len()
        invariant
            i <= active@.len(),
            cells@.len() == i,
            forall|j: int|
                0 <= j < i ==> cells@[j]@ == spec_cell_text(
                    spec_row_get(row@, active@[j]@),
                    active@[j]@,
                ),
        decreases active@.len() - i,
    {
        cells.push(cell_text(row, active[i].as_str()));
        i = i + 1;
    }
    proof {
        assert(views_of(cells@) =~= spec_row_cells(row@, views_of(active@)));
    }
    write_csv_record(&cells, out);
}

/// Whether any record of the array makes the column active.
fn col_active(items: &Vec<JsonValue>, col: &str) -> (r: bool)
    ensures
        r == spec_col_active(JsonValue::arr_view(items@), col@),
{
    let ghost rows = JsonValue::arr_view(items@);
    proof {
        crate::json::lemma_arr_view_index(items@);
    }
    let mut i: usize = 0;
    while i < items.len()
        invariant
            i <= items@.len(),
            rows == JsonValue::arr_view(items@),
            rows.len() == items@.len(),
            forall|j: int| 0 <= j < items@.len() ==> rows[j] == items@[j].view_rec(),
            forall|j: int| 0 <= j < i ==> !spec_cell_active(spec_row_get(rows[j], col@)),
        decreases items@.len() - i,
    {
        let active = match items[i] {
            JsonValue::Obj(ref pairs) => {
                match crate::json::obj_get(pairs, col) {
                    Option::Some(v) => match v {
                        JsonValue::Null => false,
                        JsonValue::Str(s) => s.unicode_len() > 0,
                        _ => true,
                    },
                    Option::None => false,
                }
            },
            _ => false,
        };
        if active {
            proof {
                assert(spec_cell_active(spec_row_get(rows[i as int], col@)));
            }
            return true;
        }
        i = i + 1;
    }
    false
}

/// The active columns of an array of records, in universe order.
fn active_columns(items: &Vec<JsonValue>) -> (r: Vec<String>)
    ensures
        views_of(r@) == spec_active_columns(
            spec_column_universe(),
            JsonValue::arr_view(items@),
        ),
{
    let ghost rows = JsonValue::arr_view(items@);
    let universe = column_universe();
    let mut r: Vec<String> = Vec::new();
    let mut i: usize = 0;
    let ghost ucols = spec_column_universe();
    proof {
        assert(ucols.skip(0) =~= ucols);
        assert(views_of(r@) + spec_active_columns(ucols, rows) =~= spec_active_columns(
            ucols,
            rows,
        ));
    }
    while i < universe.len()
        invariant
            i <= universe@.len(),
            rows == JsonValue::arr_view(items@),
            ucols == spec_column_universe(),
            views_of(universe@) == ucols,
            ucols.len() == universe@.len(),
            spec_active_columns(ucols, rows) == views_of(r@) + spec_active_columns(
                ucols.skip(i as int),
                rows,
            ),
        decreases universe@.len() - i,
    {
        proof {
            assert(ucols.skip(i as int)[0] == ucols[i as int]);
            assert(ucols.skip(i as int).drop_first() =~= ucols.skip(i + 1));
            assert(ucols[i as int] == universe@[i as int]@);
        }
        if col_active(items, universe[i].as_str()) {
            let ghost r0 = views_of(r@);
            r.push(universe[i].clone());
            proof {
                assert(views_of(r@) =~= r0.push(ucols[i as int]));
                assert(r0 + (seq![ucols[i as int]] + spec_active_columns(
                    ucols.skip(i + 1),
                    rows,
                )) =~= views_of(r@) + spec_active_columns(ucols.skip(i + 1), rows));
            }
        }
        i = i + 1;
    }
    proof {
        assert(ucols.skip(ucols.len() as int) =~= Seq::<Seq<char>>::empty());
        assert(views_of(r@) + Seq::<Seq<char>>::empty() =~= views_of(r@));
    }
    r
}

/// Projects records to delimited text.
///
/// An array projects its element records; a single object projects as one
/// record; an empty array yields empty output with no header; any other
/// input is rejected as invalid.
pub fn work_items_to_csv(value: &JsonValue) -> (r: Result<String, PipelineError>)
    ensures
        match r {
            Ok(s) => (value@ is Arr || value@ is Obj) && s@ == spec_project_rows(
                spec_rows_of(value@),
            ),
            Err(e) => !(value@ is Arr || value@ is Obj) && (e matches PipelineError::InvalidInput {
                message,
            } && message@ == crate::spec_invalid_projection_message()),
        },
{
    match value {
        JsonValue::Arr(items) => {
            if items.len() == 0 {
                proof {
                    assert(JsonValue::arr_view(items@) =~= Seq::<JsonNode>::empty());
                }
                return Ok(String::new());
            }
            let ghost rows = JsonValue::arr_view(items@);
            proof {
                crate::json::lemma_arr_view_index(items@);
            }
            let active = active_columns(items);
            let mut out = String::new();
            write_csv_record(&active, &mut out);
            let mut i: usize = 0;
            proof {
                assert(rows.skip(0) =~= rows);
            }
            while i < items.len()
                invariant
                    i <= items@.len(),
                    rows == JsonValue::arr_view(items@),
                    rows.len() == items@.len(),
                    forall|j: int| 0 <= j < items@.len() ==> rows[j] == items@[j].view_rec(),
                    views_of(active@) == spec_active_columns(spec_column_universe(), rows),
                    out@ + spec_row_lines(rows.skip(i as int), views_of(active@)) == spec_csv_record(
                        views_of(active@),
                    ) + spec_row_lines(rows, views_of(active@)),
                decreases items@.len() - i,
            {
                proof {
                    assert(rows.skip(i as int)[0] == rows[i as int]);
                    assert(rows.skip(i as int).drop_first() =~= rows.skip(i + 1));
                }
                let ghost before = out@;
                write_row(&items[i], &active, &mut out);
                i = i + 1;
                proof {
                    assert(before + (spec_csv_record(spec_row_cells(
                        rows[i - 1],
                        views_of(active@),
                    )) + spec_row_lines(rows.skip(i as int), views_of(active@))) =~= out@
                        + spec_row_lines(rows.skip(i as int), views_of(active@)));
                }
            }
            proof {
                assert(rows.skip(rows.len() as int) =~= Seq::<JsonNode>::empty());
                assert(out@ + Seq::<char>::empty() =~= out@);
            }
            Ok(out)
        },
        JsonValue::Obj(_) => {
            let ghost rows = seq![value@];
            let mut single: Vec<String> = Vec::new();
            let universe = column_universe();
            let mut active: Vec<String> = Vec::new();
            let mut i: usize = 0;
            let ghost ucols = spec_column_universe();
            proof {
                assert(ucols.skip(0) =~= ucols);
                assert(views_of(active@) + spec_active_columns(ucols, rows)
                    =~= spec_active_columns(ucols, rows));
            }
            while i < universe.len()
                invariant
                    i <= universe@.len(),
                    rows == seq![value@],
                    ucols == spec_column_universe(),
                    views_of(universe@) == ucols,
                    ucols.len() == universe@.len(),
                    spec_active_columns(ucols, rows) == views_of(active@) + spec_active_columns(
                        ucols.skip(i as int),
                        rows,
                    ),
                decreases universe@.len() - i,
            {
                proof {
                    assert(ucols.skip(i as int)[0] == ucols[i as int]);
                    assert(ucols.skip(i as int).drop_first() =~= ucols.skip(i + 1));
                    assert(ucols[i as int] == universe@[i as int]@);
                }
                let is_active = match value {
                    JsonValue::Obj(pairs) => {
                        match crate::json::obj_get(pairs, universe[i].as_str()) {
                            Option::Some(v) => match v {
                                JsonValue::Null => false,
                                JsonValue::Str(s) => s.unicode_len() > 0,
                                _ => true,
                            },
                            Option::None => false,
                        }
                    },
                    _ => false,
                };
                proof {
                    assert(rows[0] == value@);
                    assert(is_active == spec_cell_active(
                        spec_row_get(rows[0], ucols[i as int]),
                    ));
                    assert(is_active == spec_col_active(rows, ucols[i as int]));
                }
                if is_active {
                    let ghost a0 = views_of(active@);
                    active.push(universe[i].clone());
                    proof {
                        assert(views_of(active@) =~= a0.push(ucols[i as int]));
                        assert(a0 + (seq![ucols[i as int]] + spec_active_columns(
                            ucols.skip(i + 1),
                            rows,
                        )) =~= views_of(active@) + spec_active_columns(ucols.skip(i + 1), rows));
                    }
                }
                i = i + 1;
            }
            proof {
                assert(ucols.skip(ucols.len() as int) =~= Seq::<Seq<char>>::empty());
                assert(views_of(active@) + Seq::<Seq<char>>::empty() =~= views_of(active@));
            }
            let mut out = String::new();
            write_csv_record(&active, &mut out);
            write_row(value, &active, &mut out);
            proof {
                assert(rows.drop_first() =~= Seq::<JsonNode>::empty());
                assert(spec_row_lines(Seq::<JsonNode>::empty(), views_of(active@)) == Seq::<
                    char,
                >::empty());
                assert(rows.len() == 1);
                assert(rows[0] == value@);
                assert(spec_row_lines(rows, views_of(active@)) == spec_csv_record(spec_row_cells(
                    rows[0],
                    views_of(active@),
                )) + Seq::<char>::empty());
                assert(out@ =~= spec_csv_record(views_of(active@)) + spec_row_lines(
                    rows,
                    views_of(active@),
                ));
            }
            Ok(out)
        },
        _ => Err(crate::invalid_projection_input_error()),
    }
}

/// The message an empty batch renders.
pub open spec fn spec_no_items_message() -> Seq<char> {
    "No work items found"@
}

/// The tail both composite operations share: simplifies a batch of raw
/// records and projects it to delimited text. An empty batch reads as a
/// message rather than empty output; a non-empty one never fails.
pub fn render_work_items(records: Vec<JsonValue>) -> (r: Result<String, PipelineError>)
    ensures
        r is Ok,
        records@.len() == 0 ==> r->Ok_0@ == spec_no_items_message(),
        records@.len() > 0 ==> r->Ok_0@ == spec_project_rows(
            crate::simplify::spec_simp_items(JsonValue::arr_view(records@)),
        ),
{
    if records.len() == 0 {
        return Ok(String::from_str("No work items found"));
    }
    let ghost rows = JsonValue::arr_view(records@);
    let simplified = crate::simplify::simplify_work_item_json(JsonValue::Arr(records));
    proof {
        assert(simplified@ == JsonNode::Arr(crate::simplify::spec_simp_items(rows)));
    }
    match work_items_to_csv(&simplified) {
        Ok(text) => Ok(text),
        Err(e) => {
            proof {
                assert(false);
            }
            Err(e)
        },
    }
}

} // verus!
