//! CSV text to a `table` node, with line, row and column selection.
//!
//! The `csv` crate splits the text into records; which records and columns
//! make up the table, and which one is the header, is decided here.
use vstd::prelude::*;
use crate::json_value::{members_get, push_item, push_member, view_items, view_members, Json, JsonV};
use crate::text::own;

verus! {

/// How to read a CSV text into a table.
#[derive(Debug, Clone)]
pub struct CsvReadOptions {
    /// 1-based line number to start reading from (inclusive). Default: 1
    pub start_line: usize,
    /// Whether the CSV contains a header row. If true and `header_line` is
    /// None, the first row at or after `start_line` is used as header.
    pub header: bool,
    /// Optional explicit 1-based line number that contains header. If set,
    /// that line is used as header regardless of start_line.
    pub header_line: Option<usize>,
    /// Optional row-range (1-based, inclusive) relative to the file. If set,
    /// only rows within this range are included (after applying start_line).
    pub row_range: Option<(usize, usize)>,
    /// Optional column-range (1-based, inclusive). If set, only columns in
    /// this range are included.
    pub col_range: Option<(usize, usize)>,
    /// delimiter byte (',' by default)
    pub delimiter: u8,
}

impl Default for CsvReadOptions {
    fn default() -> (r: Self)
        ensures
            r.start_line == 1,
            !r.header,
            r.header_line is None,
            r.row_range is None,
            r.col_range is None,
            r.delimiter == 44,
    {
        CsvReadOptions {
            start_line: 1,
            header: false,
            header_line: None,
            row_range: None,
            col_range: None,
            delimiter: 44,
        }
    }
}

/// The records that the `csv` crate reads from `text` with `delim` as the
/// field delimiter, no header row and records of any length: each record as
/// its fields, or the message of the first error.
pub uninterp spec fn csv_records(text: Seq<char>, delim: u8) -> Result<Seq<Seq<Seq<char>>>, Seq<char>>;

pub open spec fn records_view(rows: Seq<Vec<String>>) -> Seq<Seq<Seq<char>>> {
    rows.map_values(|r: Vec<String>| r@.map_values(|c: String| c@))
}

/// Runs the `csv` crate's reader on `text` (no header row, `delim` as the
/// delimiter, `flexible` records) and collects every record's fields as
/// strings, stopping at the first error. The contract names the result:
/// it is a function of the text and the delimiter.
#[verifier::external_body]
fn read_csv_records(text: &str, delim: u8) -> (r: Result<Vec<Vec<String>>, String>)
    ensures
        match r {
            Ok(rows) => csv_records(text@, delim) == Ok::<Seq<Seq<Seq<char>>>, Seq<char>>(
                records_view(rows@),
            ),
            Err(e) => csv_records(text@, delim) == Err::<Seq<Seq<Seq<char>>>, Seq<char>>(e@),
        },
{
    let mut rdr = ::csv::ReaderBuilder::new().has_headers(false).delimiter(delim).flexible(
        true,
    ).from_reader(text.as_bytes());
    let mut rows: Vec<Vec<String>> = Vec::new();
    for result in rdr.records() {
        match result {
            Ok(rec) => rows.push(rec.iter().map(|s| s.to_string()).collect()),
            Err(e) => return Err(e.to_string()),
        }
    }
    Ok(rows)
}

/// A node of type `tag` whose one child is the text `c`.
pub open spec fn text_node_spec(tag: Seq<char>, c: Seq<char>) -> JsonV {
    JsonV::Object(
        seq![
            ("t"@, JsonV::Str(tag)),
            ("children"@, JsonV::Array(seq![JsonV::Object(seq![("t"@, JsonV::Str("text"@)), ("text"@, JsonV::Str(c))])])),
        ],
    )
}

/// A table cell holding the text `c`.
pub open spec fn cell_spec(c: Seq<char>) -> JsonV {
    text_node_spec("_cell"@, c)
}

/// The records kept by the line and row selection: record `i` is line
/// `i + 1`, kept from `start_line` on and, with a row range, within it.
pub open spec fn kept_rows(rows: Seq<Seq<Seq<char>>>, start_line: nat, row_range: Option<(usize, usize)>) -> Seq<Seq<Seq<char>>>
    decreases rows.len(),
{
    if rows.len() == 0 {
        Seq::empty()
    } else {
        let prev = kept_rows(rows.drop_last(), start_line, row_range);
        let lineno = rows.len();
        let keep = lineno >= start_line && match row_range {
            Some((a, b)) => a <= lineno <= b,
            None => true,
        };
        if keep {
            prev.push(rows.last())
        } else {
            prev
        }
    }
}

/// The largest length among `rows`, and `min`.
pub open spec fn max_len(rows: Seq<Seq<Seq<char>>>, min: nat) -> nat
    decreases rows.len(),
{
    if rows.len() == 0 {
        min
    } else {
        let m = max_len(rows.drop_last(), min);
        if rows.last().len() > m {
            rows.last().len()
        } else {
            m
        }
    }
}

/// The cells of `row` for the columns `s..=e` (1-based), padded with empty
/// cells to `e - s + 1` cells.
pub open spec fn padded_row(row: Seq<Seq<char>>, s: nat, e: nat) -> Seq<JsonV> {
    Seq::new(
        (e - s + 1) as nat,
        |k: int|
            if s - 1 + k < row.len() {
                cell_spec(row[s - 1 + k])
            } else {
                cell_spec(Seq::empty())
            },
    )
}

/// The header cells for the columns `s..=e` (1-based) that the header has.
pub open spec fn header_cells(h: Seq<Seq<char>>, s: nat, e: nat) -> Seq<JsonV> {
    let lo: int = if s - 1 < h.len() {
        s - 1
    } else {
        h.len() as int
    };
    let hi: int = if e < h.len() {
        e as int
    } else {
        h.len() as int
    };
    let hi2: int = if hi < lo {
        lo
    } else {
        hi
    };
    Seq::new((hi2 - lo) as nat, |k: int| cell_spec(h[lo + k]))
}

/// The table of the header `h` (none when empty) and the body rows, for
/// the column selection.
pub open spec fn table_of(h: Seq<Seq<char>>, body: Seq<Seq<Seq<char>>>, col_range: Option<(usize, usize)>) -> Result<JsonV, Seq<char>> {
    let maxcols = max_len(body, h.len());
    let s: nat = match col_range {
        Some((a, _)) => a as nat,
        None => 1,
    };
    let e: nat = match col_range {
        Some((_, b)) => b as nat,
        None => maxcols,
    };
    if s == 0 || e < s {
        Err("invalid col_range"@)
    } else {
        Ok(
            JsonV::Object(
                seq![
                    ("t"@, JsonV::Str("table"@)),
                    ("align"@, JsonV::Array(Seq::new((e - s + 1) as nat, |_k: int| JsonV::Str("none"@)))),
                    ("headers"@, JsonV::Array(header_cells(h, s, e))),
                    ("rows"@, JsonV::Array(Seq::new(body.len(), |i: int| JsonV::Array(padded_row(body[i], s, e))))),
                ],
            ),
        )
    }
}

/// The options' values.
pub open spec fn header_lineno(o: CsvReadOptions) -> nat {
    match o.header_line {
        Some(h) => h as nat,
        None => o.start_line as nat,
    }
}

/// The table that the records `rows` give under the options `o`, or the
/// message of the first check that fails.
pub open spec fn csv_table(rows: Seq<Seq<Seq<char>>>, o: CsvReadOptions) -> Result<JsonV, Seq<char>> {
    if o.start_line == 0 {
        Err("start_line must be >= 1"@)
    } else {
        let eff = kept_rows(rows, o.start_line as nat, o.row_range);
        if o.header {
            let h = header_lineno(o);
            if h < o.start_line || h > rows.len() {
                Err("header_line out of range"@)
            } else {
                let idx = h - o.start_line;
                if idx >= eff.len() {
                    Err("header_line not available after start_line"@)
                } else {
                    table_of(eff[idx], eff.remove(idx), o.col_range)
                }
            }
        } else {
            table_of(Seq::empty(), eff, o.col_range)
        }
    }
}

/// A table cell holding the text `c`.
fn cell(c: &str) -> (r: Json)
    ensures
        r@ == cell_spec(c@),
{
    text_node("_cell", c)
}

/// A node of type `tag` whose one child is the text `c`.
pub fn text_node(tag: &str, c: &str) -> (r: Json)
    ensures
        r@ == text_node_spec(tag@, c@),
{
    let mut inner: Vec<(String, Json)> = Vec::new();
    assert(view_members(inner@) =~= Seq::empty());
    push_member(&mut inner, "t", Json::Str(own("text")));
    push_member(&mut inner, "text", Json::Str(own(c)));
    let ghost iv = view_members(inner@);
    assert(iv =~= seq![("t"@, JsonV::Str("text"@)), ("text"@, JsonV::Str(c@))]);
    let mut kids: Vec<Json> = Vec::new();
    assert(view_items(kids@) =~= Seq::empty());
    push_item(&mut kids, Json::Object(inner));
    assert(view_items(kids@) =~= seq![JsonV::Object(iv)]);
    let mut m: Vec<(String, Json)> = Vec::new();
    assert(view_members(m@) =~= Seq::empty());
    push_member(&mut m, "t", Json::Str(own(tag)));
    push_member(&mut m, "children", Json::Array(kids));
    proof {
        assert(view_members(m@) =~= seq![
            ("t"@, JsonV::Str(tag@)),
            ("children"@, JsonV::Array(seq![JsonV::Object(seq![("t"@, JsonV::Str("text"@)), ("text"@, JsonV::Str(c@))])])),
        ]);
    }
    Json::Object(m)
}

/// The indices of the records kept by the line and row selection.
fn kept_indices(rows: &Vec<Vec<String>>, start_line: usize, row_range: Option<(usize, usize)>) -> (r: Vec<usize>)
    ensures
        r@.map_values(|i: usize| records_view(rows@)[i as int]) == kept_rows(
            records_view(rows@),
            start_line as nat,
            row_range,
        ),
        forall|k: int| 0 <= k < r@.len() ==> #[trigger] r@[k] < rows@.len(),
{
    let ghost rv = records_view(rows@);
    let mut out: Vec<usize> = Vec::new();
    let mut i: usize = 0;
    assert(rv.subrange(0, 0) =~= Seq::<Seq<Seq<char>>>::empty());
    assert(out@.map_values(|i: usize| rv[i as int]) =~= Seq::<Seq<Seq<char>>>::empty());
    while i < rows.len()
        invariant
            i <= rows@.len(),
            rv == records_view(rows@),
            rv.len() == rows@.len(),
            out@.map_values(|i: usize| rv[i as int]) == kept_rows(rv.subrange(0, i as int), start_line as nat, row_range),
            forall|k: int| 0 <= k < out@.len() ==> #[trigger] out@[k] < i,
        decreases rows.len() - i,
    {
        let lineno = i + 1;
        let keep = lineno >= start_line && match row_range {
            Some((a, b)) => a <= lineno && lineno <= b,
            None => true,
        };
        let ghost o0 = out@;
        assert(rv.subrange(0, i + 1).drop_last() =~= rv.subrange(0, i as int));
        if keep {
            out.push(i);
            assert(out@.map_values(|i: usize| rv[i as int]) =~= o0.map_values(|i: usize| rv[i as int]).push(rv[i as int]));
        }
        i = i + 1;
    }
    assert(rv.subrange(0, rv.len() as int) =~= rv);
    out
}

pub open spec fn picked(rv: Seq<Seq<Seq<char>>>, ix: Seq<usize>) -> Seq<Seq<Seq<char>>> {
    ix.map_values(|i: usize| rv[i as int])
}

/// The largest row length among the picked records, and `min`.
fn max_cols(rows: &Vec<Vec<String>>, body: &Vec<usize>, min: usize) -> (r: usize)
    requires
        forall|k: int| 0 <= k < body@.len() ==> #[trigger] body@[k] < rows@.len(),
    ensures
        r == max_len(picked(records_view(rows@), body@), min as nat),
{
    let ghost rv = records_view(rows@);
    let ghost bv = picked(rv, body@);
    let mut m = min;
    let mut k: usize = 0;
    assert(bv.subrange(0, 0) =~= Seq::<Seq<Seq<char>>>::empty());
    while k < body.len()
        invariant
            k <= body@.len(),
            rv == records_view(rows@),
            bv == picked(rv, body@),
            forall|j: int| 0 <= j < body@.len() ==> #[trigger] body@[j] < rows@.len(),
            m == max_len(bv.subrange(0, k as int), min as nat),
        decreases body.len() - k,
    {
        let len = rows[body[k]].len();
        assert(bv.subrange(0, k + 1).drop_last() =~= bv.subrange(0, k as int));
        assert(bv[k as int].len() == len);
        if len > m {
            m = len;
        }
        k = k + 1;
    }
    assert(bv.subrange(0, bv.len() as int) =~= bv);
    m
}

/// The cells of `row` for the columns `s..=e`, padded to `e - s + 1` cells.
fn padded_row_exec(row: &Vec<String>, s: usize, e: usize) -> (r: Vec<Json>)
    requires
        1 <= s <= e,
    ensures
        view_items(r@) == padded_row(row@.map_values(|c: String| c@), s as nat, e as nat),
{
    let ghost rw = row@.map_values(|c: String| c@);
    let n = e - s + 1;
    let mut out: Vec<Json> = Vec::new();
    let mut k: usize = 0;
    proof {
        reveal_strlit("");
    }
    while k < n
        invariant
            1 <= s <= e,
            n == e - s + 1,
            k <= n,
            rw == row@.map_values(|c: String| c@),
            view_items(out@) =~= padded_row(rw, s as nat, e as nat).subrange(0, k as int),
        decreases n - k,
    {
        proof {
            reveal_strlit("");
        }
        assert(padded_row(rw, s as nat, e as nat).len() == n);
        let x = if s - 1 + k < row.len() {
            let y = cell(row[s - 1 + k].as_str());
            assert(rw[s - 1 + k] == row@[s - 1 + k]@);
            assert(y@ == padded_row(rw, s as nat, e as nat)[k as int]);
            y
        } else {
            let y = cell("");
            assert(""@ =~= Seq::<char>::empty());
            assert(y@ == padded_row(rw, s as nat, e as nat)[k as int]);
            y
        };
        let ghost o0 = view_items(out@);
        push_item(&mut out, x);
        assert(view_items(out@) =~= padded_row(rw, s as nat, e as nat).subrange(0, k + 1));
        k = k + 1;
    }
    out
}

/// The header cells of `h` for the columns `s..=e`.
fn header_cells_exec(h: &Vec<String>, s: usize, e: usize) -> (r: Vec<Json>)
    requires
        1 <= s,
    ensures
        view_items(r@) == header_cells(h@.map_values(|c: String| c@), s as nat, e as nat),
{
    let ghost hw = h@.map_values(|c: String| c@);
    let lo = if s - 1 < h.len() {
        s - 1
    } else {
        h.len()
    };
    let hi = if e < h.len() {
        e
    } else {
        h.len()
    };
    let hi2 = if hi < lo {
        lo
    } else {
        hi
    };
    let mut out: Vec<Json> = Vec::new();
    let mut k = lo;
    while k < hi2
        invariant
            lo <= k <= hi2 <= h@.len(),
            1 <= s,
            lo == (if s - 1 < h@.len() {
                s - 1
            } else {
                h@.len() as int
            }),
            hi2 == (if (if e < h@.len() {
                e as int
            } else {
                h@.len() as int
            }) < lo {
                lo as int
            } else if e < h@.len() {
                e as int
            } else {
                h@.len() as int
            }),
            hw == h@.map_values(|c: String| c@),
            view_items(out@) =~= header_cells(hw, s as nat, e as nat).subrange(0, k - lo),
            header_cells(hw, s as nat, e as nat).len() == hi2 - lo,
        decreases hi2 - k,
    {
        let x = cell(h[k].as_str());
        assert(hw[k as int] == h@[k as int]@);
        assert(header_cells(hw, s as nat, e as nat)[k - lo] == cell_spec(hw[k as int]));
        assert(x@ == header_cells(hw, s as nat, e as nat)[k - lo]);
        push_item(&mut out, x);
        assert(view_items(out@) =~= header_cells(hw, s as nat, e as nat).subrange(0, k + 1 - lo));
        k = k + 1;
    }
    out
}

pub open spec fn header_view(rv: Seq<Seq<Seq<char>>>, header: Option<usize>) -> Seq<Seq<char>> {
    match header {
        Some(h) => rv[h as int],
        None => Seq::empty(),
    }
}

/// The table of the header record `header` (if any) and the body records.
fn table_exec(
    rows: &Vec<Vec<String>>,
    header: Option<usize>,
    body: &Vec<usize>,
    col_range: Option<(usize, usize)>,
) -> (r: Result<Json, String>)
    requires
        header matches Some(h) ==> h < rows@.len(),
        forall|k: int| 0 <= k < body@.len() ==> #[trigger] body@[k] < rows@.len(),
    ensures
        match table_of(header_view(records_view(rows@), header), picked(records_view(rows@), body@), col_range) {
            Ok(j) => r matches Ok(x) && x@ == j,
            Err(e) => r matches Err(m) && m@ == e,
        },
{
    let ghost rv = records_view(rows@);
    let ghost hv = header_view(rv, header);
    let ghost bv = picked(rv, body@);
    let hlen = match header {
        Some(h) => rows[h].len(),
        None => 0,
    };
    let maxcols = max_cols(rows, body, hlen);
    assert(maxcols == max_len(bv, hv.len()));
    let (s, e) = match col_range {
        Some((a, b)) => (a, b),
        None => (1, maxcols),
    };
    if s == 0 || e < s {
        return Err(own("invalid col_range"));
    }
    let ncols: usize = e - s + 1;
    let mut align: Vec<Json> = Vec::new();
    let mut k: usize = 0;
    while k < ncols
        invariant
            k <= ncols,
            view_items(align@) =~= Seq::new(k as nat, |_k: int| JsonV::Str("none"@)),
        decreases ncols - k,
    {
        push_item(&mut align, Json::Str(own("none")));
        assert(view_items(align@) =~= Seq::new((k + 1) as nat, |_k: int| JsonV::Str("none"@)));
        k = k + 1;
    }
    let headers = match header {
        Some(h) => header_cells_exec(&rows[h], s, e),
        None => {
            let v: Vec<Json> = Vec::new();
            assert(view_items(v@) =~= header_cells(Seq::empty(), s as nat, e as nat));
            v
        },
    };
    assert(view_items(headers@) == header_cells(hv, s as nat, e as nat));
    let mut out_rows: Vec<Json> = Vec::new();
    let mut i: usize = 0;
    while i < body.len()
        invariant
            i <= body@.len(),
            1 <= s <= e,
            rv == records_view(rows@),
            bv == picked(rv, body@),
            forall|j: int| 0 <= j < body@.len() ==> #[trigger] body@[j] < rows@.len(),
            view_items(out_rows@) =~= Seq::new(i as nat, |j: int| JsonV::Array(padded_row(bv[j], s as nat, e as nat))),
        decreases body.len() - i,
    {
        let r = padded_row_exec(&rows[body[i]], s, e);
        assert(bv[i as int] == rows@[body@[i as int] as int]@.map_values(|c: String| c@));
        push_item(&mut out_rows, Json::Array(r));
        assert(view_items(out_rows@) =~= Seq::new((i + 1) as nat, |j: int| JsonV::Array(padded_row(bv[j], s as nat, e as nat))));
        i = i + 1;
    }
    let mut m: Vec<(String, Json)> = Vec::new();
    assert(view_members(m@) =~= Seq::empty());
    push_member(&mut m, "t", Json::Str(own("table")));
    push_member(&mut m, "align", Json::Array(align));
    push_member(&mut m, "headers", Json::Array(headers));
    let ghost av = view_items(align@);
    let ghost hcv = view_items(headers@);
    let ghost rwv = view_items(out_rows@);
    push_member(&mut m, "rows", Json::Array(out_rows));
    assert(view_members(m@) =~= seq![
        ("t"@, JsonV::Str("table"@)),
        ("align"@, JsonV::Array(av)),
        ("headers"@, JsonV::Array(hcv)),
        ("rows"@, JsonV::Array(rwv)),
    ]);
    assert(av == Seq::new((e - s + 1) as nat, |_k: int| JsonV::Str("none"@)));
    assert(rwv == Seq::new(bv.len(), |j: int| JsonV::Array(padded_row(bv[j], s as nat, e as nat))));
    Ok(Json::Object(m))
}

/// Builds the table of the CSV records `rows` under `opts`: the line and row
/// selection, the header row, and the column selection, each cell a `_cell`
/// node; or the message of the first check that fails.
pub fn csv_table_from_records(rows: &Vec<Vec<String>>, opts: &CsvReadOptions) -> (r: Result<Json, String>)
    ensures
        match csv_table(records_view(rows@), *opts) {
            Ok(j) => r matches Ok(x) && x@ == j,
            Err(e) => r matches Err(m) && m@ == e,
        },
{
    let ghost rv = records_view(rows@);
    if opts.start_line == 0 {
        return Err(own("start_line must be >= 1"));
    }
    let eff = kept_indices(rows, opts.start_line, opts.row_range);
    if opts.header {
        let h = match opts.header_line {
            Some(h) => h,
            None => opts.start_line,
        };
        if h < opts.start_line || h > rows.len() {
            return Err(own("header_line out of range"));
        }
        let idx = h - opts.start_line;
        if idx >= eff.len() {
            return Err(own("header_line not available after start_line"));
        }
        let mut body: Vec<usize> = Vec::new();
        let mut k: usize = 0;
        while k < eff.len()
            invariant
                k <= eff@.len(),
                idx < eff@.len(),
                forall|j: int| 0 <= j < eff@.len() ==> #[trigger] eff@[j] < rows@.len(),
                forall|j: int| 0 <= j < body@.len() ==> #[trigger] body@[j] < rows@.len(),
                body@ =~= if k <= idx {
                    eff@.subrange(0, k as int)
                } else {
                    eff@.subrange(0, idx as int) + eff@.subrange(idx + 1, k as int)
                },
            decreases eff.len() - k,
        {
            if k != idx {
                body.push(eff[k]);
            }
            k = k + 1;
        }
        proof {
            let ev = picked(rv, eff@);
            assert(body@ =~= eff@.remove(idx as int));
            assert(picked(rv, body@) =~= ev.remove(idx as int));
            assert(ev[idx as int] == rv[eff@[idx as int] as int]);
        }
        table_exec(rows, Some(eff[idx]), &body, opts.col_range)
    } else {
        let r = table_exec(rows, None, &eff, opts.col_range);
        r
    }
}

/// Reads `csv_text` as CSV (with the options' delimiter) and builds its
/// table: the `csv` crate's error message when the text cannot be read,
/// else what [`csv_table_from_records`] gives for its records.
pub fn parse_csv_to_table_ast_str(csv_text: &str, opts: &CsvReadOptions) -> (r: Result<Json, String>)
    ensures
        match csv_records(csv_text@, opts.delimiter) {
            Err(e) => r matches Err(m) && m@ == e,
            Ok(rows) => match csv_table(rows, *opts) {
                Ok(j) => r matches Ok(x) && x@ == j,
                Err(e) => r matches Err(m) && m@ == e,
            },
        },
{
    match read_csv_records(csv_text, opts.delimiter) {
        Err(e) => Err(e),
        Ok(rows) => csv_table_from_records(&rows, opts),
    }
}

/// The rows of a table node.
pub open spec fn table_rows(t: JsonV) -> Seq<JsonV> {
    match t {
        JsonV::Object(m) => match members_get(m, "rows"@) {
            Some(JsonV::Array(a)) => a,
            _ => Seq::empty(),
        },
        _ => Seq::empty(),
    }
}

/// The number of cells of a row.
pub open spec fn row_cells(r: JsonV) -> nat {
    match r {
        JsonV::Array(a) => a.len(),
        _ => 0,
    }
}

proof fn lemma_table_of_rows(h: Seq<Seq<char>>, body: Seq<Seq<Seq<char>>>, col_range: Option<(usize, usize)>)
    ensures
        table_of(h, body, col_range) matches Ok(t) ==> table_rows(t).len() == body.len() && forall|i: int|
            0 <= i < body.len() ==> #[trigger] row_cells(table_rows(t)[i]) == (match col_range {
                Some((a, b)) => b - a + 1,
                None => max_len(body, h.len()) as int,
            }),
{
    reveal_strlit("t");
    reveal_strlit("align");
    reveal_strlit("headers");
    reveal_strlit("rows");
    if let Ok(t) = table_of(h, body, col_range) {
        if let JsonV::Object(m) = t {
            crate::json_value::lemma_key_index(m, "rows"@);
            assert(m[0].0 == "t"@);
            assert(m[1].0 == "align"@);
            assert("t"@.len() == 1 && "align"@.len() == 5 && "rows"@.len() == 4);
            assert(m[0].0 != "rows"@);
            assert(m[1].0 != "rows"@);
            assert(m[2].0 != "rows"@);
            assert(m[3].0 == "rows"@);
        }
    }
}

/// Every row of a CSV table has the same number of cells: short records
/// are padded to the selected columns.
pub proof fn lemma_csv_table_rectangular(rows: Seq<Seq<Seq<char>>>, o: CsvReadOptions)
    ensures
        csv_table(rows, o) matches Ok(t) ==> forall|i: int, j: int|
            0 <= i < table_rows(t).len() && 0 <= j < table_rows(t).len() ==> #[trigger] row_cells(
                table_rows(t)[i],
            ) == #[trigger] row_cells(table_rows(t)[j]),
{
    if o.start_line != 0 {
        let eff = kept_rows(rows, o.start_line as nat, o.row_range);
        if o.header {
            let h = header_lineno(o);
            if !(h < o.start_line || h > rows.len()) {
                let idx = h - o.start_line;
                if idx < eff.len() {
                    lemma_table_of_rows(eff[idx], eff.remove(idx), o.col_range);
                }
            }
        } else {
            lemma_table_of_rows(Seq::empty(), eff, o.col_range);
        }
    }
}

/// The header cells of a table node.
pub open spec fn table_headers(t: JsonV) -> Seq<JsonV> {
    match t {
        JsonV::Object(m) => match members_get(m, "headers"@) {
            Some(JsonV::Array(a)) => a,
            _ => Seq::empty(),
        },
        _ => Seq::empty(),
    }
}

/// The cells of a row node.
pub open spec fn row_items(r: JsonV) -> Seq<JsonV> {
    match r {
        JsonV::Array(a) => a,
        _ => Seq::empty(),
    }
}

/// Column selection keeps the header and the body aligned: with the columns
/// `s..=e` (1-based), the k-th header cell holds header field `s - 1 + k`,
/// for each header field that the selection reaches and no other, and the
/// k-th cell of every row holds that row's field `s - 1 + k` (empty past
/// the row's end), for `e - s + 1` cells.
pub proof fn lemma_columns_aligned(h: Seq<Seq<char>>, body: Seq<Seq<Seq<char>>>, s: usize, e: usize)
    ensures
        table_of(h, body, Some((s, e))) matches Ok(t) ==> {
            &&& table_headers(t).len() == (if e < h.len() { e as int } else { h.len() as int }) - (s - 1)
                || (table_headers(t).len() == 0 && s - 1 >= h.len())
            &&& forall|k: int|
                0 <= k && s - 1 + k < h.len() && s - 1 + k < e ==> #[trigger] table_headers(t)[k] == cell_spec(
                    h[s - 1 + k],
                )
            &&& table_rows(t).len() == body.len()
            &&& forall|i: int|
                0 <= i < body.len() ==> #[trigger] row_items(table_rows(t)[i]).len() == e - s + 1
            &&& forall|i: int, k: int|
                0 <= i < body.len() && 0 <= k < e - s + 1 ==> #[trigger] row_items(table_rows(t)[i])[k]
                    == cell_spec(
                    if s - 1 + k < body[i].len() {
                        body[i][s - 1 + k]
                    } else {
                        Seq::empty()
                    },
                )
        },
{
    if let Ok(t) = table_of(h, body, Some((s, e))) {
        reveal_strlit("t");
        reveal_strlit("align");
        reveal_strlit("headers");
        reveal_strlit("rows");
        assert("t"@.len() == 1 && "align"@.len() == 5 && "headers"@.len() == 7 && "rows"@.len() == 4);
        if let JsonV::Object(m) = t {
            crate::ast_spec::lemma_get_members(m, "headers"@);
            crate::ast_spec::lemma_get_members(m, "rows"@);
            assert(m[0].0 != "headers"@ && m[1].0 != "headers"@ && m[2].0 == "headers"@);
            assert(m[0].0 != "rows"@ && m[1].0 != "rows"@ && m[2].0 != "rows"@ && m[3].0 == "rows"@);
            assert(members_get(m, "headers"@) == Some(m[2].1));
            assert(members_get(m, "rows"@) == Some(m[3].1));
            let hc = header_cells(h, s as nat, e as nat);
            assert(table_headers(t) == hc);
            assert forall|k: int| 0 <= k && s - 1 + k < h.len() && s - 1 + k < e implies #[trigger] table_headers(t)[k]
                == cell_spec(h[s - 1 + k]) by {
                assert(hc[k] == cell_spec(h[s - 1 + k]));
            }
        }
    }
}

} // verus!
