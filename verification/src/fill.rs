use crate::error::ExcelError;
use crate::headers::{
    build_header_map, entries_contain, entries_view, last_entry_index, lemma_scan_entries_props,
    scan_entries, HeaderMap,
};
use crate::options::{value_text, Mode, Value};
use crate::sheet::{
    cells_cols_removed, cells_rows_removed, is_highest_of, lemma_highest_unique, spec_has_sheet,
    spec_highest, spec_sheet_cells, stored_cell_text, wb_highest, wb_loaded, wb_remove_columns,
    wb_remove_rows, wb_sheet_names,
};
use crate::table::{table_has_column, table_height, table_wf, Table};
use umya_spreadsheet::Workbook;
use vstd::prelude::*;

verus! {

// ===========================================================================
// Choosing the header row of a sheet.
// ===========================================================================
/// Which row of a sheet carries the header names: the first row, the last
/// row, or a given one-based row.
#[derive(Debug, Clone, Copy, PartialEq, Eq, Structural)]
pub enum RowChoice {
    First,
    Last,
    Index(u32),
}

/// Resolve a header-row choice against a sheet's (first, default, last)
/// rows. A given row must be one-based; row zero is refused.
pub fn get_header_row(which_row: Option<RowChoice>, rows: (u32, u32, u32)) -> (r: Result<
    u32,
    ExcelError,
>)
    ensures
        match which_row {
            None => r == Ok::<u32, ExcelError>(rows.1),
            Some(RowChoice::First) => r == Ok::<u32, ExcelError>(rows.0),
            Some(RowChoice::Last) => r == Ok::<u32, ExcelError>(rows.2),
            Some(RowChoice::Index(n)) => if n == 0 {
                r == Err::<u32, ExcelError>(ExcelError::InvalidReference)
            } else {
                r == Ok::<u32, ExcelError>(n)
            },
        },
{
    match which_row {
        None => Ok(rows.1),
        Some(RowChoice::First) => Ok(rows.0),
        Some(RowChoice::Last) => Ok(rows.2),
        Some(RowChoice::Index(n)) => {
            if n == 0 {
                Err(ExcelError::InvalidReference)
            } else {
                Ok(n)
            }
        },
    }
}

// ===========================================================================
// The write model: what projecting a table onto a sheet does to its cells.
// ===========================================================================
/// Where the value at row-offset `x` of a column anchored at line index
/// `idx` lands: in row mode the column is worksheet column `idx` and `x`
/// counts rows down from the anchor row; in column mode the roles swap.
pub open spec fn write_key(mode: Mode, idx: u32, anchor_col: u32, anchor_row: u32, x: int) -> (
    u32,
    u32,
) {
    match mode {
        Mode::Row => (idx, (anchor_row + x) as u32),
        Mode::Column => ((anchor_col + x) as u32, idx),
    }
}

/// The sheet cells after the first `upto` values of one table column are
/// written at line index `idx`: each value lands at its `write_key`, as
/// the text the worksheet stores for it; a null is skipped when
/// `skip_null` is set and writes the empty string otherwise.
pub open spec fn write_column_model(
    cells: Map<(u32, u32), Seq<char>>,
    mode: Mode,
    idx: u32,
    anchor_col: u32,
    anchor_row: u32,
    vals: Seq<Value>,
    skip_null: bool,
    upto: int,
) -> Map<(u32, u32), Seq<char>>
    decreases upto,
{
    if upto <= 0 {
        cells
    } else {
        let prev = write_column_model(cells, mode, idx, anchor_col, anchor_row, vals, skip_null, upto - 1);
        if skip_null && vals[upto - 1] is Null {
            prev
        } else {
            prev.insert(
                write_key(mode, idx, anchor_col, anchor_row, upto - 1),
                stored_cell_text(value_text(vals[upto - 1])),
            )
        }
    }
}

/// The sheet cells after the first `upto` header entries are processed:
/// an entry writes its table column when it is the last entry carrying
/// its name and the table has that column; every other entry writes
/// nothing.
pub open spec fn project_model(
    cells: Map<(u32, u32), Seq<char>>,
    entries: Seq<(Seq<char>, u32)>,
    t: Table,
    mode: Mode,
    anchor_col: u32,
    anchor_row: u32,
    skip_null: bool,
    upto: int,
) -> Map<(u32, u32), Seq<char>>
    decreases upto,
{
    if upto <= 0 {
        cells
    } else {
        let prev = project_model(cells, entries, t, mode, anchor_col, anchor_row, skip_null, upto - 1);
        let e = entries[upto - 1];
        if last_entry_index(entries, e.0) == Some(upto - 1) && table_has_column(t, e.0) {
            let j = choose|j: int| 0 <= j < t.columns.len() && #[trigger] t.columns@[j].name@ == e.0;
            write_column_model(
                prev,
                mode,
                e.1,
                anchor_col,
                anchor_row,
                t.columns@[j].cells@,
                skip_null,
                table_height(t),
            )
        } else {
            prev
        }
    }
}

/// How many of the first `j` table columns have no header entry yet.
pub open spec fn missing_count(entries: Seq<(Seq<char>, u32)>, t: Table, j: int) -> int
    decreases j,
{
    if j <= 0 {
        0
    } else {
        missing_count(entries, t, j - 1) + if entries_contain(entries, t.columns@[j - 1].name@) {
            0int
        } else {
            1int
        }
    }
}

/// The header entries extended for the first `j` table columns: a column
/// the sheet has no header for is appended as a fresh trailing line, the
/// first at index `base`, each further one right after it.
pub open spec fn extend_entries(
    entries: Seq<(Seq<char>, u32)>,
    t: Table,
    base: int,
    j: int,
) -> Seq<(Seq<char>, u32)>
    decreases j,
{
    if j <= 0 {
        entries
    } else {
        let prev = extend_entries(entries, t, base, j - 1);
        let name = t.columns@[j - 1].name@;
        if entries_contain(entries, name) {
            prev
        } else {
            prev.push((name, (base + missing_count(entries, t, j - 1)) as u32))
        }
    }
}

/// Strict-mode disagreement between a header line and a table: a header
/// name the table lacks, or a table column the header line lacks.
pub open spec fn name_mismatch(entries: Seq<(Seq<char>, u32)>, t: Table) -> bool {
    (exists|i: int| 0 <= i < entries.len() && !table_has_column(t, (#[trigger] entries[i]).0)) || (
    exists|j: int|
        0 <= j < t.columns.len() && !entries_contain(entries, (#[trigger] t.columns@[j]).name@))
}

/// The sheet cells after stale lines past the written block are removed:
/// in row mode, rows from `anchor_row + h` through the highest row; in
/// column mode, the same for columns. A sheet whose highest line is the
/// largest representable index keeps its trailing lines.
pub open spec fn truncate_model(
    cells: Map<(u32, u32), Seq<char>>,
    mode: Mode,
    anchor_col: u32,
    anchor_row: u32,
    h: int,
) -> Map<(u32, u32), Seq<char>> {
    match mode {
        Mode::Row => {
            let hr = spec_highest(cells).1;
            if anchor_row + h <= hr && hr < u32::MAX {
                cells_rows_removed(cells, (anchor_row + h) as u32, (hr - (anchor_row + h) + 1) as u32)
            } else {
                cells
            }
        },
        Mode::Column => {
            let hc = spec_highest(cells).0;
            if anchor_col + h <= hc && hc < u32::MAX {
                cells_cols_removed(cells, (anchor_col + h) as u32, (hc - (anchor_col + h) + 1) as u32)
            } else {
                cells
            }
        },
    }
}

/// Appending an entry keeps every other name's membership and adds its own.
pub proof fn lemma_entries_contain_push(
    s: Seq<(Seq<char>, u32)>,
    e: (Seq<char>, u32),
    name: Seq<char>,
)
    ensures
        entries_contain(s.push(e), name) == (entries_contain(s, name) || e.0 == name),
{
    let sp = s.push(e);
    if entries_contain(s, name) {
        let i = choose|i: int| 0 <= i < s.len() && (#[trigger] s[i]).0 == name;
        assert(sp[i] == s[i]);
        assert(entries_contain(sp, name));
    }
    if e.0 == name {
        assert(sp[s.len() as int] == e);
        assert(entries_contain(sp, name));
    }
    if entries_contain(sp, name) {
        let i = choose|i: int| 0 <= i < sp.len() && (#[trigger] sp[i]).0 == name;
        if i < s.len() {
            assert(s[i] == sp[i]);
            assert(entries_contain(s, name));
        } else {
            assert(sp[i] == e);
        }
    }
}

/// Extending the entries for table columns other than `name` does not
/// change whether `name` has an entry.
pub proof fn lemma_extend_contains(
    entries: Seq<(Seq<char>, u32)>,
    t: Table,
    base: int,
    j: int,
    name: Seq<char>,
)
    requires
        0 <= j <= t.columns.len(),
        forall|k: int| 0 <= k < j ==> (#[trigger] t.columns@[k]).name@ != name,
    ensures
        entries_contain(extend_entries(entries, t, base, j), name) == entries_contain(
            entries,
            name,
        ),
    decreases j,
{
    if j > 0 {
        lemma_extend_contains(entries, t, base, j - 1, name);
        let prev = extend_entries(entries, t, base, j - 1);
        let nm = t.columns@[j - 1].name@;
        if !entries_contain(entries, nm) {
            lemma_entries_contain_push(prev, (nm, (base + missing_count(entries, t, j - 1)) as u32), name);
        }
    }
}

/// The count of missing columns never shrinks as more columns are seen.
pub proof fn lemma_missing_count_mono(entries: Seq<(Seq<char>, u32)>, t: Table, j1: int, j2: int)
    requires
        0 <= j1 <= j2,
    ensures
        missing_count(entries, t, j1) <= missing_count(entries, t, j2),
        missing_count(entries, t, j1) >= 0,
    decreases j2 - j1, j1,
{
    if j1 < j2 {
        lemma_missing_count_mono(entries, t, j1, j2 - 1);
    } else if j1 > 0 {
        lemma_missing_count_mono(entries, t, j1 - 1, j1 - 1);
    }
}

/// With every table column already present among the entries, extending
/// changes nothing.
pub proof fn lemma_extend_none_missing(entries: Seq<(Seq<char>, u32)>, t: Table, base: int, j: int)
    requires
        0 <= j <= t.columns.len(),
        forall|k: int|
            0 <= k < j ==> entries_contain(entries, (#[trigger] t.columns@[k]).name@),
    ensures
        extend_entries(entries, t, base, j) == entries,
    decreases j,
{
    if j > 0 {
        lemma_extend_none_missing(entries, t, base, j - 1);
    }
}

/// The full outcome of a by-header-name projection on a sheet's cells:
/// which failure it reports, or the cells it leaves behind. Strict-mode
/// disagreement is reported first; then a write or appended line that
/// would leave the representable grid; otherwise the table lands and
/// stale trailing lines go.
pub open spec fn by_name_outcome(
    cells0: Map<(u32, u32), Seq<char>>,
    entries0: Seq<(Seq<char>, u32)>,
    t: Table,
    mode: Mode,
    anchor_col: u32,
    anchor_row: u32,
    strict: bool,
    skip_null: bool,
) -> Result<Map<(u32, u32), Seq<char>>, ExcelError> {
    let h = table_height(t);
    let w = t.columns.len() as int;
    let axis_anchor = match mode {
        Mode::Row => anchor_row as int,
        Mode::Column => anchor_col as int,
    };
    let base = (match mode {
        Mode::Row => spec_highest(cells0).0,
        Mode::Column => spec_highest(cells0).1,
    }) as int + 1;
    let anchor_overflow = h > 0 && axis_anchor + h - 1 > u32::MAX;
    let append_overflow = !strict && missing_count(entries0, t, w) > 0 && base + missing_count(
        entries0,
        t,
        w,
    ) - 1 > u32::MAX;
    let ext = extend_entries(entries0, t, base, w);
    if strict && name_mismatch(entries0, t) {
        Err(ExcelError::ColumnMismatch)
    } else if anchor_overflow || append_overflow {
        Err(ExcelError::InvalidReference)
    } else {
        Ok(
            truncate_model(
                project_model(
                    cells0,
                    ext,
                    t,
                    mode,
                    anchor_col,
                    anchor_row,
                    skip_null,
                    ext.len() as int,
                ),
                mode,
                anchor_col,
                anchor_row,
                h,
            ),
        )
    }
}

/// Write a table into a sheet by header name: each table column lands in
/// the worksheet line its name is mapped to; in strict mode any
/// disagreement between header names and table columns fails with
/// `ColumnMismatch`, while otherwise a table column the sheet has no
/// header for is appended on a fresh trailing line. After the data lands,
/// stale lines past the written block are removed. A write or appended
/// line that would leave the representable grid fails with
/// `InvalidReference` before anything changes.
#[verifier::loop_isolation(false)]
pub fn add_table_by_column_name(
    wb: &mut Workbook,
    sheet_name: &str,
    table: &Table,
    hmap: HeaderMap,
    mode: Mode,
    anchor_col: u32,
    anchor_row: u32,
    strict: bool,
    skip_null: bool,
) -> (r: Result<(), ExcelError>)
    requires
        wb_loaded(*old(wb)),
        spec_has_sheet(*old(wb), sheet_name@),
        table_wf(*table),
        anchor_col >= 1,
        anchor_row >= 1,
        forall|i: int|
            0 <= i < entries_view(hmap.entries@).len() ==> (#[trigger] entries_view(
                hmap.entries@,
            )[i]).1 >= 1,
    ensures
        wb_loaded(*final(wb)),
        wb_sheet_names(*final(wb)) == wb_sheet_names(*old(wb)),
        forall|n2: Seq<char>|
            n2 != sheet_name@ ==> spec_sheet_cells(*final(wb), n2) == spec_sheet_cells(
                *old(wb),
                n2,
            ),
        ({
            let cells0 = spec_sheet_cells(*old(wb), sheet_name@);
            let entries0 = entries_view(hmap.entries@);
            match by_name_outcome(
                cells0,
                entries0,
                *table,
                mode,
                anchor_col,
                anchor_row,
                strict,
                skip_null,
            ) {
                Ok(m) => r == Ok::<(), ExcelError>(()) && spec_sheet_cells(
                    *final(wb),
                    sheet_name@,
                ) == m,
                Err(e) => r == Err::<(), ExcelError>(e) && spec_sheet_cells(
                    *final(wb),
                    sheet_name@,
                ) == cells0,
            }
        }),
{
    let ghost cells0 = spec_sheet_cells(*old(wb), sheet_name@);
    let ghost entries0 = entries_view(hmap.entries@);
    let ghost basev = (match mode {
        Mode::Row => spec_highest(cells0).0,
        Mode::Column => spec_highest(cells0).1,
    }) as int + 1;
    let mut hm = hmap;
    let w = table.width();

    // Strict mode refuses any disagreement between header names and table
    // columns.
    if strict {
        let n_entries = hm.len();
        let mut i: usize = 0;
        while i < n_entries
            invariant
                i <= n_entries,
                hm.entries@ == hmap.entries@,
                forall|k: int| 0 <= k < i ==> table_has_column(*table, (#[trigger] entries0[k]).0),
            decreases n_entries - i,
        {
            proof {
                assert(entries0[i as int] == (hm.entries@[i as int].0@, hm.entries@[i as int].1));
            }
            match table.find_column(hm.entries[i].0.as_str()) {
                Some(_) => {},
                None => {
                    proof {
                        assert(!table_has_column(*table, entries0[i as int].0));
                    }
                    return Err(ExcelError::ColumnMismatch);
                },
            }
            i = i + 1;
        }
        let mut j: usize = 0;
        while j < w
            invariant
                j <= w,
                hm.entries@ == hmap.entries@,
                forall|k: int|
                    0 <= k < j ==> entries_contain(entries0, (#[trigger] table.columns@[k]).name@),
            decreases w - j,
        {
            if !hm.contains(table.columns[j].name.as_str()) {
                proof {
                    assert(!entries_contain(entries0, table.columns@[j as int].name@));
                }
                return Err(ExcelError::ColumnMismatch);
            }
            j = j + 1;
        }
        proof {
            assert(!name_mismatch(entries0, *table));
        }
    }

    // A write below or right of the representable grid is refused.
    let h = table.height();
    let axis_anchor: u64 = match mode {
        Mode::Row => anchor_row as u64,
        Mode::Column => anchor_col as u64,
    };
    if h > 0 && h as u64 - 1 > u32::MAX as u64 - axis_anchor {
        proof {
            assert(axis_anchor + h as u64 - 1 > u32::MAX);
        }
        return Err(ExcelError::InvalidReference);
    }

    // Without strictness, a table column the sheet has no header for is
    // appended on a fresh trailing line.
    if strict {
        proof {
            assert forall|k: int| 0 <= k < w implies entries_contain(
                entries0,
                (#[trigger] table.columns@[k]).name@,
            ) by {}
            lemma_extend_none_missing(entries0, *table, basev, w as int);
            lemma_missing_count_mono(entries0, *table, 0, w as int);
            assert(missing_count(entries0, *table, w as int) == 0) by {
                lemma_missing_zero(entries0, *table, w as int);
            }
        }
    } else {
        let (hc0, hr0) = wb_highest(wb, sheet_name);
        proof {
            lemma_highest_unique(cells0, hc0, hr0);
        }
        let base64: u64 = match mode {
            Mode::Row => hc0 as u64 + 1,
            Mode::Column => hr0 as u64 + 1,
        };
        proof {
            assert(base64 as int == basev);
        }
        // First pass: count the columns without a header entry.
        let mut mtotal: u64 = 0;
        let mut j: usize = 0;
        while j < w
            invariant
                j <= w,
                hm.entries@ == hmap.entries@,
                mtotal as int == missing_count(entries0, *table, j as int),
                mtotal <= j as u64,
            decreases w - j,
        {
            if !hm.contains(table.columns[j].name.as_str()) {
                mtotal = mtotal + 1;
            }
            j = j + 1;
        }
        if mtotal > 0 && (base64 > u32::MAX as u64 || mtotal - 1 > u32::MAX as u64 - base64) {
            proof {
                assert(base64 + mtotal - 1 > u32::MAX);
            }
            return Err(ExcelError::InvalidReference);
        }
        // Second pass: append each missing column's name on its own line.
        let mut cnt: u64 = 0;
        let mut j: usize = 0;
        while j < w
            invariant
                j <= w,
                cnt as int == missing_count(entries0, *table, j as int),
                cnt <= mtotal,
                mtotal as int == missing_count(entries0, *table, w as int),
                entries_view(hm.entries@) == extend_entries(entries0, *table, basev, j as int),
                forall|i: int|
                    0 <= i < entries_view(hm.entries@).len() ==> (#[trigger] entries_view(
                        hm.entries@,
                    )[i]).1 >= 1,
            decreases w - j,
        {
            proof {
                assert forall|k: int| 0 <= k < j implies (#[trigger] table.columns@[k]).name@
                    != table.columns@[j as int].name@ by {
                    if table.columns@[k].name@ == table.columns@[j as int].name@ {
                        assert(crate::table::has_duplicate_names(table.columns@));
                    }
                }
                lemma_extend_contains(
                    entries0,
                    *table,
                    basev,
                    j as int,
                    table.columns@[j as int].name@,
                );
                lemma_missing_count_mono(entries0, *table, j as int + 1, w as int);
            }
            if !hm.contains(table.columns[j].name.as_str()) {
                let idx32: u32 = (base64 + cnt) as u32;
                hm.insert(table.columns[j].name.clone(), idx32);
                cnt = cnt + 1;
            }
            j = j + 1;
        }
    }

    let ghost ext = extend_entries(entries0, *table, basev, w as int);
    proof {
        assert(entries_view(hm.entries@) == ext);
    }

    // Write every table column whose name owns a header entry.
    let n = hm.len();
    let mut i: usize = 0;
    while i < n
        invariant
            i <= n,
            n == hm.entries@.len(),
            entries_view(hm.entries@) == ext,
            wb_loaded(*wb),
            wb_sheet_names(*wb) == wb_sheet_names(*old(wb)),
            forall|n2: Seq<char>|
                n2 != sheet_name@ ==> spec_sheet_cells(*wb, n2) == spec_sheet_cells(*old(wb), n2),
            spec_sheet_cells(*wb, sheet_name@) == project_model(
                cells0,
                ext,
                *table,
                mode,
                anchor_col,
                anchor_row,
                skip_null,
                i as int,
            ),
        decreases n - i,
    {
        let ghost prev = project_model(
            cells0,
            ext,
            *table,
            mode,
            anchor_col,
            anchor_row,
            skip_null,
            i as int,
        );
        proof {
            assert(ext[i as int] == (hm.entries@[i as int].0@, hm.entries@[i as int].1));
        }
        let active = match hm.last_pos(hm.entries[i].0.as_str()) {
            Some(p) => p == i,
            None => false,
        };
        proof {
            assert(active == (last_entry_index(ext, ext[i as int].0) == Some(i as int)));
        }
        if active {
            match table.find_column(hm.entries[i].0.as_str()) {
                Some(cj) => {
                    proof {
                        let jc = choose|j: int|
                            0 <= j < table.columns.len() && #[trigger] table.columns@[j].name@
                                == ext[i as int].0;
                        assert(table.columns@[cj as int].name@ == ext[i as int].0);
                        assert(table_has_column(*table, ext[i as int].0));
                        assert(table.columns@[jc].name@ == ext[i as int].0);
                        if (cj as int) != jc {
                            if (cj as int) < jc {
                                assert(crate::table::has_duplicate_names(table.columns@));
                            } else {
                                assert(crate::table::has_duplicate_names(table.columns@));
                            }
                            assert(false);
                        }
                    }
                    let idx = hm.entries[i].1;
                    let ghost vals = table.columns@[cj as int].cells@;
                    proof {
                        assert(table.columns@[cj as int].cells.len() == table_height(*table));
                    }
                    let mut x: usize = 0;
                    while x < h
                        invariant
                            x <= h,
                            h == table_height(*table),
                            cj < table.columns.len(),
                            vals == table.columns@[cj as int].cells@,
                            vals.len() == h,
                            idx == ext[i as int].1,
                            idx >= 1,
                            h > 0 ==> axis_anchor + h as u64 - 1 <= u32::MAX as u64,
                            wb_loaded(*wb),
                            wb_sheet_names(*wb) == wb_sheet_names(*old(wb)),
                            forall|n2: Seq<char>|
                                n2 != sheet_name@ ==> spec_sheet_cells(*wb, n2)
                                    == spec_sheet_cells(*old(wb), n2),
                            spec_sheet_cells(*wb, sheet_name@) == write_column_model(
                                prev,
                                mode,
                                idx,
                                anchor_col,
                                anchor_row,
                                vals,
                                skip_null,
                                x as int,
                            ),
                        decreases h - x,
                    {
                        let v = &table.columns[cj].cells[x];
                        if skip_null && v.is_null() {
                            // A null value leaves the prior cell content.
                        } else {
                            let text = v.value();
                            let (dc, dr) = match mode {
                                Mode::Row => (idx, (anchor_row as u64 + x as u64) as u32),
                                Mode::Column => ((anchor_col as u64 + x as u64) as u32, idx),
                            };
                            proof {
                                assert((dc, dr) == write_key(
                                    mode,
                                    idx,
                                    anchor_col,
                                    anchor_row,
                                    x as int,
                                ));
                            }
                            let found = crate::sheet::wb_set_cell(
                                wb,
                                sheet_name,
                                dc,
                                dr,
                                text.as_str(),
                            );
                            proof {
                                assert(found);
                            }
                        }
                        x = x + 1;
                    }
                    proof {
                        assert(spec_sheet_cells(*wb, sheet_name@) == project_model(
                            cells0,
                            ext,
                            *table,
                            mode,
                            anchor_col,
                            anchor_row,
                            skip_null,
                            i as int + 1,
                        ));
                    }
                },
                None => {
                    proof {
                        assert(!table_has_column(*table, ext[i as int].0));
                    }
                },
            }
        }
        i = i + 1;
    }
    proof {
        assert(ext.len() == n);
    }

    // Remove stale lines past the written block.
    let end64: u64 = axis_anchor + h as u64;
    if end64 <= u32::MAX as u64 {
        match mode {
            Mode::Row => delete_rows_as_of(wb, sheet_name, end64 as u32),
            Mode::Column => delete_cols_as_of(wb, sheet_name, end64 as u32),
        }
    } else {
        proof {
            let projected = project_model(
                cells0,
                ext,
                *table,
                mode,
                anchor_col,
                anchor_row,
                skip_null,
                ext.len() as int,
            );
            assert(truncate_model(projected, mode, anchor_col, anchor_row, h as int)
                == projected);
        }
    }
    Ok(())
}

/// A zero missing count means every column is present.
proof fn lemma_missing_zero(entries: Seq<(Seq<char>, u32)>, t: Table, j: int)
    requires
        0 <= j <= t.columns.len(),
        forall|k: int| 0 <= k < j ==> entries_contain(entries, (#[trigger] t.columns@[k]).name@),
    ensures
        missing_count(entries, t, j) == 0,
    decreases j,
{
    if j > 0 {
        lemma_missing_zero(entries, t, j - 1);
    }
}

/// Remove every row of a sheet from `row_index` down to its highest row;
/// a sheet that ends above `row_index` is left as it is.
pub fn delete_rows_as_of(wb: &mut Workbook, sheet_name: &str, row_index: u32)
    requires
        wb_loaded(*old(wb)),
        spec_has_sheet(*old(wb), sheet_name@),
        row_index >= 1,
    ensures
        wb_loaded(*final(wb)),
        wb_sheet_names(*final(wb)) == wb_sheet_names(*old(wb)),
        forall|n2: Seq<char>|
            n2 != sheet_name@ ==> spec_sheet_cells(*final(wb), n2) == spec_sheet_cells(
                *old(wb),
                n2,
            ),
        spec_sheet_cells(*final(wb), sheet_name@) == {
            let cells = spec_sheet_cells(*old(wb), sheet_name@);
            let hr = spec_highest(cells).1;
            if row_index <= hr && hr < u32::MAX {
                cells_rows_removed(cells, row_index, (hr - row_index + 1) as u32)
            } else {
                cells
            }
        },
{
    let ghost cells = spec_sheet_cells(*old(wb), sheet_name@);
    let (_hc, hr) = wb_highest(wb, sheet_name);
    proof {
        lemma_highest_unique(cells, _hc, hr);
    }
    if row_index <= hr && hr < u32::MAX {
        let num = hr - row_index + 1;
        let found = wb_remove_rows(wb, sheet_name, row_index, num);
        proof {
            assert(found);
            assert(spec_sheet_cells(*wb, sheet_name@) == cells_rows_removed(
                cells,
                row_index,
                num,
            ));
        }
    }
}

/// Remove every column of a sheet from `col_index` rightwards to its
/// highest column; a sheet that ends left of `col_index` is left as it is.
pub fn delete_cols_as_of(wb: &mut Workbook, sheet_name: &str, col_index: u32)
    requires
        wb_loaded(*old(wb)),
        spec_has_sheet(*old(wb), sheet_name@),
        col_index >= 1,
    ensures
        wb_loaded(*final(wb)),
        wb_sheet_names(*final(wb)) == wb_sheet_names(*old(wb)),
        forall|n2: Seq<char>|
            n2 != sheet_name@ ==> spec_sheet_cells(*final(wb), n2) == spec_sheet_cells(
                *old(wb),
                n2,
            ),
        spec_sheet_cells(*final(wb), sheet_name@) == {
            let cells = spec_sheet_cells(*old(wb), sheet_name@);
            let hc = spec_highest(cells).0;
            if col_index <= hc && hc < u32::MAX {
                cells_cols_removed(cells, col_index, (hc - col_index + 1) as u32)
            } else {
                cells
            }
        },
{
    let ghost cells = spec_sheet_cells(*old(wb), sheet_name@);
    let (hc, _hr) = wb_highest(wb, sheet_name);
    proof {
        lemma_highest_unique(cells, hc, _hr);
    }
    if col_index <= hc && hc < u32::MAX {
        let num = hc - col_index + 1;
        let found = wb_remove_columns(wb, sheet_name, col_index, num);
        proof {
            assert(found);
        }
    }
}


// ===========================================================================
// The by-position strategy: table columns land on worksheet columns 1, 2,
// ... in order.
// ===========================================================================
/// The sheet cells after the first `upto` table columns are placed by
/// position: column `j` (zero-based) lands on worksheet column `j + 1`,
/// its name written at `start_row` when `named` is set and its values
/// below that.
pub open spec fn by_position_model(
    cells: Map<(u32, u32), Seq<char>>,
    t: Table,
    start_row: u32,
    named: bool,
    upto: int,
) -> Map<(u32, u32), Seq<char>>
    decreases upto,
{
    if upto <= 0 {
        cells
    } else {
        let prev = by_position_model(cells, t, start_row, named, upto - 1);
        let colx = upto as u32;
        let off: int = if named {
            1
        } else {
            0
        };
        let prev2 = if named {
            prev.insert((colx, start_row), stored_cell_text(t.columns@[upto - 1].name@))
        } else {
            prev
        };
        write_column_model(
            prev2,
            Mode::Row,
            colx,
            1,
            (start_row + off) as u32,
            t.columns@[upto - 1].cells@,
            false,
            table_height(t),
        )
    }
}

/// The outcome of a by-position placement: the width check that fails it,
/// the overflow that refuses it, or the cells it leaves behind.
pub open spec fn by_position_outcome(
    cells0: Map<(u32, u32), Seq<char>>,
    t: Table,
    start_row: u32,
    named: bool,
    strict: bool,
) -> Result<Map<(u32, u32), Seq<char>>, ExcelError> {
    let w = t.columns.len() as int;
    let h = table_height(t);
    let sheet_w = spec_highest(cells0).0 as int;
    let off: int = if named {
        1
    } else {
        0
    };
    let mismatch = if strict {
        w != sheet_w
    } else {
        w > sheet_w
    };
    let overflow = h > 0 && start_row + off + h - 1 > u32::MAX;
    if mismatch {
        Err(ExcelError::ColumnMismatch)
    } else if overflow {
        Err(ExcelError::InvalidReference)
    } else {
        Ok(by_position_model(cells0, t, start_row, named, w))
    }
}

/// Write a table into a sheet by position: table columns map one to one,
/// in order, onto worksheet columns starting at column 1. With `named`
/// set, each column's name lands at `start_row` and its values below it;
/// otherwise the values start at `start_row` itself. In strict mode the
/// table must be exactly as wide as the sheet, otherwise at most as wide,
/// else the placement fails with `ColumnMismatch`. A write below the
/// representable grid fails with `InvalidReference` before anything
/// changes.
#[verifier::loop_isolation(false)]
pub fn add_table_to_sheet(
    wb: &mut Workbook,
    sheet_name: &str,
    table: &Table,
    start_row: u32,
    named: bool,
    strict: bool,
) -> (r: Result<(), ExcelError>)
    requires
        wb_loaded(*old(wb)),
        spec_has_sheet(*old(wb), sheet_name@),
        table_wf(*table),
        start_row >= 1,
    ensures
        wb_loaded(*final(wb)),
        wb_sheet_names(*final(wb)) == wb_sheet_names(*old(wb)),
        forall|n2: Seq<char>|
            n2 != sheet_name@ ==> spec_sheet_cells(*final(wb), n2) == spec_sheet_cells(
                *old(wb),
                n2,
            ),
        ({
            let cells0 = spec_sheet_cells(*old(wb), sheet_name@);
            match by_position_outcome(cells0, *table, start_row, named, strict) {
                Ok(m) => r == Ok::<(), ExcelError>(()) && spec_sheet_cells(
                    *final(wb),
                    sheet_name@,
                ) == m,
                Err(e) => r == Err::<(), ExcelError>(e) && spec_sheet_cells(
                    *final(wb),
                    sheet_name@,
                ) == cells0,
            }
        }),
{
    let ghost cells0 = spec_sheet_cells(*old(wb), sheet_name@);
    let w = table.width();
    let h = table.height();
    let (sheet_w, _hr) = wb_highest(wb, sheet_name);
    proof {
        lemma_highest_unique(cells0, sheet_w, _hr);
    }
    if strict {
        if w != sheet_w as usize {
            return Err(ExcelError::ColumnMismatch);
        }
    } else {
        if w > sheet_w as usize {
            return Err(ExcelError::ColumnMismatch);
        }
    }
    let off: u64 = if named {
        1
    } else {
        0
    };
    let limit: u64 = u32::MAX as u64 - start_row as u64;
    if h > 0 && (off > limit || h as u64 - 1 > limit - off) {
        proof {
            assert(start_row + off + h as u64 - 1 > u32::MAX);
        }
        return Err(ExcelError::InvalidReference);
    }
    let mut j: usize = 0;
    while j < w
        invariant
            j <= w,
            w == table.columns.len(),
            w <= sheet_w as usize,
            wb_loaded(*wb),
            wb_sheet_names(*wb) == wb_sheet_names(*old(wb)),
            forall|n2: Seq<char>|
                n2 != sheet_name@ ==> spec_sheet_cells(*wb, n2) == spec_sheet_cells(*old(wb), n2),
            spec_sheet_cells(*wb, sheet_name@) == by_position_model(
                cells0,
                *table,
                start_row,
                named,
                j as int,
            ),
        decreases w - j,
    {
        let ghost prev = by_position_model(cells0, *table, start_row, named, j as int);
        let colx: u32 = (j + 1) as u32;
        if named {
            let found = crate::sheet::wb_set_cell(
                wb,
                sheet_name,
                colx,
                start_row,
                table.columns[j].name.as_str(),
            );
            proof {
                assert(found);
            }
        }
        let ghost prev2 = if named {
            prev.insert((colx, start_row), stored_cell_text(table.columns@[j as int].name@))
        } else {
            prev
        };
        let ghost vals = table.columns@[j as int].cells@;
        proof {
            assert(table.columns@[j as int].cells.len() == table_height(*table));
            assert(spec_sheet_cells(*wb, sheet_name@) == prev2);
        }
        let anchor_row: u32 = if h > 0 {
            (start_row as u64 + off) as u32
        } else {
            start_row
        };
        let mut x: usize = 0;
        while x < h
            invariant
                x <= h,
                h == table_height(*table),
                j < w,
                w == table.columns.len(),
                vals == table.columns@[j as int].cells@,
                vals.len() == h,
                colx == j + 1,
                colx >= 1,
                h > 0 ==> start_row + off + h - 1 <= u32::MAX,
                anchor_row as int == if h > 0 {
                    start_row + off
                } else {
                    anchor_row as int
                },
                wb_loaded(*wb),
                wb_sheet_names(*wb) == wb_sheet_names(*old(wb)),
                forall|n2: Seq<char>|
                    n2 != sheet_name@ ==> spec_sheet_cells(*wb, n2) == spec_sheet_cells(
                        *old(wb),
                        n2,
                    ),
                spec_sheet_cells(*wb, sheet_name@) == write_column_model(
                    prev2,
                    Mode::Row,
                    colx,
                    1,
                    anchor_row,
                    vals,
                    false,
                    x as int,
                ),
            decreases h - x,
        {
            let text = table.columns[j].cells[x].value();
            let dr: u32 = (anchor_row as u64 + x as u64) as u32;
            proof {
                assert((colx, dr) == write_key(Mode::Row, colx, 1, anchor_row, x as int));
            }
            let found = crate::sheet::wb_set_cell(wb, sheet_name, colx, dr, text.as_str());
            proof {
                assert(found);
            }
            x = x + 1;
        }
        proof {
            let stv: u32 = (start_row + off) as u32;
            assert(write_column_model(prev2, Mode::Row, colx, 1, anchor_row, vals, false, h as int)
                == write_column_model(prev2, Mode::Row, colx, 1, stv, vals, false, h as int)) by {
                if h > 0 {
                    assert(anchor_row == stv);
                } else {
                }
            }
            assert(spec_sheet_cells(*wb, sheet_name@) == by_position_model(
                cells0,
                *table,
                start_row,
                named,
                j as int + 1,
            ));
        }
        j = j + 1;
    }
    Ok(())
}


/// Read the header names of a sheet: every cell of row `header_row` from
/// column 1 through the sheet's highest column, keyed on its text.
pub fn get_column_map(wb: &Workbook, sheet_name: &str, header_row: u32) -> (r: HeaderMap)
    requires
        wb_loaded(*wb),
        spec_has_sheet(*wb, sheet_name@),
    ensures
        entries_view(r.entries@) == scan_entries(
            spec_sheet_cells(*wb, sheet_name@),
            Mode::Row,
            header_row,
            1,
            spec_highest(spec_sheet_cells(*wb, sheet_name@)).0 as int + 1,
        ),
{
    let ghost cells = spec_sheet_cells(*wb, sheet_name@);
    let (hc, hr) = wb_highest(wb, sheet_name);
    proof {
        lemma_highest_unique(cells, hc, hr);
    }
    build_header_map(wb, sheet_name, header_row, 1, hc, Mode::Row)
}

/// The full outcome of filling a sheet from a table by header names: the
/// header row is chosen against the sheet's rows, data lands on the row
/// after the header when overwriting and after the sheet's last row
/// otherwise, and the by-header-name projection does the rest.
pub open spec fn fill_sheet_outcome(
    cells0: Map<(u32, u32), Seq<char>>,
    t: Table,
    which_row: Option<RowChoice>,
    strict: bool,
    skip_null: bool,
    overwrite: bool,
) -> Result<Map<(u32, u32), Seq<char>>, ExcelError> {
    let hc0 = spec_highest(cells0).0;
    let hr0 = spec_highest(cells0).1;
    let hrow_r: Result<u32, ExcelError> = match which_row {
        None => Ok(hr0),
        Some(RowChoice::First) => Ok(1u32),
        Some(RowChoice::Last) => Ok(hr0),
        Some(RowChoice::Index(n)) => if n == 0 {
            Err(ExcelError::InvalidReference)
        } else {
            Ok(n)
        },
    };
    match hrow_r {
        Err(e) => Err(e),
        Ok(hrow) => {
            let start = if overwrite {
                hrow as int + 1
            } else {
                hr0 as int + 1
            };
            if start > u32::MAX {
                Err(ExcelError::InvalidReference)
            } else {
                by_name_outcome(
                    cells0,
                    scan_entries(cells0, Mode::Row, hrow, 1, hc0 as int + 1),
                    t,
                    Mode::Row,
                    1,
                    start as u32,
                    strict,
                    skip_null,
                )
            }
        },
    }
}

/// Fill a sheet from a table by header names, directly on a workbook: the
/// header row (the sheet's last row when unsaid) supplies the name-to-
/// column mapping, and the table's rows land beneath the header when
/// `overwrite` is set, beneath everything the sheet holds otherwise.
pub fn fill_sheet_with(
    wb: &mut Workbook,
    sheet_name: &str,
    table: &Table,
    header_row: Option<RowChoice>,
    strict: bool,
    skip_null: bool,
    overwrite: bool,
) -> (r: Result<(), ExcelError>)
    requires
        wb_loaded(*old(wb)),
        table_wf(*table),
    ensures
        wb_loaded(*final(wb)),
        wb_sheet_names(*final(wb)) == wb_sheet_names(*old(wb)),
        forall|n2: Seq<char>|
            n2 != sheet_name@ ==> spec_sheet_cells(*final(wb), n2) == spec_sheet_cells(
                *old(wb),
                n2,
            ),
        !spec_has_sheet(*old(wb), sheet_name@) ==> r == Err::<(), ExcelError>(
            ExcelError::SheetNotFound,
        ) && spec_sheet_cells(*final(wb), sheet_name@) == spec_sheet_cells(*old(wb), sheet_name@),
        spec_has_sheet(*old(wb), sheet_name@) ==> ({
            let cells0 = spec_sheet_cells(*old(wb), sheet_name@);
            match fill_sheet_outcome(cells0, *table, header_row, strict, skip_null, overwrite) {
                Ok(m) => r == Ok::<(), ExcelError>(()) && spec_sheet_cells(
                    *final(wb),
                    sheet_name@,
                ) == m,
                Err(e) => r == Err::<(), ExcelError>(e) && spec_sheet_cells(
                    *final(wb),
                    sheet_name@,
                ) == cells0,
            }
        }),
{
    if !crate::sheet::wb_has_sheet(wb, sheet_name) {
        return Err(ExcelError::SheetNotFound);
    }
    let ghost cells0 = spec_sheet_cells(*old(wb), sheet_name@);
    let (hc0, hr0) = wb_highest(wb, sheet_name);
    proof {
        lemma_highest_unique(cells0, hc0, hr0);
    }
    let hrow = match get_header_row(header_row, (1, hr0, hr0)) {
        Ok(v) => v,
        Err(e) => {
            return Err(e);
        },
    };
    let start64: u64 = if overwrite {
        hrow as u64 + 1
    } else {
        hr0 as u64 + 1
    };
    if start64 > u32::MAX as u64 {
        return Err(ExcelError::InvalidReference);
    }
    let start_row: u32 = start64 as u32;
    let column_map = build_header_map(wb, sheet_name, hrow, 1, hc0, Mode::Row);
    proof {
        lemma_scan_entries_props(cells0, Mode::Row, hrow, 1, hc0 as int + 1);
        assert forall|i: int|
            0 <= i < entries_view(column_map.entries@).len() implies (#[trigger] entries_view(
            column_map.entries@,
        )[i]).1 >= 1 by {
            assert(entries_view(column_map.entries@)[i] == scan_entries(
                cells0,
                Mode::Row,
                hrow,
                1,
                hc0 as int + 1,
            )[i]);
        }
    }
    add_table_by_column_name(
        wb,
        sheet_name,
        table,
        column_map,
        Mode::Row,
        1,
        start_row,
        strict,
        skip_null,
    )
}


// ===========================================================================
// Law: a fill that does not overwrite stays below what the sheet already
// holds.
// ===========================================================================
/// Writing one column touches no cell outside rows
/// `anchor_row .. anchor_row + upto - 1` (row mode).
proof fn lemma_write_column_row_bounds(
    cells: Map<(u32, u32), Seq<char>>,
    idx: u32,
    anchor_col: u32,
    anchor_row: u32,
    vals: Seq<Value>,
    skip_null: bool,
    upto: int,
    k: (u32, u32),
)
    requires
        upto <= 0 || anchor_row + upto - 1 <= u32::MAX,
        k.1 < anchor_row || k.1 > anchor_row + upto - 1,
    ensures
        ({
            let m = write_column_model(
                cells,
                Mode::Row,
                idx,
                anchor_col,
                anchor_row,
                vals,
                skip_null,
                upto,
            );
            m.dom().contains(k) == cells.dom().contains(k) && (m.dom().contains(k) ==> m[k]
                == cells[k])
        }),
    decreases upto,
{
    if upto > 0 {
        lemma_write_column_row_bounds(
            cells,
            idx,
            anchor_col,
            anchor_row,
            vals,
            skip_null,
            upto - 1,
            k,
        );
        assert(write_key(Mode::Row, idx, anchor_col, anchor_row, upto - 1).1 == anchor_row + upto
            - 1);
    }
}

/// Projecting a table by header names touches no cell outside rows
/// `anchor_row .. anchor_row + height - 1` (row mode).
proof fn lemma_project_row_bounds(
    cells: Map<(u32, u32), Seq<char>>,
    entries: Seq<(Seq<char>, u32)>,
    t: Table,
    anchor_col: u32,
    anchor_row: u32,
    skip_null: bool,
    upto: int,
    k: (u32, u32),
)
    requires
        table_height(t) <= 0 || anchor_row + table_height(t) - 1 <= u32::MAX,
        k.1 < anchor_row || k.1 > anchor_row + table_height(t) - 1,
    ensures
        ({
            let m = project_model(
                cells,
                entries,
                t,
                Mode::Row,
                anchor_col,
                anchor_row,
                skip_null,
                upto,
            );
            m.dom().contains(k) == cells.dom().contains(k) && (m.dom().contains(k) ==> m[k]
                == cells[k])
        }),
    decreases upto,
{
    if upto > 0 {
        lemma_project_row_bounds(
            cells,
            entries,
            t,
            anchor_col,
            anchor_row,
            skip_null,
            upto - 1,
            k,
        );
        let prev = project_model(
            cells,
            entries,
            t,
            Mode::Row,
            anchor_col,
            anchor_row,
            skip_null,
            upto - 1,
        );
        let e = entries[upto - 1];
        if last_entry_index(entries, e.0) == Some(upto - 1) && table_has_column(t, e.0) {
            let j = choose|j: int|
                0 <= j < t.columns.len() && #[trigger] t.columns@[j].name@ == e.0;
            lemma_write_column_row_bounds(
                prev,
                e.1,
                anchor_col,
                anchor_row,
                t.columns@[j].cells@,
                skip_null,
                table_height(t),
                k,
            );
        }
    }
}

/// Law: a by-header-name fill in row mode whose data lands right after
/// the sheet's last row — the path a fill without overwriting takes —
/// touches no cell outside rows `R + 1 .. R + H`, for a sheet whose rows
/// end at `R` and a table of height `H`: outside that band the outcome
/// holds exactly the cells the sheet held before.
pub proof fn lemma_fill_without_overwrite_bounds(
    cells0: Map<(u32, u32), Seq<char>>,
    entries: Seq<(Seq<char>, u32)>,
    t: Table,
    anchor_col: u32,
    hr0: u32,
    strict: bool,
    skip_null: bool,
    m: Map<(u32, u32), Seq<char>>,
    k: (u32, u32),
)
    requires
        forall|kk: (u32, u32)| #[trigger] cells0.dom().contains(kk) ==> kk.1 <= hr0,
        hr0 < u32::MAX,
        by_name_outcome(
            cells0,
            entries,
            t,
            Mode::Row,
            anchor_col,
            (hr0 + 1) as u32,
            strict,
            skip_null,
        ) == Ok::<Map<(u32, u32), Seq<char>>, ExcelError>(m),
        !(hr0 + 1 <= k.1 <= hr0 + table_height(t)),
    ensures
        m.dom().contains(k) == cells0.dom().contains(k),
        m.dom().contains(k) ==> m[k] == cells0[k],
{
    let ar: u32 = (hr0 + 1) as u32;
    let h = table_height(t);
    let w = t.columns.len() as int;
    let base = spec_highest(cells0).0 as int + 1;
    let ext = extend_entries(entries, t, base, w);
    let projected = project_model(
        cells0,
        ext,
        t,
        Mode::Row,
        anchor_col,
        ar,
        skip_null,
        ext.len() as int,
    );
    lemma_project_row_bounds(cells0, ext, t, anchor_col, ar, skip_null, ext.len() as int, k);
    let hr2 = spec_highest(projected).1;
    if ar + h <= hr2 && hr2 < u32::MAX {
        // Trailing rows were removed; the cell in question lies either
        // above the landing band, where removal keeps cells in place, or
        // below it, where both maps hold nothing.
        let start: u32 = (ar + h) as u32;
        if k.1 < start {
            assert(m.dom().contains(k) == projected.dom().contains(k));
            assert(m.dom().contains(k) ==> m[k] == projected[k]);
        } else {
            if k.1 + (hr2 - start + 1) <= u32::MAX {
                let k2 = (k.0, (k.1 + (hr2 - start + 1)) as u32);
                lemma_project_row_bounds(
                    cells0,
                    ext,
                    t,
                    anchor_col,
                    ar,
                    skip_null,
                    ext.len() as int,
                    k2,
                );
                assert(!cells0.dom().contains(k2));
                assert(!projected.dom().contains(k2));
            }
            assert(!m.dom().contains(k));
            assert(!cells0.dom().contains(k));
        }
    } else {
        assert(m == projected);
    }
}


// ===========================================================================
// Law: where a filled value lands.
// ===========================================================================
/// Writing one column in row mode puts the value at row offset `x` at
/// its own row, whatever the column writes later.
proof fn lemma_write_column_lands(
    cells: Map<(u32, u32), Seq<char>>,
    idx: u32,
    anchor_col: u32,
    anchor_row: u32,
    vals: Seq<Value>,
    skip_null: bool,
    upto: int,
    x: int,
)
    requires
        0 <= x < upto,
        anchor_row + upto - 1 <= u32::MAX,
        !(skip_null && vals[x] is Null),
    ensures
        ({
            let m = write_column_model(
                cells,
                Mode::Row,
                idx,
                anchor_col,
                anchor_row,
                vals,
                skip_null,
                upto,
            );
            let key = (idx, (anchor_row + x) as u32);
            m.dom().contains(key) && m[key] == stored_cell_text(value_text(vals[x]))
        }),
    decreases upto,
{
    if x < upto - 1 {
        lemma_write_column_lands(
            cells,
            idx,
            anchor_col,
            anchor_row,
            vals,
            skip_null,
            upto - 1,
            x,
        );
        assert(write_key(Mode::Row, idx, anchor_col, anchor_row, upto - 1).1 == anchor_row + upto
            - 1);
        assert((anchor_row + x) as u32 != (anchor_row + upto - 1) as u32);
    }
}

/// Writing one column in row mode leaves every other worksheet column
/// alone.
proof fn lemma_write_column_other_col(
    cells: Map<(u32, u32), Seq<char>>,
    idx: u32,
    anchor_col: u32,
    anchor_row: u32,
    vals: Seq<Value>,
    skip_null: bool,
    upto: int,
    k: (u32, u32),
)
    requires
        k.0 != idx,
    ensures
        ({
            let m = write_column_model(
                cells,
                Mode::Row,
                idx,
                anchor_col,
                anchor_row,
                vals,
                skip_null,
                upto,
            );
            m.dom().contains(k) == cells.dom().contains(k) && (m.dom().contains(k) ==> m[k]
                == cells[k])
        }),
    decreases upto,
{
    if upto > 0 {
        lemma_write_column_other_col(
            cells,
            idx,
            anchor_col,
            anchor_row,
            vals,
            skip_null,
            upto - 1,
            k,
        );
    }
}

/// Projecting in row mode puts the value at row offset `x` of the table
/// column owned by the entry at position `p` at (that entry's line,
/// anchor row + x), provided no later entry shares the line.
proof fn lemma_project_lands(
    cells: Map<(u32, u32), Seq<char>>,
    entries: Seq<(Seq<char>, u32)>,
    t: Table,
    anchor_col: u32,
    anchor_row: u32,
    skip_null: bool,
    upto: int,
    p: int,
    x: int,
)
    requires
        table_wf(t),
        0 <= p < upto <= entries.len(),
        last_entry_index(entries, entries[p].0) == Some(p),
        table_has_column(t, entries[p].0),
        0 <= x < table_height(t),
        anchor_row + table_height(t) - 1 <= u32::MAX,
        forall|q: int| p < q < upto ==> (#[trigger] entries[q]).1 != entries[p].1,
        ({
            let j = choose|j: int|
                0 <= j < t.columns.len() && #[trigger] t.columns@[j].name@ == entries[p].0;
            !(skip_null && t.columns@[j].cells@[x] is Null)
        }),
    ensures
        ({
            let j = choose|j: int|
                0 <= j < t.columns.len() && #[trigger] t.columns@[j].name@ == entries[p].0;
            let m = project_model(
                cells,
                entries,
                t,
                Mode::Row,
                anchor_col,
                anchor_row,
                skip_null,
                upto,
            );
            let key = (entries[p].1, (anchor_row + x) as u32);
            m.dom().contains(key) && m[key] == stored_cell_text(
                value_text(t.columns@[j].cells@[x]),
            )
        }),
    decreases upto,
{
    let j = choose|j: int|
        0 <= j < t.columns.len() && #[trigger] t.columns@[j].name@ == entries[p].0;
    let key = (entries[p].1, (anchor_row + x) as u32);
    let prev = project_model(
        cells,
        entries,
        t,
        Mode::Row,
        anchor_col,
        anchor_row,
        skip_null,
        upto - 1,
    );
    if p == upto - 1 {
        assert(t.columns@[j].cells.len() == table_height(t));
        lemma_write_column_lands(
            prev,
            entries[p].1,
            anchor_col,
            anchor_row,
            t.columns@[j].cells@,
            skip_null,
            table_height(t),
            x,
        );
    } else {
        lemma_project_lands(
            cells,
            entries,
            t,
            anchor_col,
            anchor_row,
            skip_null,
            upto - 1,
            p,
            x,
        );
        let e = entries[upto - 1];
        if last_entry_index(entries, e.0) == Some(upto - 1) && table_has_column(t, e.0) {
            let j2 = choose|j2: int|
                0 <= j2 < t.columns.len() && #[trigger] t.columns@[j2].name@ == e.0;
            lemma_write_column_other_col(
                prev,
                e.1,
                anchor_col,
                anchor_row,
                t.columns@[j2].cells@,
                skip_null,
                table_height(t),
                key,
            );
        }
    }
}

/// The entries a fill extends a header scan with keep every line
/// distinct: the scanned entries stay in place and each appended one
/// takes the next fresh line from `base` on.
proof fn lemma_extend_idx_bounds(
    entries: Seq<(Seq<char>, u32)>,
    t: Table,
    base: int,
    j: int,
)
    requires
        0 <= j <= t.columns.len(),
        base >= 1,
        missing_count(entries, t, t.columns.len() as int) == 0 || base + missing_count(
            entries,
            t,
            t.columns.len() as int,
        ) - 1 <= u32::MAX,
    ensures
        ({
            let ext = extend_entries(entries, t, base, j);
            &&& ext.len() == entries.len() + missing_count(entries, t, j)
            &&& forall|i: int| 0 <= i < entries.len() ==> #[trigger] ext[i] == entries[i]
            &&& forall|i: int|
                entries.len() <= i < ext.len() ==> (#[trigger] ext[i]).1 as int == base + (i
                    - entries.len())
        }),
    decreases j,
{
    lemma_missing_count_mono(entries, t, 0, j);
    lemma_missing_count_mono(entries, t, j, t.columns.len() as int);
    if j > 0 {
        lemma_extend_idx_bounds(entries, t, base, j - 1);
        lemma_missing_count_mono(entries, t, 0, j - 1);
        lemma_missing_count_mono(entries, t, j - 1, j);
        let prevx = extend_entries(entries, t, base, j - 1);
        let extj = extend_entries(entries, t, base, j);
        let nm = t.columns@[j - 1].name@;
        if !entries_contain(entries, nm) {
            let pushed: u32 = (base + missing_count(entries, t, j - 1)) as u32;
            assert(extj == prevx.push((nm, pushed)));
            assert(missing_count(entries, t, j) == missing_count(entries, t, j - 1) + 1);
            assert(base + missing_count(entries, t, j - 1) <= u32::MAX);
            assert forall|i: int| 0 <= i < entries.len() implies #[trigger] extj[i]
                == entries[i] by {
                assert(extj[i] == prevx[i]);
            }
            assert forall|i: int|
                entries.len() <= i < extj.len() implies (#[trigger] extj[i]).1 as int == base + (i
                - entries.len()) by {
                if i < prevx.len() {
                    assert(extj[i] == prevx[i]);
                } else {
                    assert(extj[i] == (nm, pushed));
                }
            }
        }
    }
}

/// Law: a by-header-name fill in row mode whose header entries were read
/// off a header line — one entry per worksheet column, in order — puts
/// the value at row offset `x` of each matched table column exactly at
/// (the column its name owns, anchor row + x), stored as the worksheet
/// stores it. The entry owning the name may be a scanned one or an
/// appended one.
pub proof fn lemma_fill_value_lands(
    cells0: Map<(u32, u32), Seq<char>>,
    entries: Seq<(Seq<char>, u32)>,
    t: Table,
    anchor_col: u32,
    anchor_row: u32,
    strict: bool,
    skip_null: bool,
    m: Map<(u32, u32), Seq<char>>,
    name: Seq<char>,
    j: int,
    x: int,
)
    requires
        table_wf(t),
        // One entry per worksheet column, in order, as a header scan
        // starting at column `first` produces.
        forall|i: int|
            0 <= i < entries.len() ==> (#[trigger] entries[i]).1 as int == entries[0].1 + i,
        entries.len() == 0 || entries[0].1 as int + entries.len() - 1 <= spec_highest(
            cells0,
        ).0 as int,
        by_name_outcome(cells0, entries, t, Mode::Row, anchor_col, anchor_row, strict, skip_null)
            == Ok::<Map<(u32, u32), Seq<char>>, ExcelError>(m),
        0 <= j < t.columns.len(),
        t.columns@[j].name@ == name,
        0 <= x < table_height(t),
        !(skip_null && t.columns@[j].cells@[x] is Null),
        ({
            let base = spec_highest(cells0).0 as int + 1;
            let ext = extend_entries(entries, t, base, t.columns.len() as int);
            last_entry_index(ext, name) is Some
        }),
    ensures
        ({
            let base = spec_highest(cells0).0 as int + 1;
            let ext = extend_entries(entries, t, base, t.columns.len() as int);
            let p = last_entry_index(ext, name)->Some_0;
            let key = (ext[p].1, (anchor_row + x) as u32);
            m.dom().contains(key) && m[key] == stored_cell_text(
                value_text(t.columns@[j].cells@[x]),
            )
        }),
{
    let h = table_height(t);
    let w = t.columns.len() as int;
    let base = spec_highest(cells0).0 as int + 1;
    let ext = extend_entries(entries, t, base, w);
    crate::headers::lemma_last_entry_index(ext, name);
    let p = last_entry_index(ext, name)->Some_0;
    assert(ext[p].0 == name);
    assert(table_has_column(t, name));
    // The chosen column for the entry's name is column `j`, names being
    // unique.
    let jc = choose|jc: int| 0 <= jc < t.columns.len() && #[trigger] t.columns@[jc].name@ == name;
    if jc != j {
        if jc < j {
            assert(crate::table::has_duplicate_names(t.columns@));
        } else {
            assert(crate::table::has_duplicate_names(t.columns@));
        }
        assert(false);
    }
    // Lines are pairwise distinct across scanned and appended entries,
    // so no later entry writes over this one's column.
    let mc = missing_count(entries, t, w);
    if strict {
        assert(!name_mismatch(entries, t));
        assert forall|q: int| 0 <= q < w implies entries_contain(
            entries,
            (#[trigger] t.columns@[q]).name@,
        ) by {}
        lemma_missing_zero(entries, t, w);
    } else {
        lemma_missing_count_mono(entries, t, 0, w);
    }
    assert(mc == 0 || base + mc - 1 <= u32::MAX);
    let bound: int = if entries.len() == 0 {
        base - 1
    } else {
        entries[0].1 + entries.len() - 1
    };
    assert(bound < base);
    assert forall|i: int| 0 <= i < entries.len() implies (#[trigger] entries[i]).1 <= bound by {}
    lemma_extend_idx_bounds(entries, t, base, w);
    assert forall|q: int| p < q < ext.len() implies (#[trigger] ext[q]).1 != ext[p].1 by {
        if q < entries.len() {
            assert(ext[q] == entries[q] && ext[p] == entries[p]);
        } else if p < entries.len() {
            assert(ext[p] == entries[p]);
            assert(ext[p].1 <= bound);
            assert((ext[q].1 as int) == base + (q - entries.len()));
        } else {
            assert((ext[p].1 as int) == base + (p - entries.len()));
            assert((ext[q].1 as int) == base + (q - entries.len()));
        }
    }
    let projected = project_model(
        cells0,
        ext,
        t,
        Mode::Row,
        anchor_col,
        anchor_row,
        skip_null,
        ext.len() as int,
    );
    lemma_project_lands(
        cells0,
        ext,
        t,
        anchor_col,
        anchor_row,
        skip_null,
        ext.len() as int,
        p,
        x,
    );
    // Truncation begins below the written block and keeps the rows
    // above it in place.
    let key = (ext[p].1, (anchor_row + x) as u32);
    let hr2 = spec_highest(projected).1;
    if anchor_row + h <= hr2 && hr2 < u32::MAX {
        assert(key.1 < (anchor_row + h) as u32);
        assert(m.dom().contains(key) && m[key] == projected[key]);
    } else {
        assert(m == projected);
    }
}

} // verus!
