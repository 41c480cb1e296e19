use umya_spreadsheet::Workbook;
use vstd::prelude::*;

verus! {

// ===========================================================================
// The worksheet collaborator. A workbook is modelled by two names: the
// ordered list of its sheet names, and, per sheet name, the map from a
// cell's (column, row) to the text its value reads back as. Everything the
// library proves about worksheets rests on the contracts below, each of
// which states what the named umya-spreadsheet call does per its source.
//
// The names describe a workbook only when every sheet of it has been read
// in (`wb_loaded`): the deferred reader leaves sheets unread, and on such
// a sheet the collection's accessors refuse to answer or read it in on
// the spot, which no contract below covers. The whole-file reader yields
// loaded workbooks, a fresh workbook is loaded, and every operation here
// keeps a workbook loaded.
// ===========================================================================
#[verifier::external_type_specification]
#[verifier::external_body]
pub struct ExWorkbook(Workbook);

/// The sheet names of a workbook, in collection order.
pub uninterp spec fn wb_sheet_names(wb: Workbook) -> Seq<Seq<char>>;

/// The cells each sheet holds, keyed by sheet name: every existing cell's
/// (column, row) maps to the text its value reads back as.
pub uninterp spec fn wb_sheet_cells(wb: Workbook) -> Map<Seq<char>, Map<(u32, u32), Seq<char>>>;

/// Whether every sheet of the workbook has been read in. umya-spreadsheet's
/// deferred reader keeps sheets in their raw form until something reads
/// them in; `Workbook::sheet` answers `Err` for such a sheet even though it
/// exists, so the two model names above are claimed only of loaded
/// workbooks, and every operation of this library asks for one.
pub uninterp spec fn wb_loaded(wb: Workbook) -> bool;

/// What a cell set to `s` reads back as. umya-spreadsheet's `set_value`
/// guesses a type for the text it is given (number, boolean, text), so the
/// text read back is a function of the text written — for example, a
/// numeric "3.70" reads back "3.7" — and of nothing else.
pub uninterp spec fn stored_cell_text(s: Seq<char>) -> Seq<char>;

/// Whether a workbook has a sheet of this name.
pub open spec fn spec_has_sheet(wb: Workbook, name: Seq<char>) -> bool {
    wb_sheet_names(wb).contains(name)
}

/// The cells of one sheet of a workbook.
pub open spec fn spec_sheet_cells(wb: Workbook, name: Seq<char>) -> Map<(u32, u32), Seq<char>> {
    wb_sheet_cells(wb)[name]
}

/// The two workbooks carry the same sheets with the same cells.
pub open spec fn book_unchanged(a: Workbook, b: Workbook) -> bool {
    wb_sheet_names(b) == wb_sheet_names(a) && forall|n: Seq<char>|
        #[trigger] spec_sheet_cells(b, n) == spec_sheet_cells(a, n)
}

/// `(hc, hr)` bound the columns and rows of the cells in `cells`, each
/// attained by some cell, with (0, 0) for a sheet without cells.
pub open spec fn is_highest_of(cells: Map<(u32, u32), Seq<char>>, hc: u32, hr: u32) -> bool {
    &&& forall|k: (u32, u32)| #[trigger] cells.dom().contains(k) ==> k.0 <= hc && k.1 <= hr
    &&& ((hc == 0 && hr == 0) || ((exists|k: (u32, u32)| #[trigger] cells.dom().contains(k) && k.0
        == hc) && (exists|k: (u32, u32)| #[trigger] cells.dom().contains(k) && k.1 == hr)))
}

/// The highest (column, row) pair of a cell map, where one exists. The
/// pair satisfying `is_highest_of` is unique, so this names it.
pub open spec fn spec_highest(cells: Map<(u32, u32), Seq<char>>) -> (u32, u32) {
    choose|p: (u32, u32)| is_highest_of(cells, p.0, p.1)
}

/// Any pair satisfying `is_highest_of` is the `spec_highest` pair.
pub proof fn lemma_highest_unique(cells: Map<(u32, u32), Seq<char>>, hc: u32, hr: u32)
    requires
        is_highest_of(cells, hc, hr),
    ensures
        spec_highest(cells) == (hc, hr),
{
    let w = (hc, hr);
    assert(is_highest_of(cells, w.0, w.1));
    assert(exists|q: (u32, u32)| is_highest_of(cells, q.0, q.1));
    let p = choose|p: (u32, u32)| is_highest_of(cells, p.0, p.1);
    assert(is_highest_of(cells, p.0, p.1));
    // The column bound: each side is either attained by a cell, and so
    // bounded by the other side, or zero together with the row bound.
    if p.0 != hc || p.1 != hr {
        if hc == 0 && hr == 0 {
            assert(forall|k: (u32, u32)| cells.dom().contains(k) ==> #[trigger] k.0 <= 0 && k.1
                <= 0);
            assert(p.0 <= 0 && p.1 <= 0);
        } else {
            let k1 = choose|k: (u32, u32)| #[trigger] cells.dom().contains(k) && k.0 == hc;
            let k2 = choose|k: (u32, u32)| #[trigger] cells.dom().contains(k) && k.1 == hr;
            assert(cells.dom().contains(k1) && cells.dom().contains(k2));
            assert(hc <= p.0 && hr <= p.1);
            if p.0 == 0 && p.1 == 0 {
                assert(hc == 0 && hr == 0);
            } else {
                let m1 = choose|k: (u32, u32)| #[trigger] cells.dom().contains(k) && k.0 == p.0;
                let m2 = choose|k: (u32, u32)| #[trigger] cells.dom().contains(k) && k.1 == p.1;
                assert(cells.dom().contains(m1) && cells.dom().contains(m2));
                assert(p.0 <= hc && p.1 <= hr);
            }
        }
    }
}

/// The cell map after rows `start .. start + num` are removed: cells above
/// keep their place, cells below move up by `num`.
pub open spec fn cells_rows_removed(
    cells: Map<(u32, u32), Seq<char>>,
    start: u32,
    num: u32,
) -> Map<(u32, u32), Seq<char>> {
    Map::new(
        |k: (u32, u32)|
            if k.1 < start {
                cells.dom().contains(k)
            } else {
                k.1 + num <= u32::MAX && cells.dom().contains((k.0, (k.1 + num) as u32))
            },
        |k: (u32, u32)|
            if k.1 < start {
                cells[k]
            } else {
                cells[(k.0, (k.1 + num) as u32)]
            },
    )
}

/// The cell map after columns `start .. start + num` are removed: cells to
/// the left keep their place, cells to the right move left by `num`.
pub open spec fn cells_cols_removed(
    cells: Map<(u32, u32), Seq<char>>,
    start: u32,
    num: u32,
) -> Map<(u32, u32), Seq<char>> {
    Map::new(
        |k: (u32, u32)|
            if k.0 < start {
                cells.dom().contains(k)
            } else {
                k.0 + num <= u32::MAX && cells.dom().contains(((k.0 + num) as u32, k.1))
            },
        |k: (u32, u32)|
            if k.0 < start {
                cells[k]
            } else {
                cells[((k.0 + num) as u32, k.1)]
            },
    )
}

/// Relies on `Workbook::sheet_by_name`, which on a loaded workbook is
/// `Err` exactly when no sheet carries the name.
#[verifier::external_body]
pub(crate) fn wb_has_sheet(wb: &Workbook, name: &str) -> (r: bool)
    requires
        wb_loaded(*wb),
    ensures
        r == spec_has_sheet(*wb, name@),
{
    wb.sheet_by_name(name).is_ok()
}

/// Relies on `Workbook::sheet_by_name` and `Worksheet::cell`: the cell is
/// present exactly when it exists in the sheet's cell collection, and
/// `Cell::value` is the text it holds.
#[verifier::external_body]
pub(crate) fn wb_cell_text(wb: &Workbook, name: &str, col: u32, row: u32) -> (r: Option<String>)
    requires
        wb_loaded(*wb),
        spec_has_sheet(*wb, name@),
    ensures
        match r {
            Some(t) => spec_sheet_cells(*wb, name@).dom().contains((col, row)) && t@
                == spec_sheet_cells(*wb, name@)[(col, row)],
            None => !spec_sheet_cells(*wb, name@).dom().contains((col, row)),
        },
{
    match wb.sheet_by_name(name) {
        Ok(ws) => ws.cell((col, row)).map(|c| c.value().into_owned()),
        Err(_) => None,
    }
}

/// Relies on `Worksheet::highest_column_and_row`: the largest column and
/// row among the sheet's cells, (0, 0) for a sheet without cells.
#[verifier::external_body]
pub(crate) fn wb_highest(wb: &Workbook, name: &str) -> (r: (u32, u32))
    requires
        wb_loaded(*wb),
        spec_has_sheet(*wb, name@),
    ensures
        is_highest_of(spec_sheet_cells(*wb, name@), r.0, r.1),
{
    match wb.sheet_by_name(name) {
        Ok(ws) => ws.highest_column_and_row(),
        Err(_) => (0, 0),
    }
}

/// Relies on `Worksheet::cell_mut` (which creates the cell) and
/// `Cell::set_value`, which stores the guessed-type form of the text.
#[verifier::external_body]
pub(crate) fn wb_set_cell(wb: &mut Workbook, name: &str, col: u32, row: u32, text: &str) -> (found:
    bool)
    requires
        wb_loaded(*old(wb)),
        col >= 1,
        row >= 1,
    ensures
        wb_loaded(*final(wb)),
        found == spec_has_sheet(*old(wb), name@),
        wb_sheet_names(*final(wb)) == wb_sheet_names(*old(wb)),
        found ==> wb_sheet_cells(*final(wb)) == wb_sheet_cells(*old(wb)).insert(
            name@,
            spec_sheet_cells(*old(wb), name@).insert((col, row), stored_cell_text(text@)),
        ),
        !found ==> wb_sheet_cells(*final(wb)) == wb_sheet_cells(*old(wb)),
{
    match wb.sheet_by_name_mut(name) {
        Ok(ws) => {
            ws.cell_mut((col, row)).set_value(text);
            true
        },
        Err(_) => false,
    }
}

/// Relies on `Workbook::new_sheet`, which refuses only a duplicate name and
/// otherwise appends a fresh worksheet.
#[verifier::external_body]
pub(crate) fn wb_new_sheet(wb: &mut Workbook, name: &str) -> (r: bool)
    requires
        wb_loaded(*old(wb)),
    ensures
        wb_loaded(*final(wb)),
        r == !spec_has_sheet(*old(wb), name@),
        r ==> wb_sheet_names(*final(wb)) == wb_sheet_names(*old(wb)).push(name@)
            && wb_sheet_cells(*final(wb)) == wb_sheet_cells(*old(wb)).insert(
            name@,
            Map::empty(),
        ),
        !r ==> wb_sheet_names(*final(wb)) == wb_sheet_names(*old(wb)) && wb_sheet_cells(*final(wb))
            == wb_sheet_cells(*old(wb)),
{
    wb.new_sheet(name).is_ok()
}

/// Relies on `Worksheet::remove_row`: cells in the removed rows disappear
/// and cells below move up.
#[verifier::external_body]
pub(crate) fn wb_remove_rows(wb: &mut Workbook, name: &str, start: u32, num: u32) -> (found: bool)
    requires
        wb_loaded(*old(wb)),
        start >= 1,
        num >= 1,
        start + num <= u32::MAX,
    ensures
        wb_loaded(*final(wb)),
        found == spec_has_sheet(*old(wb), name@),
        wb_sheet_names(*final(wb)) == wb_sheet_names(*old(wb)),
        found ==> wb_sheet_cells(*final(wb)) == wb_sheet_cells(*old(wb)).insert(
            name@,
            cells_rows_removed(spec_sheet_cells(*old(wb), name@), start, num),
        ),
        !found ==> wb_sheet_cells(*final(wb)) == wb_sheet_cells(*old(wb)),
{
    match wb.sheet_by_name_mut(name) {
        Ok(ws) => {
            ws.remove_row(start, num);
            true
        },
        Err(_) => false,
    }
}

/// Relies on `Worksheet::remove_column_by_index`: cells in the removed
/// columns disappear and cells to the right move left.
#[verifier::external_body]
pub(crate) fn wb_remove_columns(wb: &mut Workbook, name: &str, start: u32, num: u32) -> (found:
    bool)
    requires
        wb_loaded(*old(wb)),
        start >= 1,
        num >= 1,
        start + num <= u32::MAX,
    ensures
        wb_loaded(*final(wb)),
        found == spec_has_sheet(*old(wb), name@),
        wb_sheet_names(*final(wb)) == wb_sheet_names(*old(wb)),
        found ==> wb_sheet_cells(*final(wb)) == wb_sheet_cells(*old(wb)).insert(
            name@,
            cells_cols_removed(spec_sheet_cells(*old(wb), name@), start, num),
        ),
        !found ==> wb_sheet_cells(*final(wb)) == wb_sheet_cells(*old(wb)),
{
    match wb.sheet_by_name_mut(name) {
        Ok(ws) => {
            ws.remove_column_by_index(start, num);
            true
        },
        Err(_) => false,
    }
}

/// Relies on `Workbook::sheet_count`: how many sheets the workbook holds.
#[verifier::external_body]
pub(crate) fn wb_sheet_count(wb: &Workbook) -> (r: usize)
    requires
        wb_loaded(*wb),
    ensures
        r == wb_sheet_names(*wb).len(),
{
    wb.sheet_count()
}

/// Relies on `Workbook::sheet` and `Worksheet::name`: on a loaded
/// workbook, the name of the sheet at a position of the collection.
#[verifier::external_body]
pub(crate) fn wb_sheet_name_at(wb: &Workbook, i: usize) -> (r: Option<String>)
    requires
        wb_loaded(*wb),
    ensures
        r is Some <==> i < wb_sheet_names(*wb).len(),
        r is Some ==> r->Some_0@ == wb_sheet_names(*wb)[i as int],
{
    wb.sheet(i).ok().map(|ws| ws.name().to_string())
}

} // verus!
