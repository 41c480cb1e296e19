use crate::error::ExcelError;
use crate::sheet::{
    spec_has_sheet, spec_sheet_cells, stored_cell_text, wb_cell_text, wb_has_sheet, wb_loaded,
    wb_set_cell, wb_sheet_names,
};
use umya_spreadsheet::Workbook;
use vstd::prelude::*;

verus! {

// ===========================================================================
// Copying a rectangular range between sheets. A copy first takes a
// snapshot of the source range — each existing cell's offsets within the
// range and its text — and then pastes the snapshots at an anchor,
// swapping the offset axes when transposing. Whatever transforms the
// texts between the two steps (nothing, or a numeric coercion done by
// the caller) leaves the placement the same.
// ===========================================================================
/// One source cell of a range copy: its column and row offsets from the
/// range start, and the text it held.
#[derive(Debug)]
pub struct CellSnapshot {
    pub col_off: u32,
    pub row_off: u32,
    pub text: String,
}

/// A snapshot at specification level.
pub open spec fn snap_view(s: CellSnapshot) -> (u32, u32, Seq<char>) {
    (s.col_off, s.row_off, s.text@)
}

/// The snapshot sequence at specification level.
pub open spec fn snaps_view(v: Seq<CellSnapshot>) -> Seq<(u32, u32, Seq<char>)> {
    v.map(|i: int, s: CellSnapshot| snap_view(s))
}

/// The snapshots of the first `upto` rows of one range column: each
/// existing cell contributes its offsets and text, top to bottom.
pub open spec fn col_snaps(
    cells: Map<(u32, u32), Seq<char>>,
    sc: u32,
    sr: u32,
    c: int,
    upto: int,
) -> Seq<(u32, u32, Seq<char>)>
    decreases upto,
{
    if upto <= 0 {
        Seq::empty()
    } else {
        let prev = col_snaps(cells, sc, sr, c, upto - 1);
        let key = (((sc + c) as u32), ((sr + upto - 1) as u32));
        if cells.dom().contains(key) {
            prev.push((c as u32, (upto - 1) as u32, cells[key]))
        } else {
            prev
        }
    }
}

/// The snapshots of the first `cupto` columns of a range, column-major:
/// column after column, each top to bottom.
pub open spec fn range_snaps(
    cells: Map<(u32, u32), Seq<char>>,
    sc: u32,
    sr: u32,
    height: int,
    cupto: int,
) -> Seq<(u32, u32, Seq<char>)>
    decreases cupto,
{
    if cupto <= 0 {
        Seq::empty()
    } else {
        range_snaps(cells, sc, sr, height, cupto - 1) + col_snaps(cells, sc, sr, cupto - 1, height)
    }
}

/// A range of no rows yields no snapshots, however many columns it has.
proof fn lemma_range_snaps_zero_height(
    cells: Map<(u32, u32), Seq<char>>,
    sc: u32,
    sr: u32,
    cupto: int,
)
    ensures
        range_snaps(cells, sc, sr, 0, cupto) == Seq::<(u32, u32, Seq<char>)>::empty(),
    decreases cupto,
{
    if cupto > 0 {
        lemma_range_snaps_zero_height(cells, sc, sr, cupto - 1);
        assert(range_snaps(cells, sc, sr, 0, cupto) =~= Seq::<(u32, u32, Seq<char>)>::empty());
    }
}

/// Take a snapshot of a source range: every existing cell of the
/// rectangle, column-major, with its offsets from the range start. A
/// reversed rectangle yields no snapshots; a missing sheet fails with
/// `SheetNotFound`.
#[verifier::loop_isolation(false)]
pub fn copy_plan(
    source: &Workbook,
    sheet_name: &str,
    start_col: u32,
    start_row: u32,
    end_col: u32,
    end_row: u32,
) -> (r: Result<Vec<CellSnapshot>, ExcelError>)
    requires
        wb_loaded(*source),
    ensures
        !spec_has_sheet(*source, sheet_name@) ==> r == Err::<Vec<CellSnapshot>, ExcelError>(
            ExcelError::SheetNotFound,
        ),
        spec_has_sheet(*source, sheet_name@) ==> ({
            let cells = spec_sheet_cells(*source, sheet_name@);
            let height: int = if start_row > end_row {
                0
            } else {
                end_row - start_row + 1
            };
            let width: int = if start_col > end_col {
                0
            } else {
                end_col - start_col + 1
            };
            match r {
                Ok(v) => snaps_view(v@) == range_snaps(cells, start_col, start_row, height, width),
                Err(_) => false,
            }
        }),
{
    if !wb_has_sheet(source, sheet_name) {
        return Err(ExcelError::SheetNotFound);
    }
    let ghost cells = spec_sheet_cells(*source, sheet_name@);
    let mut out: Vec<CellSnapshot> = Vec::new();
    if start_col > end_col || start_row > end_row {
        proof {
            if start_row > end_row && start_col <= end_col {
                lemma_range_snaps_zero_height(
                    cells,
                    start_col,
                    start_row,
                    end_col - start_col + 1,
                );
            }
            assert(snaps_view(out@) =~= Seq::<(u32, u32, Seq<char>)>::empty());
        }
        return Ok(out);
    }
    let width: u64 = end_col as u64 - start_col as u64 + 1;
    let height: u64 = end_row as u64 - start_row as u64 + 1;
    let mut c: u64 = 0;
    while c < width
        invariant
            0 <= c <= width,
            snaps_view(out@) == range_snaps(cells, start_col, start_row, height as int, c as int),
        decreases width - c,
    {
        let mut x: u64 = 0;
        let ghost col_base = snaps_view(out@);
        while x < height
            invariant
                0 <= x <= height,
                0 <= c < width,
                snaps_view(out@) == col_base + col_snaps(cells, start_col, start_row, c as int, x as int),
            decreases height - x,
        {
            let col: u32 = (start_col as u64 + c) as u32;
            let row: u32 = (start_row as u64 + x) as u32;
            match wb_cell_text(source, sheet_name, col, row) {
                Some(t) => {
                    let ghost before = snaps_view(out@);
                    let ghost tv = t@;
                    out.push(CellSnapshot { col_off: c as u32, row_off: x as u32, text: t });
                    proof {
                        assert(snaps_view(out@) =~= before.push((c as u32, x as u32, tv)));
                        assert(snaps_view(out@) =~= col_base + col_snaps(
                            cells,
                            start_col,
                            start_row,
                            c as int,
                            x as int + 1,
                        ));
                    }
                },
                None => {
                    proof {
                        assert(snaps_view(out@) =~= col_base + col_snaps(
                            cells,
                            start_col,
                            start_row,
                            c as int,
                            x as int + 1,
                        ));
                    }
                },
            }
            x = x + 1;
        }
        c = c + 1;
    }
    Ok(out)
}

/// Where a snapshot lands: its offsets added to the anchor, the offset
/// axes swapped when transposing.
pub open spec fn paste_dest(
    anchor_col: u32,
    anchor_row: u32,
    transpose: bool,
    s: (u32, u32, Seq<char>),
) -> (u32, u32) {
    if transpose {
        (((anchor_col + s.1) as u32), ((anchor_row + s.0) as u32))
    } else {
        (((anchor_col + s.0) as u32), ((anchor_row + s.1) as u32))
    }
}

/// The sheet cells after the first `upto` snapshots are pasted.
pub open spec fn snaps_paste_model(
    cells: Map<(u32, u32), Seq<char>>,
    sv: Seq<(u32, u32, Seq<char>)>,
    anchor_col: u32,
    anchor_row: u32,
    transpose: bool,
    upto: int,
) -> Map<(u32, u32), Seq<char>>
    decreases upto,
{
    if upto <= 0 {
        cells
    } else {
        snaps_paste_model(cells, sv, anchor_col, anchor_row, transpose, upto - 1).insert(
            paste_dest(anchor_col, anchor_row, transpose, sv[upto - 1]),
            stored_cell_text(sv[upto - 1].2),
        )
    }
}

/// Whether any snapshot's destination leaves the representable grid.
pub open spec fn snaps_overflow(
    sv: Seq<(u32, u32, Seq<char>)>,
    anchor_col: u32,
    anchor_row: u32,
    transpose: bool,
) -> bool {
    exists|i: int|
        0 <= i < sv.len() && ({
            let s = #[trigger] sv[i];
            if transpose {
                anchor_col + s.1 > u32::MAX || anchor_row + s.0 > u32::MAX
            } else {
                anchor_col + s.0 > u32::MAX || anchor_row + s.1 > u32::MAX
            }
        })
}

/// Paste snapshots into a sheet at an anchor: the source cell with
/// offsets (c, r) from the range start lands at (anchor column + c,
/// anchor row + r), and with `transpose` set at (anchor column + r,
/// anchor row + c) — the axes swapped. A missing sheet fails with
/// `SheetNotFound`; a destination off the representable grid fails with
/// `InvalidReference` before anything changes.
#[verifier::loop_isolation(false)]
pub fn paste_snapshots(
    wb: &mut Workbook,
    sheet_name: &str,
    anchor_col: u32,
    anchor_row: u32,
    transpose: bool,
    snaps: &Vec<CellSnapshot>,
) -> (r: Result<(), ExcelError>)
    requires
        wb_loaded(*old(wb)),
        anchor_col >= 1,
        anchor_row >= 1,
    ensures
        wb_loaded(*final(wb)),
        wb_sheet_names(*final(wb)) == wb_sheet_names(*old(wb)),
        forall|n2: Seq<char>|
            n2 != sheet_name@ ==> spec_sheet_cells(*final(wb), n2) == spec_sheet_cells(
                *old(wb),
                n2,
            ),
        ({
            let cells0 = spec_sheet_cells(*old(wb), sheet_name@);
            let sv = snaps_view(snaps@);
            if !spec_has_sheet(*old(wb), sheet_name@) {
                r == Err::<(), ExcelError>(ExcelError::SheetNotFound) && spec_sheet_cells(
                    *final(wb),
                    sheet_name@,
                ) == cells0
            } else if snaps_overflow(sv, anchor_col, anchor_row, transpose) {
                r == Err::<(), ExcelError>(ExcelError::InvalidReference) && spec_sheet_cells(
                    *final(wb),
                    sheet_name@,
                ) == cells0
            } else {
                r == Ok::<(), ExcelError>(()) && spec_sheet_cells(*final(wb), sheet_name@)
                    == snaps_paste_model(
                    cells0,
                    sv,
                    anchor_col,
                    anchor_row,
                    transpose,
                    sv.len() as int,
                )
            }
        }),
{
    if !wb_has_sheet(wb, sheet_name) {
        return Err(ExcelError::SheetNotFound);
    }
    let ghost cells0 = spec_sheet_cells(*old(wb), sheet_name@);
    let ghost sv = snaps_view(snaps@);
    let n = snaps.len();
    // First pass: refuse the whole paste if any destination leaves the
    // grid, so that a failure changes nothing.
    let mut i: usize = 0;
    while i < n
        invariant
            0 <= i <= n,
            n == snaps@.len(),
            sv == snaps_view(snaps@),
            forall|k: int|
                0 <= k < i ==> !({
                    let s = #[trigger] sv[k];
                    if transpose {
                        anchor_col + s.1 > u32::MAX || anchor_row + s.0 > u32::MAX
                    } else {
                        anchor_col + s.0 > u32::MAX || anchor_row + s.1 > u32::MAX
                    }
                }),
        decreases n - i,
    {
        let s = &snaps[i];
        let (a, b) = if transpose {
            (s.row_off, s.col_off)
        } else {
            (s.col_off, s.row_off)
        };
        if a as u64 > u32::MAX as u64 - anchor_col as u64 || b as u64 > u32::MAX as u64
            - anchor_row as u64 {
            proof {
                assert(sv[i as int] == snap_view(snaps@[i as int]));
                assert(snaps_overflow(sv, anchor_col, anchor_row, transpose));
            }
            return Err(ExcelError::InvalidReference);
        }
        proof {
            assert(sv[i as int] == snap_view(snaps@[i as int]));
        }
        i = i + 1;
    }
    let mut i: usize = 0;
    while i < n
        invariant
            0 <= i <= n,
            n == snaps@.len(),
            sv == snaps_view(snaps@),
            !snaps_overflow(sv, anchor_col, anchor_row, transpose),
            wb_loaded(*wb),
            wb_sheet_names(*wb) == wb_sheet_names(*old(wb)),
            spec_has_sheet(*wb, sheet_name@),
            forall|n2: Seq<char>|
                n2 != sheet_name@ ==> spec_sheet_cells(*wb, n2) == spec_sheet_cells(*old(wb), n2),
            spec_sheet_cells(*wb, sheet_name@) == snaps_paste_model(
                cells0,
                sv,
                anchor_col,
                anchor_row,
                transpose,
                i as int,
            ),
        decreases n - i,
    {
        let s = &snaps[i];
        proof {
            assert(sv[i as int] == snap_view(snaps@[i as int]));
        }
        let (dc, dr) = if transpose {
            (
                (anchor_col as u64 + s.row_off as u64) as u32,
                (anchor_row as u64 + s.col_off as u64) as u32,
            )
        } else {
            (
                (anchor_col as u64 + s.col_off as u64) as u32,
                (anchor_row as u64 + s.row_off as u64) as u32,
            )
        };
        proof {
            assert((dc, dr) == paste_dest(anchor_col, anchor_row, transpose, sv[i as int]));
        }
        let found = wb_set_cell(wb, sheet_name, dc, dr, s.text.as_str());
        proof {
            assert(found);
        }
        i = i + 1;
    }
    Ok(())
}

/// Copy a rectangular range between two open workbooks: every existing
/// source cell lands at the destination anchor plus its offsets, with
/// the axes swapped when transposing. The destination anchor is given as
/// a (row, column) pair. A missing source or destination sheet fails
/// with `SheetNotFound`; a destination off the representable grid fails
/// with `InvalidReference` before anything changes.
pub fn copy_range_from_to(
    source: &Workbook,
    source_sheet_name: &str,
    source_range: ((u32, u32), (u32, u32)),
    dest: &mut Workbook,
    dest_sheet_name: &str,
    dest_start_cell: (u32, u32),
    transpose: bool,
) -> (r: Result<(), ExcelError>)
    requires
        wb_loaded(*source),
        wb_loaded(*old(dest)),
        dest_start_cell.0 >= 1,
        dest_start_cell.1 >= 1,
    ensures
        wb_loaded(*final(dest)),
        wb_sheet_names(*final(dest)) == wb_sheet_names(*old(dest)),
        forall|n2: Seq<char>|
            n2 != dest_sheet_name@ ==> spec_sheet_cells(*final(dest), n2) == spec_sheet_cells(
                *old(dest),
                n2,
            ),
        ({
            let ((sr, sc), (er, ec)) = source_range;
            let (ar, ac) = dest_start_cell;
            let cells0 = spec_sheet_cells(*old(dest), dest_sheet_name@);
            let scells = spec_sheet_cells(*source, source_sheet_name@);
            let height: int = if sr > er {
                0
            } else {
                er - sr + 1
            };
            let width: int = if sc > ec {
                0
            } else {
                ec - sc + 1
            };
            let sv = range_snaps(scells, sc, sr, height, width);
            if !spec_has_sheet(*source, source_sheet_name@) {
                r == Err::<(), ExcelError>(ExcelError::SheetNotFound) && spec_sheet_cells(
                    *final(dest),
                    dest_sheet_name@,
                ) == cells0
            } else if !spec_has_sheet(*old(dest), dest_sheet_name@) {
                r == Err::<(), ExcelError>(ExcelError::SheetNotFound) && spec_sheet_cells(
                    *final(dest),
                    dest_sheet_name@,
                ) == cells0
            } else if snaps_overflow(sv, ac, ar, transpose) {
                r == Err::<(), ExcelError>(ExcelError::InvalidReference) && spec_sheet_cells(
                    *final(dest),
                    dest_sheet_name@,
                ) == cells0
            } else {
                r == Ok::<(), ExcelError>(()) && spec_sheet_cells(*final(dest), dest_sheet_name@)
                    == snaps_paste_model(cells0, sv, ac, ar, transpose, sv.len() as int)
            }
        }),
{
    let ((sr, sc), (er, ec)) = source_range;
    let (ar, ac) = dest_start_cell;
    let snaps = match copy_plan(source, source_sheet_name, sc, sr, ec, er) {
        Ok(v) => v,
        Err(e) => {
            return Err(e);
        },
    };
    paste_snapshots(dest, dest_sheet_name, ac, ar, transpose, &snaps)
}


// ===========================================================================
// Law: where a copied cell lands.
// ===========================================================================
/// Every snapshot of one column carries that column's offset, and a row
/// offset below `upto`.
proof fn lemma_col_snaps_offsets(
    cells: Map<(u32, u32), Seq<char>>,
    sc: u32,
    sr: u32,
    c: int,
    upto: int,
)
    requires
        0 <= c,
        upto <= u32::MAX + 1,
    ensures
        forall|p: int|
            0 <= p < col_snaps(cells, sc, sr, c, upto).len() ==> (#[trigger] col_snaps(
                cells,
                sc,
                sr,
                c,
                upto,
            )[p]).0 == c as u32 && col_snaps(cells, sc, sr, c, upto)[p].1 < upto,
        forall|p: int, q: int|
            0 <= p < q < col_snaps(cells, sc, sr, c, upto).len() ==> (#[trigger] col_snaps(
                cells,
                sc,
                sr,
                c,
                upto,
            )[p]).1 < (#[trigger] col_snaps(cells, sc, sr, c, upto)[q]).1,
    decreases upto,
{
    if upto > 0 {
        lemma_col_snaps_offsets(cells, sc, sr, c, upto - 1);
        let prev = col_snaps(cells, sc, sr, c, upto - 1);
        assert(forall|p: int| 0 <= p < prev.len() ==> (#[trigger] prev[p]).1 < upto - 1 + 1);
    }
}

/// A present source cell at offsets (dc, dr) appears among one column's
/// snapshots, with its text.
proof fn lemma_col_snaps_member(
    cells: Map<(u32, u32), Seq<char>>,
    sc: u32,
    sr: u32,
    c: int,
    upto: int,
    dr: int,
)
    requires
        0 <= c,
        0 <= dr < upto,
        upto <= u32::MAX + 1,
        sc + c <= u32::MAX,
        sr + upto - 1 <= u32::MAX,
        cells.dom().contains((((sc + c) as u32), ((sr + dr) as u32))),
    ensures
        exists|p: int|
            0 <= p < col_snaps(cells, sc, sr, c, upto).len() && #[trigger] col_snaps(
                cells,
                sc,
                sr,
                c,
                upto,
            )[p] == (c as u32, dr as u32, cells[(((sc + c) as u32), ((sr + dr) as u32))]),
    decreases upto,
{
    let cs = col_snaps(cells, sc, sr, c, upto);
    let prev = col_snaps(cells, sc, sr, c, upto - 1);
    if dr == upto - 1 {
        assert(cs[cs.len() - 1] == (c as u32, dr as u32, cells[(((sc + c) as u32), ((sr
            + dr) as u32))]));
    } else {
        lemma_col_snaps_member(cells, sc, sr, c, upto - 1, dr);
        let p = choose|p: int|
            0 <= p < prev.len() && #[trigger] prev[p] == (
                c as u32,
                dr as u32,
                cells[(((sc + c) as u32), ((sr + dr) as u32))],
            );
        assert(cs[p] == prev[p]);
    }
}

/// Every snapshot of a range carries a column offset below `cupto`, and
/// two snapshots never share an offset pair.
proof fn lemma_range_snaps_offsets(
    cells: Map<(u32, u32), Seq<char>>,
    sc: u32,
    sr: u32,
    height: int,
    cupto: int,
)
    requires
        height <= u32::MAX + 1,
        cupto <= u32::MAX + 1,
    ensures
        forall|p: int|
            0 <= p < range_snaps(cells, sc, sr, height, cupto).len() ==> (#[trigger] range_snaps(
                cells,
                sc,
                sr,
                height,
                cupto,
            )[p]).0 < cupto && range_snaps(cells, sc, sr, height, cupto)[p].1 < height,
        forall|p: int, q: int|
            0 <= p < q < range_snaps(cells, sc, sr, height, cupto).len() ==> !((
            #[trigger] range_snaps(cells, sc, sr, height, cupto)[p]).0 == (#[trigger] range_snaps(
                cells,
                sc,
                sr,
                height,
                cupto,
            )[q]).0 && range_snaps(cells, sc, sr, height, cupto)[p].1 == range_snaps(
                cells,
                sc,
                sr,
                height,
                cupto,
            )[q].1),
    decreases cupto,
{
    if cupto > 0 {
        lemma_range_snaps_offsets(cells, sc, sr, height, cupto - 1);
        lemma_col_snaps_offsets(cells, sc, sr, cupto - 1, height);
        let prev = range_snaps(cells, sc, sr, height, cupto - 1);
        let col = col_snaps(cells, sc, sr, cupto - 1, height);
        let whole = range_snaps(cells, sc, sr, height, cupto);
        assert forall|p: int|
            0 <= p < whole.len() implies (#[trigger] whole[p]).0 < cupto && whole[p].1
            < height by {
            if p < prev.len() {
                assert(whole[p] == prev[p]);
            } else {
                assert(whole[p] == col[p - prev.len()]);
            }
        }
        assert forall|p: int, q: int|
            0 <= p < q < whole.len() implies !((#[trigger] whole[p]).0 == (#[trigger] whole[q]).0
            && whole[p].1 == whole[q].1) by {
            if q < prev.len() {
                assert(whole[p] == prev[p] && whole[q] == prev[q]);
            } else if p >= prev.len() {
                assert(whole[p] == col[p - prev.len()] && whole[q] == col[q - prev.len()]);
            } else {
                assert(whole[p] == prev[p] && whole[q] == col[q - prev.len()]);
                assert(prev[p].0 < cupto - 1);
                assert(col[q - prev.len()].0 == (cupto - 1) as u32);
            }
        }
    }
}

/// A present source cell at offsets (dc, dr) appears among a range's
/// snapshots, with its text.
proof fn lemma_range_snaps_member(
    cells: Map<(u32, u32), Seq<char>>,
    sc: u32,
    sr: u32,
    height: int,
    cupto: int,
    dc: int,
    dr: int,
)
    requires
        0 <= dc < cupto,
        0 <= dr < height,
        height <= u32::MAX + 1,
        cupto <= u32::MAX + 1,
        sc + cupto - 1 <= u32::MAX,
        sr + height - 1 <= u32::MAX,
        cells.dom().contains((((sc + dc) as u32), ((sr + dr) as u32))),
    ensures
        exists|p: int|
            0 <= p < range_snaps(cells, sc, sr, height, cupto).len() && #[trigger] range_snaps(
                cells,
                sc,
                sr,
                height,
                cupto,
            )[p] == (dc as u32, dr as u32, cells[(((sc + dc) as u32), ((sr + dr) as u32))]),
    decreases cupto,
{
    let whole = range_snaps(cells, sc, sr, height, cupto);
    let prev = range_snaps(cells, sc, sr, height, cupto - 1);
    let col = col_snaps(cells, sc, sr, cupto - 1, height);
    if dc == cupto - 1 {
        lemma_col_snaps_member(cells, sc, sr, dc, height, dr);
        let p = choose|p: int|
            0 <= p < col.len() && #[trigger] col[p] == (
                dc as u32,
                dr as u32,
                cells[(((sc + dc) as u32), ((sr + dr) as u32))],
            );
        assert(whole[prev.len() + p] == col[p]);
    } else {
        lemma_range_snaps_member(cells, sc, sr, height, cupto - 1, dc, dr);
        let p = choose|p: int|
            0 <= p < prev.len() && #[trigger] prev[p] == (
                dc as u32,
                dr as u32,
                cells[(((sc + dc) as u32), ((sr + dr) as u32))],
            );
        assert(whole[p] == prev[p]);
    }
}

/// Pasting keeps a snapshot's landing intact when no later snapshot
/// lands on the same cell.
proof fn lemma_paste_keeps_snapshot(
    cells: Map<(u32, u32), Seq<char>>,
    sv: Seq<(u32, u32, Seq<char>)>,
    anchor_col: u32,
    anchor_row: u32,
    transpose: bool,
    i: int,
    upto: int,
)
    requires
        0 <= i < upto <= sv.len(),
        !snaps_overflow(sv, anchor_col, anchor_row, transpose),
        forall|q: int|
            i < q < upto ==> paste_dest(anchor_col, anchor_row, transpose, #[trigger] sv[q])
                != paste_dest(anchor_col, anchor_row, transpose, sv[i]),
    ensures
        ({
            let m = snaps_paste_model(cells, sv, anchor_col, anchor_row, transpose, upto);
            m.dom().contains(paste_dest(anchor_col, anchor_row, transpose, sv[i])) && m[paste_dest(
                anchor_col,
                anchor_row,
                transpose,
                sv[i],
            )] == stored_cell_text(sv[i].2)
        }),
    decreases upto,
{
    if i == upto - 1 {
    } else {
        lemma_paste_keeps_snapshot(cells, sv, anchor_col, anchor_row, transpose, i, upto - 1);
    }
}

/// Law: under a range copy, the source cell at range-relative offsets
/// (dc, dr) lands at (anchor column + dc, anchor row + dr), and with
/// `transpose` set at (anchor column + dr, anchor row + dc) — the axes
/// swapped — carrying the stored form of its text.
pub proof fn lemma_copy_cell_lands(
    scells: Map<(u32, u32), Seq<char>>,
    dcells: Map<(u32, u32), Seq<char>>,
    sc: u32,
    sr: u32,
    height: int,
    width: int,
    anchor_col: u32,
    anchor_row: u32,
    transpose: bool,
    dc: int,
    dr: int,
)
    requires
        0 <= dc < width,
        0 <= dr < height,
        height <= u32::MAX + 1,
        width <= u32::MAX + 1,
        sc + width - 1 <= u32::MAX,
        sr + height - 1 <= u32::MAX,
        scells.dom().contains((((sc + dc) as u32), ((sr + dr) as u32))),
        !snaps_overflow(
            range_snaps(scells, sc, sr, height, width),
            anchor_col,
            anchor_row,
            transpose,
        ),
    ensures
        ({
            let sv = range_snaps(scells, sc, sr, height, width);
            let m = snaps_paste_model(
                dcells,
                sv,
                anchor_col,
                anchor_row,
                transpose,
                sv.len() as int,
            );
            let dest = if transpose {
                (((anchor_col + dr) as u32), ((anchor_row + dc) as u32))
            } else {
                (((anchor_col + dc) as u32), ((anchor_row + dr) as u32))
            };
            m.dom().contains(dest) && m[dest] == stored_cell_text(
                scells[(((sc + dc) as u32), ((sr + dr) as u32))],
            )
        }),
{
    let sv = range_snaps(scells, sc, sr, height, width);
    lemma_range_snaps_member(scells, sc, sr, height, width, dc, dr);
    lemma_range_snaps_offsets(scells, sc, sr, height, width);
    let text = scells[(((sc + dc) as u32), ((sr + dr) as u32))];
    let p = choose|p: int|
        0 <= p < sv.len() && #[trigger] sv[p] == (dc as u32, dr as u32, text);
    assert forall|q: int|
        p < q < sv.len() implies paste_dest(anchor_col, anchor_row, transpose, #[trigger] sv[q])
        != paste_dest(anchor_col, anchor_row, transpose, sv[p]) by {
        assert(!(sv[p].0 == sv[q].0 && sv[p].1 == sv[q].1));
        assert(sv[q].0 < width && sv[q].1 < height);
    }
    lemma_paste_keeps_snapshot(
        dcells,
        sv,
        anchor_col,
        anchor_row,
        transpose,
        p,
        sv.len() as int,
    );
    assert(paste_dest(anchor_col, anchor_row, transpose, sv[p]) == (if transpose {
        (((anchor_col + dr) as u32), ((anchor_row + dc) as u32))
    } else {
        (((anchor_col + dc) as u32), ((anchor_row + dr) as u32))
    }));
}

} // verus!
