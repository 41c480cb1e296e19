use crate::aggregate::{paste_model, paste_vector_to_sheet};
use crate::copy::{
    copy_plan, paste_snapshots, range_snaps, snaps_overflow, snaps_paste_model, snaps_view,
    CellSnapshot,
};
use crate::error::ExcelError;
use crate::fill::{add_table_by_column_name, by_name_outcome};
use crate::headers::{build_header_map, entries_view, lemma_scan_entries_props, scan_entries};
use crate::options::{value_text, Mode, Value};
use crate::refs::{
    cell_ref_col, cell_ref_row, cell_ref_valid, header_ref_valid, header_resolve, range_ref_end_col,
    range_ref_end_row, range_ref_start_col, range_ref_start_row, range_ref_valid, ExcelCell,
    ExcelHeader, ExcelRange,
};
use crate::sheet::{
    book_unchanged, lemma_highest_unique, spec_has_sheet, spec_highest, spec_sheet_cells,
    stored_cell_text, wb_has_sheet, wb_highest, wb_loaded, wb_new_sheet, wb_remove_rows,
    wb_set_cell, wb_sheet_count, wb_sheet_name_at, wb_sheet_names, cells_rows_removed,
};
use crate::table::{table_wf, Table};
use umya_spreadsheet::Workbook;
use vstd::prelude::*;

verus! {

// ===========================================================================
// The template cursor: one open workbook and a session position. The
// cursor walks from no sheet, to a sheet, to a sheet and cell; the write
// operations demand the position they need and fail with
// `NoSheetSelected` or `NoCellSelected` when it is not there yet.
// ===========================================================================
/// A workbook under edit, with the session's current sheet and cell.
pub struct ExcelTemplate {
    pub book: Workbook,
    pub current_sheet_name: Option<String>,
    pub current_cell_in_current_sheet: Option<ExcelCell>,
}

/// A well-formed cursor: its workbook is loaded — every sheet read in, as
/// the whole-file reader yields — and whatever cell it holds is a valid
/// reference.
pub open spec fn template_wf(t: ExcelTemplate) -> bool {
    &&& wb_loaded(t.book)
    &&& match t.current_cell_in_current_sheet {
        Some(c) => cell_ref_valid(c),
        None => true,
    }
}

/// The sheet name the cursor stands on, at specification level.
pub open spec fn cursor_sheet(t: ExcelTemplate) -> Option<Seq<char>> {
    match t.current_sheet_name {
        Some(s) => Some(s@),
        None => None,
    }
}

/// The (column, row) the cursor stands on, at specification level.
pub open spec fn cursor_cell(t: ExcelTemplate) -> Option<(int, int)> {
    match t.current_cell_in_current_sheet {
        Some(c) => Some((cell_ref_col(c), cell_ref_row(c))),
        None => None,
    }
}

impl ExcelTemplate {
    /// Begin a session over an open workbook, whose sheets must all be
    /// read in: no sheet and no cell are selected yet.
    pub fn new(book: Workbook) -> (t: ExcelTemplate)
        requires
            wb_loaded(book),
        ensures
            t.book == book,
            t.current_sheet_name is None,
            t.current_cell_in_current_sheet is None,
            template_wf(t),
    {
        ExcelTemplate { book, current_sheet_name: None, current_cell_in_current_sheet: None }
    }

    /// The workbook under edit.
    pub fn workbook(&self) -> (r: &Workbook)
        ensures
            *r == self.book,
    {
        &self.book
    }

    /// Give up the session and keep the workbook.
    pub fn into_workbook(self) -> (r: Workbook)
        ensures
            r == self.book,
    {
        self.book
    }

    /// Add a fresh sheet under a name no sheet carries yet.
    pub fn add_sheet(&mut self, sheet_name: &str) -> (r: Result<(), ExcelError>)
        requires
            template_wf(*old(self)),
        ensures
            template_wf(*final(self)),
            final(self).current_sheet_name == old(self).current_sheet_name,
            final(self).current_cell_in_current_sheet == old(self).current_cell_in_current_sheet,
            if spec_has_sheet(old(self).book, sheet_name@) {
                r == Err::<(), ExcelError>(ExcelError::SheetAlreadyExists) && book_unchanged(
                    old(self).book,
                    final(self).book,
                )
            } else {
                r == Ok::<(), ExcelError>(()) && wb_sheet_names(final(self).book)
                    == wb_sheet_names(old(self).book).push(sheet_name@) && spec_sheet_cells(
                    final(self).book,
                    sheet_name@,
                ) == Map::<(u32, u32), Seq<char>>::empty() && (forall|n2: Seq<char>|
                    n2 != sheet_name@ ==> spec_sheet_cells(final(self).book, n2)
                        == spec_sheet_cells(old(self).book, n2))
            },
    {
        if wb_new_sheet(&mut self.book, sheet_name) {
            Ok(())
        } else {
            Err(ExcelError::SheetAlreadyExists)
        }
    }

    /// Go to a sheet by name, optionally landing on a cell of it in the
    /// same step. The name is not checked here; a miss surfaces at the
    /// next write.
    pub fn goto_sheet(&mut self, sheet_name: &str, cell: Option<ExcelCell>) -> (r: Result<
        (),
        ExcelError,
    >)
        requires
            template_wf(*old(self)),
        ensures
            template_wf(*final(self)),
            final(self).book == old(self).book,
            match cell {
                Some(c) => if cell_ref_valid(c) {
                    r == Ok::<(), ExcelError>(())
                } else {
                    r == Err::<(), ExcelError>(ExcelError::InvalidReference) && *final(self)
                        == *old(self)
                },
                None => r == Ok::<(), ExcelError>(()),
            },
            r is Ok ==> cursor_sheet(*final(self)) == Some(sheet_name@) && cursor_cell(
                *final(self),
            ) == (match cell {
                Some(c) => Some((cell_ref_col(c), cell_ref_row(c))),
                None => None::<(int, int)>,
            }),
    {
        match cell {
            Some(c) => {
                if !c.check() {
                    return Err(ExcelError::InvalidReference);
                }
                self.current_sheet_name = Some(sheet_name.to_owned());
                self.current_cell_in_current_sheet = Some(c);
                Ok(())
            },
            None => {
                self.current_sheet_name = Some(sheet_name.to_owned());
                self.current_cell_in_current_sheet = None;
                Ok(())
            },
        }
    }

    /// Go to a cell of the current sheet.
    pub fn goto_cell(&mut self, cell: ExcelCell) -> (r: Result<(), ExcelError>)
        requires
            template_wf(*old(self)),
        ensures
            template_wf(*final(self)),
            final(self).book == old(self).book,
            final(self).current_sheet_name == old(self).current_sheet_name,
            if cell_ref_valid(cell) {
                r == Ok::<(), ExcelError>(()) && cursor_cell(*final(self)) == Some(
                    (cell_ref_col(cell), cell_ref_row(cell)),
                )
            } else {
                r == Err::<(), ExcelError>(ExcelError::InvalidReference) && *final(self) == *old(self)
            },
    {
        if !cell.check() {
            return Err(ExcelError::InvalidReference);
        }
        self.current_cell_in_current_sheet = Some(cell);
        Ok(())
    }

    /// Resolve a header reference against the current sheet's extent and
    /// make the cell it names the current cell.
    pub fn set_header_location(&mut self, header: ExcelHeader, mode: Mode) -> (r: Result<
        (),
        ExcelError,
    >)
        requires
            template_wf(*old(self)),
        ensures
            template_wf(*final(self)),
            final(self).book == old(self).book,
            final(self).current_sheet_name == old(self).current_sheet_name,
            ({
                let named = cursor_sheet(*old(self));
                if !header_ref_valid(header) {
                    r == Err::<(), ExcelError>(ExcelError::InvalidReference) && *final(self)
                        == *old(self)
                } else if named is None {
                    r == Err::<(), ExcelError>(ExcelError::NoSheetSelected) && *final(self) == *old(self)
                } else if !spec_has_sheet(old(self).book, named->Some_0) {
                    r == Err::<(), ExcelError>(ExcelError::SheetNotFound) && *final(self) == *old(self)
                } else {
                    let cells = spec_sheet_cells(old(self).book, named->Some_0);
                    let hc = spec_highest(cells).0 as int;
                    let hr = spec_highest(cells).1 as int;
                    r == Ok::<(), ExcelError>(()) && cursor_cell(*final(self)) == Some(
                        header_resolve(header, hc, hr, mode),
                    )
                }
            }),
    {
        if !header.check() {
            return Err(ExcelError::InvalidReference);
        }
        let name = match &self.current_sheet_name {
            Some(s) => s.clone(),
            None => {
                return Err(ExcelError::NoSheetSelected);
            },
        };
        if !wb_has_sheet(&self.book, name.as_str()) {
            return Err(ExcelError::SheetNotFound);
        }
        let ghost cells = spec_sheet_cells(self.book, name@);
        let highest = wb_highest(&self.book, name.as_str());
        proof {
            lemma_highest_unique(cells, highest.0, highest.1);
        }
        let (col, row) = header.idx(highest, mode);
        self.current_cell_in_current_sheet = Some(ExcelCell::Tuple((row, col)));
        Ok(())
    }

    /// Write a value at the current cell of the current sheet.
    pub fn set_value(&mut self, value: Value) -> (r: Result<(), ExcelError>)
        requires
            template_wf(*old(self)),
        ensures
            template_wf(*final(self)),
            final(self).current_sheet_name == old(self).current_sheet_name,
            final(self).current_cell_in_current_sheet == old(self).current_cell_in_current_sheet,
            wb_sheet_names(final(self).book) == wb_sheet_names(old(self).book),
            ({
                let named = cursor_sheet(*old(self));
                let at = cursor_cell(*old(self));
                if named is None {
                    r == Err::<(), ExcelError>(ExcelError::NoSheetSelected) && final(self).book
                        == old(self).book
                } else if at is None {
                    r == Err::<(), ExcelError>(ExcelError::NoCellSelected) && final(self).book
                        == old(self).book
                } else if !spec_has_sheet(old(self).book, named->Some_0) {
                    r == Err::<(), ExcelError>(ExcelError::SheetNotFound) && final(self).book
                        == old(self).book
                } else {
                    let (c, w) = at->Some_0;
                    r == Ok::<(), ExcelError>(()) && spec_sheet_cells(
                        final(self).book,
                        named->Some_0,
                    ) == spec_sheet_cells(old(self).book, named->Some_0).insert(
                        (c as u32, w as u32),
                        stored_cell_text(value_text(value)),
                    ) && (forall|n2: Seq<char>|
                        n2 != named->Some_0 ==> spec_sheet_cells(final(self).book, n2)
                            == spec_sheet_cells(old(self).book, n2))
                }
            }),
    {
        let name = match &self.current_sheet_name {
            Some(s) => s.clone(),
            None => {
                return Err(ExcelError::NoSheetSelected);
            },
        };
        let (col, row) = match &self.current_cell_in_current_sheet {
            Some(c) => c.idx(),
            None => {
                return Err(ExcelError::NoCellSelected);
            },
        };
        if !wb_has_sheet(&self.book, name.as_str()) {
            return Err(ExcelError::SheetNotFound);
        }
        let text = value.value();
        let found = wb_set_cell(&mut self.book, name.as_str(), col, row, text.as_str());
        proof {
            assert(found);
        }
        Ok(())
    }

    /// Write a value at a given cell of a given sheet.
    pub fn write_cell(&mut self, sheet_name: &str, cell: ExcelCell, value: Value) -> (r: Result<
        (),
        ExcelError,
    >)
        requires
            template_wf(*old(self)),
        ensures
            template_wf(*final(self)),
            final(self).current_sheet_name == old(self).current_sheet_name,
            final(self).current_cell_in_current_sheet == old(self).current_cell_in_current_sheet,
            wb_sheet_names(final(self).book) == wb_sheet_names(old(self).book),
            if !cell_ref_valid(cell) {
                r == Err::<(), ExcelError>(ExcelError::InvalidReference) && final(self).book
                    == old(self).book
            } else if !spec_has_sheet(old(self).book, sheet_name@) {
                r == Err::<(), ExcelError>(ExcelError::SheetNotFound) && final(self).book == old(self).book
            } else {
                r == Ok::<(), ExcelError>(()) && spec_sheet_cells(final(self).book, sheet_name@)
                    == spec_sheet_cells(old(self).book, sheet_name@).insert(
                    (cell_ref_col(cell) as u32, cell_ref_row(cell) as u32),
                    stored_cell_text(value_text(value)),
                ) && (forall|n2: Seq<char>|
                    n2 != sheet_name@ ==> spec_sheet_cells(final(self).book, n2)
                        == spec_sheet_cells(old(self).book, n2))
            },
    {
        if !cell.check() {
            return Err(ExcelError::InvalidReference);
        }
        if !wb_has_sheet(&self.book, sheet_name) {
            return Err(ExcelError::SheetNotFound);
        }
        let (col, row) = cell.idx();
        let text = value.value();
        let found = wb_set_cell(&mut self.book, sheet_name, col, row, text.as_str());
        proof {
            assert(found);
        }
        Ok(())
    }

    /// Remove one row of a sheet; later rows move up.
    pub fn remove_row_from(&mut self, sheet_name: &str, row: u32) -> (r: Result<(), ExcelError>)
        requires
            template_wf(*old(self)),
        ensures
            template_wf(*final(self)),
            final(self).current_sheet_name == old(self).current_sheet_name,
            final(self).current_cell_in_current_sheet == old(self).current_cell_in_current_sheet,
            wb_sheet_names(final(self).book) == wb_sheet_names(old(self).book),
            forall|n2: Seq<char>|
                n2 != sheet_name@ ==> spec_sheet_cells(final(self).book, n2) == spec_sheet_cells(
                    old(self).book,
                    n2,
                ),
            if row == 0 || row + 1 > u32::MAX {
                r == Err::<(), ExcelError>(ExcelError::InvalidReference) && final(self).book
                    == old(self).book
            } else if !spec_has_sheet(old(self).book, sheet_name@) {
                r == Err::<(), ExcelError>(ExcelError::SheetNotFound) && final(self).book == old(self).book
            } else {
                r == Ok::<(), ExcelError>(()) && spec_sheet_cells(final(self).book, sheet_name@)
                    == cells_rows_removed(spec_sheet_cells(old(self).book, sheet_name@), row, 1)
            },
    {
        self.remove_rows_from(sheet_name, row, 1)
    }

    /// Remove `num` rows of a sheet starting at `row`; later rows move
    /// up. Row numbering starts at 1; removing zero rows changes nothing.
    pub fn remove_rows_from(&mut self, sheet_name: &str, row: u32, num: u32) -> (r: Result<
        (),
        ExcelError,
    >)
        requires
            template_wf(*old(self)),
        ensures
            template_wf(*final(self)),
            final(self).current_sheet_name == old(self).current_sheet_name,
            final(self).current_cell_in_current_sheet == old(self).current_cell_in_current_sheet,
            wb_sheet_names(final(self).book) == wb_sheet_names(old(self).book),
            forall|n2: Seq<char>|
                n2 != sheet_name@ ==> spec_sheet_cells(final(self).book, n2) == spec_sheet_cells(
                    old(self).book,
                    n2,
                ),
            if row == 0 || row + num > u32::MAX {
                r == Err::<(), ExcelError>(ExcelError::InvalidReference) && final(self).book
                    == old(self).book
            } else if !spec_has_sheet(old(self).book, sheet_name@) {
                r == Err::<(), ExcelError>(ExcelError::SheetNotFound) && final(self).book == old(self).book
            } else if num == 0 {
                r == Ok::<(), ExcelError>(()) && final(self).book == old(self).book
            } else {
                r == Ok::<(), ExcelError>(()) && spec_sheet_cells(final(self).book, sheet_name@)
                    == cells_rows_removed(spec_sheet_cells(old(self).book, sheet_name@), row, num)
            },
    {
        if row == 0 || num > u32::MAX - row {
            return Err(ExcelError::InvalidReference);
        }
        if !wb_has_sheet(&self.book, sheet_name) {
            return Err(ExcelError::SheetNotFound);
        }
        if num == 0 {
            return Ok(());
        }
        let found = wb_remove_rows(&mut self.book, sheet_name, row, num);
        proof {
            assert(found);
        }
        Ok(())
    }

    /// The names of the workbook's sheets, in order.
    pub fn sheet_names(&self) -> (r: Vec<String>)
        requires
            template_wf(*self),
        ensures
            r.deep_view() == wb_sheet_names(self.book),
    {
        let n = wb_sheet_count(&self.book);
        let mut names: Vec<String> = Vec::new();
        let mut i: usize = 0;
        while i < n
            invariant
                wb_loaded(self.book),
                0 <= i <= n,
                n == wb_sheet_names(self.book).len(),
                names.deep_view() == wb_sheet_names(self.book).subrange(0, i as int),
            decreases n - i,
        {
            let name = match wb_sheet_name_at(&self.book, i) {
                Some(s) => s,
                None => {
                    proof {
                        assert(false);
                    }
                    String::new()
                },
            };
            let ghost before = names.deep_view();
            let ghost nv = name@;
            names.push(name);
            proof {
                assert(names.deep_view() =~= before.push(nv));
                assert(names.deep_view() =~= wb_sheet_names(self.book).subrange(0, i + 1));
            }
            i = i + 1;
        }
        proof {
            assert(wb_sheet_names(self.book).subrange(0, n as int) =~= wb_sheet_names(self.book));
        }
        names
    }
}


/// Where the first data line of a fill lands, given the header cell and
/// the sheet's extent: the line after the header when overwriting, the
/// line after everything the sheet holds otherwise.
pub open spec fn fill_anchor(
    cells0: Map<(u32, u32), Seq<char>>,
    header_col: u32,
    header_row: u32,
    mode: Mode,
    overwrite: bool,
) -> (int, int) {
    let hc0 = spec_highest(cells0).0;
    let hr0 = spec_highest(cells0).1;
    match mode {
        Mode::Row => (
            header_col as int,
            if overwrite {
                header_row as int + 1
            } else {
                hr0 as int + 1
            },
        ),
        Mode::Column => (
            if overwrite {
                header_col as int + 1
            } else {
                hc0 as int + 1
            },
            header_row as int,
        ),
    }
}

/// The header entries a fill reads, given the header cell: the header
/// line from the header cell's position to the sheet's extent.
pub open spec fn fill_entries(
    cells0: Map<(u32, u32), Seq<char>>,
    header_col: u32,
    header_row: u32,
    mode: Mode,
) -> Seq<(Seq<char>, u32)> {
    let hc0 = spec_highest(cells0).0;
    let hr0 = spec_highest(cells0).1;
    match mode {
        Mode::Row => scan_entries(cells0, mode, header_row, header_col, hc0 as int + 1),
        Mode::Column => scan_entries(cells0, mode, header_col, header_row, hr0 as int + 1),
    }
}

impl ExcelTemplate {
    /// Copy a rectangular range of a source workbook's sheet to the
    /// current cell of the current sheet: each source cell lands at the
    /// cursor plus its offsets within the range, the axes swapped when
    /// transposing. Texts pass through unchanged.
    pub fn copy_range_from(
        &mut self,
        source: &Workbook,
        source_sheet_name: &str,
        source_range: &ExcelRange,
        transpose: Option<bool>,
    ) -> (r: Result<(), ExcelError>)
        requires
            template_wf(*old(self)),
            wb_loaded(*source),
        ensures
            template_wf(*final(self)),
            final(self).current_sheet_name == old(self).current_sheet_name,
            final(self).current_cell_in_current_sheet == old(self).current_cell_in_current_sheet,
            wb_sheet_names(final(self).book) == wb_sheet_names(old(self).book),
            ({
                let tp = match transpose {
                    Some(b) => b,
                    None => false,
                };
                let named = cursor_sheet(*old(self));
                let at = cursor_cell(*old(self));
                if named is None {
                    r == Err::<(), ExcelError>(ExcelError::NoSheetSelected) && final(self).book
                        == old(self).book
                } else if !spec_has_sheet(old(self).book, named->Some_0) {
                    r == Err::<(), ExcelError>(ExcelError::SheetNotFound) && final(self).book
                        == old(self).book
                } else if at is None {
                    r == Err::<(), ExcelError>(ExcelError::NoCellSelected) && final(self).book
                        == old(self).book
                } else if !spec_has_sheet(*source, source_sheet_name@) {
                    r == Err::<(), ExcelError>(ExcelError::SheetNotFound) && final(self).book
                        == old(self).book
                } else if !range_ref_valid(*source_range) {
                    r == Err::<(), ExcelError>(ExcelError::InvalidReference) && final(self).book
                        == old(self).book
                } else {
                    let sc = range_ref_start_col(*source_range);
                    let sr = range_ref_start_row(*source_range);
                    let ec = range_ref_end_col(*source_range);
                    let er = range_ref_end_row(*source_range);
                    let height: int = if sr > er {
                        0
                    } else {
                        er - sr + 1
                    };
                    let width: int = if sc > ec {
                        0
                    } else {
                        ec - sc + 1
                    };
                    let scells = spec_sheet_cells(*source, source_sheet_name@);
                    let sv = range_snaps(scells, sc as u32, sr as u32, height, width);
                    let (ac, ar) = at->Some_0;
                    let cells0 = spec_sheet_cells(old(self).book, named->Some_0);
                    if snaps_overflow(sv, ac as u32, ar as u32, tp) {
                        r == Err::<(), ExcelError>(ExcelError::InvalidReference)
                            && spec_sheet_cells(final(self).book, named->Some_0) == cells0 && (
                        forall|n2: Seq<char>|
                            n2 != named->Some_0 ==> spec_sheet_cells(final(self).book, n2)
                                == spec_sheet_cells(old(self).book, n2))
                    } else {
                        r == Ok::<(), ExcelError>(()) && spec_sheet_cells(
                            final(self).book,
                            named->Some_0,
                        ) == snaps_paste_model(
                            cells0,
                            sv,
                            ac as u32,
                            ar as u32,
                            tp,
                            sv.len() as int,
                        ) && (forall|n2: Seq<char>|
                            n2 != named->Some_0 ==> spec_sheet_cells(final(self).book, n2)
                                == spec_sheet_cells(old(self).book, n2))
                    }
                }
            }),
    {
        let tp = match transpose {
            Some(b) => b,
            None => false,
        };
        let name = match &self.current_sheet_name {
            Some(s) => s.clone(),
            None => {
                return Err(ExcelError::NoSheetSelected);
            },
        };
        if !wb_has_sheet(&self.book, name.as_str()) {
            return Err(ExcelError::SheetNotFound);
        }
        let (ac, ar) = match &self.current_cell_in_current_sheet {
            Some(c) => c.idx(),
            None => {
                return Err(ExcelError::NoCellSelected);
            },
        };
        if !wb_has_sheet(source, source_sheet_name) {
            return Err(ExcelError::SheetNotFound);
        }
        if !source_range.check() {
            return Err(ExcelError::InvalidReference);
        }
        let ((sc, sr), (ec, er)) = source_range.idx();
        let snaps = match copy_plan(source, source_sheet_name, sc, sr, ec, er) {
            Ok(v) => v,
            Err(_) => {
                proof {
                    assert(false);
                }
                return Err(ExcelError::SheetNotFound);
            },
        };
        paste_snapshots(&mut self.book, name.as_str(), ac, ar, tp, &snaps)
    }

    /// Paste range snapshots at the current cell of the current sheet,
    /// the axes swapped when transposing. This is the landing half of a
    /// range copy, for callers that transform the snapshot texts first.
    pub fn copy_snapshots_at_cursor(&mut self, snaps: &Vec<CellSnapshot>, transpose: bool) -> (r:
        Result<(), ExcelError>)
        requires
            template_wf(*old(self)),
        ensures
            template_wf(*final(self)),
            final(self).current_sheet_name == old(self).current_sheet_name,
            final(self).current_cell_in_current_sheet == old(self).current_cell_in_current_sheet,
            wb_sheet_names(final(self).book) == wb_sheet_names(old(self).book),
            ({
                let named = cursor_sheet(*old(self));
                let at = cursor_cell(*old(self));
                if named is None {
                    r == Err::<(), ExcelError>(ExcelError::NoSheetSelected) && final(self).book
                        == old(self).book
                } else if !spec_has_sheet(old(self).book, named->Some_0) {
                    r == Err::<(), ExcelError>(ExcelError::SheetNotFound) && final(self).book
                        == old(self).book
                } else if at is None {
                    r == Err::<(), ExcelError>(ExcelError::NoCellSelected) && final(self).book
                        == old(self).book
                } else {
                    let (ac, ar) = at->Some_0;
                    let cells0 = spec_sheet_cells(old(self).book, named->Some_0);
                    let sv = snaps_view(snaps@);
                    if snaps_overflow(sv, ac as u32, ar as u32, transpose) {
                        r == Err::<(), ExcelError>(ExcelError::InvalidReference)
                            && spec_sheet_cells(final(self).book, named->Some_0) == cells0 && (
                        forall|n2: Seq<char>|
                            n2 != named->Some_0 ==> spec_sheet_cells(final(self).book, n2)
                                == spec_sheet_cells(old(self).book, n2))
                    } else {
                        r == Ok::<(), ExcelError>(()) && spec_sheet_cells(
                            final(self).book,
                            named->Some_0,
                        ) == snaps_paste_model(
                            cells0,
                            sv,
                            ac as u32,
                            ar as u32,
                            transpose,
                            sv.len() as int,
                        ) && (forall|n2: Seq<char>|
                            n2 != named->Some_0 ==> spec_sheet_cells(final(self).book, n2)
                                == spec_sheet_cells(old(self).book, n2))
                    }
                }
            }),
    {
        let name = match &self.current_sheet_name {
            Some(s) => s.clone(),
            None => {
                return Err(ExcelError::NoSheetSelected);
            },
        };
        if !wb_has_sheet(&self.book, name.as_str()) {
            return Err(ExcelError::SheetNotFound);
        }
        let (ac, ar) = match &self.current_cell_in_current_sheet {
            Some(c) => c.idx(),
            None => {
                return Err(ExcelError::NoCellSelected);
            },
        };
        paste_snapshots(&mut self.book, name.as_str(), ac, ar, transpose, snaps)
    }

    /// Paste a sequence of result values at the current cell of the
    /// current sheet, advancing down rows in row mode and across columns
    /// in column mode. This is the landing half of a range aggregation.
    pub fn paste_at_cursor(&mut self, values: Vec<String>, mode: Mode) -> (r: Result<
        (),
        ExcelError,
    >)
        requires
            template_wf(*old(self)),
        ensures
            template_wf(*final(self)),
            final(self).current_sheet_name == old(self).current_sheet_name,
            final(self).current_cell_in_current_sheet == old(self).current_cell_in_current_sheet,
            wb_sheet_names(final(self).book) == wb_sheet_names(old(self).book),
            ({
                let named = cursor_sheet(*old(self));
                let at = cursor_cell(*old(self));
                if named is None {
                    r == Err::<(), ExcelError>(ExcelError::NoSheetSelected) && final(self).book
                        == old(self).book
                } else if !spec_has_sheet(old(self).book, named->Some_0) {
                    r == Err::<(), ExcelError>(ExcelError::SheetNotFound) && final(self).book
                        == old(self).book
                } else if at is None {
                    r == Err::<(), ExcelError>(ExcelError::NoCellSelected) && final(self).book
                        == old(self).book
                } else {
                    let (ac, ar) = at->Some_0;
                    let cells0 = spec_sheet_cells(old(self).book, named->Some_0);
                    let axis: int = match mode {
                        Mode::Row => ar,
                        Mode::Column => ac,
                    };
                    if values.len() > 0 && axis + values.len() - 1 > u32::MAX {
                        r == Err::<(), ExcelError>(ExcelError::InvalidReference)
                            && spec_sheet_cells(final(self).book, named->Some_0) == cells0 && (
                        forall|n2: Seq<char>|
                            n2 != named->Some_0 ==> spec_sheet_cells(final(self).book, n2)
                                == spec_sheet_cells(old(self).book, n2))
                    } else {
                        r == Ok::<(), ExcelError>(()) && spec_sheet_cells(
                            final(self).book,
                            named->Some_0,
                        ) == paste_model(
                            cells0,
                            values.deep_view(),
                            ac as u32,
                            ar as u32,
                            mode,
                            values.len() as int,
                        ) && (forall|n2: Seq<char>|
                            n2 != named->Some_0 ==> spec_sheet_cells(final(self).book, n2)
                                == spec_sheet_cells(old(self).book, n2))
                    }
                }
            }),
    {
        let name = match &self.current_sheet_name {
            Some(s) => s.clone(),
            None => {
                return Err(ExcelError::NoSheetSelected);
            },
        };
        if !wb_has_sheet(&self.book, name.as_str()) {
            return Err(ExcelError::SheetNotFound);
        }
        let (ac, ar) = match &self.current_cell_in_current_sheet {
            Some(c) => c.idx(),
            None => {
                return Err(ExcelError::NoCellSelected);
            },
        };
        paste_vector_to_sheet(values, &mut self.book, name.as_str(), ar, ac, mode)
    }

    /// Fill the current sheet from a table by header names. The header
    /// line starts at the current cell (as `set_header_location` leaves
    /// it); the table's records land after the header line when
    /// `overwrite` is set and after everything the sheet holds
    /// otherwise, and the cursor moves to the first data line. Defaults:
    /// row mode, lenient, nulls written, no overwrite.
    pub fn fill_with(
        &mut self,
        table: &Table,
        mode: Option<Mode>,
        strict: Option<bool>,
        skip_null: Option<bool>,
        overwrite: Option<bool>,
    ) -> (r: Result<(), ExcelError>)
        requires
            template_wf(*old(self)),
            table_wf(*table),
        ensures
            template_wf(*final(self)),
            final(self).current_sheet_name == old(self).current_sheet_name,
            wb_sheet_names(final(self).book) == wb_sheet_names(old(self).book),
            ({
                let md = match mode {
                    Some(m) => m,
                    None => Mode::Row,
                };
                let st = match strict {
                    Some(b) => b,
                    None => false,
                };
                let sk = match skip_null {
                    Some(b) => b,
                    None => false,
                };
                let ov = match overwrite {
                    Some(b) => b,
                    None => false,
                };
                let named = cursor_sheet(*old(self));
                let at = cursor_cell(*old(self));
                if named is None {
                    r == Err::<(), ExcelError>(ExcelError::NoSheetSelected) && final(self).book
                        == old(self).book && final(self).current_cell_in_current_sheet == old(self).current_cell_in_current_sheet
                } else if !spec_has_sheet(old(self).book, named->Some_0) {
                    r == Err::<(), ExcelError>(ExcelError::SheetNotFound) && final(self).book
                        == old(self).book && final(self).current_cell_in_current_sheet == old(self).current_cell_in_current_sheet
                } else if at is None {
                    r == Err::<(), ExcelError>(ExcelError::NoCellSelected) && final(self).book
                        == old(self).book && final(self).current_cell_in_current_sheet == old(self).current_cell_in_current_sheet
                } else {
                    let (hcol, hrow) = at->Some_0;
                    let cells0 = spec_sheet_cells(old(self).book, named->Some_0);
                    let anchor = fill_anchor(cells0, hcol as u32, hrow as u32, md, ov);
                    if anchor.0 > u32::MAX || anchor.1 > u32::MAX {
                        r == Err::<(), ExcelError>(ExcelError::InvalidReference) && final(self).book == old(self).book && final(self).current_cell_in_current_sheet
                            == old(self).current_cell_in_current_sheet
                    } else {
                        cursor_cell(*final(self)) == Some(anchor) && match by_name_outcome(
                            cells0,
                            fill_entries(cells0, hcol as u32, hrow as u32, md),
                            *table,
                            md,
                            anchor.0 as u32,
                            anchor.1 as u32,
                            st,
                            sk,
                        ) {
                            Ok(m) => r == Ok::<(), ExcelError>(()) && spec_sheet_cells(
                                final(self).book,
                                named->Some_0,
                            ) == m && (forall|n2: Seq<char>|
                                n2 != named->Some_0 ==> spec_sheet_cells(final(self).book, n2)
                                    == spec_sheet_cells(old(self).book, n2)),
                            Err(e) => r == Err::<(), ExcelError>(e) && spec_sheet_cells(
                                final(self).book,
                                named->Some_0,
                            ) == cells0 && (forall|n2: Seq<char>|
                                n2 != named->Some_0 ==> spec_sheet_cells(final(self).book, n2)
                                    == spec_sheet_cells(old(self).book, n2)),
                        }
                    }
                }
            }),
    {
        let md = match mode {
            Some(m) => m,
            None => Mode::Row,
        };
        let st = match strict {
            Some(b) => b,
            None => false,
        };
        let sk = match skip_null {
            Some(b) => b,
            None => false,
        };
        let ov = match overwrite {
            Some(b) => b,
            None => false,
        };
        let name = match &self.current_sheet_name {
            Some(s) => s.clone(),
            None => {
                return Err(ExcelError::NoSheetSelected);
            },
        };
        if !wb_has_sheet(&self.book, name.as_str()) {
            return Err(ExcelError::SheetNotFound);
        }
        let (hcol, hrow) = match &self.current_cell_in_current_sheet {
            Some(c) => c.idx(),
            None => {
                return Err(ExcelError::NoCellSelected);
            },
        };
        let ghost cells0 = spec_sheet_cells(self.book, name@);
        let (hc0, hr0) = wb_highest(&self.book, name.as_str());
        proof {
            lemma_highest_unique(cells0, hc0, hr0);
        }
        let (anchor_col64, anchor_row64): (u64, u64) = match md {
            Mode::Row => (
                hcol as u64,
                if ov {
                    hrow as u64 + 1
                } else {
                    hr0 as u64 + 1
                },
            ),
            Mode::Column => (
                if ov {
                    hcol as u64 + 1
                } else {
                    hc0 as u64 + 1
                },
                hrow as u64,
            ),
        };
        if anchor_col64 > u32::MAX as u64 || anchor_row64 > u32::MAX as u64 {
            return Err(ExcelError::InvalidReference);
        }
        let anchor_col: u32 = anchor_col64 as u32;
        let anchor_row: u32 = anchor_row64 as u32;
        let hmap = match md {
            Mode::Row => build_header_map(&self.book, name.as_str(), hrow, hcol, hc0, md),
            Mode::Column => build_header_map(&self.book, name.as_str(), hcol, hrow, hr0, md),
        };
        proof {
            match md {
                Mode::Row => lemma_scan_entries_props(cells0, md, hrow, hcol, hc0 as int + 1),
                Mode::Column => lemma_scan_entries_props(cells0, md, hcol, hrow, hr0 as int + 1),
            }
            assert forall|i: int|
                0 <= i < entries_view(hmap.entries@).len() implies (#[trigger] entries_view(
                hmap.entries@,
            )[i]).1 >= 1 by {
                assert(entries_view(hmap.entries@)[i] == fill_entries(
                    cells0,
                    hcol as u32,
                    hrow as u32,
                    md,
                )[i]);
            }
        }
        self.current_cell_in_current_sheet = Some(ExcelCell::Tuple((anchor_row, anchor_col)));
        add_table_by_column_name(
            &mut self.book,
            name.as_str(),
            table,
            hmap,
            md,
            anchor_col,
            anchor_row,
            st,
            sk,
        )
    }
}

} // verus!
