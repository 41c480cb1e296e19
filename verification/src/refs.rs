use crate::codec::{
    cell_col_of, cell_row_of, cell_text_of, excel_to_index, index_to_excel, parse_cell_text,
    parse_range_text, range_end_text, range_start_text, range_text_of, range_to_text,
    valid_cell_text, valid_range_text,
};
use crate::options::Mode;
use vstd::prelude::*;

verus! {

// ===========================================================================
// ExcelCell: one cell, as a (row, column) pair or a symbolic "B5".
// ===========================================================================
/// A single cell address: a one-based (row, column) pair, or its symbolic
/// letter-digit form.
#[derive(Debug)]
pub enum ExcelCell {
    Tuple((u32, u32)),
    String(String),
}

/// Whether a cell reference is well-formed: both coordinates one-based and,
/// for the symbolic form, the text parseable with values that fit.
pub open spec fn cell_ref_valid(c: ExcelCell) -> bool {
    match c {
        ExcelCell::Tuple(t) => t.0 >= 1 && t.1 >= 1,
        ExcelCell::String(s) => valid_cell_text(s@) && cell_col_of(s@) <= u32::MAX && 1
            <= cell_row_of(s@) <= u32::MAX,
    }
}

/// The column a cell reference names.
pub open spec fn cell_ref_col(c: ExcelCell) -> int {
    match c {
        ExcelCell::Tuple(t) => t.1 as int,
        ExcelCell::String(s) => cell_col_of(s@),
    }
}

/// The row a cell reference names.
pub open spec fn cell_ref_row(c: ExcelCell) -> int {
    match c {
        ExcelCell::Tuple(t) => t.0 as int,
        ExcelCell::String(s) => cell_row_of(s@),
    }
}

/// The symbolic text of a cell reference.
pub open spec fn cell_ref_text(c: ExcelCell) -> Seq<char> {
    match c {
        ExcelCell::Tuple(t) => cell_text_of(t.1 as int, t.0 as int),
        ExcelCell::String(s) => s@,
    }
}

impl ExcelCell {
    /// Whether this reference is well-formed.
    pub fn check(&self) -> (r: bool)
        ensures
            r == cell_ref_valid(*self),
    {
        match self {
            ExcelCell::Tuple(t) => t.0 >= 1 && t.1 >= 1,
            ExcelCell::String(s) => {
                match parse_cell_text(s.as_str()) {
                    Some(cr) => cr.1 >= 1,
                    None => false,
                }
            },
        }
    }

    /// The (column, row) pair this reference names.
    pub fn idx(&self) -> (r: (u32, u32))
        requires
            cell_ref_valid(*self),
        ensures
            r.0 == cell_ref_col(*self),
            r.1 == cell_ref_row(*self),
            r.0 >= 1,
            r.1 >= 1,
    {
        match self {
            ExcelCell::Tuple(t) => (t.1, t.0),
            ExcelCell::String(s) => excel_to_index(s.as_str()),
        }
    }

    /// The symbolic text of this reference.
    pub fn range(&self) -> (r: String)
        requires
            cell_ref_valid(*self),
        ensures
            r@ == cell_ref_text(*self),
    {
        match self {
            ExcelCell::Tuple(t) => index_to_excel(t.1, t.0),
            ExcelCell::String(s) => s.clone(),
        }
    }

}

impl Default for ExcelCell {
    /// The default cell is "A1".
    fn default() -> (c: ExcelCell)
        ensures
            c == ExcelCell::Tuple((1u32, 1u32)),
    {
        ExcelCell::Tuple((1, 1))
    }
}

// ===========================================================================
// ExcelRange: a rectangle, as two (row, column) pairs or a symbolic
// "A1:C3".
// ===========================================================================
/// A rectangular range: a pair of one-based (row, column) corners, or its
/// symbolic colon form.
#[derive(Debug)]
pub enum ExcelRange {
    Range(((u32, u32), (u32, u32))),
    String(String),
}

/// Whether a range reference is well-formed.
pub open spec fn range_ref_valid(r: ExcelRange) -> bool {
    match r {
        ExcelRange::Range(p) => p.0.0 >= 1 && p.0.1 >= 1 && p.1.0 >= 1 && p.1.1 >= 1,
        ExcelRange::String(s) => valid_range_text(s@) && cell_col_of(range_start_text(s@))
            <= u32::MAX && 1 <= cell_row_of(range_start_text(s@)) <= u32::MAX && cell_col_of(
            range_end_text(s@),
        ) <= u32::MAX && 1 <= cell_row_of(range_end_text(s@)) <= u32::MAX,
    }
}

/// Start column of a range reference.
pub open spec fn range_ref_start_col(r: ExcelRange) -> int {
    match r {
        ExcelRange::Range(p) => p.0.1 as int,
        ExcelRange::String(s) => cell_col_of(range_start_text(s@)),
    }
}

/// Start row of a range reference.
pub open spec fn range_ref_start_row(r: ExcelRange) -> int {
    match r {
        ExcelRange::Range(p) => p.0.0 as int,
        ExcelRange::String(s) => cell_row_of(range_start_text(s@)),
    }
}

/// End column of a range reference.
pub open spec fn range_ref_end_col(r: ExcelRange) -> int {
    match r {
        ExcelRange::Range(p) => p.1.1 as int,
        ExcelRange::String(s) => cell_col_of(range_end_text(s@)),
    }
}

/// End row of a range reference.
pub open spec fn range_ref_end_row(r: ExcelRange) -> int {
    match r {
        ExcelRange::Range(p) => p.1.0 as int,
        ExcelRange::String(s) => cell_row_of(range_end_text(s@)),
    }
}

/// The symbolic text of a range reference.
pub open spec fn range_ref_text(r: ExcelRange) -> Seq<char> {
    match r {
        ExcelRange::Range(p) => range_text_of(p.0.1 as int, p.0.0 as int, p.1.1 as int, p.1.0 as int),
        ExcelRange::String(s) => s@,
    }
}

impl ExcelRange {
    /// Whether this reference is well-formed.
    pub fn check(&self) -> (r: bool)
        ensures
            r == range_ref_valid(*self),
    {
        match self {
            ExcelRange::Range(p) => p.0.0 >= 1 && p.0.1 >= 1 && p.1.0 >= 1 && p.1.1 >= 1,
            ExcelRange::String(s) => {
                match parse_range_text(s.as_str()) {
                    Some((start, end)) => start.1 >= 1 && end.1 >= 1,
                    None => false,
                }
            },
        }
    }

    /// The two (column, row) corners this reference names.
    pub fn idx(&self) -> (r: ((u32, u32), (u32, u32)))
        requires
            range_ref_valid(*self),
        ensures
            r.0.0 == range_ref_start_col(*self),
            r.0.1 == range_ref_start_row(*self),
            r.1.0 == range_ref_end_col(*self),
            r.1.1 == range_ref_end_row(*self),
            r.0.0 >= 1 && r.0.1 >= 1 && r.1.0 >= 1 && r.1.1 >= 1,
    {
        match self {
            ExcelRange::Range(p) => ((p.0.1, p.0.0), (p.1.1, p.1.0)),
            ExcelRange::String(s) => {
                match parse_range_text(s.as_str()) {
                    Some(v) => v,
                    None => {
                        proof {
                            assert(false);
                        }
                        ((1, 1), (1, 1))
                    },
                }
            },
        }
    }

    /// The symbolic text of this reference.
    pub fn range(&self) -> (r: String)
        requires
            range_ref_valid(*self),
        ensures
            r@ == range_ref_text(*self),
    {
        match self {
            ExcelRange::Range(p) => range_to_text(p.0.1, p.0.0, p.1.1, p.1.0),
            ExcelRange::String(s) => s.clone(),
        }
    }
}

// ===========================================================================
// ExcelHeader: where a header line starts.
// ===========================================================================
/// Where the header line of a sheet is: the first line, the last line, a
/// cell, or a range that spans a single line.
#[derive(Debug)]
pub enum ExcelHeader {
    First,
    Last,
    ExcelCell(ExcelCell),
    ExcelRange(ExcelRange),
}

/// Whether a header reference is well-formed. A range form must span a
/// single row or a single column.
pub open spec fn header_ref_valid(h: ExcelHeader) -> bool {
    match h {
        ExcelHeader::First => true,
        ExcelHeader::Last => true,
        ExcelHeader::ExcelCell(c) => cell_ref_valid(c),
        ExcelHeader::ExcelRange(r) => range_ref_valid(r) && (range_ref_start_row(r)
            == range_ref_end_row(r) || range_ref_start_col(r) == range_ref_end_col(r)),
    }
}

/// The (column, row) a header reference resolves to, given the sheet's
/// highest column and row and the layout mode. `Last` names the last row in
/// row mode and the last column in column mode, falling back to the first
/// on a sheet without cells.
pub open spec fn header_resolve(h: ExcelHeader, hc: int, hr: int, mode: Mode) -> (int, int) {
    match h {
        ExcelHeader::First => (1, 1),
        ExcelHeader::Last => match mode {
            Mode::Row => (1, if hr >= 1 { hr } else { 1 }),
            Mode::Column => (if hc >= 1 { hc } else { 1 }, 1),
        },
        ExcelHeader::ExcelCell(c) => (cell_ref_col(c), cell_ref_row(c)),
        ExcelHeader::ExcelRange(r) => (range_ref_start_col(r), range_ref_start_row(r)),
    }
}

impl ExcelHeader {
    /// Whether this reference is well-formed.
    pub fn check(&self) -> (r: bool)
        ensures
            r == header_ref_valid(*self),
    {
        match self {
            ExcelHeader::First => true,
            ExcelHeader::Last => true,
            ExcelHeader::ExcelCell(c) => c.check(),
            ExcelHeader::ExcelRange(r) => {
                if r.check() {
                    let ((c1, r1), (c2, r2)) = r.idx();
                    r1 == r2 || c1 == c2
                } else {
                    false
                }
            },
        }
    }

    /// The (column, row) where the header line starts, given the sheet's
    /// highest column and row.
    pub fn idx(&self, highest: (u32, u32), mode: Mode) -> (r: (u32, u32))
        requires
            header_ref_valid(*self),
        ensures
            r.0 == header_resolve(*self, highest.0 as int, highest.1 as int, mode).0,
            r.1 == header_resolve(*self, highest.0 as int, highest.1 as int, mode).1,
            r.0 >= 1,
            r.1 >= 1,
    {
        match self {
            ExcelHeader::First => (1, 1),
            ExcelHeader::Last => {
                match mode {
                    Mode::Row => (1, if highest.1 >= 1 { highest.1 } else { 1 }),
                    Mode::Column => (if highest.0 >= 1 { highest.0 } else { 1 }, 1),
                }
            },
            ExcelHeader::ExcelCell(c) => c.idx(),
            ExcelHeader::ExcelRange(r) => r.idx().0,
        }
    }

    /// The symbolic text of where this reference points, given the sheet's
    /// highest column and row.
    pub fn range(&self, highest: (u32, u32), mode: Mode) -> (r: String)
        requires
            header_ref_valid(*self),
        ensures
            match *self {
                ExcelHeader::ExcelRange(rr) => r@ == range_ref_text(rr),
                ExcelHeader::ExcelCell(c) => r@ == cell_ref_text(c),
                _ => r@ == cell_text_of(
                    header_resolve(*self, highest.0 as int, highest.1 as int, mode).0,
                    header_resolve(*self, highest.0 as int, highest.1 as int, mode).1,
                ),
            },
    {
        match self {
            ExcelHeader::First => index_to_excel(1, 1),
            ExcelHeader::Last => {
                let (c, r) = self.idx(highest, mode);
                index_to_excel(c, r)
            },
            ExcelHeader::ExcelCell(c) => c.range(),
            ExcelHeader::ExcelRange(r) => r.range(),
        }
    }
}

} // verus!
