use crate::options::Mode;
use crate::sheet::{spec_has_sheet, spec_sheet_cells, wb_cell_text, wb_loaded};
use crate::text::str_eq;
use umya_spreadsheet::Workbook;
use vstd::prelude::*;

verus! {

// ===========================================================================
// HeaderMap: the mapping from a header name to the worksheet line index it
// was read from. Entries keep scan order; a name that appears twice is
// owned by its last entry (last write wins), as the resolver documents.
// ===========================================================================
/// A header-name-to-line-index mapping, in scan order.
#[derive(Debug)]
pub struct HeaderMap {
    pub entries: Vec<(String, u32)>,
}

/// The entries at specification level: (name, index) pairs in order.
pub open spec fn entries_view(entries: Seq<(String, u32)>) -> Seq<(Seq<char>, u32)> {
    entries.map(|i: int, e: (String, u32)| (e.0@, e.1))
}

/// The position of the last entry carrying `name`, if any.
pub open spec fn last_entry_index(s: Seq<(Seq<char>, u32)>, name: Seq<char>) -> Option<int>
    decreases s.len(),
{
    if s.len() == 0 {
        None
    } else if s.last().0 == name {
        Some((s.len() - 1) as int)
    } else {
        last_entry_index(s.drop_last(), name)
    }
}

/// Whether any entry carries `name`.
pub open spec fn entries_contain(s: Seq<(Seq<char>, u32)>, name: Seq<char>) -> bool {
    exists|i: int| 0 <= i < s.len() && (#[trigger] s[i]).0 == name
}

/// The line index `name` maps to: the index of its last entry.
pub open spec fn entries_lookup(s: Seq<(Seq<char>, u32)>, name: Seq<char>) -> Option<u32> {
    match last_entry_index(s, name) {
        Some(i) => Some(s[i].1),
        None => None,
    }
}

/// The last entry carrying a name exists exactly when some entry does, it
/// lies in range, and no later entry carries the name.
pub proof fn lemma_last_entry_index(s: Seq<(Seq<char>, u32)>, name: Seq<char>)
    ensures
        last_entry_index(s, name) is Some <==> entries_contain(s, name),
        match last_entry_index(s, name) {
            Some(i) => 0 <= i < s.len() && s[i].0 == name && forall|j: int|
                i < j < s.len() ==> (#[trigger] s[j]).0 != name,
            None => true,
        },
    decreases s.len(),
{
    if s.len() > 0 {
        lemma_last_entry_index(s.drop_last(), name);
        if s.last().0 != name {
            assert forall|i: int| 0 <= i < s.len() - 1 && (#[trigger] s[i]).0 == name implies
            entries_contain(s.drop_last(), name) by {
                assert(s.drop_last()[i] == s[i]);
            }
            assert forall|i: int|
                0 <= i < s.drop_last().len() && (#[trigger] s.drop_last()[i]).0 == name implies (
            #[trigger] s[i]).0 == name by {
                assert(s.drop_last()[i] == s[i]);
            }
            match last_entry_index(s.drop_last(), name) {
                Some(i) => {
                    assert(s.drop_last()[i] == s[i]);
                    assert forall|j: int| i < j < s.len() implies (#[trigger] s[j]).0 != name by {
                        if j < s.len() - 1 {
                            assert(s.drop_last()[j] == s[j]);
                        }
                    }
                },
                None => {},
            }
        }
    }
}

impl HeaderMap {
    /// An empty mapping.
    pub fn new() -> (r: HeaderMap)
        ensures
            r.entries@.len() == 0,
    {
        HeaderMap { entries: Vec::new() }
    }

    /// How many entries the mapping holds.
    pub fn len(&self) -> (r: usize)
        ensures
            r == self.entries@.len(),
    {
        self.entries.len()
    }

    /// Append an entry. A repeated name shadows its earlier entries.
    pub fn insert(&mut self, name: String, idx: u32)
        ensures
            final(self).entries@ == old(self).entries@.push((name, idx)),
            entries_view(final(self).entries@) == entries_view(old(self).entries@).push(
                (name@, idx),
            ),
    {
        let ghost before = self.entries@;
        let ghost vname = name@;
        let ghost vidx = idx;
        self.entries.push((name, idx));
        proof {
            assert(entries_view(self.entries@) =~= entries_view(before).push((vname, vidx)));
        }
    }

    /// The position of the last entry carrying `name`, if any.
    pub fn last_pos(&self, name: &str) -> (r: Option<usize>)
        ensures
            match r {
                Some(i) => last_entry_index(entries_view(self.entries@), name@) == Some(i as int),
                None => last_entry_index(entries_view(self.entries@), name@) is None,
            },
    {
        let ghost s = entries_view(self.entries@);
        let n = self.entries.len();
        proof {
            assert(s.subrange(0, n as int) =~= s);
        }
        let mut i: usize = n;
        while i > 0
            invariant
                0 <= i <= n,
                n == self.entries@.len(),
                s == entries_view(self.entries@),
                last_entry_index(s, name@) == last_entry_index(s.subrange(0, i as int), name@),
            decreases i,
        {
            i = i - 1;
            proof {
                assert(s.subrange(0, i + 1).last() == s[i as int]);
                assert(s.subrange(0, i + 1).drop_last() =~= s.subrange(0, i as int));
            }
            if str_eq(self.entries[i].0.as_str(), name) {
                proof {
                    assert(s[i as int].0 == name@);
                    assert(last_entry_index(s.subrange(0, i + 1), name@) == Some(i as int));
                }
                return Some(i);
            }
            proof {
                assert(s[i as int].0 != name@);
            }
        }
        proof {
            assert(s.subrange(0, 0) =~= Seq::<(Seq<char>, u32)>::empty());
        }
        None
    }

    /// The line index `name` maps to, if any entry carries it.
    pub fn lookup(&self, name: &str) -> (r: Option<u32>)
        ensures
            r == entries_lookup(entries_view(self.entries@), name@),
            r is Some <==> entries_contain(entries_view(self.entries@), name@),
    {
        proof {
            lemma_last_entry_index(entries_view(self.entries@), name@);
        }
        match self.last_pos(name) {
            Some(i) => Some(self.entries[i].1),
            None => None,
        }
    }

    /// Whether any entry carries `name`.
    pub fn contains(&self, name: &str) -> (r: bool)
        ensures
            r == entries_contain(entries_view(self.entries@), name@),
    {
        match self.lookup(name) {
            Some(_) => true,
            None => false,
        }
    }
}

// ===========================================================================
// Scanning a header line of a worksheet.
// ===========================================================================
/// The text at scan position `i` of a header line: the cell (i, fixed) in
/// row mode or (fixed, i) in column mode, the empty string for a missing
/// cell.
pub open spec fn line_text(
    cells: Map<(u32, u32), Seq<char>>,
    mode: Mode,
    fixed: u32,
    i: u32,
) -> Seq<char> {
    let key = match mode {
        Mode::Row => (i, fixed),
        Mode::Column => (fixed, i),
    };
    if cells.dom().contains(key) {
        cells[key]
    } else {
        Seq::empty()
    }
}

/// The entries a scan of positions `first .. upto` of a header line
/// produces: each position contributes the text it holds.
pub open spec fn scan_entries(
    cells: Map<(u32, u32), Seq<char>>,
    mode: Mode,
    fixed: u32,
    first: u32,
    upto: int,
) -> Seq<(Seq<char>, u32)>
    decreases upto - first,
{
    if upto <= first {
        Seq::empty()
    } else {
        scan_entries(cells, mode, fixed, first, upto - 1).push(
            (line_text(cells, mode, fixed, (upto - 1) as u32), (upto - 1) as u32),
        )
    }
}

/// Read the header line of a sheet: every cell from position `first` to
/// position `last` of the line, keyed on the text it holds. In row mode
/// the line is row `fixed` and positions are columns; in column mode the
/// line is column `fixed` and positions are rows.
pub fn build_header_map(
    wb: &Workbook,
    sheet_name: &str,
    fixed: u32,
    first: u32,
    last: u32,
    mode: Mode,
) -> (r: HeaderMap)
    requires
        wb_loaded(*wb),
        spec_has_sheet(*wb, sheet_name@),
    ensures
        entries_view(r.entries@) == scan_entries(
            spec_sheet_cells(*wb, sheet_name@),
            mode,
            fixed,
            first,
            last as int + 1,
        ),
{
    let ghost cells = spec_sheet_cells(*wb, sheet_name@);
    let mut m = HeaderMap::new();
    proof {
        assert(entries_view(m.entries@) =~= Seq::<(Seq<char>, u32)>::empty());
    }
    let mut i: u64 = first as u64;
    while i <= last as u64
        invariant
            wb_loaded(*wb),
            spec_has_sheet(*wb, sheet_name@),
            cells == spec_sheet_cells(*wb, sheet_name@),
            (first as u64 <= i && i <= last as u64 + 1) || i == first as u64,
            entries_view(m.entries@) == scan_entries(cells, mode, fixed, first, i as int),
        decreases last as u64 + 1 - i,
    {
        let pos: u32 = i as u32;
        let (col, row) = match mode {
            Mode::Row => (pos, fixed),
            Mode::Column => (fixed, pos),
        };
        let text = match wb_cell_text(wb, sheet_name, col, row) {
            Some(t) => t,
            None => String::new(),
        };
        proof {
            assert(text@ == line_text(cells, mode, fixed, pos));
        }
        m.insert(text, pos);
        i = i + 1;
    }
    m
}


/// A scan of positions `first .. upto` yields one entry per position, in
/// order: position `first + i` contributes entry `i`.
pub proof fn lemma_scan_entries_props(
    cells: Map<(u32, u32), Seq<char>>,
    mode: Mode,
    fixed: u32,
    first: u32,
    upto: int,
)
    ensures
        scan_entries(cells, mode, fixed, first, upto).len() == if upto <= first {
            0int
        } else {
            upto - first
        },
        forall|i: int|
            0 <= i < scan_entries(cells, mode, fixed, first, upto).len()
                ==> #[trigger] scan_entries(cells, mode, fixed, first, upto)[i] == (
            line_text(cells, mode, fixed, (first + i) as u32),
            (first + i) as u32,
            ),
    decreases upto - first,
{
    if upto > first {
        lemma_scan_entries_props(cells, mode, fixed, first, upto - 1);
    }
}

} // verus!
