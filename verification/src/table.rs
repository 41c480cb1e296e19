use crate::error::ExcelError;
use crate::options::Value;
use crate::text::str_eq;
use vstd::prelude::*;

verus! {

/// One named column of a table: an ordered sequence of scalar cells.
#[derive(Debug)]
pub struct Column {
    pub name: String,
    pub cells: Vec<Value>,
}

/// The canonical in-memory tabular value: an ordered list of named columns
/// that all share one row count. Built once per operation from whatever
/// tabular source the host hands in; immutable afterwards.
#[derive(Debug)]
pub struct Table {
    pub columns: Vec<Column>,
}

/// The length of the longest column in a list of columns.
pub open spec fn max_col_len(cols: Seq<Column>) -> int
    decreases cols.len(),
{
    if cols.len() == 0 {
        0
    } else {
        let rest = max_col_len(cols.drop_last());
        if cols.last().cells.len() > rest {
            cols.last().cells.len() as int
        } else {
            rest
        }
    }
}

/// Whether some non-empty column differs in length from the longest.
pub open spec fn has_length_mismatch(cols: Seq<Column>) -> bool {
    exists|j: int|
        0 <= j < cols.len() && #[trigger] cols[j].cells.len() != 0 && cols[j].cells.len()
            != max_col_len(cols)
}

/// Whether two columns carry the same name.
pub open spec fn has_duplicate_names(cols: Seq<Column>) -> bool {
    exists|i: int, j: int|
        0 <= i < j < cols.len() && #[trigger] cols[i].name@ == #[trigger] cols[j].name@
}

/// A well-formed table: column names are pairwise distinct and every
/// column has the same height.
pub open spec fn table_wf(t: Table) -> bool {
    &&& !has_duplicate_names(t.columns@)
    &&& forall|j: int|
        0 <= j < t.columns.len() ==> #[trigger] t.columns@[j].cells.len() == table_height(t)
}

/// The shared height of a table's columns (0 for a table without columns).
pub open spec fn table_height(t: Table) -> int {
    if t.columns.len() == 0 {
        0
    } else {
        t.columns@[0].cells.len() as int
    }
}

/// The position of the column carrying `name`, if any. Well-formed tables
/// have distinct names, so the position is unique.
pub open spec fn table_col_index(t: Table, name: Seq<char>) -> Option<int> {
    if exists|j: int| 0 <= j < t.columns.len() && #[trigger] t.columns@[j].name@ == name {
        Some(choose|j: int| 0 <= j < t.columns.len() && #[trigger] t.columns@[j].name@ == name)
    } else {
        None
    }
}

/// Whether the table has a column carrying `name`.
pub open spec fn table_has_column(t: Table, name: Seq<char>) -> bool {
    exists|j: int| 0 <= j < t.columns.len() && #[trigger] t.columns@[j].name@ == name
}

impl Table {
    /// How many rows the table has.
    pub fn height(&self) -> (r: usize)
        requires
            table_wf(*self),
        ensures
            r == table_height(*self),
    {
        if self.columns.len() == 0 {
            0
        } else {
            self.columns[0].cells.len()
        }
    }

    /// How many columns the table has.
    pub fn width(&self) -> (r: usize)
        ensures
            r == self.columns.len(),
    {
        self.columns.len()
    }

    /// The position of the column carrying `name`, if any.
    pub fn find_column(&self, name: &str) -> (r: Option<usize>)
        requires
            table_wf(*self),
        ensures
            match r {
                Some(j) => j < self.columns.len() && self.columns@[j as int].name@ == name@,
                None => !table_has_column(*self, name@),
            },
    {
        let n = self.columns.len();
        let mut j: usize = 0;
        while j < n
            invariant
                0 <= j <= n,
                n == self.columns.len(),
                forall|i: int| 0 <= i < j ==> #[trigger] self.columns@[i].name@ != name@,
            decreases n - j,
        {
            if str_eq(self.columns[j].name.as_str(), name) {
                return Some(j);
            }
            j = j + 1;
        }
        None
    }

    /// Build a table from columns, as the tabular sources hand them in:
    /// every non-empty column must share the longest column's length, or
    /// the build fails with `LengthMismatch`; an empty column beside
    /// non-empty ones becomes an all-null column of that length. Two
    /// columns carrying one name fail with `ColumnMismatch`.
    #[verifier::loop_isolation(false)]
    pub fn from_columns(cols: Vec<Column>) -> (r: Result<Table, ExcelError>)
        ensures
            match r {
                Ok(t) => !has_duplicate_names(cols@) && !has_length_mismatch(cols@) && table_wf(t)
                    && t.columns.len() == cols.len() && table_height(t) == (if cols.len() == 0 {
                    0int
                } else {
                    max_col_len(cols@)
                }) && (forall|j: int|
                    0 <= j < cols.len() ==> #[trigger] t.columns@[j].name@ == cols@[j].name@) && (
                forall|j: int|
                    0 <= j < cols.len() && cols@[j].cells.len() != 0
                        ==> #[trigger] t.columns@[j].cells@ == cols@[j].cells@) && (forall|j: int|
                    0 <= j < cols.len() && cols@[j].cells.len() == 0
                        ==> #[trigger] t.columns@[j].cells@ =~= Seq::new(
                        max_col_len(cols@) as nat,
                        |i: int| Value::Null,
                    )),
                Err(e) => (e == ExcelError::ColumnMismatch && has_duplicate_names(cols@)) || (e
                    == ExcelError::LengthMismatch && !has_duplicate_names(cols@)
                    && has_length_mismatch(cols@)),
            },
    {
        let n = cols.len();
        // Reject duplicate column names.
        let mut i: usize = 0;
        while i < n
            invariant
                0 <= i <= n,
                n == cols.len(),
                forall|a: int, b: int|
                    0 <= a < b < cols.len() && b < i ==> #[trigger] cols@[a].name@
                        != #[trigger] cols@[b].name@,
            decreases n - i,
        {
            let mut k: usize = 0;
            while k < i
                invariant
                    0 <= k <= i < n,
                    n == cols.len(),
                    forall|a: int| 0 <= a < k ==> #[trigger] cols@[a].name@ != cols@[i as int].name@,
                decreases i - k,
            {
                if str_eq(cols[k].name.as_str(), cols[i].name.as_str()) {
                    return Err(ExcelError::ColumnMismatch);
                }
                k = k + 1;
            }
            i = i + 1;
        }
        proof {
            assert(!has_duplicate_names(cols@));
        }
        // Find the longest column.
        let mut maxlen: usize = 0;
        let mut i: usize = 0;
        while i < n
            invariant
                0 <= i <= n,
                n == cols.len(),
                maxlen == max_col_len(cols@.subrange(0, i as int)),
            decreases n - i,
        {
            proof {
                assert(cols@.subrange(0, i + 1).drop_last() =~= cols@.subrange(0, i as int));
                assert(cols@.subrange(0, i + 1).last() == cols@[i as int]);
            }
            if cols[i].cells.len() > maxlen {
                maxlen = cols[i].cells.len();
            }
            i = i + 1;
        }
        proof {
            assert(cols@.subrange(0, n as int) =~= cols@);
        }
        // Every non-empty column must have the longest length.
        let mut i: usize = 0;
        while i < n
            invariant
                0 <= i <= n,
                n == cols.len(),
                maxlen == max_col_len(cols@),
                forall|j: int|
                    0 <= j < i ==> #[trigger] cols@[j].cells.len() == 0 || cols@[j].cells.len()
                        == max_col_len(cols@),
            decreases n - i,
        {
            if cols[i].cells.len() != 0 && cols[i].cells.len() != maxlen {
                proof {
                    assert(cols@[i as int].cells.len() != 0 && cols@[i as int].cells.len()
                        != max_col_len(cols@));
                }
                return Err(ExcelError::LengthMismatch);
            }
            i = i + 1;
        }
        // Pad empty columns with nulls.
        let mut out: Vec<Column> = Vec::new();
        let mut i: usize = 0;
        while i < n
            invariant
                0 <= i <= n,
                n == cols.len(),
                maxlen == max_col_len(cols@),
                forall|j: int|
                    0 <= j < n ==> #[trigger] cols@[j].cells.len() == 0 || cols@[j].cells.len()
                        == max_col_len(cols@),
                out.len() == i,
                forall|j: int| 0 <= j < i ==> #[trigger] out@[j].name@ == cols@[j].name@,
                forall|j: int| 0 <= j < i ==> #[trigger] out@[j].cells.len() == max_col_len(cols@),
                forall|j: int|
                    0 <= j < i && cols@[j].cells.len() != 0 ==> #[trigger] out@[j].cells@
                        == cols@[j].cells@,
                forall|j: int|
                    0 <= j < i && cols@[j].cells.len() == 0 ==> #[trigger] out@[j].cells@
                        =~= Seq::new(max_col_len(cols@) as nat, |x: int| Value::Null),
            decreases n - i,
        {
            let src = &cols[i];
            if src.cells.len() == 0 {
                let mut filled: Vec<Value> = Vec::new();
                let mut k: usize = 0;
                while k < maxlen
                    invariant
                        0 <= k <= maxlen,
                        filled.len() == k,
                        forall|x: int| 0 <= x < k ==> #[trigger] filled@[x] == Value::Null,
                    decreases maxlen - k,
                {
                    filled.push(Value::Null);
                    k = k + 1;
                }
                proof {
                    assert(filled@ =~= Seq::new(max_col_len(cols@) as nat, |x: int| Value::Null));
                }
                out.push(Column { name: src.name.clone(), cells: filled });
            } else {
                let mut copied: Vec<Value> = Vec::new();
                let mut k: usize = 0;
                let len = src.cells.len();
                while k < len
                    invariant
                        0 <= k <= len,
                        len == cols@[i as int].cells.len(),
                        i < n,
                        n == cols.len(),
                        copied.len() == k,
                        forall|x: int|
                            0 <= x < k ==> #[trigger] copied@[x] == cols@[i as int].cells@[x],
                    decreases len - k,
                {
                    copied.push(value_duplicate(&cols[i].cells[k]));
                    k = k + 1;
                }
                proof {
                    assert(copied@ =~= cols@[i as int].cells@);
                }
                out.push(Column { name: src.name.clone(), cells: copied });
            }
            i = i + 1;
        }
        let t = Table { columns: out };
        proof {
            assert(table_height(t) == (if cols.len() == 0 {
                0int
            } else {
                max_col_len(cols@)
            })) by {
                if cols.len() > 0 {
                    assert(t.columns@[0].cells.len() == max_col_len(cols@));
                }
            }
            assert forall|a: int, b: int|
                0 <= a < b < t.columns.len() implies #[trigger] t.columns@[a].name@
                != #[trigger] t.columns@[b].name@ by {
                assert(t.columns@[a].name@ == cols@[a].name@);
                assert(t.columns@[b].name@ == cols@[b].name@);
            }
        }
        Ok(t)
    }

    /// Build a table from separate name and value lists, which must be
    /// equally many; the paired columns then follow the rules of
    /// `from_columns` exactly: distinct names and equal non-empty lengths
    /// build the table, with empty lists padded to all-null columns.
    pub fn from_lists(names: Vec<String>, lists: Vec<Vec<Value>>) -> (r: Result<
        Table,
        ExcelError,
    >)
        ensures
            names.len() != lists.len() ==> r == Err::<Table, ExcelError>(
                ExcelError::LengthMismatch,
            ),
            names.len() == lists.len() ==> ({
                let cols = paired_columns(names@, lists@);
                match r {
                    Ok(t) => !has_duplicate_names(cols) && !has_length_mismatch(cols) && table_wf(
                        t,
                    ) && t.columns.len() == cols.len() && table_height(t) == (if cols.len() == 0 {
                        0int
                    } else {
                        max_col_len(cols)
                    }) && (forall|j: int|
                        0 <= j < cols.len() ==> #[trigger] t.columns@[j].name@
                            == cols[j].name@) && (forall|j: int|
                        0 <= j < cols.len() && cols[j].cells.len() != 0
                            ==> #[trigger] t.columns@[j].cells@ == cols[j].cells@) && (forall|
                        j: int,
                    |
                        0 <= j < cols.len() && cols[j].cells.len() == 0
                            ==> #[trigger] t.columns@[j].cells@ =~= Seq::new(
                            max_col_len(cols) as nat,
                            |i: int| Value::Null,
                        )),
                    Err(e) => (e == ExcelError::ColumnMismatch && has_duplicate_names(cols)) || (e
                        == ExcelError::LengthMismatch && !has_duplicate_names(cols)
                        && has_length_mismatch(cols)),
                }
            }),
    {
        if names.len() != lists.len() {
            return Err(ExcelError::LengthMismatch);
        }
        let ghost paired = paired_columns(names@, lists@);
        let mut cols: Vec<Column> = Vec::new();
        let n = names.len();
        // Move the lists out in order, pairing each with its name.
        let mut rest = lists;
        let mut i: usize = 0;
        while i < n
            invariant
                0 <= i <= n,
                n == names.len(),
                n == lists.len(),
                paired == paired_columns(names@, lists@),
                rest@ == lists@.subrange(i as int, n as int),
                cols.len() == i,
                forall|j: int| 0 <= j < i ==> #[trigger] cols@[j] == paired[j],
            decreases n - i,
        {
            proof {
                assert(rest@[0] == lists@[i as int]);
            }
            let taken = rest.remove(0);
            cols.push(Column { name: names[i].clone(), cells: taken });
            proof {
                assert(rest@ =~= lists@.subrange(i + 1, n as int));
                assert(cols@[i as int] == paired[i as int]);
            }
            i = i + 1;
        }
        proof {
            assert(cols@ =~= paired);
        }
        Table::from_columns(cols)
    }
}

/// The columns that pairing a name list with a value-list list yields,
/// in order.
pub open spec fn paired_columns(names: Seq<String>, lists: Seq<Vec<Value>>) -> Seq<Column> {
    Seq::new(names.len(), |i: int| Column { name: names[i], cells: lists[i] })
}

/// An identical copy of a value.
pub fn value_duplicate(v: &Value) -> (r: Value)
    ensures
        r == *v,
{
    match v {
        Value::Null => Value::Null,
        Value::Int(i) => Value::Int(*i),
        Value::Boolean(b) => Value::Boolean(*b),
        Value::Float(s) => Value::Float(s.clone()),
        Value::String(s) => Value::String(s.clone()),
    }
}

} // verus!
