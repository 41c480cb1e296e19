use crate::codec::{dec_string_of, is_digit_char, u32_to_dec_string};
use crate::error::ExcelError;
use crate::options::{Action, Mode};
use crate::sheet::{
    spec_has_sheet, spec_sheet_cells, stored_cell_text, wb_cell_text, wb_has_sheet, wb_loaded,
    wb_set_cell, wb_sheet_names,
};
use umya_spreadsheet::Workbook;
use vstd::prelude::*;

verus! {

// ===========================================================================
// Which cell texts count as numbers. The grammar is the one Rust's
// standard float parsing accepts: an optional sign, then "inf",
// "infinity" or "nan" in any letter case, or digits with an optional
// point and an optional exponent.
// ===========================================================================
/// An upper-case ASCII letter folded to lower case; all else unchanged.
pub open spec fn lower_char(c: char) -> char {
    if 65 <= c as int <= 90 {
        ((c as int + 32) as u8) as char
    } else {
        c
    }
}

/// The character sequence folded to lower case, ASCII letters only.
pub open spec fn seq_lower(s: Seq<char>) -> Seq<char> {
    Seq::new(s.len(), |i: int| lower_char(s[i]))
}

/// How many consecutive digits stand at `from`.
pub open spec fn digits_span(s: Seq<char>, from: int) -> int
    decreases s.len() - from,
{
    if from < 0 || from >= s.len() || !is_digit_char(s[from]) {
        0
    } else {
        1 + digits_span(s, from + 1)
    }
}

/// A number body: digits with an optional point somewhere among them (at
/// least one digit on some side), then an optional exponent of one or
/// more digits with an optional sign.
pub open spec fn spec_number_body(b: Seq<char>) -> bool {
    let d1 = digits_span(b, 0);
    let frac = d1 < b.len() && b[d1] == '.';
    let d2 = if frac {
        digits_span(b, d1 + 1)
    } else {
        0int
    };
    let mant_end = if frac {
        d1 + 1 + d2
    } else {
        d1
    };
    let has_digits = d1 > 0 || d2 > 0;
    has_digits && (mant_end == b.len() || (b[mant_end] == 'e' || b[mant_end] == 'E') && ({
        let es = if mant_end + 1 < b.len() && (b[mant_end + 1] == '+' || b[mant_end + 1] == '-') {
            mant_end + 2
        } else {
            mant_end + 1
        };
        digits_span(b, es) > 0 && es + digits_span(b, es) == b.len()
    }))
}

/// A numeric cell text: an optional sign, then an infinity word, the
/// not-a-number word, or a number body.
pub open spec fn spec_numeric_text(s: Seq<char>) -> bool {
    let k: int = if s.len() > 0 && (s[0] == '+' || s[0] == '-') {
        1
    } else {
        0
    };
    let b = s.subrange(k, s.len() as int);
    seq_lower(b) == "inf"@ || seq_lower(b) == "infinity"@ || seq_lower(b) == "nan"@
        || spec_number_body(b)
}

/// `digits_span` is exactly the count of digits standing at `from`.
proof fn lemma_digits_span_exact(s: Seq<char>, from: int, k: int)
    requires
        0 <= from,
        from + k <= s.len(),
        k >= 0,
        forall|i: int| from <= i < from + k ==> is_digit_char(#[trigger] s[i]),
        from + k == s.len() || !is_digit_char(s[from + k]),
    ensures
        digits_span(s, from) == k,
    decreases k,
{
    if k > 0 {
        lemma_digits_span_exact(s, from + 1, k - 1);
    }
}

/// Whether the character at `i` is a decimal digit.
fn is_digit_at(s: &str, i: usize) -> (r: bool)
    requires
        i < s@.len(),
    ensures
        r == is_digit_char(s@[i as int]),
{
    let c = s.get_char(i);
    let v = c as u32;
    48 <= v && v <= 57
}

/// The length of the run of digits starting at `from`.
fn digit_run(s: &str, from: usize, n: usize) -> (r: usize)
    requires
        n == s@.len(),
        from <= n,
    ensures
        from + r <= n,
        r == digits_span(s@, from as int),
{
    let mut i = from;
    while i < n && is_digit_at(s, i)
        invariant
            from <= i <= n,
            n == s@.len(),
            forall|j: int| from <= j < i ==> is_digit_char(#[trigger] s@[j]),
        decreases n - i,
    {
        i = i + 1;
    }
    proof {
        lemma_digits_span_exact(s@, from as int, i as int - from as int);
    }
    i - from
}

/// Compare the tail of `s` from `from`, folded to lower case, against a
/// word given by its character codes.
fn tail_lower_is(s: &str, from: usize, n: usize, word: &str) -> (r: bool)
    requires
        n == s@.len(),
        from <= n,
    ensures
        r == (seq_lower(s@.subrange(from as int, n as int)) == word@),
{
    let m = word.unicode_len();
    if n - from != m {
        proof {
            assert(seq_lower(s@.subrange(from as int, n as int)).len() == n - from);
        }
        return false;
    }
    let mut i: usize = 0;
    while i < m
        invariant
            0 <= i <= m,
            n == s@.len(),
            from + m == n,
            m == word@.len(),
            forall|j: int|
                0 <= j < i ==> lower_char(#[trigger] s@[from + j]) == word@[j],
        decreases m - i,
    {
        let c = s.get_char(from + i);
        let w = word.get_char(i);
        let cv = c as u32;
        let lv = if 65 <= cv && cv <= 90 {
            cv + 32
        } else {
            cv
        };
        if lv != w as u32 {
            proof {
                assert(lower_char(s@[from + i as int]) != word@[i as int]);
                assert(seq_lower(s@.subrange(from as int, n as int))[i as int] == lower_char(
                    s@[from + i as int],
                ));
            }
            return false;
        }
        proof {
            assert(lower_char(s@[from + i as int]) == word@[i as int]);
        }
        i = i + 1;
    }
    proof {
        assert(seq_lower(s@.subrange(from as int, n as int)) =~= word@) by {
            assert forall|j: int|
                0 <= j < m implies seq_lower(s@.subrange(from as int, n as int))[j]
                == word@[j] by {
                assert(s@.subrange(from as int, n as int)[j] == s@[from + j]);
            }
        }
    }
    true
}

/// Whether a cell's text parses as a number under Rust's standard float
/// grammar: an optional sign, then "inf", "infinity" or "nan" in any
/// letter case, or digits with an optional point and exponent.
pub fn is_numeric_text(s: &str) -> (r: bool)
    ensures
        r == spec_numeric_text(s@),
{
    let n = s.unicode_len();
    let k: usize = if n > 0 {
        let c0 = s.get_char(0);
        if c0 == '+' || c0 == '-' {
            1
        } else {
            0
        }
    } else {
        0
    };
    let ghost b = s@.subrange(k as int, n as int);
    if tail_lower_is(s, k, n, "inf") || tail_lower_is(s, k, n, "infinity") || tail_lower_is(
        s,
        k,
        n,
        "nan",
    ) {
        return true;
    }
    // A number body, checked positionally against the digit spans.
    let d1 = digit_run(s, k, n);
    proof {
        assert(b == s@.subrange(k as int, s@.len() as int));
        lemma_span_shift_one(s@, k as int, k as int);
        assert(digits_span(b, 0) == d1);
    }
    let frac = k + d1 < n && {
        let c = s.get_char(k + d1);
        c == '.'
    };
    let d2: usize = if frac {
        let r2 = digit_run(s, k + d1 + 1, n);
        proof {
            assert(b == s@.subrange(k as int, s@.len() as int));
            lemma_span_shift_one(s@, k as int, k as int + d1 as int + 1);
            assert(digits_span(b, d1 as int + 1) == r2);
        }
        r2
    } else {
        0
    };
    let mant_end = if frac {
        k + d1 + 1 + d2
    } else {
        k + d1
    };
    if d1 == 0 && d2 == 0 {
        return false;
    }
    if mant_end == n {
        return true;
    }
    let ce = s.get_char(mant_end);
    if !(ce == 'e' || ce == 'E') {
        return false;
    }
    let es: usize = if mant_end + 1 < n {
        let cs = s.get_char(mant_end + 1);
        if cs == '+' || cs == '-' {
            mant_end + 2
        } else {
            mant_end + 1
        }
    } else {
        mant_end + 1
    };
    if es > n {
        return false;
    }
    let d3 = digit_run(s, es, n);
    proof {
        assert(b == s@.subrange(k as int, s@.len() as int));
        lemma_span_shift_one(s@, k as int, es as int);
        assert(digits_span(b, es as int - k as int) == d3);
    }
    d3 > 0 && es + d3 == n
}

/// A digit run within the unsigned tail equals the run at the shifted
/// position of the full text.
proof fn lemma_span_shift_one(s: Seq<char>, k: int, from: int)
    requires
        0 <= k <= from <= s.len(),
    ensures
        digits_span(s.subrange(k, s.len() as int), from - k) == digits_span(s, from),
    decreases s.len() - from,
{
    let b = s.subrange(k, s.len() as int);
    if from < s.len() && is_digit_char(s[from]) {
        assert(b[from - k] == s[from]);
        lemma_span_shift_one(s, k, from + 1);
    } else {
        if from < s.len() {
            assert(b[from - k] == s[from]);
        }
    }
}


// ===========================================================================
// Aggregating a rectangular range. The range is walked line by line — a
// line is a row in row mode, a column in column mode — and every
// non-empty numeric cell text is gathered per line. What remains outside
// these walls is only the floating-point fold itself, which the caller
// performs on the gathered texts; which texts are folded, the counts,
// and every failure are decided here.
// ===========================================================================
/// The cell at line `i`, position `j` of a range anchored at
/// (`sc`, `sr`): lines run down rows in row mode and across columns in
/// column mode.
pub open spec fn range_key(mode: Mode, sc: u32, sr: u32, i: int, j: int) -> (u32, u32) {
    match mode {
        Mode::Row => (((sc + j) as u32), ((sr + i) as u32)),
        Mode::Column => (((sc + i) as u32), ((sr + j) as u32)),
    }
}

/// The texts of the numeric cells among the first `upto` positions of
/// line `i`, in position order. A cell is numeric when it exists, its
/// text is non-empty, and the text parses as a number.
pub open spec fn numeric_texts_upto(
    cells: Map<(u32, u32), Seq<char>>,
    mode: Mode,
    sc: u32,
    sr: u32,
    i: int,
    upto: int,
) -> Seq<Seq<char>>
    decreases upto,
{
    if upto <= 0 {
        Seq::empty()
    } else {
        let prev = numeric_texts_upto(cells, mode, sc, sr, i, upto - 1);
        let key = range_key(mode, sc, sr, i, upto - 1);
        if cells.dom().contains(key) && cells[key].len() > 0 && spec_numeric_text(cells[key]) {
            prev.push(cells[key])
        } else {
            prev
        }
    }
}

/// Whether the rectangle holds a non-empty cell whose text is not a
/// number.
pub open spec fn has_non_numeric_cell(
    cells: Map<(u32, u32), Seq<char>>,
    sc: u32,
    sr: u32,
    ec: u32,
    er: u32,
) -> bool {
    exists|k: (u32, u32)|
        #[trigger] cells.dom().contains(k) && sc <= k.0 <= ec && sr <= k.1 <= er && cells[k].len()
            > 0 && !spec_numeric_text(cells[k])
}

/// How many lines the rectangle has along the chosen axis.
pub open spec fn agg_lines_count(mode: Mode, sc: u32, sr: u32, ec: u32, er: u32) -> int {
    match mode {
        Mode::Row => er - sr + 1,
        Mode::Column => ec - sc + 1,
    }
}

/// How many positions each line has.
pub open spec fn agg_width(mode: Mode, sc: u32, sr: u32, ec: u32, er: u32) -> int {
    match mode {
        Mode::Row => ec - sc + 1,
        Mode::Column => er - sr + 1,
    }
}

/// The numeric cell texts of line `i` of the rectangle, in order.
pub open spec fn agg_line(
    cells: Map<(u32, u32), Seq<char>>,
    mode: Mode,
    sc: u32,
    sr: u32,
    ec: u32,
    er: u32,
    i: int,
) -> Seq<Seq<char>> {
    numeric_texts_upto(cells, mode, sc, sr, i, agg_width(mode, sc, sr, ec, er))
}

/// Whether no line of the rectangle holds a numeric cell.
pub open spec fn agg_all_lines_empty(
    cells: Map<(u32, u32), Seq<char>>,
    mode: Mode,
    sc: u32,
    sr: u32,
    ec: u32,
    er: u32,
) -> bool {
    forall|i: int|
        0 <= i < agg_lines_count(mode, sc, sr, ec, er) ==> #[trigger] agg_line(
            cells,
            mode,
            sc,
            sr,
            ec,
            er,
            i,
        ).len() == 0
}

/// What remains to be folded after a range is aggregated: finished counts,
/// the per-line numeric texts of a sum, or those texts beside each line's
/// divisor for an average.
#[derive(Debug)]
pub enum AggregatePlan {
    Counts(Vec<String>),
    Sums(Vec<Vec<String>>),
    Averages(Vec<Vec<String>>, Vec<u32>),
}

/// Aggregate a rectangular range of a sheet: gather each line's numeric
/// cell texts and decide the whole outcome. With `strict_parse` set, any
/// non-empty cell that is not a number fails the operation with
/// `NonNumericCell`, and an average divides by the full line width;
/// without it such cells are skipped, an average divides by each line's
/// numeric count, and an average over lines holding no numeric cell at
/// all fails with `DivisionByZero`. A reversed rectangle fails with
/// `InvalidReference`; a missing sheet with `SheetNotFound`.
#[verifier::loop_isolation(false)]
#[verifier::rlimit(60)]
pub fn aggregate_range(
    source: &Workbook,
    sheet_name: &str,
    start_row: u32,
    start_col: u32,
    end_row: u32,
    end_col: u32,
    action: Action,
    mode: Mode,
    strict_parse: bool,
) -> (r: Result<AggregatePlan, ExcelError>)
    requires
        wb_loaded(*source),
        start_col >= 1,
        start_row >= 1,
    ensures
        !spec_has_sheet(*source, sheet_name@) ==> r == Err::<AggregatePlan, ExcelError>(
            ExcelError::SheetNotFound,
        ),
        spec_has_sheet(*source, sheet_name@) && (start_row > end_row || start_col > end_col) ==> r
            == Err::<AggregatePlan, ExcelError>(ExcelError::InvalidReference),
        spec_has_sheet(*source, sheet_name@) && !(start_row > end_row || start_col > end_col)
            ==> ({
            let cells = spec_sheet_cells(*source, sheet_name@);
            let lcount = agg_lines_count(mode, start_col, start_row, end_col, end_row);
            let width = agg_width(mode, start_col, start_row, end_col, end_row);
            let bad = strict_parse && has_non_numeric_cell(
                cells,
                start_col,
                start_row,
                end_col,
                end_row,
            );
            let avg_zero = action == Action::Average && !strict_parse && agg_all_lines_empty(
                cells,
                mode,
                start_col,
                start_row,
                end_col,
                end_row,
            );
            &&& (bad ==> r == Err::<AggregatePlan, ExcelError>(ExcelError::NonNumericCell))
            &&& (!bad && avg_zero ==> r == Err::<AggregatePlan, ExcelError>(
                ExcelError::DivisionByZero,
            ))
            &&& (!bad && !avg_zero ==> match r {
                Ok(AggregatePlan::Counts(v)) => action == Action::Count && v.len() == lcount && (
                forall|i: int|
                    0 <= i < lcount ==> (#[trigger] v@[i])@ == dec_string_of(
                        if strict_parse {
                            width
                        } else {
                            agg_line(cells, mode, start_col, start_row, end_col, end_row, i).len() as int
                        },
                    )),
                Ok(AggregatePlan::Sums(v)) => action == Action::Sum && v.deep_view().len()
                    == lcount && (forall|i: int|
                    0 <= i < lcount ==> #[trigger] v.deep_view()[i] == agg_line(
                        cells,
                        mode,
                        start_col,
                        start_row,
                        end_col,
                        end_row,
                        i,
                    )),
                Ok(AggregatePlan::Averages(v, d)) => action == Action::Average
                    && v.deep_view().len() == lcount && d.len() == lcount && (forall|i: int|
                    0 <= i < lcount ==> #[trigger] v.deep_view()[i] == agg_line(
                        cells,
                        mode,
                        start_col,
                        start_row,
                        end_col,
                        end_row,
                        i,
                    )) && (forall|i: int|
                    0 <= i < lcount ==> (#[trigger] d@[i]) as int == (if strict_parse {
                        width
                    } else {
                        agg_line(cells, mode, start_col, start_row, end_col, end_row, i).len() as int
                    })),
                _ => false,
            })
        }),
{
    if !wb_has_sheet(source, sheet_name) {
        return Err(ExcelError::SheetNotFound);
    }
    if start_row > end_row || start_col > end_col {
        return Err(ExcelError::InvalidReference);
    }
    let ghost cells = spec_sheet_cells(*source, sheet_name@);
    let lcount: u64 = match mode {
        Mode::Row => end_row as u64 - start_row as u64 + 1,
        Mode::Column => end_col as u64 - start_col as u64 + 1,
    };
    let width: u64 = match mode {
        Mode::Row => end_col as u64 - start_col as u64 + 1,
        Mode::Column => end_row as u64 - start_row as u64 + 1,
    };
    let mut lines: Vec<Vec<String>> = Vec::new();
    let mut any_numeric = false;
    let mut i: u64 = 0;
    while i < lcount
        invariant
            0 <= i <= lcount,
            lines.len() == i,
            forall|li: int|
                0 <= li < i ==> #[trigger] lines.deep_view()[li] == numeric_texts_upto(
                    cells,
                    mode,
                    start_col,
                    start_row,
                    li,
                    width as int,
                ),
            any_numeric == (exists|li: int|
                0 <= li < i && numeric_texts_upto(
                    cells,
                    mode,
                    start_col,
                    start_row,
                    li,
                    width as int,
                ).len() > 0),
            strict_parse ==> forall|k: (u32, u32)|
                #[trigger] cells.dom().contains(k) && start_col <= k.0 <= end_col && start_row
                    <= k.1 <= end_row && in_scanned_lines(mode, start_col, start_row, k, i as int)
                    ==> !(cells[k].len() > 0 && !spec_numeric_text(cells[k])),
        decreases lcount - i,
    {
        let mut cur: Vec<String> = Vec::new();
        let mut j: u64 = 0;
        while j < width
            invariant
                0 <= j <= width,
                0 <= i < lcount,
                cur.len() <= j,
                cur.deep_view() == numeric_texts_upto(
                    cells,
                    mode,
                    start_col,
                    start_row,
                    i as int,
                    j as int,
                ),
                strict_parse ==> forall|jj: int|
                    0 <= jj < j ==> !(cells.dom().contains(
                        #[trigger] range_key(mode, start_col, start_row, i as int, jj),
                    ) && cells[range_key(mode, start_col, start_row, i as int, jj)].len() > 0
                        && !spec_numeric_text(
                        cells[range_key(mode, start_col, start_row, i as int, jj)],
                    )),
            decreases width - j,
        {
            let (col, row) = match mode {
                Mode::Row => ((start_col as u64 + j) as u32, (start_row as u64 + i) as u32),
                Mode::Column => ((start_col as u64 + i) as u32, (start_row as u64 + j) as u32),
            };
            proof {
                assert((col, row) == range_key(mode, start_col, start_row, i as int, j as int));
            }
            let ghost dv_before = cur.deep_view();
            match wb_cell_text(source, sheet_name, col, row) {
                Some(t) => {
                    if t.unicode_len() > 0 {
                        if is_numeric_text(t.as_str()) {
                            let ghost tv = t@;
                            cur.push(t);
                            proof {
                                assert(cur.deep_view() =~= dv_before.push(tv));
                            }
                        } else if strict_parse {
                            proof {
                                assert(cells.dom().contains((col, row)) && cells[(col, row)].len()
                                    > 0 && !spec_numeric_text(cells[(col, row)]));
                                assert(has_non_numeric_cell(
                                    cells,
                                    start_col,
                                    start_row,
                                    end_col,
                                    end_row,
                                ));
                            }
                            return Err(ExcelError::NonNumericCell);
                        }
                    }
                },
                None => {},
            }
            j = j + 1;
        }
        let ghost dv = lines.deep_view();
        if cur.len() > 0 {
            any_numeric = true;
        }
        let ghost curdv = cur.deep_view();
        lines.push(cur);
        proof {
            assert(lines.deep_view() =~= dv.push(curdv));
            assert(curdv.len() == 0 ==> !(numeric_texts_upto(
                cells,
                mode,
                start_col,
                start_row,
                i as int,
                width as int,
            ).len() > 0));
        }
        i = i + 1;
        proof {
            if strict_parse {
                assert forall|k: (u32, u32)|
                    #[trigger] cells.dom().contains(k) && start_col <= k.0 <= end_col && start_row
                        <= k.1 <= end_row && in_scanned_lines(
                        mode,
                        start_col,
                        start_row,
                        k,
                        i as int,
                    ) implies !(cells[k].len() > 0 && !spec_numeric_text(cells[k])) by {
                    if !in_scanned_lines(mode, start_col, start_row, k, i as int - 1) {
                        let jj: int = match mode {
                            Mode::Row => k.0 - start_col,
                            Mode::Column => k.1 - start_row,
                        };
                        assert(k == range_key(mode, start_col, start_row, i as int - 1, jj));
                    }
                }
            }
        }
    }
    proof {
        if strict_parse {
            assert(!has_non_numeric_cell(cells, start_col, start_row, end_col, end_row)) by {
                if has_non_numeric_cell(cells, start_col, start_row, end_col, end_row) {
                    let k = choose|k: (u32, u32)|
                        #[trigger] cells.dom().contains(k) && start_col <= k.0 <= end_col
                            && start_row <= k.1 <= end_row && cells[k].len() > 0
                            && !spec_numeric_text(cells[k]);
                    assert(in_scanned_lines(mode, start_col, start_row, k, lcount as int));
                }
            }
        }
    }
    proof {
        assert(lines.deep_view().len() == lcount as int);
    }
    match action {
        Action::Sum => Ok(AggregatePlan::Sums(lines)),
        Action::Count => {
            let mut counts: Vec<String> = Vec::new();
            let n = lines.len();
            let mut li: usize = 0;
            while li < n
                invariant
                    0 <= li <= n,
                    n == lines.len(),
                    n == lcount,
                    width <= u32::MAX,
                    counts.len() == li,
                    forall|x: int|
                        0 <= x < n ==> #[trigger] lines.deep_view()[x] == numeric_texts_upto(
                            cells,
                            mode,
                            start_col,
                            start_row,
                            x,
                            width as int,
                        ),
                    forall|x: int|
                        0 <= x < li ==> (#[trigger] counts@[x])@ == dec_string_of(
                            if strict_parse {
                                width as int
                            } else {
                                numeric_texts_upto(
                                    cells,
                                    mode,
                                    start_col,
                                    start_row,
                                    x,
                                    width as int,
                                ).len() as int
                            },
                        ),
                decreases n - li,
            {
                let c: u32 = if strict_parse {
                    width as u32
                } else {
                    proof {
                        assert(lines.deep_view()[li as int].len() == lines@[li as int]@.len());
                        lemma_numeric_texts_len(
                            cells,
                            mode,
                            start_col,
                            start_row,
                            li as int,
                            width as int,
                        );
                    }
                    lines[li].len() as u32
                };
                counts.push(u32_to_dec_string(c));
                li = li + 1;
            }
            Ok(AggregatePlan::Counts(counts))
        },
        Action::Average => {
            if !strict_parse && !any_numeric {
                proof {
                    assert forall|x: int|
                        0 <= x < agg_lines_count(
                            mode,
                            start_col,
                            start_row,
                            end_col,
                            end_row,
                        ) implies #[trigger] agg_line(
                        cells,
                        mode,
                        start_col,
                        start_row,
                        end_col,
                        end_row,
                        x,
                    ).len() == 0 by {
                        if numeric_texts_upto(cells, mode, start_col, start_row, x, width as int).len() > 0 {
                            assert(exists|li: int|
                                0 <= li < lcount && numeric_texts_upto(
                                    cells,
                                    mode,
                                    start_col,
                                    start_row,
                                    li,
                                    width as int,
                                ).len() > 0);
                        }
                    }
                    assert(agg_all_lines_empty(cells, mode, start_col, start_row, end_col, end_row));
                }
                return Err(ExcelError::DivisionByZero);
            }
            proof {
                if !strict_parse {
                    let li = choose|li: int|
                        0 <= li < lcount && numeric_texts_upto(
                            cells,
                            mode,
                            start_col,
                            start_row,
                            li,
                            width as int,
                        ).len() > 0;
                    assert(agg_line(cells, mode, start_col, start_row, end_col, end_row, li).len()
                        != 0);
                    assert(!agg_all_lines_empty(
                        cells,
                        mode,
                        start_col,
                        start_row,
                        end_col,
                        end_row,
                    ));
                }
            }
            let mut divs: Vec<u32> = Vec::new();
            let n = lines.len();
            let mut li: usize = 0;
            while li < n
                invariant
                    0 <= li <= n,
                    n == lines.len(),
                    n == lcount,
                    width <= u32::MAX,
                    divs.len() == li,
                    forall|x: int|
                        0 <= x < n ==> #[trigger] lines.deep_view()[x] == numeric_texts_upto(
                            cells,
                            mode,
                            start_col,
                            start_row,
                            x,
                            width as int,
                        ),
                    forall|x: int|
                        0 <= x < li ==> (#[trigger] divs@[x]) as int == (if strict_parse {
                            width as int
                        } else {
                            numeric_texts_upto(
                                cells,
                                mode,
                                start_col,
                                start_row,
                                x,
                                width as int,
                            ).len() as int
                        }),
                decreases n - li,
            {
                let c: u32 = if strict_parse {
                    width as u32
                } else {
                    proof {
                        assert(lines.deep_view()[li as int].len() == lines@[li as int]@.len());
                        lemma_numeric_texts_len(
                            cells,
                            mode,
                            start_col,
                            start_row,
                            li as int,
                            width as int,
                        );
                    }
                    lines[li].len() as u32
                };
                divs.push(c);
                li = li + 1;
            }
            Ok(AggregatePlan::Averages(lines, divs))
        },
    }
}

/// Whether a rectangle cell lies on one of the first `i` lines.
pub open spec fn in_scanned_lines(mode: Mode, sc: u32, sr: u32, k: (u32, u32), i: int) -> bool {
    match mode {
        Mode::Row => k.1 < sr + i,
        Mode::Column => k.0 < sc + i,
    }
}

/// A line gathers at most as many texts as it has positions.
proof fn lemma_numeric_texts_len(
    cells: Map<(u32, u32), Seq<char>>,
    mode: Mode,
    sc: u32,
    sr: u32,
    i: int,
    upto: int,
)
    ensures
        numeric_texts_upto(cells, mode, sc, sr, i, upto).len() <= if upto >= 0 {
            upto
        } else {
            0
        },
    decreases upto,
{
    if upto > 0 {
        lemma_numeric_texts_len(cells, mode, sc, sr, i, upto - 1);
    }
}


/// Law: over a line whose cells all hold numeric text, the gathered
/// texts are exactly the line's cells in order — so a count equals the
/// line's width, and a sum or average folds every cell of the line.
pub proof fn lemma_full_numeric_line(
    cells: Map<(u32, u32), Seq<char>>,
    mode: Mode,
    sc: u32,
    sr: u32,
    i: int,
    upto: int,
)
    requires
        forall|j: int|
            0 <= j < upto ==> cells.dom().contains(#[trigger] range_key(mode, sc, sr, i, j))
                && cells[range_key(mode, sc, sr, i, j)].len() > 0 && spec_numeric_text(
                cells[range_key(mode, sc, sr, i, j)],
            ),
    ensures
        numeric_texts_upto(cells, mode, sc, sr, i, upto).len() == if upto >= 0 {
            upto
        } else {
            0
        },
        forall|j: int|
            0 <= j < upto ==> #[trigger] numeric_texts_upto(cells, mode, sc, sr, i, upto)[j]
                == cells[range_key(mode, sc, sr, i, j)],
    decreases upto,
{
    if upto > 0 {
        lemma_full_numeric_line(cells, mode, sc, sr, i, upto - 1);
    }
}

// ===========================================================================
// Pasting a sequence of results into a sheet.
// ===========================================================================
/// The sheet cells after the first `upto` result values are pasted at the
/// anchor: one cell per value, advancing down rows in row mode and across
/// columns in column mode.
pub open spec fn paste_model(
    cells: Map<(u32, u32), Seq<char>>,
    vals: Seq<Seq<char>>,
    start_col: u32,
    start_row: u32,
    mode: Mode,
    upto: int,
) -> Map<(u32, u32), Seq<char>>
    decreases upto,
{
    if upto <= 0 {
        cells
    } else {
        let prev = paste_model(cells, vals, start_col, start_row, mode, upto - 1);
        let key = match mode {
            Mode::Row => (start_col, (start_row + upto - 1) as u32),
            Mode::Column => ((start_col + upto - 1) as u32, start_row),
        };
        prev.insert(key, stored_cell_text(vals[upto - 1]))
    }
}

/// Paste a sequence of values into a sheet, one cell per value, starting
/// at the anchor and advancing down rows in row mode, across columns in
/// column mode. A missing sheet fails with `SheetNotFound`; a paste that
/// would leave the representable grid fails with `InvalidReference`
/// before anything changes.
#[verifier::loop_isolation(false)]
pub fn paste_vector_to_sheet(
    values: Vec<String>,
    wb: &mut Workbook,
    sheet_name: &str,
    start_row: u32,
    start_col: u32,
    mode: Mode,
) -> (r: Result<(), ExcelError>)
    requires
        wb_loaded(*old(wb)),
        start_col >= 1,
        start_row >= 1,
    ensures
        wb_loaded(*final(wb)),
        wb_sheet_names(*final(wb)) == wb_sheet_names(*old(wb)),
        forall|n2: Seq<char>|
            n2 != sheet_name@ ==> spec_sheet_cells(*final(wb), n2) == spec_sheet_cells(
                *old(wb),
                n2,
            ),
        ({
            let cells0 = spec_sheet_cells(*old(wb), sheet_name@);
            let axis: int = match mode {
                Mode::Row => start_row as int,
                Mode::Column => start_col as int,
            };
            if !spec_has_sheet(*old(wb), sheet_name@) {
                r == Err::<(), ExcelError>(ExcelError::SheetNotFound) && spec_sheet_cells(
                    *final(wb),
                    sheet_name@,
                ) == cells0
            } else if values.len() > 0 && axis + values.len() - 1 > u32::MAX {
                r == Err::<(), ExcelError>(ExcelError::InvalidReference) && spec_sheet_cells(
                    *final(wb),
                    sheet_name@,
                ) == cells0
            } else {
                r == Ok::<(), ExcelError>(()) && spec_sheet_cells(*final(wb), sheet_name@)
                    == paste_model(
                    cells0,
                    values.deep_view(),
                    start_col,
                    start_row,
                    mode,
                    values.len() as int,
                )
            }
        }),
{
    if !wb_has_sheet(wb, sheet_name) {
        return Err(ExcelError::SheetNotFound);
    }
    let ghost cells0 = spec_sheet_cells(*old(wb), sheet_name@);
    let n = values.len();
    let axis: u64 = match mode {
        Mode::Row => start_row as u64,
        Mode::Column => start_col as u64,
    };
    if n > 0 && n as u64 - 1 > u32::MAX as u64 - axis {
        proof {
            assert(axis + n - 1 > u32::MAX);
        }
        return Err(ExcelError::InvalidReference);
    }
    let mut i: usize = 0;
    while i < n
        invariant
            0 <= i <= n,
            n == values.len(),
            n > 0 ==> axis + n - 1 <= u32::MAX,
            wb_loaded(*wb),
            wb_sheet_names(*wb) == wb_sheet_names(*old(wb)),
            spec_has_sheet(*wb, sheet_name@),
            forall|n2: Seq<char>|
                n2 != sheet_name@ ==> spec_sheet_cells(*wb, n2) == spec_sheet_cells(*old(wb), n2),
            spec_sheet_cells(*wb, sheet_name@) == paste_model(
                cells0,
                values.deep_view(),
                start_col,
                start_row,
                mode,
                i as int,
            ),
        decreases n - i,
    {
        let (col, row) = match mode {
            Mode::Row => (start_col, (start_row as u64 + i as u64) as u32),
            Mode::Column => ((start_col as u64 + i as u64) as u32, start_row),
        };
        let found = wb_set_cell(wb, sheet_name, col, row, values[i].as_str());
        proof {
            assert(found);
            assert(values.deep_view()[i as int] == values@[i as int]@);
        }
        i = i + 1;
    }
    Ok(())
}

} // verus!
