use vstd::arithmetic::div_mod::{lemma_fundamental_div_mod, lemma_fundamental_div_mod_converse};
use vstd::prelude::*;

verus! {

// ===========================================================================
// Column letters: base-26 encoding with digits 'A'..'Z' standing for 1..26.
// ===========================================================================
/// One-based value of an upper-case column letter: 'A' is 1, 'Z' is 26.
pub open spec fn letter_index(c: char) -> int {
    c as int - 64
}

/// A character that may appear in a column reference.
pub open spec fn is_col_letter(c: char) -> bool {
    65 <= c as int <= 90
}

/// The column letter standing for digit `d` of the base-26 encoding,
/// where `d` ranges over 0..26: 0 is 'A', 25 is 'Z'.
pub open spec fn letter_of(d: int) -> char
    recommends
        0 <= d < 26,
{
    ((65 + d) as u8) as char
}

/// A non-empty string of upper-case letters.
pub open spec fn valid_col_letters(s: Seq<char>) -> bool {
    s.len() >= 1 && forall|i: int| 0 <= i < s.len() ==> is_col_letter(#[trigger] s[i])
}

/// Numeric value of a column letter string: each letter is a base-26 digit
/// with value 1..26, so "A" is 1, "Z" is 26, "AA" is 27.
pub open spec fn col_index_of(s: Seq<char>) -> int
    decreases s.len(),
{
    if s.len() == 0 {
        0
    } else {
        col_index_of(s.drop_last()) * 26 + letter_index(s.last())
    }
}

/// Letter string of a positive column number: the inverse of `col_index_of`,
/// peeling `(n - 1) % 26` as the rightmost letter.
pub open spec fn col_letters_of(n: int) -> Seq<char>
    decreases n,
{
    if n <= 0 {
        Seq::empty()
    } else {
        col_letters_of((n - 1) / 26).push(letter_of((n - 1) % 26))
    }
}

// ===========================================================================
// Decimal digits for row numbers.
// ===========================================================================
/// A decimal digit character.
pub open spec fn is_digit_char(c: char) -> bool {
    48 <= c as int <= 57
}

/// Value of a decimal digit character.
pub open spec fn digit_val(c: char) -> int {
    c as int - 48
}

/// The character standing for decimal digit `d`, with `d` in 0..10.
pub open spec fn digit_of(d: int) -> char
    recommends
        0 <= d < 10,
{
    ((48 + d) as u8) as char
}

/// A non-empty string of decimal digits.
pub open spec fn all_digits(s: Seq<char>) -> bool {
    s.len() >= 1 && forall|i: int| 0 <= i < s.len() ==> is_digit_char(#[trigger] s[i])
}

/// Numeric value of a digit string, most significant digit first.
pub open spec fn dec_val(s: Seq<char>) -> int
    decreases s.len(),
{
    if s.len() == 0 {
        0
    } else {
        dec_val(s.drop_last()) * 10 + digit_val(s.last())
    }
}

/// Digit string of a positive number, without leading zeros; empty for 0.
pub open spec fn dec_digits_of(n: int) -> Seq<char>
    decreases n,
{
    if n <= 0 {
        Seq::empty()
    } else {
        dec_digits_of(n / 10).push(digit_of(n % 10))
    }
}

/// Canonical decimal rendering of a non-negative number: "0" for 0,
/// otherwise the digits without leading zeros.
pub open spec fn dec_string_of(n: int) -> Seq<char> {
    if n == 0 {
        seq![digit_of(0)]
    } else {
        dec_digits_of(n)
    }
}

// ===========================================================================
// Single-character building blocks.
// ===========================================================================
/// The one-letter string standing for base-26 digit `d` (0 is "A").
pub fn letter_str(d: u32) -> (r: &'static str)
    requires
        d < 26,
    ensures
        r@ == seq![letter_of(d as int)],
{
    let r = match d {
        0 => "A",
        1 => "B",
        2 => "C",
        3 => "D",
        4 => "E",
        5 => "F",
        6 => "G",
        7 => "H",
        8 => "I",
        9 => "J",
        10 => "K",
        11 => "L",
        12 => "M",
        13 => "N",
        14 => "O",
        15 => "P",
        16 => "Q",
        17 => "R",
        18 => "S",
        19 => "T",
        20 => "U",
        21 => "V",
        22 => "W",
        23 => "X",
        24 => "Y",
        _ => "Z",
    };
    proof {
        reveal_strlit("A");
        reveal_strlit("B");
        reveal_strlit("C");
        reveal_strlit("D");
        reveal_strlit("E");
        reveal_strlit("F");
        reveal_strlit("G");
        reveal_strlit("H");
        reveal_strlit("I");
        reveal_strlit("J");
        reveal_strlit("K");
        reveal_strlit("L");
        reveal_strlit("M");
        reveal_strlit("N");
        reveal_strlit("O");
        reveal_strlit("P");
        reveal_strlit("Q");
        reveal_strlit("R");
        reveal_strlit("S");
        reveal_strlit("T");
        reveal_strlit("U");
        reveal_strlit("V");
        reveal_strlit("W");
        reveal_strlit("X");
        reveal_strlit("Y");
        reveal_strlit("Z");
        assert(r@ =~= seq![letter_of(d as int)]);
    }
    r
}

/// The one-character string standing for decimal digit `d`.
pub fn digit_str(d: u32) -> (r: &'static str)
    requires
        d < 10,
    ensures
        r@ == seq![digit_of(d as int)],
{
    let r = match d {
        0 => "0",
        1 => "1",
        2 => "2",
        3 => "3",
        4 => "4",
        5 => "5",
        6 => "6",
        7 => "7",
        8 => "8",
        _ => "9",
    };
    proof {
        reveal_strlit("0");
        reveal_strlit("1");
        reveal_strlit("2");
        reveal_strlit("3");
        reveal_strlit("4");
        reveal_strlit("5");
        reveal_strlit("6");
        reveal_strlit("7");
        reveal_strlit("8");
        reveal_strlit("9");
        assert(r@ =~= seq![digit_of(d as int)]);
    }
    r
}

// ===========================================================================
// Rendering: numbers to strings.
// ===========================================================================
/// Letter string of a positive column number: 1 is "A", 26 is "Z", 27 is "AA".
pub fn index_to_excel_col(col: u32) -> (r: String)
    requires
        col >= 1,
    ensures
        r@ == col_letters_of(col as int),
    decreases col,
{
    let d = (col - 1) % 26;
    let q = (col - 1) / 26;
    proof {
        assert(col_letters_of(0) =~= Seq::<char>::empty());
        assert(col_letters_of(col as int) == col_letters_of((col - 1) as int / 26).push(
            letter_of((col - 1) as int % 26),
        ));
    }
    if q == 0 {
        let mut s = String::new();
        s.append(letter_str(d));
        proof {
            assert(s@ =~= col_letters_of(col as int));
        }
        s
    } else {
        let mut s = index_to_excel_col(q);
        s.append(letter_str(d));
        proof {
            assert(s@ =~= col_letters_of(col as int));
        }
        s
    }
}

/// Canonical decimal rendering of `n`.
pub fn u32_to_dec_string(n: u32) -> (r: String)
    ensures
        r@ == dec_string_of(n as int),
    decreases n,
{
    if n == 0 {
        let mut s = String::new();
        s.append(digit_str(0));
        proof {
            assert(s@ =~= dec_string_of(0));
        }
        s
    } else {
        let d = n % 10;
        let q = n / 10;
        if q == 0 {
            let mut s = String::new();
            s.append(digit_str(d));
            proof {
                assert(dec_digits_of(q as int) =~= Seq::<char>::empty());
                assert(s@ =~= dec_string_of(n as int));
            }
            s
        } else {
            let mut s = u32_to_dec_string(q);
            s.append(digit_str(d));
            proof {
                assert(s@ =~= dec_string_of(n as int));
            }
            s
        }
    }
}

// ===========================================================================
// Parsing: strings to numbers.
// ===========================================================================
/// `col_index_of` never shrinks when a string of letters is extended to the
/// right: the value of each prefix is at most the value of the whole.
pub proof fn lemma_col_index_prefix_le(s: Seq<char>, i: int)
    requires
        valid_col_letters(s),
        0 <= i <= s.len(),
    ensures
        0 <= col_index_of(s.subrange(0, i)) <= col_index_of(s),
    decreases s.len() - i,
{
    lemma_col_index_nonneg(s.subrange(0, i));
    if i < s.len() {
        lemma_col_index_nonneg(s.subrange(0, i + 1));
        assert(s.subrange(0, i + 1).drop_last() =~= s.subrange(0, i));
        assert(is_col_letter(s.subrange(0, i + 1).last()));
        lemma_col_index_prefix_le(s, i + 1);
    } else {
        assert(s.subrange(0, i) =~= s);
    }
}

/// The value of a letter string is non-negative, and positive when the
/// string is non-empty.
pub proof fn lemma_col_index_nonneg(s: Seq<char>)
    requires
        forall|i: int| 0 <= i < s.len() ==> is_col_letter(#[trigger] s[i]),
    ensures
        0 <= col_index_of(s),
        s.len() >= 1 ==> 1 <= col_index_of(s),
    decreases s.len(),
{
    if s.len() > 0 {
        lemma_col_index_nonneg(s.drop_last());
    }
}

/// Column letters to the one-based column number: "A" is 1, "AA" is 27.
/// The symbolic form must be well-formed and its value must fit.
pub fn excel_col_to_index(col: &str) -> (r: u32)
    requires
        valid_col_letters(col@),
        col_index_of(col@) <= u32::MAX,
    ensures
        r == col_index_of(col@),
        r >= 1,
{
    let n = col.unicode_len();
    let mut r: u32 = 0;
    let mut i: usize = 0;
    while i < n
        invariant
            valid_col_letters(col@),
            col_index_of(col@) <= u32::MAX,
            0 <= i <= n,
            n == col@.len(),
            r == col_index_of(col@.subrange(0, i as int)),
        decreases n - i,
    {
        let c = col.get_char(i);
        proof {
            lemma_col_index_prefix_le(col@, i + 1);
            lemma_col_index_nonneg(col@.subrange(0, i as int));
            assert(col@.subrange(0, i + 1).drop_last() =~= col@.subrange(0, i as int));
            assert(col@.subrange(0, i + 1).last() == c);
        }
        r = r * 26 + (c as u32 - 64);
        i = i + 1;
    }
    proof {
        assert(col@.subrange(0, n as int) =~= col@);
        lemma_col_index_nonneg(col@);
    }
    r
}

/// `dec_val` never shrinks when a digit string is extended to the right.
pub proof fn lemma_dec_val_prefix_le(s: Seq<char>, i: int)
    requires
        forall|j: int| 0 <= j < s.len() ==> is_digit_char(#[trigger] s[j]),
        0 <= i <= s.len(),
    ensures
        0 <= dec_val(s.subrange(0, i)) <= dec_val(s),
    decreases s.len() - i,
{
    lemma_dec_val_nonneg(s.subrange(0, i));
    if i < s.len() {
        lemma_dec_val_nonneg(s.subrange(0, i + 1));
        assert(s.subrange(0, i + 1).drop_last() =~= s.subrange(0, i));
        assert(is_digit_char(s.subrange(0, i + 1).last()));
        lemma_dec_val_prefix_le(s, i + 1);
    } else {
        assert(s.subrange(0, i) =~= s);
    }
}

/// The value of a digit string is non-negative.
pub proof fn lemma_dec_val_nonneg(s: Seq<char>)
    requires
        forall|j: int| 0 <= j < s.len() ==> is_digit_char(#[trigger] s[j]),
    ensures
        0 <= dec_val(s),
    decreases s.len(),
{
    if s.len() > 0 {
        lemma_dec_val_nonneg(s.drop_last());
    }
}

/// Parse a decimal digit string. Returns the value exactly when the text is
/// one or more digits and the value fits in a `u32`; `None` otherwise.
pub fn parse_u32(s: &str) -> (r: Option<u32>)
    ensures
        r is Some <==> all_digits(s@) && dec_val(s@) <= u32::MAX,
        r is Some ==> r->Some_0 == dec_val(s@),
{
    let n = s.unicode_len();
    if n == 0 {
        return None;
    }
    let mut r: u32 = 0;
    let mut i: usize = 0;
    while i < n
        invariant
            0 <= i <= n,
            n == s@.len(),
            n >= 1,
            forall|j: int| 0 <= j < i ==> is_digit_char(#[trigger] s@[j]),
            r == dec_val(s@.subrange(0, i as int)),
        decreases n - i,
    {
        let c = s.get_char(i);
        let cv = c as u32;
        if cv < 48 || cv > 57 {
            return None;
        }
        let d = cv - 48;
        proof {
            assert(s@.subrange(0, i + 1).drop_last() =~= s@.subrange(0, i as int));
            assert(s@.subrange(0, i + 1).last() == c);
        }
        if r > (u32::MAX - d) / 10 {
            // The value of this prefix already exceeds u32::MAX, and a longer
            // digit string can only be at least as large.
            proof {
                assert(dec_val(s@.subrange(0, i + 1)) > u32::MAX);
            }
            let ghost k: int = i + 1;
            proof {
                if all_digits(s@) && dec_val(s@) <= u32::MAX {
                    lemma_dec_val_prefix_le(s@, k);
                }
            }
            return None;
        }
        r = r * 10 + d;
        i = i + 1;
    }
    proof {
        assert(s@.subrange(0, n as int) =~= s@);
    }
    Some(r)
}

// ===========================================================================
// Cell references: leading letters followed by trailing digits, "B5".
// ===========================================================================
/// Length of the longest prefix of upper-case letters.
pub open spec fn letters_prefix_len(s: Seq<char>) -> int
    decreases s.len(),
{
    if s.len() == 0 || !is_col_letter(s[0]) {
        0
    } else {
        1 + letters_prefix_len(s.drop_first())
    }
}

/// A well-formed cell reference: one or more letters, then one or more
/// digits, nothing else.
pub open spec fn valid_cell_text(s: Seq<char>) -> bool {
    let k = letters_prefix_len(s);
    1 <= k < s.len() && all_digits(s.subrange(k, s.len() as int))
}

/// Column value of a well-formed cell reference.
pub open spec fn cell_col_of(s: Seq<char>) -> int {
    col_index_of(s.subrange(0, letters_prefix_len(s)))
}

/// Row value of a well-formed cell reference.
pub open spec fn cell_row_of(s: Seq<char>) -> int {
    dec_val(s.subrange(letters_prefix_len(s), s.len() as int))
}

proof fn lemma_letters_prefix_len_bounds(s: Seq<char>)
    ensures
        0 <= letters_prefix_len(s) <= s.len(),
        forall|i: int| 0 <= i < letters_prefix_len(s) ==> is_col_letter(#[trigger] s[i]),
        letters_prefix_len(s) < s.len() ==> !is_col_letter(s[letters_prefix_len(s)]),
    decreases s.len(),
{
    if s.len() > 0 && is_col_letter(s[0]) {
        lemma_letters_prefix_len_bounds(s.drop_first());
        assert forall|i: int| 0 <= i < letters_prefix_len(s) implies is_col_letter(
            #[trigger] s[i],
        ) by {
            if i > 0 {
                assert(s.drop_first()[i - 1] == s[i]);
            }
        }
        if letters_prefix_len(s) < s.len() {
            assert(s.drop_first()[letters_prefix_len(s) - 1] == s[letters_prefix_len(s)]);
        }
    }
}

/// Whether the character at position `k` is an upper-case column letter.
fn is_col_letter_at(s: &str, k: usize) -> (r: bool)
    requires
        k < s@.len(),
    ensures
        r == is_col_letter(s@[k as int]),
{
    let c = s.get_char(k);
    let cv = c as u32;
    65 <= cv && cv <= 90
}

/// Parse a cell reference such as "B5". Returns the one-based column and row
/// exactly when the text is well-formed and both values fit in a `u32`.
pub fn parse_cell_text(s: &str) -> (r: Option<(u32, u32)>)
    ensures
        r is Some <==> valid_cell_text(s@) && cell_col_of(s@) <= u32::MAX && cell_row_of(s@)
            <= u32::MAX,
        r is Some ==> r->Some_0.0 == cell_col_of(s@) && r->Some_0.1 == cell_row_of(s@) && r->Some_0.0 >= 1,
{
    proof {
        lemma_letters_prefix_len_bounds(s@);
    }
    let n = s.unicode_len();
    let mut k: usize = 0;
    while k < n && is_col_letter_at(s, k)
        invariant
            0 <= k <= n,
            n == s@.len(),
            forall|i: int| 0 <= i < k ==> is_col_letter(#[trigger] s@[i]),
        decreases n - k,
    {
        k = k + 1;
    }
    proof {
        if k < n {
            lemma_prefix_len_exact(s@, k as int);
        } else {
            lemma_prefix_len_exact_full(s@);
        }
        assert(k as int == letters_prefix_len(s@));
    }
    if k == 0 || k >= n {
        return None;
    }
    let letters = s.substring_char(0, k);
    let digits = s.substring_char(k, n);
    proof {
        assert(letters@ =~= s@.subrange(0, k as int));
        assert(digits@ =~= s@.subrange(k as int, n as int));
    }
    let row = match parse_u32(digits) {
        Some(v) => v,
        None => {
            return None;
        },
    };
    // The letter prefix is non-empty and all letters; its value must fit.
    let ghost lp = letters@;
    proof {
        assert(valid_col_letters(lp));
    }
    let mut col: u32 = 0;
    let mut i: usize = 0;
    let mut overflow = false;
    while i < k
        invariant
            0 <= i <= k,
            k == lp.len(),
            lp =~= letters@,
            valid_col_letters(lp),
            !overflow ==> col == col_index_of(lp.subrange(0, i as int)),
            overflow ==> col_index_of(lp) > u32::MAX,
        decreases k - i,
    {
        if !overflow {
            let c = letters.get_char(i);
            let d = c as u32 - 64;
            proof {
                assert(lp.subrange(0, i + 1).drop_last() =~= lp.subrange(0, i as int));
                assert(lp.subrange(0, i + 1).last() == c);
                lemma_col_index_nonneg(lp.subrange(0, i as int));
            }
            if col > (u32::MAX - d) / 26 {
                proof {
                    assert(col_index_of(lp.subrange(0, i + 1)) > u32::MAX);
                    lemma_col_index_prefix_le(lp, i + 1);
                }
                overflow = true;
            } else {
                col = col * 26 + d;
            }
        }
        i = i + 1;
    }
    if overflow {
        return None;
    }
    proof {
        assert(lp.subrange(0, k as int) =~= lp);
        lemma_col_index_nonneg(lp);
    }
    Some((col, row))
}

proof fn lemma_prefix_len_at_least(s: Seq<char>, k: int)
    requires
        0 <= k <= s.len(),
        forall|i: int| 0 <= i < k ==> is_col_letter(#[trigger] s[i]),
    ensures
        letters_prefix_len(s) >= k,
    decreases k,
{
    if k > 0 {
        assert(is_col_letter(s[0]));
        assert forall|i: int| 0 <= i < k - 1 implies is_col_letter(
            #[trigger] s.drop_first()[i],
        ) by {
            assert(s.drop_first()[i] == s[i + 1]);
        }
        lemma_prefix_len_at_least(s.drop_first(), k - 1);
        assert(letters_prefix_len(s) == 1 + letters_prefix_len(s.drop_first()));
    } else {
        lemma_letters_prefix_len_bounds(s);
    }
}

proof fn lemma_prefix_len_exact(s: Seq<char>, k: int)
    requires
        0 <= k < s.len(),
        forall|i: int| 0 <= i < k ==> is_col_letter(#[trigger] s[i]),
        !is_col_letter(s[k]),
    ensures
        letters_prefix_len(s) == k,
    decreases k,
{
    if k > 0 {
        assert forall|i: int| 0 <= i < k - 1 implies is_col_letter(
            #[trigger] s.drop_first()[i],
        ) by {
            assert(s.drop_first()[i] == s[i + 1]);
        }
        assert(s.drop_first()[k - 1] == s[k]);
        lemma_prefix_len_exact(s.drop_first(), k - 1);
    }
}

proof fn lemma_prefix_len_exact_full(s: Seq<char>)
    requires
        forall|i: int| 0 <= i < s.len() ==> is_col_letter(#[trigger] s[i]),
    ensures
        letters_prefix_len(s) == s.len(),
    decreases s.len(),
{
    if s.len() > 0 {
        assert forall|i: int| 0 <= i < s.drop_first().len() implies is_col_letter(
            #[trigger] s.drop_first()[i],
        ) by {
            assert(s.drop_first()[i] == s[i + 1]);
        }
        lemma_prefix_len_exact_full(s.drop_first());
    }
}

/// Parse a cell reference that is known to be well-formed and in range.
pub fn excel_to_index(cell: &str) -> (r: (u32, u32))
    requires
        valid_cell_text(cell@),
        cell_col_of(cell@) <= u32::MAX,
        cell_row_of(cell@) <= u32::MAX,
    ensures
        r.0 == cell_col_of(cell@),
        r.1 == cell_row_of(cell@),
        r.0 >= 1,
{
    match parse_cell_text(cell) {
        Some(v) => v,
        None => {
            proof {
                assert(false);
            }
            (1, 1)
        },
    }
}

/// As `excel_to_index`, with the pair given back as (row, column).
pub fn excel_to_tuple(cell: &str) -> (r: (u32, u32))
    requires
        valid_cell_text(cell@),
        cell_col_of(cell@) <= u32::MAX,
        cell_row_of(cell@) <= u32::MAX,
    ensures
        r.0 == cell_row_of(cell@),
        r.1 == cell_col_of(cell@),
{
    let (col, row) = excel_to_index(cell);
    (row, col)
}

/// The symbolic text of a cell: column letters then the row number.
pub open spec fn cell_text_of(col: int, row: int) -> Seq<char> {
    col_letters_of(col) + dec_string_of(row)
}

/// Render a (column, row) pair as a cell reference such as "B5".
pub fn index_to_excel(col: u32, row: u32) -> (r: String)
    requires
        col >= 1,
    ensures
        r@ == cell_text_of(col as int, row as int),
{
    let mut s = index_to_excel_col(col);
    let t = u32_to_dec_string(row);
    s.append(t.as_str());
    s
}

/// As `index_to_excel`, taking the pair as (row, column).
pub fn tuple_to_excel(row: u32, col: u32) -> (r: String)
    requires
        col >= 1,
    ensures
        r@ == cell_text_of(col as int, row as int),
{
    index_to_excel(col, row)
}

/// Cell reference of a coordinate whose column is a single letter: the
/// column must lie in 1..=26.
pub fn to_excel_coords(col: u32, row: u32) -> (r: String)
    requires
        1 <= col <= 26,
    ensures
        r@ == seq![letter_of(col - 1)] + dec_string_of(row as int),
{
    let mut s = String::new();
    s.append(letter_str(col - 1));
    let t = u32_to_dec_string(row);
    s.append(t.as_str());
    proof {
        assert(s@ =~= seq![letter_of(col - 1)] + dec_string_of(row as int));
    }
    s
}

// ===========================================================================
// Range references: two cell references joined by a colon, "A1:C3".
// ===========================================================================
/// Position of the first ':' in the string, or the length if there is none.
pub open spec fn colon_pos(s: Seq<char>) -> int
    decreases s.len(),
{
    if s.len() == 0 || s[0] == ':' {
        0
    } else {
        1 + colon_pos(s.drop_first())
    }
}

/// A well-formed range reference: two well-formed cell references joined by
/// a single ':'.
pub open spec fn valid_range_text(s: Seq<char>) -> bool {
    let j = colon_pos(s);
    j < s.len() && valid_cell_text(s.subrange(0, j)) && valid_cell_text(
        s.subrange(j + 1, s.len() as int),
    )
}

/// The cell text before the ':' of a range reference.
pub open spec fn range_start_text(s: Seq<char>) -> Seq<char> {
    s.subrange(0, colon_pos(s))
}

/// The cell text after the ':' of a range reference.
pub open spec fn range_end_text(s: Seq<char>) -> Seq<char> {
    s.subrange(colon_pos(s) + 1, s.len() as int)
}

proof fn lemma_colon_pos_bounds(s: Seq<char>)
    ensures
        0 <= colon_pos(s) <= s.len(),
        forall|i: int| 0 <= i < colon_pos(s) ==> #[trigger] s[i] != ':',
        colon_pos(s) < s.len() ==> s[colon_pos(s)] == ':',
    decreases s.len(),
{
    if s.len() > 0 && s[0] != ':' {
        lemma_colon_pos_bounds(s.drop_first());
        assert forall|i: int| 0 <= i < colon_pos(s) implies #[trigger] s[i] != ':' by {
            if i > 0 {
                assert(s.drop_first()[i - 1] == s[i]);
            }
        }
        if colon_pos(s) < s.len() {
            assert(s.drop_first()[colon_pos(s) - 1] == s[colon_pos(s)]);
        }
    }
}

proof fn lemma_colon_pos_exact(s: Seq<char>, j: int)
    requires
        0 <= j <= s.len(),
        forall|i: int| 0 <= i < j ==> #[trigger] s[i] != ':',
        j < s.len() ==> s[j] == ':',
    ensures
        colon_pos(s) == j,
    decreases j,
{
    if j > 0 {
        assert forall|i: int| 0 <= i < j - 1 implies #[trigger] s.drop_first()[i] != ':' by {
            assert(s.drop_first()[i] == s[i + 1]);
        }
        if j < s.len() {
            assert(s.drop_first()[j - 1] == s[j]);
        }
        lemma_colon_pos_exact(s.drop_first(), j - 1);
    }
}

/// Whether the character at position `k` is a ':'.
fn is_colon_at(s: &str, k: usize) -> (r: bool)
    requires
        k < s@.len(),
    ensures
        r == (s@[k as int] == ':'),
{
    let c = s.get_char(k);
    proof {
        assert((c as u32 == 58) == (c == ':'));
    }
    c as u32 == 58
}

/// Parse a range reference such as "A1:C3". Returns the two coordinate
/// pairs, (column, row) each, exactly when the text is well-formed and all
/// four values fit in a `u32`.
pub fn parse_range_text(s: &str) -> (r: Option<((u32, u32), (u32, u32))>)
    ensures
        r is Some <==> valid_range_text(s@) && cell_col_of(range_start_text(s@)) <= u32::MAX
            && cell_row_of(range_start_text(s@)) <= u32::MAX && cell_col_of(range_end_text(s@))
            <= u32::MAX && cell_row_of(range_end_text(s@)) <= u32::MAX,
        r is Some ==> {
            let ((c1, r1), (c2, r2)) = r->Some_0;
            c1 == cell_col_of(range_start_text(s@)) && r1 == cell_row_of(range_start_text(s@)) && c2
                == cell_col_of(range_end_text(s@)) && r2 == cell_row_of(range_end_text(s@)) && c1
                >= 1 && c2 >= 1
        },
{
    let n = s.unicode_len();
    let mut j: usize = 0;
    while j < n && !is_colon_at(s, j)
        invariant
            0 <= j <= n,
            n == s@.len(),
            forall|i: int| 0 <= i < j ==> #[trigger] s@[i] != ':',
        decreases n - j,
    {
        j = j + 1;
    }
    proof {
        lemma_colon_pos_exact(s@, j as int);
    }
    if j >= n {
        proof {
            lemma_colon_pos_bounds(s@);
        }
        return None;
    }
    let head = s.substring_char(0, j);
    let tail = s.substring_char(j + 1, n);
    proof {
        assert(head@ =~= range_start_text(s@));
        assert(tail@ =~= range_end_text(s@));
    }
    let start = match parse_cell_text(head) {
        Some(v) => v,
        None => {
            return None;
        },
    };
    let end = match parse_cell_text(tail) {
        Some(v) => v,
        None => {
            return None;
        },
    };
    Some((start, end))
}

/// The symbolic text of a range: start cell, ':', end cell.
pub open spec fn range_text_of(c1: int, r1: int, c2: int, r2: int) -> Seq<char> {
    cell_text_of(c1, r1) + seq![':'] + cell_text_of(c2, r2)
}

/// Render two coordinates as a range reference such as "A1:C3".
pub fn range_to_text(c1: u32, r1: u32, c2: u32, r2: u32) -> (r: String)
    requires
        c1 >= 1,
        c2 >= 1,
    ensures
        r@ == range_text_of(c1 as int, r1 as int, c2 as int, r2 as int),
{
    let mut s = index_to_excel(c1, r1);
    s.append(":");
    let t = index_to_excel(c2, r2);
    s.append(t.as_str());
    proof {
        reveal_strlit(":");
        assert(s@ =~= range_text_of(c1 as int, r1 as int, c2 as int, r2 as int));
    }
    s
}

// ===========================================================================
// Round-trip laws.
// ===========================================================================
/// The letter string of any positive column number is well-formed.
pub proof fn lemma_col_letters_of_valid(n: int)
    requires
        n >= 1,
    ensures
        valid_col_letters(col_letters_of(n)),
    decreases n,
{
    let q = (n - 1) / 26;
    let d = (n - 1) % 26;
    assert(0 <= d < 26);
    assert(is_col_letter(letter_of(d)));
    if q >= 1 {
        lemma_col_letters_of_valid(q);
    } else {
        assert(col_letters_of(q) =~= Seq::<char>::empty());
    }
}

/// Law: turning a positive column number into letters and back returns the
/// same number.
pub proof fn lemma_col_index_round_trip(n: int)
    requires
        n >= 1,
    ensures
        col_index_of(col_letters_of(n)) == n,
    decreases n,
{
    let q = (n - 1) / 26;
    let d = (n - 1) % 26;
    lemma_fundamental_div_mod(n - 1, 26);
    let s = col_letters_of(n);
    assert(s == col_letters_of(q).push(letter_of(d)));
    assert(s.drop_last() =~= col_letters_of(q));
    assert(s.last() == letter_of(d));
    assert(letter_index(letter_of(d)) == d + 1);
    if q >= 1 {
        lemma_col_index_round_trip(q);
    } else {
        assert(col_letters_of(q) =~= Seq::<char>::empty());
    }
}

/// Law: turning a well-formed letter string into its column number and back
/// returns the same string, and the number is positive.
pub proof fn lemma_col_letters_round_trip(s: Seq<char>)
    requires
        valid_col_letters(s),
    ensures
        col_index_of(s) >= 1,
        col_letters_of(col_index_of(s)) == s,
    decreases s.len(),
{
    let p = col_index_of(s.drop_last());
    let c = s.last();
    let ell = letter_index(c);
    let n = col_index_of(s);
    assert(n == p * 26 + ell);
    lemma_col_index_nonneg(s.drop_last());
    assert(1 <= ell <= 26);
    assert(n >= 1) by (nonlinear_arith)
        requires
            p >= 0,
            1 <= ell,
            n == p * 26 + ell,
    ;
    lemma_fundamental_div_mod_converse(n - 1, 26, p, ell - 1);
    assert((n - 1) / 26 == p);
    assert((n - 1) % 26 == ell - 1);
    assert(letter_of(ell - 1) == c);
    if s.len() == 1 {
        assert(s.drop_last() =~= Seq::<char>::empty());
        assert(p == 0);
        assert(col_letters_of(n) == col_letters_of(0).push(c));
        assert(col_letters_of(0) =~= Seq::<char>::empty());
        assert(col_letters_of(n) =~= s);
    } else {
        lemma_col_letters_round_trip(s.drop_last());
        assert(col_letters_of(n) == col_letters_of(p).push(c));
        assert(col_letters_of(n) =~= s);
    }
}

/// The digit string of any non-negative number is one or more digits.
pub proof fn lemma_dec_string_of_valid(n: int)
    requires
        n >= 0,
    ensures
        all_digits(dec_string_of(n)),
    decreases n,
{
    if n == 0 {
        assert(is_digit_char(digit_of(0)));
    } else {
        let q = n / 10;
        let d = n % 10;
        assert(0 <= d < 10);
        assert(is_digit_char(digit_of(d)));
        if q >= 1 {
            lemma_dec_string_of_valid(q);
            assert(dec_digits_of(q) == dec_string_of(q));
        } else {
            assert(dec_digits_of(q) =~= Seq::<char>::empty());
        }
    }
}

/// Law: rendering a non-negative number as decimal text and parsing it back
/// returns the same number.
pub proof fn lemma_dec_round_trip(n: int)
    requires
        n >= 0,
    ensures
        dec_val(dec_string_of(n)) == n,
    decreases n,
{
    if n == 0 {
        assert(dec_string_of(0) == seq![digit_of(0)]);
        assert(dec_val(seq![digit_of(0)]) == dec_val(seq![digit_of(0)].drop_last()) * 10
            + digit_val(digit_of(0)));
        assert(seq![digit_of(0)].drop_last() =~= Seq::<char>::empty());
    } else {
        let q = n / 10;
        let d = n % 10;
        lemma_fundamental_div_mod(n, 10);
        let s = dec_digits_of(n);
        assert(s == dec_digits_of(q).push(digit_of(d)));
        assert(s.drop_last() =~= dec_digits_of(q));
        assert(digit_val(digit_of(d)) == d);
        if q >= 1 {
            lemma_dec_round_trip(q);
            assert(dec_digits_of(q) == dec_string_of(q));
            assert(dec_val(dec_digits_of(q)) == q);
        } else {
            assert(dec_digits_of(q) =~= Seq::<char>::empty());
            assert(dec_val(dec_digits_of(q)) == 0);
        }
        assert(dec_val(s) == dec_val(s.drop_last()) * 10 + digit_val(s.last()));
        assert(dec_val(s.drop_last()) == q);
        assert(s.last() == digit_of(d));
        assert(digit_val(s.last()) == d);
        assert(dec_val(s) == q * 10 + d);
        assert(q * 10 + d == n);
        assert(dec_string_of(n) == s);
    }
}

/// Law: rendering a coordinate as a cell reference and parsing it back
/// returns the same column and row.
pub proof fn lemma_cell_text_round_trip(col: int, row: int)
    requires
        col >= 1,
        row >= 0,
    ensures
        valid_cell_text(cell_text_of(col, row)),
        cell_col_of(cell_text_of(col, row)) == col,
        cell_row_of(cell_text_of(col, row)) == row,
{
    let a = col_letters_of(col);
    let b = dec_string_of(row);
    let t = cell_text_of(col, row);
    lemma_col_letters_of_valid(col);
    lemma_col_letters_round_trip(a);
    lemma_col_index_round_trip(col);
    lemma_dec_string_of_valid(row);
    lemma_dec_round_trip(row);
    assert(a.len() >= 1);
    assert(b.len() >= 1);
    assert forall|i: int| 0 <= i < a.len() implies is_col_letter(#[trigger] t[i]) by {
        assert(t[i] == a[i]);
    }
    assert(t[a.len() as int] == b[0]);
    assert(is_digit_char(b[0]));
    assert(!is_col_letter(t[a.len() as int]));
    lemma_prefix_len_exact(t, a.len() as int);
    assert(t.subrange(0, a.len() as int) =~= a);
    assert(t.subrange(a.len() as int, t.len() as int) =~= b);
}

} // verus!
