use crate::codec::{dec_string_of, u32_to_dec_string};
use crate::text::str_eq;
use vstd::prelude::*;

verus! {

// ===========================================================================
// Mode: the axis along which records run.
// ===========================================================================
/// Axis along which tabular data is laid out in a worksheet: records down
/// rows with fields across columns, or records across columns with fields
/// down rows. Also selects the aggregation and placement axis.
#[derive(Debug, Clone, Copy, PartialEq, Eq, Structural)]
pub enum Mode {
    Row,
    Column,
}

impl Default for Mode {
    fn default() -> (m: Mode)
        ensures
            m == Mode::Row,
    {
        Mode::Row
    }
}

/// Read a mode from its wire form: "row" or "col", nothing else.
pub fn mode_from_str(s: &str) -> (r: Option<Mode>)
    ensures
        s@ == "row"@ ==> r == Some(Mode::Row),
        s@ == "col"@ ==> r == Some(Mode::Column),
        s@ != "row"@ && s@ != "col"@ ==> r is None,
{
    proof {
        reveal_strlit("row");
        reveal_strlit("col");
        assert("row"@[0] == 'r');
        assert("col"@[0] == 'c');
        assert("row"@ != "col"@);
    }
    if str_eq(s, "row") {
        Some(Mode::Row)
    } else if str_eq(s, "col") {
        Some(Mode::Column)
    } else {
        None
    }
}

// ===========================================================================
// Action: the aggregation operator.
// ===========================================================================
/// Aggregation operator over a numeric range.
#[derive(Debug, Clone, Copy, PartialEq, Eq, Structural)]
pub enum Action {
    Sum,
    Count,
    Average,
}

impl Default for Action {
    fn default() -> (a: Action)
        ensures
            a == Action::Sum,
    {
        Action::Sum
    }
}

/// Read an action from its wire form: "sum", "count" or "avg".
pub fn action_from_str(s: &str) -> (r: Option<Action>)
    ensures
        s@ == "sum"@ ==> r == Some(Action::Sum),
        s@ == "count"@ ==> r == Some(Action::Count),
        s@ == "avg"@ ==> r == Some(Action::Average),
        s@ != "sum"@ && s@ != "count"@ && s@ != "avg"@ ==> r is None,
{
    proof {
        reveal_strlit("sum");
        reveal_strlit("count");
        reveal_strlit("avg");
        assert("sum"@.len() == 3 && "sum"@[0] == 's');
        assert("count"@.len() == 5 && "count"@[0] == 'c');
        assert("avg"@.len() == 3 && "avg"@[0] == 'a');
        assert("sum"@ != "count"@);
        assert("sum"@ != "avg"@);
        assert("count"@ != "avg"@);
    }
    if str_eq(s, "sum") {
        Some(Action::Sum)
    } else if str_eq(s, "count") {
        Some(Action::Count)
    } else if str_eq(s, "avg") {
        Some(Action::Average)
    } else {
        None
    }
}

// ===========================================================================
// Coerce: the value policy applied while copying a range.
// ===========================================================================
/// Post-copy coercion policy for range copies: pass text through, or parse
/// it as a number and write it back as an integer or a float.
#[derive(Debug, Clone, Copy, PartialEq, Eq, Structural)]
pub enum Coerce {
    Unchanged,
    Integer,
    Float,
    String,
}

impl Default for Coerce {
    fn default() -> (c: Coerce)
        ensures
            c == Coerce::Unchanged,
    {
        Coerce::Unchanged
    }
}

/// Read a coercion policy from its wire form: "int"/"integer",
/// "float"/"double", "str"/"string" or "none".
pub fn coerce_from_str(s: &str) -> (r: Option<Coerce>)
    ensures
        s@ == "int"@ || s@ == "integer"@ ==> r == Some(Coerce::Integer),
        s@ == "float"@ || s@ == "double"@ ==> r == Some(Coerce::Float),
        s@ == "str"@ || s@ == "string"@ ==> r == Some(Coerce::String),
        s@ == "none"@ ==> r == Some(Coerce::Unchanged),
        s@ != "int"@ && s@ != "integer"@ && s@ != "float"@ && s@ != "double"@ && s@ != "str"@ && s@
            != "string"@ && s@ != "none"@ ==> r is None,
{
    proof {
        reveal_strlit("int");
        reveal_strlit("integer");
        reveal_strlit("float");
        reveal_strlit("double");
        reveal_strlit("str");
        reveal_strlit("string");
        reveal_strlit("none");
        assert("int"@.len() == 3 && "int"@[0] == 'i');
        assert("integer"@.len() == 7 && "integer"@[0] == 'i');
        assert("float"@.len() == 5 && "float"@[0] == 'f');
        assert("double"@.len() == 6 && "double"@[0] == 'd');
        assert("str"@.len() == 3 && "str"@[0] == 's');
        assert("string"@.len() == 6 && "string"@[0] == 's');
        assert("none"@.len() == 4 && "none"@[0] == 'n');
        assert("int"@ != "integer"@ && "int"@ != "float"@ && "int"@ != "double"@ && "int"@ != "str"@
            && "int"@ != "string"@ && "int"@ != "none"@);
        assert("integer"@ != "float"@ && "integer"@ != "double"@ && "integer"@ != "str"@
            && "integer"@ != "string"@ && "integer"@ != "none"@);
        assert("float"@ != "double"@ && "float"@ != "str"@ && "float"@ != "string"@
            && "float"@ != "none"@);
        assert("double"@ != "str"@ && "double"@ != "string"@ && "double"@ != "none"@);
        assert("str"@ != "string"@ && "str"@ != "none"@);
        assert("string"@ != "none"@);
    }
    if str_eq(s, "int") || str_eq(s, "integer") {
        Some(Coerce::Integer)
    } else if str_eq(s, "float") || str_eq(s, "double") {
        Some(Coerce::Float)
    } else if str_eq(s, "str") || str_eq(s, "string") {
        Some(Coerce::String)
    } else if str_eq(s, "none") {
        Some(Coerce::Unchanged)
    } else {
        None
    }
}

// ===========================================================================
// Value: one table cell.
// ===========================================================================
/// One scalar table cell. A floating-point cell arrives already rendered in
/// its canonical decimal form, carried in the `Float` variant; the host
/// boundary performs that rendering.
#[derive(Debug)]
pub enum Value {
    Null,
    Int(i32),
    Boolean(bool),
    Float(String),
    String(String),
}

/// Decimal text of an integer, with a leading '-' when negative.
pub open spec fn int_string_of(i: int) -> Seq<char> {
    if i < 0 {
        seq!['-'] + dec_string_of(-i)
    } else {
        dec_string_of(i)
    }
}

/// The text a value puts into a worksheet cell: strings pass through,
/// integers use their decimal form, booleans render "TRUE"/"FALSE", a
/// missing value renders as the empty string.
pub open spec fn value_text(v: Value) -> Seq<char> {
    match v {
        Value::Null => Seq::empty(),
        Value::Int(i) => int_string_of(i as int),
        Value::Boolean(b) => if b {
            "TRUE"@
        } else {
            "FALSE"@
        },
        Value::Float(s) => s@,
        Value::String(s) => s@,
    }
}

impl Value {
    /// Render this value as worksheet cell text.
    pub fn value(&self) -> (r: String)
        ensures
            r@ == value_text(*self),
    {
        match self {
            Value::Null => String::new(),
            Value::Int(i) => {
                let v: i32 = *i;
                if v < 0 {
                    let mag: u32 = (-(v as i64)) as u32;
                    let mut s = String::from_str("-");
                    let t = u32_to_dec_string(mag);
                    s.append(t.as_str());
                    proof {
                        reveal_strlit("-");
                        assert(s@ =~= int_string_of(v as int));
                    }
                    s
                } else {
                    u32_to_dec_string(v as u32)
                }
            },
            Value::Boolean(b) => {
                if *b {
                    String::from_str("TRUE")
                } else {
                    String::from_str("FALSE")
                }
            },
            Value::Float(s) => s.clone(),
            Value::String(s) => s.clone(),
        }
    }

    /// Whether this is the missing value.
    pub fn is_null(&self) -> (r: bool)
        ensures
            r == (*self is Null),
    {
        match self {
            Value::Null => true,
            _ => false,
        }
    }
}

} // verus!
