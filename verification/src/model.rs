//! The data model: column descriptors and typed field values.
//!
//! A row of a columnar file is an ordered sequence of [`FieldValue`]s, one
//! per column, aligned by position with the file's [`ColumnDescriptor`]s.
//! Floating-point cells arrive already rendered: the library reads only
//! their textual form, and whether a JSON number form exists (it does not
//! for NaN or infinite values).

use vstd::prelude::*;
use crate::text::int_seq;

verus! {

/// The textual form of a boolean: `true` or `false`.
pub open spec fn bool_seq(b: bool) -> Seq<char> {
    if b {
        "true"@
    } else {
        "false"@
    }
}

/// The textual form of a boolean as a string.
pub fn bool_string(b: bool) -> (r: String)
    ensures
        r@ == bool_seq(b),
{
    if b {
        String::from_str("true")
    } else {
        String::from_str("false")
    }
}

/// The physical type of a column, as the file declares it.
#[derive(Clone, Copy, PartialEq, Eq, Structural, Debug)]
pub enum PhysicalType {
    Boolean,
    Int32,
    Int64,
    Int96,
    Float,
    Double,
    ByteArray,
    FixedLenByteArray,
}

impl PhysicalType {
    /// The conventional upper-case name of the physical type.
    pub open spec fn spec_name(self) -> Seq<char> {
        match self {
            PhysicalType::Boolean => "BOOLEAN"@,
            PhysicalType::Int32 => "INT32"@,
            PhysicalType::Int64 => "INT64"@,
            PhysicalType::Int96 => "INT96"@,
            PhysicalType::Float => "FLOAT"@,
            PhysicalType::Double => "DOUBLE"@,
            PhysicalType::ByteArray => "BYTE_ARRAY"@,
            PhysicalType::FixedLenByteArray => "FIXED_LEN_BYTE_ARRAY"@,
        }
    }

    /// The conventional upper-case name of the physical type.
    pub fn name(&self) -> (r: String)
        ensures
            r@ == self.spec_name(),
    {
        match self {
            PhysicalType::Boolean => String::from_str("BOOLEAN"),
            PhysicalType::Int32 => String::from_str("INT32"),
            PhysicalType::Int64 => String::from_str("INT64"),
            PhysicalType::Int96 => String::from_str("INT96"),
            PhysicalType::Float => String::from_str("FLOAT"),
            PhysicalType::Double => String::from_str("DOUBLE"),
            PhysicalType::ByteArray => String::from_str("BYTE_ARRAY"),
            PhysicalType::FixedLenByteArray => String::from_str("FIXED_LEN_BYTE_ARRAY"),
        }
    }
}

/// One column of a file: its name, physical type, and the textual form of
/// its logical type annotation, if it has one.
pub struct ColumnDescriptor {
    pub name: String,
    pub physical: PhysicalType,
    pub logical: Option<String>,
}

/// A floating-point cell, as the library sees it: its textual rendering,
/// and its JSON number rendering where one exists. A NaN or infinite value
/// has no JSON number form, so `json_text` is `None` exactly then.
pub struct FloatValue {
    pub text: String,
    pub json_text: Option<String>,
}

/// One cell of a row: a tagged union over the supported primitive kinds.
/// Any tag the library does not model natively arrives as `Other`, holding
/// the value's textual rendering.
pub enum FieldValue {
    Str(String),
    Int(i32),
    Long(i64),
    Float(FloatValue),
    Double(FloatValue),
    Bool(bool),
    Other(String),
}

impl FieldValue {
    /// The display projection: a string-tagged value verbatim, every other
    /// tag by its natural textual rendering. This is the CSV cell policy.
    pub open spec fn display_seq(self) -> Seq<char> {
        match self {
            FieldValue::Str(s) => s@,
            FieldValue::Int(i) => int_seq(i as int),
            FieldValue::Long(i) => int_seq(i as int),
            FieldValue::Float(f) => f.text@,
            FieldValue::Double(f) => f.text@,
            FieldValue::Bool(b) => bool_seq(b),
            FieldValue::Other(s) => s@,
        }
    }
}

/// How many of `m` rows a limit lets through: all of them without a limit,
/// else the smaller of the limit and `m`.
pub open spec fn cap_of(limit: Option<usize>, m: nat) -> nat {
    match limit {
        Option::None => m,
        Option::Some(k) => if k <= m {
            k as nat
        } else {
            m
        },
    }
}

/// The output format of the row-display commands.
#[derive(Clone, Copy, PartialEq, Eq, Structural, Debug)]
pub enum OutputFormat {
    Csv,
    Json,
}

/// Whether two character vectors hold the same characters.
fn chars_eq(a: &Vec<char>, b: &Vec<char>) -> (r: bool)
    ensures
        r == (a@ == b@),
{
    if a.len() != b.len() {
        return false;
    }
    let mut i: usize = 0;
    while i < a.len()
        invariant
            a@.len() == b@.len(),
            0 <= i <= a@.len(),
            forall|j: int| 0 <= j < i ==> a@[j] == b@[j],
        decreases a@.len() - i,
    {
        if a[i] != b[i] {
            return false;
        }
        i = i + 1;
    }
    proof {
        assert(a@ =~= b@);
    }
    true
}

impl OutputFormat {
    /// The format a name selects: `csv` or `json`, and nothing else.
    pub fn from_name(s: &str) -> (r: Option<OutputFormat>)
        ensures
            r == Some(OutputFormat::Csv) <==> s@ == "csv"@,
            r == Some(OutputFormat::Json) <==> s@ == "json"@,
            r is None <==> (s@ != "csv"@ && s@ != "json"@),
    {
        proof {
            reveal_strlit("csv");
            reveal_strlit("json");
            assert("csv"@.len() == 3);
            assert("json"@.len() == 4);
            assert("csv"@ != "json"@);
        }
        let cs = crate::text::chars_of(s);
        let csv_name = crate::text::chars_of("csv");
        let json_name = crate::text::chars_of("json");
        if chars_eq(&cs, &csv_name) {
            Some(OutputFormat::Csv)
        } else if chars_eq(&cs, &json_name) {
            Some(OutputFormat::Json)
        } else {
            None
        }
    }
}

} // verus!
