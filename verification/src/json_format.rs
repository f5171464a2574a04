//! JSON emission: one array holding one object per row, each object
//! mapping every column name, in file order, to the row's value for it.
//!
//! Strings become JSON strings, integers and finite floating values JSON
//! numbers, booleans JSON booleans; any other tag falls back to its
//! textual rendering as a JSON string. A NaN or infinite floating value
//! has no JSON number form: emission then fails as a whole and hands back
//! nothing, rather than leave a partial array behind.

use vstd::prelude::*;
use crate::model::{bool_seq, cap_of, ColumnDescriptor, FieldValue};
use crate::text::{append_chars, chars_of, i64_chars, int_seq, string_of_chars};

verus! {

/// The lower-case hexadecimal digit for a value below 16.
pub open spec fn hex_digit(d: int) -> char {
    if d == 0 {
        '0'
    } else if d == 1 {
        '1'
    } else if d == 2 {
        '2'
    } else if d == 3 {
        '3'
    } else if d == 4 {
        '4'
    } else if d == 5 {
        '5'
    } else if d == 6 {
        '6'
    } else if d == 7 {
        '7'
    } else if d == 8 {
        '8'
    } else if d == 9 {
        '9'
    } else if d == 10 {
        'a'
    } else if d == 11 {
        'b'
    } else if d == 12 {
        'c'
    } else if d == 13 {
        'd'
    } else if d == 14 {
        'e'
    } else {
        'f'
    }
}

/// The escape of one character inside a JSON string: quote and backslash
/// get a backslash, the named control characters their short forms, every
/// other control character a four-digit unicode escape.
pub open spec fn json_escape_char(c: char) -> Seq<char> {
    if c == '"' {
        seq!['\\', '"']
    } else if c == '\\' {
        seq!['\\', '\\']
    } else if c == '\u{8}' {
        seq!['\\', 'b']
    } else if c == '\t' {
        seq!['\\', 't']
    } else if c == '\n' {
        seq!['\\', 'n']
    } else if c == '\u{c}' {
        seq!['\\', 'f']
    } else if c == '\r' {
        seq!['\\', 'r']
    } else if (c as u32) < 32 {
        seq!['\\', 'u', '0', '0', hex_digit((c as u32) as int / 16), hex_digit(
            (c as u32) as int % 16,
        )]
    } else {
        seq![c]
    }
}

/// The body of a JSON string: every character escaped as needed.
pub open spec fn json_escape(s: Seq<char>) -> Seq<char>
    decreases s.len(),
{
    if s.len() == 0 {
        Seq::empty()
    } else {
        json_escape_char(s.first()) + json_escape(s.drop_first())
    }
}

/// A JSON string: the escaped body between quotes.
pub open spec fn json_string(s: Seq<char>) -> Seq<char> {
    seq!['"'] + json_escape(s) + seq!['"']
}

/// Whether a cell has a JSON form: every tag has one except a floating
/// value without a JSON number rendering (NaN or infinite).
pub open spec fn json_value_ok(v: FieldValue) -> bool {
    match v {
        FieldValue::Float(f) => f.json_text is Some,
        FieldValue::Double(f) => f.json_text is Some,
        _ => true,
    }
}

/// The JSON form of one cell.
pub open spec fn json_value_seq(v: FieldValue) -> Seq<char> {
    match v {
        FieldValue::Str(s) => json_string(s@),
        FieldValue::Int(i) => int_seq(i as int),
        FieldValue::Long(i) => int_seq(i as int),
        FieldValue::Float(f) => match f.json_text {
            Option::Some(t) => t@,
            Option::None => Seq::empty(),
        },
        FieldValue::Double(f) => match f.json_text {
            Option::Some(t) => t@,
            Option::None => Seq::empty(),
        },
        FieldValue::Bool(b) => bool_seq(b),
        FieldValue::Other(s) => json_string(s@),
    }
}

/// Whether every cell of the row has a JSON form.
pub open spec fn json_row_ok(row: Seq<FieldValue>) -> bool {
    forall|j: int| 0 <= j < row.len() ==> json_value_ok(#[trigger] row[j])
}

/// Whether every cell of every row has a JSON form.
pub open spec fn json_rows_ok(rows: Seq<Seq<FieldValue>>) -> bool {
    forall|i: int| 0 <= i < rows.len() ==> json_row_ok(#[trigger] rows[i])
}

/// Texts joined by a comma.
pub open spec fn join_comma(parts: Seq<Seq<char>>) -> Seq<char>
    decreases parts.len(),
{
    if parts.len() == 0 {
        Seq::empty()
    } else if parts.len() == 1 {
        parts[0]
    } else {
        parts[0] + seq![','] + join_comma(parts.drop_first())
    }
}

/// The `"name":value` member for column `j` of a row.
pub open spec fn json_member(cols: Seq<ColumnDescriptor>, row: Seq<FieldValue>, j: int) -> Seq<
    char,
> {
    json_string(cols[j].name@) + seq![':'] + json_value_seq(row[j])
}

/// The members of one object: one per column, in file order.
pub open spec fn json_members(cols: Seq<ColumnDescriptor>, row: Seq<FieldValue>) -> Seq<Seq<char>> {
    Seq::new(cols.len(), |j: int| json_member(cols, row, j))
}

/// One object: the row's members between braces.
pub open spec fn json_object(cols: Seq<ColumnDescriptor>, row: Seq<FieldValue>) -> Seq<char> {
    seq!['{'] + join_comma(json_members(cols, row)) + seq!['}']
}

/// The objects of all rows, in row order.
pub open spec fn json_object_list(cols: Seq<ColumnDescriptor>, rows: Seq<Seq<FieldValue>>) -> Seq<
    Seq<char>,
> {
    rows.map_values(|row: Seq<FieldValue>| json_object(cols, row))
}

/// The whole array: the objects, comma-joined, between brackets.
pub open spec fn json_array(cols: Seq<ColumnDescriptor>, rows: Seq<Seq<FieldValue>>) -> Seq<char> {
    seq!['['] + join_comma(json_object_list(cols, rows)) + seq![']']
}

/// Why JSON emission failed: the cell at `row`, `column` is a floating
/// value with no JSON number form (NaN or infinite).
#[derive(Clone, Copy, PartialEq, Eq, Structural, Debug)]
pub struct JsonError {
    pub row: usize,
    pub column: usize,
}

/// The emitted JSON is one array of one object per emitted row, each
/// object holding exactly one member per column, in file order.
pub proof fn lemma_json_array_shape(cols: Seq<ColumnDescriptor>, rows: Seq<Seq<FieldValue>>)
    ensures
        json_array(cols, rows) == seq!['['] + join_comma(json_object_list(cols, rows))
            + seq![']'],
        json_object_list(cols, rows).len() == rows.len(),
        forall|i: int|
            0 <= i < rows.len() ==> #[trigger] json_object_list(cols, rows)[i] == json_object(
                cols,
                rows[i],
            ),
        forall|i: int|
            0 <= i < rows.len() ==> json_members(cols, #[trigger] rows[i]).len() == cols.len(),
{
}

/// How many objects a limited emission holds: with a limit of `k` over
/// `m` rows, `k` objects when `k` is at most `m`, all `m` when it is
/// larger — so none when it is zero — and all `m` without a limit.
pub proof fn lemma_json_object_count(
    cols: Seq<ColumnDescriptor>,
    rows: Seq<Seq<FieldValue>>,
    limit: Option<usize>,
)
    ensures
        json_object_list(cols, rows.take(cap_of(limit, rows.len()) as int)).len() == cap_of(
            limit,
            rows.len(),
        ),
        limit matches Some(k) ==> cap_of(limit, rows.len()) == if k <= rows.len() {
            k as nat
        } else {
            rows.len()
        },
        limit is None ==> cap_of(limit, rows.len()) == rows.len(),
{
}

/// Joining distributes over appending one part at the end.
proof fn lemma_join_comma_push(parts: Seq<Seq<char>>, p: Seq<char>)
    requires
        parts.len() >= 1,
    ensures
        join_comma(parts.push(p)) == join_comma(parts) + seq![','] + p,
    decreases parts.len(),
{
    if parts.len() == 1 {
        assert(parts.push(p)[0] == parts[0]);
        assert(parts.push(p).drop_first() =~= seq![p]);
        assert(join_comma(seq![p]) == p);
        assert(join_comma(parts.push(p)) == parts[0] + seq![','] + p);
    } else {
        assert(parts.push(p).drop_first() =~= parts.drop_first().push(p));
        lemma_join_comma_push(parts.drop_first(), p);
        assert(join_comma(parts.push(p)) == parts[0] + seq![','] + (join_comma(parts.drop_first())
            + seq![','] + p));
        assert(parts[0] + seq![','] + (join_comma(parts.drop_first()) + seq![','] + p) =~= (
        parts[0] + seq![','] + join_comma(parts.drop_first())) + seq![','] + p);
    }
}

/// Escaping distributes over appending one character at the end.
proof fn lemma_json_escape_push(s: Seq<char>, c: char)
    ensures
        json_escape(s.push(c)) == json_escape(s) + json_escape_char(c),
    decreases s.len(),
{
    if s.len() == 0 {
        reveal_with_fuel(json_escape, 2);
        assert(s.push(c).drop_first() =~= Seq::<char>::empty());
        assert(s.push(c).first() == c);
        assert(json_escape(s.push(c)) =~= json_escape_char(c));
        assert(json_escape(s) + json_escape_char(c) =~= json_escape_char(c));
    } else {
        assert(s.push(c).drop_first() =~= s.drop_first().push(c));
        lemma_json_escape_push(s.drop_first(), c);
        assert(json_escape(s.push(c)) == json_escape_char(s.first()) + (json_escape(s.drop_first())
            + json_escape_char(c)));
        assert(json_escape_char(s.first()) + (json_escape(s.drop_first()) + json_escape_char(c))
            =~= (json_escape_char(s.first()) + json_escape(s.drop_first())) + json_escape_char(c));
    }
}

/// The lower-case hexadecimal digit for a small machine integer.
fn hex_char(d: u32) -> (c: char)
    requires
        d < 16,
    ensures
        c == hex_digit(d as int),
{
    if d == 0 {
        '0'
    } else if d == 1 {
        '1'
    } else if d == 2 {
        '2'
    } else if d == 3 {
        '3'
    } else if d == 4 {
        '4'
    } else if d == 5 {
        '5'
    } else if d == 6 {
        '6'
    } else if d == 7 {
        '7'
    } else if d == 8 {
        '8'
    } else if d == 9 {
        '9'
    } else if d == 10 {
        'a'
    } else if d == 11 {
        'b'
    } else if d == 12 {
        'c'
    } else if d == 13 {
        'd'
    } else if d == 14 {
        'e'
    } else {
        'f'
    }
}

/// Appends the escape of one character to `out`.
fn append_json_escape_char(out: &mut Vec<char>, c: char)
    ensures
        final(out)@ == old(out)@ + json_escape_char(c),
{
    if c == '"' {
        out.push('\\');
        out.push('"');
        proof {
            assert(out@ =~= old(out)@ + json_escape_char(c));
        }
    } else if c == '\\' {
        out.push('\\');
        out.push('\\');
        proof {
            assert(out@ =~= old(out)@ + json_escape_char(c));
        }
    } else if c == '\u{8}' {
        out.push('\\');
        out.push('b');
        proof {
            assert(out@ =~= old(out)@ + json_escape_char(c));
        }
    } else if c == '\t' {
        out.push('\\');
        out.push('t');
        proof {
            assert(out@ =~= old(out)@ + json_escape_char(c));
        }
    } else if c == '\n' {
        out.push('\\');
        out.push('n');
        proof {
            assert(out@ =~= old(out)@ + json_escape_char(c));
        }
    } else if c == '\u{c}' {
        out.push('\\');
        out.push('f');
        proof {
            assert(out@ =~= old(out)@ + json_escape_char(c));
        }
    } else if c == '\r' {
        out.push('\\');
        out.push('r');
        proof {
            assert(out@ =~= old(out)@ + json_escape_char(c));
        }
    } else if (c as u32) < 32 {
        let code = c as u32;
        out.push('\\');
        out.push('u');
        out.push('0');
        out.push('0');
        out.push(hex_char(code / 16));
        out.push(hex_char(code % 16));
        proof {
            assert(out@ =~= old(out)@ + json_escape_char(c));
        }
    } else {
        out.push(c);
        proof {
            assert(out@ =~= old(out)@ + json_escape_char(c));
        }
    }
}

/// Appends the JSON string form of `s` to `out`.
fn append_json_string(out: &mut Vec<char>, s: &Vec<char>)
    ensures
        final(out)@ == old(out)@ + json_string(s@),
{
    out.push('"');
    let mut i: usize = 0;
    while i < s.len()
        invariant
            0 <= i <= s@.len(),
            out@ == old(out)@ + seq!['"'] + json_escape(s@.take(i as int)),
        decreases s@.len() - i,
    {
        proof {
            assert(s@.take(i as int).push(s@[i as int]) =~= s@.take(i + 1));
            lemma_json_escape_push(s@.take(i as int), s@[i as int]);
        }
        let ghost before = out@;
        append_json_escape_char(out, s[i]);
        proof {
            assert(before + json_escape_char(s@[i as int]) =~= old(out)@ + seq!['"'] + (
            json_escape(s@.take(i as int)) + json_escape_char(s@[i as int])));
        }
        i = i + 1;
    }
    out.push('"');
    proof {
        assert(s@.take(s@.len() as int) =~= s@);
        assert((old(out)@ + seq!['"'] + json_escape(s@)).push('"') =~= old(out)@ + (seq!['"']
            + json_escape(s@) + seq!['"']));
    }
}

/// The JSON form of one cell, as characters.
fn json_value_chars(v: &FieldValue) -> (r: Vec<char>)
    requires
        json_value_ok(*v),
    ensures
        r@ == json_value_seq(*v),
{
    match v {
        FieldValue::Str(s) => {
            let mut out: Vec<char> = Vec::new();
            let body = chars_of(s.as_str());
            append_json_string(&mut out, &body);
            proof {
                assert(out@ =~= json_string(s@));
            }
            out
        },
        FieldValue::Int(i) => i64_chars(*i as i64),
        FieldValue::Long(i) => i64_chars(*i),
        FieldValue::Float(f) => match &f.json_text {
            Option::Some(t) => chars_of(t.as_str()),
            Option::None => {
                proof {
                    assert(false);
                }
                Vec::new()
            },
        },
        FieldValue::Double(f) => match &f.json_text {
            Option::Some(t) => chars_of(t.as_str()),
            Option::None => {
                proof {
                    assert(false);
                }
                Vec::new()
            },
        },
        FieldValue::Bool(b) => if *b {
            chars_of("true")
        } else {
            chars_of("false")
        },
        FieldValue::Other(s) => {
            let mut out: Vec<char> = Vec::new();
            let body = chars_of(s.as_str());
            append_json_string(&mut out, &body);
            proof {
                assert(out@ =~= json_string(s@));
            }
            out
        },
    }
}

/// Appends one object to `out`: the row's members, in column order.
fn append_json_object(out: &mut Vec<char>, cols: &Vec<ColumnDescriptor>, row: &Vec<FieldValue>)
    requires
        row@.len() == cols@.len(),
        json_row_ok(row@),
    ensures
        final(out)@ == old(out)@ + json_object(cols@, row@),
{
    out.push('{');
    let mut j: usize = 0;
    while j < cols.len()
        invariant
            row@.len() == cols@.len(),
            json_row_ok(row@),
            0 <= j <= cols@.len(),
            out@ == old(out)@ + seq!['{'] + join_comma(json_members(cols@, row@).take(j as int)),
        decreases cols@.len() - j,
    {
        let ghost members = json_members(cols@, row@);
        if j > 0 {
            out.push(',');
        }
        let name = chars_of(cols[j].name.as_str());
        let ghost before = out@;
        append_json_string(out, &name);
        out.push(':');
        let value = json_value_chars(&row[j]);
        append_chars(out, &value);
        proof {
            assert(members.take(j as int).push(members[j as int]) =~= members.take(j + 1));
            assert(members[j as int] == json_member(cols@, row@, j as int));
            if j == 0 {
                assert(join_comma(members.take(0)) =~= Seq::<char>::empty());
                assert(join_comma(seq![members[0]]) == members[0]);
                assert(members.take(1) =~= seq![members[0]]);
                assert(out@ =~= old(out)@ + seq!['{'] + join_comma(members.take(1)));
            } else {
                lemma_join_comma_push(members.take(j as int), members[j as int]);
                assert(out@ =~= old(out)@ + seq!['{'] + (join_comma(members.take(j as int))
                    + seq![','] + members[j as int]));
            }
        }
        j = j + 1;
    }
    out.push('}');
    proof {
        assert(json_members(cols@, row@).take(cols@.len() as int) =~= json_members(cols@, row@));
        assert((old(out)@ + seq!['{'] + join_comma(json_members(cols@, row@))).push('}') =~= old(
            out,
        )@ + (seq!['{'] + join_comma(json_members(cols@, row@)) + seq!['}']));
    }
}

/// Looks for a cell without a JSON form among the first `cap` rows.
fn find_bad_value(rows: &Vec<Vec<FieldValue>>, cap: usize) -> (r: Option<JsonError>)
    requires
        cap <= rows@.len(),
    ensures
        r is None <==> json_rows_ok(rows@.map_values(|row: Vec<FieldValue>| row@).take(cap as int)),
        r matches Some(e) ==> e.row < cap && e.column < rows@[e.row as int]@.len()
            && !json_value_ok(rows@[e.row as int]@[e.column as int]),
{
    let ghost rview = rows@.map_values(|row: Vec<FieldValue>| row@);
    let mut i: usize = 0;
    while i < cap
        invariant
            cap <= rows@.len(),
            rview == rows@.map_values(|row: Vec<FieldValue>| row@),
            0 <= i <= cap,
            forall|k: int| 0 <= k < i ==> json_row_ok(#[trigger] rview[k]),
        decreases cap - i,
    {
        let row = &rows[i];
        let mut j: usize = 0;
        while j < row.len()
            invariant
                0 <= j <= row@.len(),
                row@ == rows@[i as int]@,
                i < cap <= rows@.len(),
                rview == rows@.map_values(|row: Vec<FieldValue>| row@),
                forall|l: int| 0 <= l < j ==> json_value_ok(#[trigger] row@[l]),
            decreases row@.len() - j,
        {
            let ok = match &row[j] {
                FieldValue::Float(f) => f.json_text.is_some(),
                FieldValue::Double(f) => f.json_text.is_some(),
                _ => true,
            };
            if !ok {
                proof {
                    assert(!json_value_ok(row@[j as int]));
                    assert(rview[i as int] == rows@[i as int]@);
                    assert(!json_row_ok(rview[i as int]));
                    assert(rview.take(cap as int)[i as int] == rview[i as int]);
                    assert(!json_rows_ok(rview.take(cap as int)));
                }
                return Some(JsonError { row: i, column: j });
            }
            j = j + 1;
        }
        proof {
            assert(json_row_ok(rview[i as int]));
        }
        i = i + 1;
    }
    proof {
        assert(forall|k: int| 0 <= k < cap ==> rview.take(cap as int)[k] == rview[k]);
    }
    None
}

/// The whole JSON text for the given columns and rows: one array of one
/// object per row the limit lets through, in row order — or, when some
/// floating cell among those rows has no JSON number form, the position of
/// such a cell, and no output at all.
pub fn to_json(cols: &Vec<ColumnDescriptor>, rows: &Vec<Vec<FieldValue>>, limit: Option<usize>) -> (r:
    Result<String, JsonError>)
    requires
        forall|i: int| 0 <= i < rows@.len() ==> (#[trigger] rows@[i])@.len() == cols@.len(),
    ensures
        ({
            let rview = rows@.map_values(|row: Vec<FieldValue>| row@);
            let capped = rview.take(cap_of(limit, rview.len()) as int);
            &&& (r is Ok <==> json_rows_ok(capped))
            &&& (r matches Ok(s) ==> s@ == json_array(cols@, capped))
            &&& (r matches Err(e) ==> e.row < capped.len() && e.column < capped[e.row as int].len()
                && !json_value_ok(capped[e.row as int][e.column as int]))
        }),
{
    let ghost rview = rows@.map_values(|row: Vec<FieldValue>| row@);
    let cap: usize = match limit {
        Option::None => rows.len(),
        Option::Some(k) => if k <= rows.len() {
            k
        } else {
            rows.len()
        },
    };
    proof {
        assert(cap as nat == cap_of(limit, rview.len()));
    }
    let ghost capped = rview.take(cap as int);
    if let Some(e) = find_bad_value(rows, cap) {
        proof {
            assert(capped[e.row as int] == rview[e.row as int]);
        }
        return Err(e);
    }
    let mut out: Vec<char> = Vec::new();
    out.push('[');
    let mut i: usize = 0;
    while i < cap
        invariant
            cap <= rows@.len(),
            rview == rows@.map_values(|row: Vec<FieldValue>| row@),
            capped == rview.take(cap as int),
            json_rows_ok(capped),
            forall|k: int| 0 <= k < rows@.len() ==> (#[trigger] rows@[k])@.len() == cols@.len(),
            0 <= i <= cap,
            out@ == seq!['['] + join_comma(json_object_list(cols@, capped).take(i as int)),
        decreases cap - i,
    {
        let ghost objects = json_object_list(cols@, capped);
        if i > 0 {
            out.push(',');
        }
        let ghost before = out@;
        proof {
            assert(capped[i as int] == rview[i as int]);
            assert(rview[i as int] == rows@[i as int]@);
            assert(json_row_ok(capped[i as int]));
        }
        append_json_object(&mut out, cols, &rows[i]);
        proof {
            assert(objects[i as int] == json_object(cols@, capped[i as int]));
            assert(objects.take(i as int).push(objects[i as int]) =~= objects.take(i + 1));
            if i == 0 {
                assert(join_comma(seq![objects[0]]) == objects[0]);
                assert(objects.take(1) =~= seq![objects[0]]);
                assert(out@ =~= seq!['['] + join_comma(objects.take(1)));
            } else {
                lemma_join_comma_push(objects.take(i as int), objects[i as int]);
                assert(out@ =~= seq!['['] + (join_comma(objects.take(i as int)) + seq![',']
                    + objects[i as int]));
            }
        }
        i = i + 1;
    }
    out.push(']');
    proof {
        assert(json_object_list(cols@, capped).take(cap as int) =~= json_object_list(
            cols@,
            capped,
        ));
        assert((seq!['['] + join_comma(json_object_list(cols@, capped))).push(']') =~= seq!['[']
            + join_comma(json_object_list(cols@, capped)) + seq![']']);
    }
    Ok(string_of_chars(&out))
}

} // verus!
