//! CSV emission: one header record of column names, then one record per
//! row, each cell projected by the display policy of
//! [`crate::model::FieldValue::display_seq`].
//!
//! The discipline is the conventional one: a field is quoted when it holds
//! the separator, the quote character or a line break; an embedded quote is
//! doubled; each record ends with a line feed; a record whose only field is
//! empty is written as a single quoted empty field.

use vstd::prelude::*;
use crate::model::{cap_of, ColumnDescriptor, FieldValue};
use crate::text::{append_chars, chars_of, count_char, dec_seq, i64_chars, int_seq, is_dec_digit,
    lemma_count_char_add, lemma_count_char_zero, lemma_dec_seq_digits, string_of_chars};

verus! {

/// Whether `c` forces a CSV field into quotes.
pub open spec fn csv_special(c: char) -> bool {
    c == ',' || c == '"' || c == '\n' || c == '\r'
}

/// Whether a field must be quoted.
pub open spec fn csv_needs_quote(s: Seq<char>) -> bool {
    exists|i: int| 0 <= i < s.len() && csv_special(s[i])
}

/// The body of a quoted field for one character: a quote is doubled.
pub open spec fn csv_escape_char(c: char) -> Seq<char> {
    if c == '"' {
        seq!['"', '"']
    } else {
        seq![c]
    }
}

/// The body of a quoted field: every embedded quote doubled.
pub open spec fn csv_escape(s: Seq<char>) -> Seq<char>
    decreases s.len(),
{
    if s.len() == 0 {
        Seq::empty()
    } else {
        csv_escape_char(s.first()) + csv_escape(s.drop_first())
    }
}

/// One emitted field: quoted and escaped when necessary, verbatim otherwise.
pub open spec fn csv_field(s: Seq<char>) -> Seq<char> {
    if csv_needs_quote(s) {
        seq!['"'] + csv_escape(s) + seq!['"']
    } else {
        s
    }
}

/// One or more fields joined by the separator.
pub open spec fn csv_fields(fields: Seq<Seq<char>>) -> Seq<char>
    decreases fields.len(),
{
    if fields.len() == 0 {
        Seq::empty()
    } else if fields.len() == 1 {
        csv_field(fields[0])
    } else {
        csv_field(fields[0]) + seq![','] + csv_fields(fields.drop_first())
    }
}

/// One record: fields joined by the separator, ended by a line feed. An
/// empty record, or one whose only field is empty, is written as a single
/// quoted empty field, so that it is not mistaken for a blank line.
pub open spec fn csv_record(fields: Seq<Seq<char>>) -> Seq<char> {
    if fields.len() == 0 || (fields.len() == 1 && fields[0].len() == 0) {
        seq!['"', '"', '\n']
    } else {
        csv_fields(fields) + seq!['\n']
    }
}

/// The display projection of a whole row.
pub open spec fn row_display(row: Seq<FieldValue>) -> Seq<Seq<char>> {
    row.map_values(|v: FieldValue| v.display_seq())
}

/// The names of the columns, in file order.
pub open spec fn col_names(cols: Seq<ColumnDescriptor>) -> Seq<Seq<char>> {
    cols.map_values(|c: ColumnDescriptor| c.name@)
}

/// The data records of the given rows, concatenated.
pub open spec fn csv_rows(rows: Seq<Seq<FieldValue>>) -> Seq<char>
    decreases rows.len(),
{
    if rows.len() == 0 {
        Seq::empty()
    } else {
        csv_record(row_display(rows.first())) + csv_rows(rows.drop_first())
    }
}

/// The whole CSV text: the header record, then one record per emitted row.
pub open spec fn csv_output(
    cols: Seq<ColumnDescriptor>,
    rows: Seq<Seq<FieldValue>>,
    limit: Option<usize>,
) -> Seq<char> {
    csv_record(col_names(cols)) + csv_rows(rows.take(cap_of(limit, rows.len()) as int))
}

/// Escaping distributes over appending one character at the end.
proof fn lemma_csv_escape_push(s: Seq<char>, c: char)
    ensures
        csv_escape(s.push(c)) == csv_escape(s) + csv_escape_char(c),
    decreases s.len(),
{
    if s.len() == 0 {
        reveal_with_fuel(csv_escape, 2);
        assert(s.push(c).drop_first() =~= Seq::<char>::empty());
        assert(s.push(c).first() == c);
        assert(csv_escape(s.push(c)) =~= csv_escape_char(c));
        assert(csv_escape(s) + csv_escape_char(c) =~= csv_escape_char(c));
    } else {
        assert(s.push(c).drop_first() =~= s.drop_first().push(c));
        lemma_csv_escape_push(s.drop_first(), c);
        assert(csv_escape(s.push(c)) == csv_escape_char(s.first()) + (csv_escape(s.drop_first())
            + csv_escape_char(c)));
        assert(csv_escape_char(s.first()) + (csv_escape(s.drop_first()) + csv_escape_char(c))
            =~= (csv_escape_char(s.first()) + csv_escape(s.drop_first())) + csv_escape_char(c));
    }
}

/// Joining distributes over appending one field at the end.
proof fn lemma_csv_fields_push(fields: Seq<Seq<char>>, f: Seq<char>)
    requires
        fields.len() >= 1,
    ensures
        csv_fields(fields.push(f)) == csv_fields(fields) + seq![','] + csv_field(f),
    decreases fields.len(),
{
    if fields.len() == 1 {
        assert(fields.push(f)[0] == fields[0]);
        assert(fields.push(f).drop_first() =~= seq![f]);
        assert(csv_fields(seq![f]) == csv_field(f));
        assert(csv_fields(fields.push(f)) == csv_field(fields[0]) + seq![','] + csv_field(f));
    } else {
        assert(fields.push(f).drop_first() =~= fields.drop_first().push(f));
        lemma_csv_fields_push(fields.drop_first(), f);
        assert(csv_fields(fields.push(f)) == csv_field(fields[0]) + seq![','] + (csv_fields(
            fields.drop_first(),
        ) + seq![','] + csv_field(f)));
        assert(csv_field(fields[0]) + seq![','] + (csv_fields(fields.drop_first()) + seq![',']
            + csv_field(f)) =~= (csv_field(fields[0]) + seq![','] + csv_fields(
            fields.drop_first(),
        )) + seq![','] + csv_field(f));
    }
}

/// The rows' text distributes over appending one row at the end.
proof fn lemma_csv_rows_push(rows: Seq<Seq<FieldValue>>, row: Seq<FieldValue>)
    ensures
        csv_rows(rows.push(row)) == csv_rows(rows) + csv_record(row_display(row)),
    decreases rows.len(),
{
    if rows.len() == 0 {
        reveal_with_fuel(csv_rows, 2);
        assert(rows.push(row).drop_first() =~= Seq::<Seq<FieldValue>>::empty());
        assert(rows.push(row).first() == row);
        assert(csv_rows(rows.push(row)) =~= csv_record(row_display(row)));
        assert(csv_rows(rows) + csv_record(row_display(row)) =~= csv_record(row_display(row)));
    } else {
        assert(rows.push(row).drop_first() =~= rows.drop_first().push(row));
        assert(rows.push(row).first() == rows.first());
        lemma_csv_rows_push(rows.drop_first(), row);
        assert(csv_rows(rows.push(row)) == csv_record(row_display(rows.first())) + (csv_rows(
            rows.drop_first(),
        ) + csv_record(row_display(row))));
        assert(csv_record(row_display(rows.first())) + (csv_rows(rows.drop_first()) + csv_record(
            row_display(row),
        )) =~= (csv_record(row_display(rows.first())) + csv_rows(rows.drop_first())) + csv_record(
            row_display(row),
        ));
    }
}

/// The length of the longest prefix free of special characters: how far
/// a reader scans an unquoted field.
pub open spec fn scan_plain(s: Seq<char>) -> nat
    decreases s.len(),
{
    if s.len() == 0 {
        0
    } else if csv_special(s.first()) {
        0
    } else {
        1 + scan_plain(s.drop_first())
    }
}

/// Reads the body of a quoted field, the opening quote already consumed:
/// the field's value and how many characters were read, the closing quote
/// included. A doubled quote stands for one quote; an unterminated field
/// reads nothing.
pub open spec fn scan_quoted(s: Seq<char>) -> Option<(Seq<char>, nat)>
    decreases s.len(),
{
    if s.len() == 0 {
        Option::None
    } else if s.first() == '"' {
        if s.len() >= 2 && s[1] == '"' {
            match scan_quoted(s.skip(2)) {
                Option::None => Option::None,
                Option::Some((f, u)) => Option::Some((seq!['"'] + f, (u + 2) as nat)),
            }
        } else {
            Option::Some((Seq::empty(), 1))
        }
    } else {
        match scan_quoted(s.drop_first()) {
            Option::None => Option::None,
            Option::Some((f, u)) => Option::Some((seq![s.first()] + f, (u + 1) as nat)),
        }
    }
}

/// Reads one field from the front of `s`: its value and how many
/// characters it took.
pub open spec fn parse_field(s: Seq<char>) -> Option<(Seq<char>, nat)> {
    if s.len() > 0 && s.first() == '"' {
        match scan_quoted(s.drop_first()) {
            Option::None => Option::None,
            Option::Some((f, u)) => Option::Some((f, (u + 1) as nat)),
        }
    } else {
        Option::Some((s.take(scan_plain(s) as int), scan_plain(s)))
    }
}

/// Reads a whole separator-joined field list, to the end of `s`.
pub open spec fn parse_fields(s: Seq<char>) -> Option<Seq<Seq<char>>>
    decreases s.len(),
{
    match parse_field(s) {
        Option::None => Option::None,
        Option::Some((f, u)) => if u > s.len() {
            Option::None
        } else {
            let rest = s.skip(u as int);
            if rest.len() == 0 {
                Option::Some(seq![f])
            } else if rest.first() == ',' {
                match parse_fields(rest.drop_first()) {
                    Option::None => Option::None,
                    Option::Some(fs) => Option::Some(seq![f] + fs),
                }
            } else {
                Option::None
            }
        },
    }
}

/// Reads one record: the text must end with the line feed terminator, and
/// the fields fill everything before it.
pub open spec fn parse_record(s: Seq<char>) -> Option<Seq<Seq<char>>> {
    if s.len() > 0 && s.last() == '\n' {
        parse_fields(s.drop_last())
    } else {
        Option::None
    }
}

proof fn lemma_scan_plain_concat(f: Seq<char>, rest: Seq<char>)
    requires
        !csv_needs_quote(f),
        rest.len() == 0 || csv_special(rest.first()),
    ensures
        scan_plain(f + rest) == f.len(),
    decreases f.len(),
{
    if f.len() == 0 {
        assert(f + rest =~= rest);
    } else {
        assert(!csv_special(f[0]));
        assert((f + rest).first() == f.first());
        assert((f + rest).drop_first() =~= f.drop_first() + rest);
        assert(!csv_needs_quote(f.drop_first())) by {
            assert(forall|i: int|
                0 <= i < f.drop_first().len() ==> f.drop_first()[i] == f[i + 1]);
        }
        lemma_scan_plain_concat(f.drop_first(), rest);
    }
}

proof fn lemma_scan_quoted_escape(f: Seq<char>, rest: Seq<char>)
    requires
        rest.len() == 0 || rest.first() != '"',
    ensures
        scan_quoted(csv_escape(f) + seq!['"'] + rest) == Option::Some(
            (f, (csv_escape(f).len() + 1) as nat),
        ),
    decreases f.len(),
{
    let s = csv_escape(f) + seq!['"'] + rest;
    if f.len() == 0 {
        assert(s =~= seq!['"'] + rest);
        assert(s.first() == '"');
        if s.len() >= 2 {
            assert(s[1] == rest.first());
        }
        assert(scan_quoted(s) == Option::Some((Seq::<char>::empty(), 1nat)));
        assert(f =~= Seq::<char>::empty());
    } else if f.first() == '"' {
        assert(csv_escape(f) == seq!['"', '"'] + csv_escape(f.drop_first()));
        assert(s.first() == '"');
        assert(s.len() >= 2);
        assert(s[1] == '"');
        assert(s.skip(2) =~= csv_escape(f.drop_first()) + seq!['"'] + rest);
        lemma_scan_quoted_escape(f.drop_first(), rest);
        assert(seq!['"'] + f.drop_first() =~= f);
        assert(csv_escape(f).len() == 2 + csv_escape(f.drop_first()).len());
    } else {
        assert(csv_escape(f) == seq![f.first()] + csv_escape(f.drop_first()));
        assert(s.first() == f.first());
        assert(s.first() != '"');
        assert(s.drop_first() =~= csv_escape(f.drop_first()) + seq!['"'] + rest);
        lemma_scan_quoted_escape(f.drop_first(), rest);
        assert(seq![f.first()] + f.drop_first() =~= f);
        assert(csv_escape(f).len() == 1 + csv_escape(f.drop_first()).len());
    }
}

proof fn lemma_parse_field_concat(f: Seq<char>, rest: Seq<char>)
    requires
        rest.len() == 0 || rest.first() == ',',
    ensures
        parse_field(csv_field(f) + rest) == Option::Some((f, csv_field(f).len() as nat)),
{
    let s = csv_field(f) + rest;
    if csv_needs_quote(f) {
        assert(csv_field(f) == seq!['"'] + csv_escape(f) + seq!['"']);
        assert(s.first() == '"');
        assert(s.len() > 0);
        assert(s.drop_first() =~= csv_escape(f) + seq!['"'] + rest);
        lemma_scan_quoted_escape(f, rest);
        assert(csv_field(f).len() == csv_escape(f).len() + 2);
    } else {
        assert(s =~= f + rest);
        assert(rest.len() == 0 || csv_special(rest.first()));
        lemma_scan_plain_concat(f, rest);
        if f.len() > 0 {
            assert(!csv_special(f[0]));
            assert(s.first() == f.first());
            assert(s.first() != '"');
        } else {
            if s.len() > 0 {
                assert(s.first() == rest.first());
                assert(s.first() != '"');
            }
        }
        assert(s.take(f.len() as int) =~= f);
    }
}

proof fn lemma_parse_fields_concat(fields: Seq<Seq<char>>)
    requires
        fields.len() >= 1,
    ensures
        parse_fields(csv_fields(fields)) == Option::Some(fields),
    decreases fields.len(),
{
    if fields.len() == 1 {
        let s = csv_fields(fields);
        assert(s == csv_field(fields[0]));
        assert(s =~= csv_field(fields[0]) + Seq::<char>::empty());
        lemma_parse_field_concat(fields[0], Seq::empty());
        assert(parse_field(s) == Option::Some((fields[0], csv_field(fields[0]).len() as nat)));
        assert(s.skip(csv_field(fields[0]).len() as int).len() == 0);
        assert(seq![fields[0]] =~= fields);
    } else {
        let s = csv_fields(fields);
        let tail = csv_fields(fields.drop_first());
        let rest = seq![','] + tail;
        assert(s == csv_field(fields[0]) + seq![','] + tail);
        assert(s =~= csv_field(fields[0]) + rest);
        assert(rest.first() == ',');
        lemma_parse_field_concat(fields[0], rest);
        assert(parse_field(s) == Option::Some((fields[0], csv_field(fields[0]).len() as nat)));
        let u = csv_field(fields[0]).len();
        assert(u <= s.len());
        assert(s.skip(u as int) =~= rest);
        assert(s.skip(u as int).drop_first() =~= tail);
        lemma_parse_fields_concat(fields.drop_first());
        assert(parse_fields(tail) == Option::Some(fields.drop_first()));
        assert(seq![fields[0]] + fields.drop_first() =~= fields);
    }
}

/// Round trip: reading an emitted record back gives exactly the fields
/// that were written — standard escaping loses nothing, whatever the
/// fields hold.
pub proof fn lemma_csv_round_trip(fields: Seq<Seq<char>>)
    requires
        fields.len() >= 1,
    ensures
        parse_record(csv_record(fields)) == Option::Some(fields),
{
    if fields.len() == 1 && fields[0].len() == 0 {
        let s = seq!['"', '"', '\n'];
        assert(csv_record(fields) == s);
        assert(s.last() == '\n');
        let body = s.drop_last();
        assert(body =~= seq!['"', '"']);
        assert(body.first() == '"');
        assert(body.drop_first() =~= seq!['"']);
        assert(scan_quoted(seq!['"']) == Option::Some((Seq::<char>::empty(), 1nat)));
        assert(parse_field(body) == Option::Some((Seq::<char>::empty(), 2nat)));
        assert(body.skip(2).len() == 0);
        assert(parse_fields(body) == Option::Some(seq![Seq::<char>::empty()]));
        assert(fields[0] =~= Seq::<char>::empty());
        assert(seq![Seq::<char>::empty()] =~= fields);
    } else {
        let s = csv_fields(fields) + seq!['\n'];
        assert(csv_record(fields) == s);
        assert(s.last() == '\n');
        assert(s.drop_last() =~= csv_fields(fields));
        lemma_parse_fields_concat(fields);
    }
}

/// The header record reads back as the column names: in particular it has
/// exactly one field per column.
pub proof fn lemma_csv_header_round_trip(cols: Seq<ColumnDescriptor>)
    requires
        cols.len() >= 1,
    ensures
        parse_record(csv_record(col_names(cols))) == Option::Some(col_names(cols)),
        col_names(cols).len() == cols.len(),
{
    lemma_csv_round_trip(col_names(cols));
}

/// Round trip through the display projection: a data record reads back as
/// the projected cells; a string-tagged cell comes back verbatim.
pub proof fn lemma_csv_row_round_trip(row: Seq<FieldValue>)
    requires
        row.len() >= 1,
    ensures
        parse_record(csv_record(row_display(row))) == Option::Some(row_display(row)),
        forall|j: int|
            0 <= j < row.len() ==> (#[trigger] row[j] matches FieldValue::Str(v) ==> row_display(
                row,
            )[j] == v@),
{
    lemma_csv_round_trip(row_display(row));
}

/// No character of `s` is a line break.
pub open spec fn line_break_free(s: Seq<char>) -> bool {
    forall|i: int| 0 <= i < s.len() ==> s[i] != '\n' && s[i] != '\r'
}

/// Whether a cell's display text is free of line breaks. Integer and
/// boolean cells always are; for the text-carrying tags the carried text
/// decides.
pub open spec fn cell_break_free(v: FieldValue) -> bool {
    match v {
        FieldValue::Str(s) => line_break_free(s@),
        FieldValue::Int(_) => true,
        FieldValue::Long(_) => true,
        FieldValue::Float(f) => line_break_free(f.text@),
        FieldValue::Double(f) => line_break_free(f.text@),
        FieldValue::Bool(_) => true,
        FieldValue::Other(s) => line_break_free(s@),
    }
}

proof fn lemma_int_seq_break_free(n: int)
    ensures
        line_break_free(int_seq(n)),
{
    if n >= 0 {
        lemma_dec_seq_digits(n as nat);
        assert(forall|i: int|
            0 <= i < dec_seq(n as nat).len() ==> is_dec_digit(#[trigger] dec_seq(n as nat)[i]));
    } else {
        lemma_dec_seq_digits((-n) as nat);
        let s = seq!['-'] + dec_seq((-n) as nat);
        assert forall|i: int| 0 <= i < s.len() implies s[i] != '\n' && s[i] != '\r' by {
            if i == 0 {
                assert(s[0] == '-');
            } else {
                assert(s[i] == dec_seq((-n) as nat)[i - 1]);
                assert(is_dec_digit(dec_seq((-n) as nat)[i - 1]));
            }
        }
    }
}

proof fn lemma_cell_break_free(v: FieldValue)
    requires
        cell_break_free(v),
    ensures
        line_break_free(v.display_seq()),
{
    match v {
        FieldValue::Int(i) => lemma_int_seq_break_free(i as int),
        FieldValue::Long(i) => lemma_int_seq_break_free(i as int),
        FieldValue::Bool(b) => {
            reveal_strlit("true");
            reveal_strlit("false");
        },
        _ => {},
    }
}

proof fn lemma_csv_escape_no_newline(s: Seq<char>)
    requires
        line_break_free(s),
    ensures
        count_char(csv_escape(s), '\n') == 0,
    decreases s.len(),
{
    if s.len() == 0 {
        lemma_count_char_zero(csv_escape(s), '\n');
    } else {
        assert(line_break_free(s.drop_first())) by {
            assert(forall|i: int|
                0 <= i < s.drop_first().len() ==> s.drop_first()[i] == s[i + 1]);
        }
        lemma_csv_escape_no_newline(s.drop_first());
        lemma_count_char_zero(csv_escape_char(s.first()), '\n');
        lemma_count_char_add(csv_escape_char(s.first()), csv_escape(s.drop_first()), '\n');
    }
}

proof fn lemma_csv_field_no_newline(s: Seq<char>)
    requires
        line_break_free(s),
    ensures
        count_char(csv_field(s), '\n') == 0,
{
    if csv_needs_quote(s) {
        lemma_csv_escape_no_newline(s);
        lemma_count_char_zero(seq!['"'], '\n');
        lemma_count_char_add(seq!['"'], csv_escape(s), '\n');
        lemma_count_char_add(seq!['"'] + csv_escape(s), seq!['"'], '\n');
        assert((seq!['"'] + csv_escape(s)) + seq!['"'] =~= seq!['"'] + csv_escape(s) + seq!['"']);
    } else {
        lemma_count_char_zero(s, '\n');
    }
}

proof fn lemma_csv_fields_no_newline(fields: Seq<Seq<char>>)
    requires
        forall|j: int| 0 <= j < fields.len() ==> line_break_free(#[trigger] fields[j]),
    ensures
        count_char(csv_fields(fields), '\n') == 0,
    decreases fields.len(),
{
    if fields.len() == 0 {
        lemma_count_char_zero(csv_fields(fields), '\n');
    } else if fields.len() == 1 {
        lemma_csv_field_no_newline(fields[0]);
    } else {
        assert(forall|j: int|
            0 <= j < fields.drop_first().len() ==> fields.drop_first()[j] == fields[j + 1]);
        lemma_csv_fields_no_newline(fields.drop_first());
        lemma_csv_field_no_newline(fields[0]);
        lemma_count_char_add(csv_field(fields[0]), seq![','], '\n');
        lemma_count_char_zero(seq![','], '\n');
        lemma_count_char_add(csv_field(fields[0]) + seq![','], csv_fields(fields.drop_first()),
            '\n');
        assert((csv_field(fields[0]) + seq![',']) + csv_fields(fields.drop_first()) =~= csv_field(
            fields[0],
        ) + seq![','] + csv_fields(fields.drop_first()));
    }
}

/// One record is one line: it holds exactly one line feed, the terminator,
/// provided no field's text holds a line break of its own.
proof fn lemma_csv_record_one_line(fields: Seq<Seq<char>>)
    requires
        forall|j: int| 0 <= j < fields.len() ==> line_break_free(#[trigger] fields[j]),
    ensures
        count_char(csv_record(fields), '\n') == 1,
{
    if fields.len() == 0 || (fields.len() == 1 && fields[0].len() == 0) {
        assert(seq!['"', '"', '\n'].drop_last() =~= seq!['"', '"']);
        lemma_count_char_zero(seq!['"', '"'], '\n');
        assert(count_char(seq!['"', '"', '\n'], '\n') == 1);
    } else {
        lemma_csv_fields_no_newline(fields);
        lemma_count_char_add(csv_fields(fields), seq!['\n'], '\n');
        assert(count_char(seq!['\n'], '\n') == 1) by {
            reveal_with_fuel(count_char, 2);
            assert(seq!['\n'].drop_last() =~= Seq::<char>::empty());
            assert(seq!['\n'].last() == '\n');
        }
    }
}

proof fn lemma_csv_rows_line_count(rows: Seq<Seq<FieldValue>>)
    requires
        forall|i: int, j: int|
            0 <= i < rows.len() && 0 <= j < rows[i].len() ==> line_break_free(
                (#[trigger] rows[i][j]).display_seq(),
            ),
    ensures
        count_char(csv_rows(rows), '\n') == rows.len(),
    decreases rows.len(),
{
    if rows.len() == 0 {
        lemma_count_char_zero(csv_rows(rows), '\n');
    } else {
        assert(forall|i: int, j: int|
            0 <= i < rows.drop_first().len() && 0 <= j < rows.drop_first()[i].len()
                ==> rows.drop_first()[i][j] == rows[i + 1][j]);
        lemma_csv_rows_line_count(rows.drop_first());
        assert(forall|j: int|
            0 <= j < row_display(rows.first()).len() ==> line_break_free(
                #[trigger] row_display(rows.first())[j],
            )) by {
            assert(forall|j: int|
                0 <= j < rows.first().len() ==> row_display(rows.first())[j] == (
                #[trigger] rows.first()[j]).display_seq());
            assert(forall|j: int| 0 <= j < rows.len() ==> rows.first()[j] == rows[0][j]);
        }
        lemma_csv_record_one_line(row_display(rows.first()));
        lemma_count_char_add(csv_record(row_display(rows.first())), csv_rows(rows.drop_first()),
            '\n');
    }
}

/// The emitted CSV text has exactly one line per record: a header line,
/// then one line per row the limit lets through — `K` lines of data when
/// the limit `K` is at most the row count `M`, all `M` when it is larger,
/// none when it is zero — provided no column name and no cell's own text
/// holds a line break (a line break inside a cell is kept, quoted, and
/// would add a line).
pub proof fn lemma_csv_line_count(
    cols: Seq<ColumnDescriptor>,
    rows: Seq<Seq<FieldValue>>,
    limit: Option<usize>,
)
    requires
        forall|j: int| 0 <= j < cols.len() ==> line_break_free((#[trigger] cols[j]).name@),
        forall|i: int, j: int|
            0 <= i < rows.len() && 0 <= j < rows[i].len() ==> cell_break_free(
                #[trigger] rows[i][j],
            ),
    ensures
        count_char(csv_output(cols, rows, limit), '\n') == cap_of(limit, rows.len()) + 1,
{
    assert forall|i: int, j: int|
        0 <= i < rows.len() && 0 <= j < rows[i].len() implies line_break_free(
        (#[trigger] rows[i][j]).display_seq(),
    ) by {
        lemma_cell_break_free(rows[i][j]);
    }
    let capped = rows.take(cap_of(limit, rows.len()) as int);
    assert(forall|j: int|
        0 <= j < col_names(cols).len() ==> line_break_free(#[trigger] col_names(cols)[j])) by {
        assert(forall|j: int|
            0 <= j < cols.len() ==> col_names(cols)[j] == (#[trigger] cols[j]).name@);
    }
    lemma_csv_record_one_line(col_names(cols));
    assert(forall|i: int, j: int|
        0 <= i < capped.len() && 0 <= j < capped[i].len() ==> capped[i][j] == rows[i][j]);
    lemma_csv_rows_line_count(capped);
    lemma_count_char_add(csv_record(col_names(cols)), csv_rows(capped), '\n');
}

/// The display projection of one cell, as characters.
fn value_chars(v: &FieldValue) -> (r: Vec<char>)
    ensures
        r@ == v.display_seq(),
{
    match v {
        FieldValue::Str(s) => chars_of(s.as_str()),
        FieldValue::Int(i) => i64_chars(*i as i64),
        FieldValue::Long(i) => i64_chars(*i),
        FieldValue::Float(f) => chars_of(f.text.as_str()),
        FieldValue::Double(f) => chars_of(f.text.as_str()),
        FieldValue::Bool(b) => if *b {
            chars_of("true")
        } else {
            chars_of("false")
        },
        FieldValue::Other(s) => chars_of(s.as_str()),
    }
}

/// Whether the field must be quoted.
fn field_needs_quote(s: &Vec<char>) -> (r: bool)
    ensures
        r == csv_needs_quote(s@),
{
    let mut i: usize = 0;
    while i < s.len()
        invariant
            0 <= i <= s@.len(),
            forall|j: int| 0 <= j < i ==> !csv_special(s@[j]),
        decreases s@.len() - i,
    {
        let c = s[i];
        if c == ',' || c == '"' || c == '\n' || c == '\r' {
            return true;
        }
        i = i + 1;
    }
    false
}

/// Appends one emitted field to `out`.
fn append_csv_field(out: &mut Vec<char>, s: &Vec<char>)
    ensures
        final(out)@ == old(out)@ + csv_field(s@),
{
    if !field_needs_quote(s) {
        append_chars(out, s);
        return ;
    }
    out.push('"');
    let mut i: usize = 0;
    while i < s.len()
        invariant
            0 <= i <= s@.len(),
            out@ == old(out)@ + seq!['"'] + csv_escape(s@.take(i as int)),
        decreases s@.len() - i,
    {
        let c = s[i];
        proof {
            assert(s@.take(i as int).push(s@[i as int]) =~= s@.take(i + 1));
            lemma_csv_escape_push(s@.take(i as int), s@[i as int]);
        }
        if c == '"' {
            out.push('"');
            out.push('"');
        } else {
            out.push(c);
        }
        proof {
            assert(old(out)@ + seq!['"'] + (csv_escape(s@.take(i as int)) + csv_escape_char(
                s@[i as int],
            )) =~= (old(out)@ + seq!['"'] + csv_escape(s@.take(i as int))) + csv_escape_char(
                s@[i as int],
            ));
        }
        i = i + 1;
    }
    out.push('"');
    proof {
        assert(s@.take(s@.len() as int) =~= s@);
        assert((old(out)@ + seq!['"'] + csv_escape(s@)).push('"') =~= old(out)@ + (seq!['"']
            + csv_escape(s@) + seq!['"']));
    }
}

/// One record from already-projected fields.
fn record_chars(fields: &Vec<Vec<char>>) -> (r: Vec<char>)
    ensures
        r@ == csv_record(fields@.map_values(|f: Vec<char>| f@)),
{
    let ghost view = fields@.map_values(|f: Vec<char>| f@);
    if fields.len() == 0 || (fields.len() == 1 && fields[0].len() == 0) {
        let mut out: Vec<char> = Vec::new();
        out.push('"');
        out.push('"');
        out.push('\n');
        proof {
            assert(out@ =~= seq!['"', '"', '\n']);
        }
        return out;
    }
    let mut out: Vec<char> = Vec::new();
    let mut i: usize = 0;
    while i < fields.len()
        invariant
            1 <= fields@.len(),
            view == fields@.map_values(|f: Vec<char>| f@),
            0 <= i <= fields@.len(),
            out@ == csv_fields(view.take(i as int)),
        decreases fields@.len() - i,
    {
        if i > 0 {
            out.push(',');
        }
        append_csv_field(&mut out, &fields[i]);
        proof {
            assert(view.take(i as int).push(view[i as int]) =~= view.take(i + 1));
            assert(view[i as int] == fields@[i as int]@);
            if i == 0 {
                assert(csv_fields(seq![view[0]]) == csv_field(view[0]));
                assert(view.take(1) =~= seq![view[0]]);
                assert(out@ =~= csv_field(view[0]));
            } else {
                lemma_csv_fields_push(view.take(i as int), view[i as int]);
            }
        }
        i = i + 1;
    }
    out.push('\n');
    proof {
        assert(view.take(view.len() as int) =~= view);
        assert(csv_fields(view).push('\n') =~= csv_fields(view) + seq!['\n']);
        assert(view.len() >= 1);
        assert(!(view.len() == 1 && view[0].len() == 0) ==> csv_record(view) == csv_fields(view)
            + seq!['\n']);
        assert(view[0] == fields@[0]@);
    }
    out
}

/// The CSV header line: the column names, in file order, as one record.
pub fn csv_header_line(cols: &Vec<ColumnDescriptor>) -> (r: String)
    ensures
        r@ == csv_record(col_names(cols@)),
{
    let mut fields: Vec<Vec<char>> = Vec::new();
    let mut i: usize = 0;
    while i < cols.len()
        invariant
            0 <= i <= cols@.len(),
            fields@.len() == i,
            forall|j: int| 0 <= j < i ==> fields@[j]@ == cols@[j].name@,
        decreases cols@.len() - i,
    {
        fields.push(chars_of(cols[i].name.as_str()));
        i = i + 1;
    }
    proof {
        assert(fields@.map_values(|f: Vec<char>| f@) =~= col_names(cols@));
    }
    let out = record_chars(&fields);
    string_of_chars(&out)
}

/// One CSV data line: the row's cells under the display policy, as one
/// record.
pub fn csv_row_line(row: &Vec<FieldValue>) -> (r: String)
    ensures
        r@ == csv_record(row_display(row@)),
{
    let mut fields: Vec<Vec<char>> = Vec::new();
    let mut i: usize = 0;
    while i < row.len()
        invariant
            0 <= i <= row@.len(),
            fields@.len() == i,
            forall|j: int| 0 <= j < i ==> fields@[j]@ == row@[j].display_seq(),
        decreases row@.len() - i,
    {
        fields.push(value_chars(&row[i]));
        i = i + 1;
    }
    proof {
        assert(fields@.map_values(|f: Vec<char>| f@) =~= row_display(row@));
    }
    let out = record_chars(&fields);
    string_of_chars(&out)
}

/// The whole CSV text for the given columns and rows: the header record,
/// then one record for each row the limit lets through, in row order.
pub fn to_csv(cols: &Vec<ColumnDescriptor>, rows: &Vec<Vec<FieldValue>>, limit: Option<usize>) -> (r:
    String)
    ensures
        r@ == csv_output(cols@, rows@.map_values(|row: Vec<FieldValue>| row@), limit),
{
    let ghost rview = rows@.map_values(|row: Vec<FieldValue>| row@);
    let cap: usize = match limit {
        Option::None => rows.len(),
        Option::Some(k) => if k <= rows.len() {
            k
        } else {
            rows.len()
        },
    };
    proof {
        assert(cap as nat == cap_of(limit, rview.len()));
    }
    let mut out = csv_header_line(cols);
    let mut i: usize = 0;
    while i < cap
        invariant
            cap <= rows@.len(),
            rview == rows@.map_values(|row: Vec<FieldValue>| row@),
            0 <= i <= cap,
            out@ == csv_record(col_names(cols@)) + csv_rows(rview.take(i as int)),
        decreases cap - i,
    {
        let line = csv_row_line(&rows[i]);
        out.append(line.as_str());
        proof {
            assert(rview.take(i as int).push(rview[i as int]) =~= rview.take(i + 1));
            lemma_csv_rows_push(rview.take(i as int), rview[i as int]);
            assert(rview[i as int] == rows@[i as int]@);
            assert((csv_record(col_names(cols@)) + csv_rows(rview.take(i as int))) + csv_record(
                row_display(rview[i as int]),
            ) =~= csv_record(col_names(cols@)) + (csv_rows(rview.take(i as int)) + csv_record(
                row_display(rview[i as int]),
            )));
        }
        i = i + 1;
    }
    out
}

} // verus!
