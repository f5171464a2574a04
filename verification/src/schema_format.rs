//! The schema table: a three-column cell grid — column name, physical
//! type, logical type or blank — with a header row first, then one row per
//! column in file-declared order. Rendering the grid as an aligned text
//! table is display work left to the caller.

use vstd::prelude::*;
use crate::model::ColumnDescriptor;

verus! {

/// The header cells of the schema table.
pub open spec fn schema_header() -> Seq<Seq<char>> {
    seq!["Column name"@, "Physical type"@, "Logical type"@]
}

/// The text shown for a column's logical type: its annotation, or blank
/// where the column has none.
pub open spec fn logical_seq(c: ColumnDescriptor) -> Seq<char> {
    match c.logical {
        Option::Some(s) => s@,
        Option::None => Seq::empty(),
    }
}

/// The cells of one column's row.
pub open spec fn schema_row(c: ColumnDescriptor) -> Seq<Seq<char>> {
    seq![c.name@, c.physical.spec_name(), logical_seq(c)]
}

/// The whole cell grid: the header row, then one row per column.
pub open spec fn schema_table(cols: Seq<ColumnDescriptor>) -> Seq<Seq<Seq<char>>> {
    seq![schema_header()] + cols.map_values(|c: ColumnDescriptor| schema_row(c))
}

/// The schema table has one row more than the file has columns: the
/// header first, then the columns' rows in file-declared order, each of
/// exactly three cells.
pub proof fn lemma_schema_table_shape(cols: Seq<ColumnDescriptor>)
    ensures
        schema_table(cols).len() == cols.len() + 1,
        schema_table(cols)[0] == schema_header(),
        forall|i: int|
            0 <= i < cols.len() ==> schema_table(cols)[i + 1] == schema_row(#[trigger] cols[i]),
        forall|i: int|
            0 <= i < schema_table(cols).len() ==> (#[trigger] schema_table(cols)[i]).len() == 3,
{
    assert(forall|i: int|
        0 <= i < cols.len() ==> schema_table(cols)[i + 1] == schema_row(#[trigger] cols[i]));
    assert forall|i: int| 0 <= i < schema_table(cols).len() implies (#[trigger] schema_table(
        cols,
    )[i]).len() == 3 by {
        if i == 0 {
            assert(schema_table(cols)[0] == schema_header());
        } else {
            assert(schema_table(cols)[i] == schema_row(cols[i - 1]));
        }
    }
}

/// The schema table's cells for the given columns: the header row, then
/// one three-cell row per column, in file-declared order.
pub fn schema_table_rows(cols: &Vec<ColumnDescriptor>) -> (r: Vec<Vec<String>>)
    ensures
        r@.map_values(|row: Vec<String>| row@.map_values(|s: String| s@)) == schema_table(cols@),
{
    let mut out: Vec<Vec<String>> = Vec::new();
    let mut header: Vec<String> = Vec::new();
    header.push(String::from_str("Column name"));
    header.push(String::from_str("Physical type"));
    header.push(String::from_str("Logical type"));
    proof {
        assert(header@.map_values(|s: String| s@) =~= schema_header());
    }
    out.push(header);
    let mut i: usize = 0;
    while i < cols.len()
        invariant
            0 <= i <= cols@.len(),
            out@.len() == i + 1,
            out@[0]@.map_values(|s: String| s@) == schema_header(),
            forall|k: int|
                0 <= k < i ==> (#[trigger] out@[k + 1])@.map_values(|s: String| s@) == schema_row(
                    cols@[k],
                ),
        decreases cols@.len() - i,
    {
        let c = &cols[i];
        let mut row: Vec<String> = Vec::new();
        row.push(c.name.clone());
        row.push(c.physical.name());
        match &c.logical {
            Option::Some(s) => row.push(s.clone()),
            Option::None => row.push(String::new()),
        }
        proof {
            assert(row@.map_values(|s: String| s@) =~= schema_row(cols@[i as int]));
        }
        out.push(row);
        i = i + 1;
    }
    proof {
        let view = out@.map_values(|row: Vec<String>| row@.map_values(|s: String| s@));
        assert forall|k: int| 0 <= k < view.len() implies view[k] == schema_table(cols@)[k] by {
            if k == 0 {
                assert(view[0] == out@[0]@.map_values(|s: String| s@));
            } else {
                assert(view[k] == out@[k]@.map_values(|s: String| s@));
                assert(out@[(k - 1) + 1]@.map_values(|s: String| s@) == schema_row(
                    cols@[k - 1],
                ));
                assert(schema_table(cols@)[k] == schema_row(cols@[k - 1]));
            }
        }
        assert(view =~~= schema_table(cols@));
    }
    out
}

} // verus!
