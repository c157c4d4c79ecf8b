use vstd::prelude::*;

use crate::record::{find_value, value_of, Columns, Record};

verus! {

/// Pairs each header with the field at its position; extra headers or extra
/// fields are left out.
pub open spec fn zip_columns(headers: Seq<Seq<char>>, fields: Seq<Seq<char>>) -> Columns {
    Seq::new(
        if headers.len() <= fields.len() { headers.len() } else { fields.len() },
        |i: int| (headers[i], fields[i]),
    )
}

/// The text shown for column `name` of `cols`: its value, or nothing.
pub open spec fn cell_text(cols: Columns, name: Seq<char>) -> Seq<char> {
    match value_of(cols, name) {
        Some(v) => v,
        None => Seq::empty(),
    }
}

/// The rows of the display of `records`: a header row with the column names
/// of the first record, then one row per record with its value under each.
pub open spec fn display_grid(records: Seq<Columns>) -> Seq<Seq<Seq<char>>> {
    if records.len() == 0 {
        Seq::empty()
    } else {
        let names = records[0].map_values(|p: (Seq<char>, Seq<char>)| p.0);
        seq![names] + records.map_values(
            |c: Columns| names.map_values(|n: Seq<char>| cell_text(c, n)),
        )
    }
}

/// The text of each string of `row`.
pub open spec fn texts(row: Vec<String>) -> Seq<Seq<char>> {
    row@.map_values(|s: String| s@)
}

/// A record whose columns pair `headers` with `fields`, position by position.
pub fn record_from_fields(headers: &Vec<String>, fields: &Vec<String>) -> (r: Record)
    ensures
        r@ == zip_columns(texts(*headers), texts(*fields)),
{
    let n = if headers.len() <= fields.len() {
        headers.len()
    } else {
        fields.len()
    };
    let mut columns: Vec<(String, String)> = Vec::new();
    let mut k: usize = 0;
    while k < n
        invariant
            n <= headers@.len(),
            n <= fields@.len(),
            n == (if headers@.len() <= fields@.len() { headers@.len() } else { fields@.len() }),
            k <= n,
            columns@.len() == k,
            forall|j: int|
                0 <= j < k ==> #[trigger] columns@[j].0@ == headers@[j]@ && columns@[j].1@
                    == fields@[j]@,
        decreases n - k,
    {
        columns.push((headers[k].clone(), fields[k].clone()));
        k += 1;
    }
    let r = Record { columns };
    assert(r@ =~= zip_columns(texts(*headers), texts(*fields)));
    r
}

fn row_of(record: &Record, names: &Vec<String>) -> (r: Vec<String>)
    ensures
        texts(r) == texts(*names).map_values(|n: Seq<char>| cell_text(record@, n)),
{
    let mut row: Vec<String> = Vec::new();
    let mut k: usize = 0;
    while k < names.len()
        invariant
            k <= names@.len(),
            row@.len() == k,
            forall|j: int|
                0 <= j < k ==> #[trigger] row@[j]@ == cell_text(record@, names@[j]@),
        decreases names@.len() - k,
    {
        let cell = match find_value(record, &names[k]) {
            Some(v) => v.clone(),
            None => String::new(),
        };
        row.push(cell);
        k += 1;
    }
    assert(texts(row) =~= texts(*names).map_values(|n: Seq<char>| cell_text(record@, n)));
    row
}

/// The cells of the display of `records`, row by row; no rows when there
/// are no records.
pub fn display_rows(records: &[Record]) -> (r: Vec<Vec<String>>)
    ensures
        r@.map_values(|row: Vec<String>| texts(row)) == display_grid(
            records@.map_values(|x: Record| x@),
        ),
{
    let ghost input = records@.map_values(|x: Record| x@);
    let mut out: Vec<Vec<String>> = Vec::new();
    if records.len() == 0 {
        assert(out@.map_values(|row: Vec<String>| texts(row)) =~= display_grid(input));
        return out;
    }
    let first = &records[0];
    let mut names: Vec<String> = Vec::new();
    let mut k: usize = 0;
    while k < first.columns.len()
        invariant
            k <= first.columns@.len(),
            names@.len() == k,
            forall|j: int| 0 <= j < k ==> #[trigger] names@[j]@ == first.columns@[j].0@,
        decreases first.columns@.len() - k,
    {
        names.push(first.columns[k].0.clone());
        k += 1;
    }
    let ghost header = input[0].map_values(|p: (Seq<char>, Seq<char>)| p.0);
    assert(texts(names) =~= header);
    out.push(names.clone());
    let mut i: usize = 0;
    while i < records.len()
        invariant
            i <= records@.len(),
            input == records@.map_values(|x: Record| x@),
            texts(names) == header,
            out@.len() == i + 1,
            texts(out@[0]) == header,
            forall|j: int|
                0 <= j < i ==> #[trigger] texts(out@[j + 1]) == header.map_values(
                    |n: Seq<char>| cell_text(input[j], n),
                ),
        decreases records@.len() - i,
    {
        let row = row_of(&records[i], &names);
        out.push(row);
        i += 1;
    }
    assert(out@.map_values(|row: Vec<String>| texts(row)) =~= display_grid(input)) by {
        let g = display_grid(input);
        assert forall|j: int| 0 <= j < out@.len() implies #[trigger] texts(out@[j]) == g[j] by {
            if j > 0 {
                assert(texts(out@[(j - 1) + 1]) == header.map_values(
                    |n: Seq<char>| cell_text(input[j - 1], n),
                ));
            }
        }
    }
    out
}

} // verus!
