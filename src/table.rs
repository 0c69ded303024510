//! A table of cells, with a header row, read into address records.
use vstd::prelude::*;

use crate::error::AddressError;
use crate::record::{
    address_from_cells, address_from_row_cells, cell_view, cells_valid, field_header, field_is_required,
    field_name, is_required, Address, FIELD_COUNT,
};

verus! {

/// The text of the cells of one row.
pub open spec fn text_row(r: Seq<String>) -> Seq<Seq<char>> {
    r.map_values(|s: String| s@)
}

/// The text of the cells of a table, row by row.
pub open spec fn table_view(rows: Seq<Vec<String>>) -> Seq<Seq<Seq<char>>> {
    rows.map_values(|r: Vec<String>| text_row(r@))
}

/// The header has a column for field `k`.
pub open spec fn header_has(h: Seq<Seq<char>>, k: int) -> bool {
    exists|l: int| 0 <= l < h.len() && h[l] == field_name(k)
}

/// The header has two columns for field `k`.
pub open spec fn header_repeats(h: Seq<Seq<char>>, k: int) -> bool {
    exists|l1: int, l2: int|
        0 <= l1 < l2 < h.len() && h[l1] == field_name(k) && h[l2] == field_name(k)
}

/// A header names field `k` at most once, and once if it is required.
pub open spec fn header_field_valid(h: Seq<Seq<char>>, k: int) -> bool {
    !header_repeats(h, k) && (is_required(k) ==> header_has(h, k))
}

/// A header names each field at most once and each required field once.
pub open spec fn header_valid(h: Seq<Seq<char>>) -> bool {
    forall|k: int| 0 <= k < FIELD_COUNT ==> #[trigger] header_field_valid(h, k)
}

/// The column of field `k` in a header that has one.
pub open spec fn column_of(h: Seq<Seq<char>>, k: int) -> int {
    choose|l: int| 0 <= l < h.len() && h[l] == field_name(k)
}

/// The cell of field `k` in a row; empty where the header has no column for it.
pub open spec fn field_cell(h: Seq<Seq<char>>, row: Seq<Seq<char>>, k: int) -> Seq<char> {
    if header_has(h, k) {
        row[column_of(h, k)]
    } else {
        Seq::empty()
    }
}

/// The cells of a row in field order.
pub open spec fn row_cells(h: Seq<Seq<char>>, row: Seq<Seq<char>>) -> Seq<Seq<char>> {
    Seq::new(FIELD_COUNT as nat, |k: int| field_cell(h, row, k))
}

/// A row has a cell for each column of the header, and its cells make a record.
pub open spec fn row_valid(h: Seq<Seq<char>>, row: Seq<Seq<char>>) -> bool {
    row.len() == h.len() && cells_valid(row_cells(h, row))
}

/// A table is empty, or has a valid header and valid rows below it.
pub open spec fn table_valid(t: Seq<Seq<Seq<char>>>) -> bool {
    t.len() == 0 || (header_valid(t[0]) && forall|i: int| 1 <= i < t.len() ==> row_valid(t[0], #[trigger] t[i]))
}

/// `out` holds the records of the rows below the header of `t`, one per
/// row, in the order of the rows.
pub open spec fn table_records(t: Seq<Seq<Seq<char>>>, out: Seq<Address>) -> bool {
    if t.len() == 0 {
        out.len() == 0
    } else {
        out.len() + 1 == t.len() && forall|i: int|
            0 <= i < out.len() ==> address_from_cells(#[trigger] out[i], row_cells(t[0], t[i + 1]))
    }
}

/// The columns of the fields, in field order, as a header gives them.
pub open spec fn columns_of(h: Seq<Seq<char>>, cols: Seq<Option<usize>>) -> bool {
    &&& cols.len() == FIELD_COUNT
    &&& forall|k: int|
        0 <= k < FIELD_COUNT ==> match #[trigger] cols[k] {
            Some(j) => j < h.len() && h[j as int] == field_name(k),
            None => !header_has(h, k),
        }
}

proof fn lemma_single_column(h: Seq<Seq<char>>, k: int, j: int)
    requires
        !header_repeats(h, k),
        0 <= j < h.len(),
        h[j] == field_name(k),
    ensures
        header_has(h, k),
        column_of(h, k) == j,
{
    let l = column_of(h, k);
    assert(0 <= l < h.len() && h[l] == field_name(k));
    if l < j {
        assert(header_repeats(h, k));
    } else if j < l {
        assert(header_repeats(h, k));
    }
}

fn same_text(a: &str, b: &str) -> (r: bool)
    ensures
        r == (a@ == b@),
{
    let n = a.unicode_len();
    if n != b.unicode_len() {
        return false;
    }
    let mut i: usize = 0;
    while i < n
        invariant
            i <= n,
            n == a@.len(),
            n == b@.len(),
            a@.subrange(0, i as int) == b@.subrange(0, i as int),
        decreases n - i,
    {
        if a.get_char(i) != b.get_char(i) {
            return false;
        }
        assert(a@.subrange(0, i + 1) =~= a@.subrange(0, i as int).push(a@[i as int]));
        assert(b@.subrange(0, i + 1) =~= b@.subrange(0, i as int).push(b@[i as int]));
        i = i + 1;
    }
    assert(a@.subrange(0, n as int) =~= a@);
    assert(b@.subrange(0, n as int) =~= b@);
    true
}

/// Finds the column of each field in the header of entry `entry`.
pub fn column_table(header: &Vec<String>, entry: usize) -> (r: Result<Vec<Option<usize>>, AddressError>)
    ensures
        r is Ok <==> header_valid(text_row(header@)),
        r is Ok ==> columns_of(text_row(header@), r->Ok_0@),
        r matches Err(AddressError::MissingColumn { entry: e, field }) ==> e == entry && field
            < FIELD_COUNT && is_required(field as int) && !header_has(text_row(header@), field as int),
        r matches Err(AddressError::DuplicateColumn { entry: e, field }) ==> e == entry && field
            < FIELD_COUNT && header_repeats(text_row(header@), field as int),
        r matches Err(e) ==> e is MissingColumn || e is DuplicateColumn,
{
    let ghost h = text_row(header@);
    let mut cols: Vec<Option<usize>> = Vec::new();
    let mut k: usize = 0;
    while k < FIELD_COUNT
        invariant
            k <= FIELD_COUNT,
            h == text_row(header@),
            cols@.len() == k,
            forall|q: int| 0 <= q < k ==> #[trigger] header_field_valid(h, q),
            forall|q: int|
                0 <= q < k ==> match #[trigger] cols@[q] {
                    Some(j) => j < h.len() && h[j as int] == field_name(q),
                    None => !header_has(h, q),
                },
        decreases FIELD_COUNT - k,
    {
        let name = field_header(k);
        let mut found: Option<usize> = None;
        let mut j: usize = 0;
        while j < header.len()
            invariant
                k < FIELD_COUNT,
                j <= header@.len(),
                h == text_row(header@),
                name@ == field_name(k as int),
                match found {
                    Some(f) => f < j && h[f as int] == name@ && forall|l: int|
                        0 <= l < j && l != f ==> h[l] != name@,
                    None => forall|l: int| 0 <= l < j ==> h[l] != name@,
                },
            decreases header@.len() - j,
        {
            assert(h[j as int] == header@[j as int]@);
            if same_text(header[j].as_str(), name) {
                match found {
                    Some(f) => {
                        assert(header_repeats(h, k as int));
                        assert(!header_field_valid(h, k as int));
                        return Err(AddressError::DuplicateColumn { entry, field: k });
                    },
                    None => {
                        found = Some(j);
                    },
                }
            }
            j = j + 1;
        }
        proof {
            if header_repeats(h, k as int) {
                let (l1, l2) = choose|l1: int, l2: int|
                    0 <= l1 < l2 < h.len() && h[l1] == field_name(k as int) && h[l2] == field_name(k as int);
                match found {
                    Some(f) => {
                        assert(l1 == f && l2 == f);
                    },
                    None => {
                        assert(h[l1] != name@);
                    },
                }
            }
            match found {
                Some(f) => {
                    assert(0 <= f < h.len() && h[f as int] == field_name(k as int));
                    assert(header_has(h, k as int));
                },
                None => {
                    assert(!header_has(h, k as int));
                },
            }
        }
        if found.is_none() && field_is_required(k) {
            assert(!header_field_valid(h, k as int));
            return Err(AddressError::MissingColumn { entry, field: k });
        }
        cols.push(found);
        k = k + 1;
    }
    Ok(cols)
}

/// Reads the records of a table whose first row is its header; `entry` is
/// the table's position, reported in errors. An empty table has no records.
pub fn parse_records(rows: &Vec<Vec<String>>, entry: usize) -> (r: Result<Vec<Address>, AddressError>)
    ensures
        r is Ok <==> table_valid(table_view(rows@)),
        r is Ok ==> table_records(table_view(rows@), r->Ok_0@),
        r matches Err(AddressError::MissingColumn { entry: e, field }) ==> e == entry && field
            < FIELD_COUNT && is_required(field as int) && !header_has(table_view(rows@)[0], field as int),
        r matches Err(AddressError::DuplicateColumn { entry: e, field }) ==> e == entry && field
            < FIELD_COUNT && header_repeats(table_view(rows@)[0], field as int),
        r matches Err(AddressError::Row { entry: e, row }) ==> e == entry && header_valid(
            table_view(rows@)[0],
        ) && 1 <= row < rows@.len() && !row_valid(table_view(rows@)[0], table_view(rows@)[row as int])
            && forall|i: int| 1 <= i < row ==> row_valid(table_view(rows@)[0], table_view(rows@)[i]),
        r matches Err(e) ==> e is MissingColumn || e is DuplicateColumn || e is Row,
{
    let ghost t = table_view(rows@);
    if rows.len() == 0 {
        return Ok(Vec::new());
    }
    let header = &rows[0];
    let ghost h = t[0];
    assert(h == text_row(header@));
    let cols = match column_table(header, entry) {
        Ok(cols) => cols,
        Err(e) => return Err(e),
    };
    let mut out: Vec<Address> = Vec::new();
    let mut i: usize = 1;
    while i < rows.len()
        invariant
            1 <= i <= rows@.len(),
            t == table_view(rows@),
            h == t[0],
            h == text_row(header@),
            header_valid(h),
            columns_of(h, cols@),
            out@.len() + 1 == i,
            forall|q: int| 1 <= q < i ==> row_valid(h, #[trigger] t[q]),
            forall|q: int| 0 <= q < out@.len() ==> address_from_cells(#[trigger] out@[q], row_cells(h, t[q + 1])),
        decreases rows@.len() - i,
    {
        let row = &rows[i];
        let ghost tr = t[i as int];
        assert(tr == text_row(row@));
        assert(tr.len() == row@.len() && h.len() == header@.len());
        if row.len() != header.len() {
            assert(!row_valid(h, t[i as int]));
            return Err(AddressError::Row { entry, row: i });
        }
        let mut cells: Vec<Option<&str>> = Vec::new();
        let mut k: usize = 0;
        while k < FIELD_COUNT
            invariant
                k <= FIELD_COUNT,
                header_valid(h),
                columns_of(h, cols@),
                tr == text_row(row@),
                row@.len() == h.len(),
                cells@.len() == k,
                forall|q: int| 0 <= q < k ==> cell_view(#[trigger] cells@[q]) == field_cell(h, tr, q),
            decreases FIELD_COUNT - k,
        {
            assert(cols@[k as int] == cols[k as int]);
            match cols[k] {
                Some(j) => {
                    proof {
                        assert(header_field_valid(h, k as int));
                        lemma_single_column(h, k as int, j as int);
                    }
                    assert(tr[j as int] == row@[j as int]@);
                    cells.push(Some(row[j].as_str()));
                },
                None => {
                    cells.push(None);
                },
            }
            k = k + 1;
        }
        assert(cells@.map_values(|c: Option<&str>| cell_view(c)) =~= row_cells(h, tr));
        match address_from_row_cells(&cells) {
            Some(a) => {
                out.push(a);
            },
            None => {
                assert(!row_valid(h, t[i as int]));
                return Err(AddressError::Row { entry, row: i });
            },
        }
        i = i + 1;
    }
    Ok(out)
}

} // verus!
