//! One entry of the archive: Windows-1250 bytes of a semicolon-delimited table.
use vstd::prelude::*;

use crate::error::AddressError;
use crate::record::Address;
use crate::table::{parse_records, table_records, table_valid, table_view};

verus! {

/// What `encoding_rs` makes of bytes read as Windows-1250.
pub uninterp spec fn windows_1250_text(bytes: Seq<u8>) -> Seq<char>;

/// The rows and cells that the `csv` crate reads from a text whose cells are
/// separated by `;`, or nothing where it finds no well-formed table.
pub uninterp spec fn semicolon_table(text: Seq<char>) -> Option<Seq<Seq<Seq<char>>>>;

/// Relies on `encoding_rs::Encoding::decode` for `WINDOWS_1250`: the text
/// the bytes stand for (a byte order mark may switch to UTF-8 or UTF-16), with
/// U+FFFD in place of what cannot be decoded.
#[verifier::external_body]
fn decode_windows_1250(bytes: &[u8]) -> (r: String)
    ensures
        r@ == windows_1250_text(bytes@),
{
    encoding_rs::WINDOWS_1250.decode(bytes).0.into_owned()
}

/// Relies on `csv::ReaderBuilder` with `;` as delimiter and no header row,
/// and on `csv::Reader::records`: every record of the text with its fields,
/// or the first error.
#[verifier::external_body]
fn split_semicolon_table(text: &str) -> (r: Result<Vec<Vec<String>>, csv::Error>)
    ensures
        r is Ok <==> semicolon_table(text@) is Some,
        r is Ok ==> table_view(r->Ok_0@) == semicolon_table(text@)->0,
{
    csv::ReaderBuilder::new()
        .delimiter(b';')
        .has_headers(false)
        .from_reader(text.as_bytes())
        .records()
        .map(|rec| rec.map(|rec| rec.iter().map(String::from).collect()))
        .collect()
}

#[verifier::external_type_specification]
#[verifier::external_body]
pub struct ExCsvError(csv::Error);

/// The table of an entry's bytes.
pub open spec fn entry_table(bytes: Seq<u8>) -> Option<Seq<Seq<Seq<char>>>> {
    semicolon_table(windows_1250_text(bytes))
}

/// An entry holds a table whose rows all make records.
pub open spec fn entry_valid(bytes: Seq<u8>) -> bool {
    entry_table(bytes) is Some && table_valid(entry_table(bytes)->0)
}

/// `out` holds the records of an entry's table, in the order of its rows.
pub open spec fn entry_records(bytes: Seq<u8>, out: Seq<Address>) -> bool {
    table_records(entry_table(bytes)->0, out)
}

/// Reads the records of a table given as text whose cells are separated by
/// `;` and whose first row is the header; `entry` is reported in errors.
pub fn parse_text(text: &str, entry: usize) -> (r: Result<Vec<Address>, AddressError>)
    ensures
        r is Ok <==> semicolon_table(text@) is Some && table_valid(semicolon_table(text@)->0),
        r is Ok ==> table_records(semicolon_table(text@)->0, r->Ok_0@),
        r == Err::<Vec<Address>, AddressError>(AddressError::Csv { entry }) <==> semicolon_table(text@) is None,
        r matches Err(e) ==> (e is Csv || e is MissingColumn || e is DuplicateColumn || e is Row),
        r matches Err(e) ==> e.entry_index() == Some(entry),
{
    match split_semicolon_table(text) {
        Ok(rows) => parse_records(&rows, entry),
        Err(_) => Err(AddressError::Csv { entry }),
    }
}

/// Reads the records of one entry of the archive: Windows-1250 bytes of a
/// table whose cells are separated by `;` and whose first row is the header.
pub fn parse_entry(bytes: &[u8], entry: usize) -> (r: Result<Vec<Address>, AddressError>)
    ensures
        r is Ok <==> entry_valid(bytes@),
        r is Ok ==> entry_records(bytes@, r->Ok_0@),
        r == Err::<Vec<Address>, AddressError>(AddressError::Csv { entry }) <==> entry_table(bytes@) is None,
        r matches Err(e) ==> (e is Csv || e is MissingColumn || e is DuplicateColumn || e is Row),
        r matches Err(e) ==> e.entry_index() == Some(entry),
{
    let text = decode_windows_1250(bytes);
    parse_text(text.as_str(), entry)
}

} // verus!
