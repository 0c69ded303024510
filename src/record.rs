//! The address record and how one table row becomes one.
use vstd::prelude::*;

use crate::address_date_format::{date_cell_seconds, deserialize, UtcInstant};
use crate::number::{parse_unsigned, unsigned_value};

verus! {

/// The number of columns a table of address places has, and of fields of
/// [`Address`].
pub const FIELD_COUNT: usize = 19;

/// One address place.
///
/// The coordinates are kept as the decimal text of their cells: turning them
/// into floating-point numbers is left to the caller.
#[derive(Clone, Debug, PartialEq)]
pub struct Address {
    pub adm_code: u32,
    pub town_code: u32,
    pub town: String,
    pub city_part_code: Option<u64>,
    pub city_part: Option<String>,
    pub prague_part_code: Option<u64>,
    pub prague_part: Option<String>,
    pub town_part_code: u32,
    pub town_part: String,
    pub street_code: Option<u32>,
    pub street: Option<String>,
    pub object_type: String,
    pub number: u32,
    pub orientation_number: Option<u32>,
    pub orientation_number_sign: Option<String>,
    pub zip_code: u32,
    pub location_x: Option<String>,
    pub location_y: Option<String>,
    pub valid_since: UtcInstant,
}

/// The header of the column that fills field `k` of [`Address`], in field order.
pub open spec fn field_name(k: int) -> Seq<char> {
    if k == 0 { "Kód ADM"@ }
    else if k == 1 { "Kód obce"@ }
    else if k == 2 { "Název obce"@ }
    else if k == 3 { "Kód MOMC"@ }
    else if k == 4 { "Název MOMC"@ }
    else if k == 5 { "Kód obvodu Prahy"@ }
    else if k == 6 { "Název obvodu Prahy"@ }
    else if k == 7 { "Kód části obce"@ }
    else if k == 8 { "Název části obce"@ }
    else if k == 9 { "Kód ulice"@ }
    else if k == 10 { "Název ulice"@ }
    else if k == 11 { "Typ SO"@ }
    else if k == 12 { "Číslo domovní"@ }
    else if k == 13 { "Číslo orientační"@ }
    else if k == 14 { "Znak čísla orientačního"@ }
    else if k == 15 { "PSČ"@ }
    else if k == 16 { "Souřadnice X"@ }
    else if k == 17 { "Souřadnice Y"@ }
    else { "Platí Od"@ }
}

/// The header of the column that fills field `k`.
pub fn field_header(k: usize) -> (r: &'static str)
    requires
        k < FIELD_COUNT,
    ensures
        r@ == field_name(k as int),
{
    if k == 0 { "Kód ADM" }
    else if k == 1 { "Kód obce" }
    else if k == 2 { "Název obce" }
    else if k == 3 { "Kód MOMC" }
    else if k == 4 { "Název MOMC" }
    else if k == 5 { "Kód obvodu Prahy" }
    else if k == 6 { "Název obvodu Prahy" }
    else if k == 7 { "Kód části obce" }
    else if k == 8 { "Název části obce" }
    else if k == 9 { "Kód ulice" }
    else if k == 10 { "Název ulice" }
    else if k == 11 { "Typ SO" }
    else if k == 12 { "Číslo domovní" }
    else if k == 13 { "Číslo orientační" }
    else if k == 14 { "Znak čísla orientačního" }
    else if k == 15 { "PSČ" }
    else if k == 16 { "Souřadnice X" }
    else if k == 17 { "Souřadnice Y" }
    else { "Platí Od" }
}

/// Whether field `k` must be present in every row; the others may be empty.
pub open spec fn is_required(k: int) -> bool {
    k == 0 || k == 1 || k == 2 || k == 7 || k == 8 || k == 11 || k == 12 || k == 15 || k == 18
}

pub fn field_is_required(k: usize) -> (r: bool)
    ensures
        r == is_required(k as int),
{
    k == 0 || k == 1 || k == 2 || k == 7 || k == 8 || k == 11 || k == 12 || k == 15 || k == 18
}

pub open spec fn u32_max() -> int {
    u32::MAX as int
}

pub open spec fn u64_max() -> int {
    u64::MAX as int
}

/// An optional numeric cell is empty, or holds a number up to `max`.
pub open spec fn optional_number_valid(c: Seq<char>, max: int) -> bool {
    c.len() == 0 || unsigned_value(c, max) is Some
}

/// Whether the 19 cells of a row, in field order, make a record.
pub open spec fn cells_valid(c: Seq<Seq<char>>) -> bool {
    &&& unsigned_value(c[0], u32_max()) is Some
    &&& unsigned_value(c[1], u32_max()) is Some
    &&& optional_number_valid(c[3], u64_max())
    &&& optional_number_valid(c[5], u64_max())
    &&& unsigned_value(c[7], u32_max()) is Some
    &&& optional_number_valid(c[9], u32_max())
    &&& unsigned_value(c[12], u32_max()) is Some
    &&& optional_number_valid(c[13], u32_max())
    &&& unsigned_value(c[15], u32_max()) is Some
    &&& date_cell_seconds(c[18]) is Some
}

pub open spec fn required_number_is(v: int, c: Seq<char>, max: int) -> bool {
    unsigned_value(c, max) == Some(v)
}

pub open spec fn optional_number_is(o: Option<int>, c: Seq<char>, max: int) -> bool {
    if c.len() == 0 {
        o is None
    } else {
        o == unsigned_value(c, max)
    }
}

pub open spec fn optional_u64_view(o: Option<u64>) -> Option<int> {
    match o {
        Some(v) => Some(v as int),
        None => None,
    }
}

pub open spec fn optional_u32_view(o: Option<u32>) -> Option<int> {
    match o {
        Some(v) => Some(v as int),
        None => None,
    }
}

/// An optional text field is absent for an empty cell, else it holds the cell.
pub open spec fn optional_text_is(o: Option<String>, c: Seq<char>) -> bool {
    if c.len() == 0 {
        o is None
    } else {
        o is Some && o->0@ == c
    }
}

/// Whether `a` is the record that the 19 cells `c`, in field order, stand for.
pub open spec fn address_from_cells(a: Address, c: Seq<Seq<char>>) -> bool {
    &&& required_number_is(a.adm_code as int, c[0], u32_max())
    &&& required_number_is(a.town_code as int, c[1], u32_max())
    &&& a.town@ == c[2]
    &&& optional_number_is(optional_u64_view(a.city_part_code), c[3], u64_max())
    &&& optional_text_is(a.city_part, c[4])
    &&& optional_number_is(optional_u64_view(a.prague_part_code), c[5], u64_max())
    &&& optional_text_is(a.prague_part, c[6])
    &&& required_number_is(a.town_part_code as int, c[7], u32_max())
    &&& a.town_part@ == c[8]
    &&& optional_number_is(optional_u32_view(a.street_code), c[9], u32_max())
    &&& optional_text_is(a.street, c[10])
    &&& a.object_type@ == c[11]
    &&& required_number_is(a.number as int, c[12], u32_max())
    &&& optional_number_is(optional_u32_view(a.orientation_number), c[13], u32_max())
    &&& optional_text_is(a.orientation_number_sign, c[14])
    &&& required_number_is(a.zip_code as int, c[15], u32_max())
    &&& optional_text_is(a.location_x, c[16])
    &&& optional_text_is(a.location_y, c[17])
    &&& date_cell_seconds(c[18]) == Some(a.valid_since.seconds as int)
}

/// The text of a cell, where a missing cell reads as empty.
pub open spec fn cell_view(c: Option<&str>) -> Seq<char> {
    match c {
        Some(s) => s@,
        None => Seq::empty(),
    }
}

fn required_u32(c: Option<&str>) -> (r: Option<u32>)
    ensures
        r is Some <==> unsigned_value(cell_view(c), u32_max()) is Some,
        r is Some ==> required_number_is(r->0 as int, cell_view(c), u32_max()),
{
    match c {
        Some(s) => match parse_unsigned(s, 0xffff_ffff) {
            Some(v) => Some(v as u32),
            None => None,
        },
        None => None,
    }
}

fn optional_u64(c: Option<&str>) -> (r: Option<Option<u64>>)
    ensures
        r is Some <==> optional_number_valid(cell_view(c), u64_max()),
        r is Some ==> optional_number_is(optional_u64_view(r->0), cell_view(c), u64_max()),
{
    match c {
        Some(s) => {
            if s.unicode_len() == 0 {
                Some(None)
            } else {
                match parse_unsigned(s, 0xffff_ffff_ffff_ffff) {
                    Some(v) => Some(Some(v)),
                    None => None,
                }
            }
        },
        None => Some(None),
    }
}

fn optional_u32(c: Option<&str>) -> (r: Option<Option<u32>>)
    ensures
        r is Some <==> optional_number_valid(cell_view(c), u32_max()),
        r is Some ==> optional_number_is(optional_u32_view(r->0), cell_view(c), u32_max()),
{
    match c {
        Some(s) => {
            if s.unicode_len() == 0 {
                Some(None)
            } else {
                match parse_unsigned(s, 0xffff_ffff) {
                    Some(v) => Some(Some(v as u32)),
                    None => None,
                }
            }
        },
        None => Some(None),
    }
}

fn optional_text(c: Option<&str>) -> (r: Option<String>)
    ensures
        optional_text_is(r, cell_view(c)),
{
    match c {
        Some(s) => {
            if s.unicode_len() == 0 {
                None
            } else {
                Some(s.to_owned())
            }
        },
        None => None,
    }
}

fn required_text(c: Option<&str>) -> (r: String)
    ensures
        r@ == cell_view(c),
{
    match c {
        Some(s) => s.to_owned(),
        None => String::new(),
    }
}

/// Makes the record that 19 cells, given in field order, stand for, or
/// `None` when one of them does not hold a value of its field's type.
pub fn address_from_row_cells(cells: &Vec<Option<&str>>) -> (r: Option<Address>)
    requires
        cells@.len() == FIELD_COUNT,
    ensures
        r is Some <==> cells_valid(cells@.map_values(|c: Option<&str>| cell_view(c))),
        r is Some ==> address_from_cells(r->0, cells@.map_values(|c: Option<&str>| cell_view(c))),
{
    let ghost c = cells@.map_values(|c: Option<&str>| cell_view(c));
    assert(forall|k: int| 0 <= k < 19 ==> c[k] == cell_view(#[trigger] cells@[k]));
    let adm_code = match required_u32(cells[0]) { Some(v) => v, None => return None };
    let town_code = match required_u32(cells[1]) { Some(v) => v, None => return None };
    let city_part_code = match optional_u64(cells[3]) { Some(v) => v, None => return None };
    let prague_part_code = match optional_u64(cells[5]) { Some(v) => v, None => return None };
    let town_part_code = match required_u32(cells[7]) { Some(v) => v, None => return None };
    let street_code = match optional_u32(cells[9]) { Some(v) => v, None => return None };
    let number = match required_u32(cells[12]) { Some(v) => v, None => return None };
    let orientation_number = match optional_u32(cells[13]) { Some(v) => v, None => return None };
    let zip_code = match required_u32(cells[15]) { Some(v) => v, None => return None };
    let valid_since = match cells[18] {
        Some(s) => match deserialize(s) { Some(t) => t, None => return None },
        None => {
            assert(date_cell_seconds(Seq::<char>::empty()) is None);
            return None;
        },
    };
    Some(Address {
        adm_code,
        town_code,
        town: required_text(cells[2]),
        city_part_code,
        city_part: optional_text(cells[4]),
        prague_part_code,
        prague_part: optional_text(cells[6]),
        town_part_code,
        town_part: required_text(cells[8]),
        street_code,
        street: optional_text(cells[10]),
        object_type: required_text(cells[11]),
        number,
        orientation_number,
        orientation_number_sign: optional_text(cells[14]),
        zip_code,
        location_x: optional_text(cells[16]),
        location_y: optional_text(cells[17]),
        valid_since,
    })
}

} // verus!
