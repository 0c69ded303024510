use std::io::Write;

use ruian_addresses::address_date_format::{deserialize, UtcInstant};
use ruian_addresses::archive::{largest_first, parse_addresses_from_csv};
use ruian_addresses::entry::{parse_entry, parse_text};
use ruian_addresses::error::AddressError;
use ruian_addresses::number::parse_unsigned;
use ruian_addresses::record::{field_header, Address, FIELD_COUNT};
use ruian_addresses::table::parse_records;

const HEADER: &str = "Kód ADM;Kód obce;Název obce;Kód MOMC;Název MOMC;Kód obvodu Prahy;Název obvodu Prahy;Kód části obce;Název části obce;Kód ulice;Název ulice;Typ SO;Číslo domovní;Číslo orientační;Znak čísla orientačního;PSČ;Souřadnice X;Souřadnice Y;Platí Od";

const GOLCUV_ROW: &str = "9382372;568449;Golčův Jeníkov;;;;;41696;Golčův Jeníkov;73962;Nám. T. G. Masaryka;č.p.;110;;;58282;-681427.55;-1075232.10;2011-07-01";

fn archive(entries: &[(&str, String)]) -> Vec<u8> {
    let mut writer = zip::ZipWriter::new(std::io::Cursor::new(Vec::new()));
    for (name, text) in entries {
        writer
            .start_file(*name, zip::write::SimpleFileOptions::default())
            .unwrap();
        let (bytes, _, _) = encoding_rs::WINDOWS_1250.encode(text);
        writer.write_all(&bytes).unwrap();
    }
    writer.finish().unwrap().into_inner()
}

fn simple_row(adm_code: u32) -> String {
    format!("{adm_code};500011;Obec;;;;;1;Část;;;č.p.;{};;;11000;;;2011-07-01", adm_code % 1000)
}

fn table(rows: &[String]) -> String {
    let mut text = String::from(HEADER);
    text.push_str("\r\n");
    for row in rows {
        text.push_str(row);
        text.push_str("\r\n");
    }
    text
}

fn sorted_codes(addresses: &[Address]) -> Vec<u32> {
    let mut codes: Vec<u32> = addresses.iter().map(|a| a.adm_code).collect();
    codes.sort();
    codes
}

#[test]
fn concrete_scenario_two_entries() {
    let other = table(&[simple_row(1), simple_row(2)]);
    let bytes = archive(&[("a.csv", table(&[GOLCUV_ROW.to_string()])), ("b.csv", other)]);
    let addresses = parse_addresses_from_csv(bytes).unwrap();
    assert_eq!(addresses.len(), 3);
    let address = addresses.iter().find(|a| a.adm_code == 9382372).unwrap();
    assert_eq!(address.town, "Golčův Jeníkov");
    assert_eq!(address.street, Some("Nám. T. G. Masaryka".to_string()));
    assert_eq!(address.number, 110);
    assert_eq!(address.valid_since, UtcInstant { seconds: 1309478400 });
}

#[test]
fn round_trip_one_entry() {
    let rows = vec![
        GOLCUV_ROW.to_string(),
        "10;20;Praha;500054;Praha 1;19;Praha 1;400;Staré Město;700;Karlova;č.ev.;12;7;a;11000;-743000.00;-1043000.00;2015-05-15".to_string(),
        simple_row(30),
    ];
    let addresses = parse_addresses_from_csv(archive(&[("one.csv", table(&rows))])).unwrap();
    assert_eq!(addresses.len(), 3);
    let second = &addresses[1];
    assert_eq!(second.adm_code, 10);
    assert_eq!(second.town_code, 20);
    assert_eq!(second.town, "Praha");
    assert_eq!(second.city_part_code, Some(500054));
    assert_eq!(second.city_part, Some("Praha 1".to_string()));
    assert_eq!(second.prague_part_code, Some(19));
    assert_eq!(second.prague_part, Some("Praha 1".to_string()));
    assert_eq!(second.town_part_code, 400);
    assert_eq!(second.town_part, "Staré Město");
    assert_eq!(second.street_code, Some(700));
    assert_eq!(second.street, Some("Karlova".to_string()));
    assert_eq!(second.object_type, "č.ev.");
    assert_eq!(second.number, 12);
    assert_eq!(second.orientation_number, Some(7));
    assert_eq!(second.orientation_number_sign, Some("a".to_string()));
    assert_eq!(second.zip_code, 11000);
    assert_eq!(second.location_x, Some("-743000.00".to_string()));
    assert_eq!(second.location_y, Some("-1043000.00".to_string()));
    assert_eq!(second.valid_since, UtcInstant { seconds: 1431648000 });
    assert_eq!(addresses[0].adm_code, 9382372);
    assert_eq!(addresses[2].adm_code, 30);
}

#[test]
fn optional_cells_empty_absent_zero_present() {
    let zero_row = "5;6;Obec;0;;0;;7;Část;0;;č.p.;8;0;;9;0;0;2011-07-01".to_string();
    let addresses = parse_text(&table(&[simple_row(4), zero_row]), 0).unwrap();
    let empty = &addresses[0];
    assert_eq!(empty.city_part_code, None);
    assert_eq!(empty.city_part, None);
    assert_eq!(empty.prague_part_code, None);
    assert_eq!(empty.prague_part, None);
    assert_eq!(empty.street_code, None);
    assert_eq!(empty.street, None);
    assert_eq!(empty.orientation_number, None);
    assert_eq!(empty.orientation_number_sign, None);
    assert_eq!(empty.location_x, None);
    assert_eq!(empty.location_y, None);
    let zero = &addresses[1];
    assert_eq!(zero.city_part_code, Some(0));
    assert_eq!(zero.prague_part_code, Some(0));
    assert_eq!(zero.street_code, Some(0));
    assert_eq!(zero.orientation_number, Some(0));
    assert_eq!(zero.location_x, Some("0".to_string()));
}

#[test]
fn optional_cell_with_bad_number_fails_row() {
    let row = "5;6;Obec;x;;;;7;Část;;;č.p.;8;;;9;;;2011-07-01".to_string();
    assert_eq!(parse_text(&table(&[row]), 2), Err(AddressError::Row { entry: 2, row: 1 }));
}

#[test]
fn date_cell_midnight_utc() {
    assert_eq!(deserialize("2011-07-01"), Some(UtcInstant { seconds: 1309478400 }));
    assert_eq!(deserialize("1970-01-01"), Some(UtcInstant { seconds: 0 }));
    assert_eq!(deserialize("2000-02-29"), Some(UtcInstant { seconds: 951782400 }));
    assert_eq!(deserialize("1969-12-31"), Some(UtcInstant { seconds: -86400 }));
}

#[test]
fn date_cells_at_calendar_edges() {
    assert_eq!(deserialize("0000-02-29"), Some(UtcInstant { seconds: -62162121600 }));
    assert_eq!(deserialize("0000-03-01"), Some(UtcInstant { seconds: -62162035200 }));
    assert_eq!(deserialize("9999-12-31"), Some(UtcInstant { seconds: 253402214400 }));
    assert_eq!(deserialize("1900-03-01"), Some(UtcInstant { seconds: -2203891200 }));
    assert_eq!(deserialize("1900-02-29"), None);
    assert_eq!(deserialize("2024-04-31"), None);
    assert_eq!(deserialize("2024-00-10"), None);
    assert_eq!(deserialize("2024-01-00"), None);
}

#[test]
fn malformed_date_cells_fail() {
    assert_eq!(deserialize("2011-7-01"), None);
    assert_eq!(deserialize("2011-07-01T00:00:00"), None);
    assert_eq!(deserialize("2011/07/01"), None);
    assert_eq!(deserialize("2011-02-29"), None);
    assert_eq!(deserialize("2011-13-01"), None);
    assert_eq!(deserialize(""), None);
    let row = "5;6;Obec;;;;;7;Část;;;č.p.;8;;;9;;;01.07.2011".to_string();
    assert_eq!(parse_text(&table(&[row]), 0), Err(AddressError::Row { entry: 0, row: 1 }));
}

#[test]
fn two_entries_union_in_any_order() {
    let small: Vec<String> = (0..10).map(simple_row).collect();
    let large: Vec<String> = (10..1010).map(simple_row).collect();
    let forward = archive(&[("small.csv", table(&small)), ("large.csv", table(&large))]);
    let backward = archive(&[("large.csv", table(&large)), ("small.csv", table(&small))]);
    let a = parse_addresses_from_csv(forward).unwrap();
    let b = parse_addresses_from_csv(backward).unwrap();
    assert_eq!(a.len(), 1010);
    assert_eq!(b.len(), 1010);
    assert_eq!(sorted_codes(&a), sorted_codes(&b));
    assert_eq!(a[0].adm_code, 10);
}

#[test]
fn bad_number_in_second_entry_fails_everything() {
    let good = table(&[simple_row(1), simple_row(2)]);
    let bad = table(&[simple_row(3), "4;abc;Obec;;;;;1;Část;;;č.p.;4;;;11000;;;2011-07-01".to_string()]);
    let result = parse_addresses_from_csv(archive(&[("good.csv", good), ("bad.csv", bad)]));
    assert_eq!(result, Err(AddressError::Row { entry: 1, row: 2 }));
}

#[test]
fn not_an_archive() {
    assert_eq!(parse_addresses_from_csv(b"Kod ADM;Kod obce".to_vec()), Err(AddressError::Zip));
}

#[test]
fn empty_archive_has_no_records() {
    assert_eq!(parse_addresses_from_csv(archive(&[])), Ok(Vec::new()));
}

#[test]
fn header_only_entry_has_no_records() {
    assert_eq!(parse_addresses_from_csv(archive(&[("h.csv", table(&[]))])), Ok(Vec::new()));
}

#[test]
fn missing_required_column() {
    let text = "Kód ADM;Kód obce\n1;2\n";
    assert_eq!(parse_text(text, 3), Err(AddressError::MissingColumn { entry: 3, field: 2 }));
}

#[test]
fn missing_optional_columns_read_as_absent() {
    let text = "Platí Od;PSČ;Číslo domovní;Typ SO;Název části obce;Kód části obce;Název obce;Kód obce;Kód ADM;Extra\n2011-07-01;11000;3;č.p.;Část;4;Obec;5;6;x\n";
    let addresses = parse_text(text, 0).unwrap();
    assert_eq!(addresses.len(), 1);
    assert_eq!(addresses[0].adm_code, 6);
    assert_eq!(addresses[0].town_code, 5);
    assert_eq!(addresses[0].zip_code, 11000);
    assert_eq!(addresses[0].street, None);
    assert_eq!(addresses[0].location_x, None);
}

#[test]
fn duplicate_column() {
    let text = format!("{HEADER};Kód ADM\n");
    assert_eq!(parse_text(&text, 1), Err(AddressError::DuplicateColumn { entry: 1, field: 0 }));
}

#[test]
fn unequal_row_lengths_are_a_table_error() {
    let text = format!("{HEADER}\n1;2;3\n");
    assert_eq!(parse_text(&text, 4), Err(AddressError::Csv { entry: 4 }));
}

#[test]
fn short_row_given_as_cells() {
    let header: Vec<String> = (0..FIELD_COUNT).map(|k| field_header(k).to_string()).collect();
    let rows = vec![header, vec!["1".to_string()]];
    assert_eq!(parse_records(&rows, 0), Err(AddressError::Row { entry: 0, row: 1 }));
    assert_eq!(parse_records(&Vec::new(), 0), Ok(Vec::new()));
}

#[test]
fn windows_1250_bytes_are_decoded() {
    let text = table(&[GOLCUV_ROW.to_string()]);
    let (bytes, _, _) = encoding_rs::WINDOWS_1250.encode(&text);
    assert!(bytes.contains(&0xe8));
    let addresses = parse_entry(&bytes, 0).unwrap();
    assert_eq!(addresses[0].town, "Golčův Jeníkov");
    assert_eq!(addresses[0].object_type, "č.p.");
}

#[test]
fn entries_ordered_largest_first() {
    assert_eq!(largest_first(&vec![5, 10, 5, 20]), vec![3, 1, 0, 2]);
    assert_eq!(largest_first(&vec![]), Vec::<usize>::new());
    assert_eq!(largest_first(&vec![1, 2, 3]), vec![2, 1, 0]);
}

#[test]
fn unsigned_cells() {
    assert_eq!(parse_unsigned("110", 0xffff_ffff), Some(110));
    assert_eq!(parse_unsigned("+7", 0xffff_ffff), Some(7));
    assert_eq!(parse_unsigned("4294967295", 0xffff_ffff), Some(4294967295));
    assert_eq!(parse_unsigned("4294967296", 0xffff_ffff), None);
    assert_eq!(parse_unsigned("18446744073709551615", u64::MAX), Some(u64::MAX));
    assert_eq!(parse_unsigned("18446744073709551616", u64::MAX), None);
    assert_eq!(parse_unsigned("", 10), None);
    assert_eq!(parse_unsigned("+", 10), None);
    assert_eq!(parse_unsigned("-1", 10), None);
    assert_eq!(parse_unsigned("1 2", 100), None);
}
