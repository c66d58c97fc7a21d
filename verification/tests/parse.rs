use std::collections::HashMap;
use std::io::{Cursor, Write};
use xlsx_table::{
    excel_date, excel_str_cell, get_parsed_xlsx, get_strings_map, index_to_letters,
    letters_to_index, parse_xlsx, reconcile, resolve_cell, RawCell,
};
use zip::write::SimpleFileOptions;
use zip::CompressionMethod;
use zip::ZipWriter;

fn cell(
    address: Option<&str>,
    style: Option<&str>,
    type_tag: Option<&str>,
    value: Option<&str>,
) -> RawCell {
    RawCell {
        address: address.map(String::from),
        style: style.map(String::from),
        type_tag: type_tag.map(String::from),
        value: value.map(String::from),
        inline: None,
    }
}

#[test]
fn column_codec_inverse() {
    for i in 0..18278usize {
        let letters = index_to_letters(i);
        assert_eq!(letters_to_index(&letters), Some(i), "index {}", i);
    }
}

#[test]
fn letters_to_index_rejects_bad_input() {
    assert_eq!(letters_to_index(""), None);
    assert_eq!(letters_to_index("A1"), None);
    assert_eq!(letters_to_index("ab"), None);
    assert_eq!(letters_to_index("AB"), Some(27));
}

#[test]
fn column_codec_known_values() {
    assert_eq!(index_to_letters(0), "A");
    assert_eq!(index_to_letters(25), "Z");
    assert_eq!(index_to_letters(26), "AA");
    assert_eq!(index_to_letters(701), "ZZ");
    assert_eq!(index_to_letters(702), "AAA");
    assert_eq!(index_to_letters(18277), "ZZZ");
    assert_eq!(excel_str_cell(3, 2), "C3");
    assert_eq!(excel_str_cell(1, 0), "A1");
    assert_eq!(excel_str_cell(12, 27), "AB12");
}

#[test]
fn date_boundary() {
    assert_eq!(excel_date("60", None), "1900-02-29");
    assert_eq!(excel_date("59", None), "1900-02-28");
    assert_eq!(excel_date("61", None), "1900-03-01");
    assert_eq!(excel_date("not a date", None), "not a date");
    assert_eq!(excel_date("", None), "");
}

#[test]
fn date_fractional_serials() {
    assert_eq!(excel_date("59.5", None), "1900-02-28");
    assert_eq!(excel_date("60.5", None), "1900-02-28");
    assert_eq!(excel_date("1", None), "1900-01-01");
    assert_eq!(excel_date("42139", None), "2015-05-15");
    assert_eq!(excel_date("42139.79166666666", None), "2015-05-15");
    assert_eq!(excel_date("40677", Some(1462)), "2015-05-15");
    assert_eq!(excel_date("40362", Some(1462)), "2014-07-04");
}

#[test]
fn sparse_reconciliation() {
    let cells = vec![
        cell(Some("A1"), None, None, Some("x")),
        cell(Some("C1"), None, None, Some("y")),
    ];
    let cols = reconcile(&cells, 1);
    assert_eq!(cols, vec![0, 2]);
}

#[test]
fn reconciliation_without_addresses() {
    let cells = vec![
        cell(None, None, None, Some("a")),
        cell(None, None, None, Some("b")),
        cell(None, None, None, Some("c")),
    ];
    assert_eq!(reconcile(&cells, 1), vec![0, 1, 2]);
}

#[test]
fn reconciliation_malformed_address_falls_back() {
    let cells = vec![
        cell(Some("A1"), None, None, Some("a")),
        cell(Some("oops"), None, None, Some("b")),
    ];
    assert_eq!(reconcile(&cells, 1), vec![0, 1]);
}

#[test]
fn shared_string_fallback() {
    let strings: HashMap<usize, String> = HashMap::new();
    let dcols: Vec<usize> = Vec::new();
    let c = cell(Some("A1"), None, Some("s"), Some("5"));
    let resolved = resolve_cell(&c, 0, &strings, &dcols);
    assert_eq!(resolved, Some(String::from("5")));
}

#[test]
fn shared_string_lookup() {
    let mut strings: HashMap<usize, String> = HashMap::new();
    strings.insert(0, String::from("hello"));
    let dcols: Vec<usize> = Vec::new();
    let c = cell(None, None, Some("s"), Some("0"));
    assert_eq!(resolve_cell(&c, 0, &strings, &dcols), Some(String::from("hello")));
    let bad = cell(None, None, Some("s"), Some("junk"));
    assert_eq!(resolve_cell(&bad, 0, &strings, &dcols), Some(String::from("junk")));
}

#[test]
fn forced_date_column_override() {
    let strings: HashMap<usize, String> = HashMap::new();
    let dcols: Vec<usize> = vec![3];
    let c = cell(Some("D1"), None, Some("s"), Some("42139"));
    assert_eq!(resolve_cell(&c, 3, &strings, &dcols), Some(String::from("2015-05-15")));
    let styled = cell(Some("D1"), Some("14"), Some("s"), Some("40677"));
    assert_eq!(resolve_cell(&styled, 3, &strings, &dcols), Some(String::from("2015-05-15")));
}

#[test]
fn inline_text_takes_precedence() {
    let strings: HashMap<usize, String> = HashMap::new();
    let dcols: Vec<usize> = Vec::new();
    let c = RawCell {
        address: None,
        style: None,
        type_tag: None,
        value: Some(String::from("raw")),
        inline: Some(String::from("inline wins")),
    };
    assert_eq!(resolve_cell(&c, 0, &strings, &dcols), Some(String::from("inline wins")));
}

#[test]
fn cell_without_value_contributes_nothing() {
    let strings: HashMap<usize, String> = HashMap::new();
    let dcols: Vec<usize> = Vec::new();
    let c = cell(Some("A1"), Some("14"), Some("s"), None);
    assert_eq!(resolve_cell(&c, 0, &strings, &dcols), None);
}

#[test]
fn plain_date_styles() {
    let strings: HashMap<usize, String> = HashMap::new();
    let dcols: Vec<usize> = Vec::new();
    let plain = cell(None, Some("3"), None, Some("42139"));
    assert_eq!(resolve_cell(&plain, 0, &strings, &dcols), Some(String::from("2015-05-15")));
    let offset = cell(None, Some("14"), None, Some("40677"));
    assert_eq!(resolve_cell(&offset, 0, &strings, &dcols), Some(String::from("2015-05-15")));
    let not_date = cell(None, Some("7"), None, Some("42139"));
    assert_eq!(resolve_cell(&not_date, 0, &strings, &dcols), Some(String::from("42139")));
}

#[test]
fn strings_map_in_document_order() {
    let sst = String::from(
        "<sst count=\"3\"><si><t>one</t></si><si><t>two</t></si><si><t>one</t></si></sst>",
    );
    let m = get_strings_map(sst).expect("table");
    assert_eq!(m.len(), 3);
    assert_eq!(m[&0], "one");
    assert_eq!(m[&1], "two");
    assert_eq!(m[&2], "one");
}

#[test]
fn strings_map_empty_input_gives_empty_table() {
    let m = get_strings_map(String::new()).expect("empty table");
    assert!(m.is_empty());
}

#[test]
fn strings_map_malformed_is_error() {
    assert!(get_strings_map(String::from("<sst><si><t>unclosed")).is_none());
    assert!(get_strings_map(String::from("no table here")).is_none());
}

#[test]
fn strings_map_decodes_entities() {
    let sst = String::from("<sst><si><t>a &amp; b &lt;c&gt;</t></si></sst>");
    let m = get_strings_map(sst).expect("table");
    assert_eq!(m[&0], "a & b <c>");
}

#[test]
fn parsed_sheet_skips_value_free_rows() {
    let strings: HashMap<usize, String> = HashMap::new();
    let sheet = String::from(
        "<worksheet><sheetData>\
         <row r=\"1\"><c r=\"A1\"><v>first</v></c></row>\
         <row r=\"2\"/>\
         <row r=\"3\"><c r=\"A3\"><v>third</v></c></row>\
         </sheetData></worksheet>",
    );
    let table = get_parsed_xlsx(strings, sheet, None).expect("table");
    assert_eq!(table.len(), 2);
    assert_eq!(table[&0][&0], "first");
    assert_eq!(table[&2][&0], "third");
    assert!(!table.contains_key(&1));
}

#[test]
fn parsed_sheet_malformed_is_error() {
    let strings: HashMap<usize, String> = HashMap::new();
    assert!(get_parsed_xlsx(strings, String::from("<worksheet></worksheet>"), None).is_err());
    let strings2: HashMap<usize, String> = HashMap::new();
    assert!(get_parsed_xlsx(strings2, String::new(), None).is_err());
}

fn build_xlsx(shared: Option<&str>, sheet: &str) -> Vec<u8> {
    let mut writer = ZipWriter::new(Cursor::new(Vec::new()));
    let options = SimpleFileOptions::default().compression_method(CompressionMethod::Stored);
    if let Some(sst) = shared {
        writer.start_file("xl/sharedStrings.xml", options).unwrap();
        writer.write_all(sst.as_bytes()).unwrap();
    }
    writer.start_file("xl/worksheets/sheet1.xml", options).unwrap();
    writer.write_all(sheet.as_bytes()).unwrap();
    writer.finish().unwrap().into_inner()
}

#[test]
fn parse_xlsx_end_to_end() {
    let sst = "<sst count=\"4\"><si><t>Test 1</t></si><si><t>Rust</t></si>\
               <si><t>Emma</t></si><si><t>Nikita</t></si></sst>";
    let sheet = "<worksheet><sheetData>\
        <row r=\"1\"><c r=\"A1\" t=\"s\"><v>0</v></c><c r=\"C1\" t=\"s\"><v>1</v></c>\
        <c r=\"D1\" s=\"14\"><v>40677</v></c></row>\
        <row r=\"2\"><c r=\"C2\" t=\"s\"><v>2</v></c><c r=\"D2\" s=\"14\"><v>40362</v></c></row>\
        <row r=\"3\"><c r=\"C3\" t=\"s\"><v>3</v></c><c r=\"D3\" s=\"14\"><v>36075</v></c></row>\
        </sheetData></worksheet>";
    let data = build_xlsx(Some(sst), sheet);
    let table = parse_xlsx(&data, None).expect("table");
    assert_eq!(table.len(), 3);
    assert_eq!(table[&0][&0], "Test 1");
    assert_eq!(table[&0][&2], "Rust");
    assert_eq!(table[&0][&3], "2015-05-15");
    assert!(!table[&0].contains_key(&1));
    assert_eq!(table[&1][&2], "Emma");
    assert_eq!(table[&1][&3], "2014-07-04");
    assert!(!table[&1].contains_key(&0));
    assert_eq!(table[&2][&2], "Nikita");
    assert_eq!(table[&2][&3], "2002-10-08");
}

#[test]
fn parse_xlsx_forced_date_columns() {
    let sheet = "<worksheet><sheetData>\
        <row r=\"1\"><c r=\"A1\"><v>keep</v></c><c r=\"B1\"><v>8</v></c>\
        <c r=\"C1\"><v>9</v></c><c r=\"D1\"><v>42139</v></c></row>\
        </sheetData></worksheet>";
    let data = build_xlsx(None, sheet);
    let table = parse_xlsx(&data, Some(vec![3])).expect("table");
    assert_eq!(table[&0][&0], "keep");
    assert_eq!(table[&0][&1], "8");
    assert_eq!(table[&0][&3], "2015-05-15");
}

#[test]
fn parse_xlsx_without_shared_strings_member() {
    let sheet = "<worksheet><sheetData>\
        <row r=\"1\"><c r=\"B1\"><v>plain</v></c></row>\
        </sheetData></worksheet>";
    let data = build_xlsx(None, sheet);
    let table = parse_xlsx(&data, None).expect("table");
    assert_eq!(table[&0][&1], "plain");
}

#[test]
fn parse_xlsx_bad_archive_is_error() {
    let data = vec![1u8, 2, 3, 4, 5];
    assert!(parse_xlsx(&data, None).is_err());
}

#[test]
fn parse_xlsx_missing_worksheet_is_error() {
    let mut writer = ZipWriter::new(Cursor::new(Vec::new()));
    let options = SimpleFileOptions::default().compression_method(CompressionMethod::Stored);
    writer.start_file("other.txt", options).unwrap();
    writer.write_all(b"nothing").unwrap();
    let data = writer.finish().unwrap().into_inner();
    assert!(parse_xlsx(&data, None).is_err());
}

#[test]
fn reconciliation_mixes_plain_and_addressed_cells() {
    let cells = vec![
        cell(None, None, None, Some("a")),
        cell(Some("C1"), None, None, Some("b")),
        cell(None, None, None, Some("c")),
    ];
    assert_eq!(reconcile(&cells, 1), vec![0, 2, 3]);
}

#[test]
fn date_accepts_leading_plus() {
    assert_eq!(excel_date("+60", None), "1900-02-29");
    assert_eq!(excel_date("60.000", None), "1900-02-29");
    assert_eq!(excel_date("6e1", None), "6e1");
}

#[test]
fn parse_xlsx_self_closing_cells() {
    let sheet = "<worksheet><sheetData>\
        <row r=\"1\"><c r=\"A1\"/><c r=\"B1\"><v>kept</v></c></row>\
        </sheetData></worksheet>";
    let data = build_xlsx(None, sheet);
    let table = parse_xlsx(&data, None).expect("table");
    assert_eq!(table[&0].len(), 1);
    assert_eq!(table[&0][&1], "kept");
}
