use sidr::btree::{find_leaf, key_at_most, read_leaf_entry, scan, Cursor, RawRecord};
use sidr::bytes::{
    copy_range, read_u16, read_u32, read_u32_be, read_u64, to_i16, to_i32, to_i64, to_i8,
};
use sidr::catalog::{
    load_catalog, read_entry, same_bytes, storage_class, EntryKind, StorageClass, CATALOG_ROOT,
};
use sidr::decode::decode;
use sidr::error::Error;
use sidr::long_value::{make_segment_key, resolve, resolve_or_empty, segment_of};
use sidr::mapper::{
    bind, emit, host_of, map_by, rule_applies, to_number, to_text, FieldRule, FieldValue, Mapper,
    Marker, NamedField, NamedTable, ReportField, ReportRecord, TableRule, Transform,
};
use sidr::page::{page_kind, PageKind, Store};
use sidr::pipeline::{
    find_host, generate_report, read_store, report_tables, settle, table_report, write_report,
    write_reports, Diagnostic,
};
use sidr::report::{
    Report, ReportFormat, ReportJson, ReportProducer, ReportSink, ReportSuffix, ReportType,
};
use sidr::schema::{Column, ColumnType, TableSchema};
use sidr::value::{convert, Field, Record, Scalar, Value};

const PS: usize = 2048;
const REVISION: u32 = 0x14;

fn put_u16(b: &mut [u8], at: usize, v: u16) {
    b[at..at + 2].copy_from_slice(&v.to_le_bytes());
}

fn put_u32(b: &mut [u8], at: usize, v: u32) {
    b[at..at + 4].copy_from_slice(&v.to_le_bytes());
}

fn checksum(pg: &[u8]) -> u32 {
    let mut sum: u32 = 0x89AB_CDEF;
    let mut w = 1;
    while w < pg.len() / 4 {
        sum ^= u32::from_le_bytes([pg[4 * w], pg[4 * w + 1], pg[4 * w + 2], pg[4 * w + 3]]);
        w += 1;
    }
    sum
}

fn seal(pg: &mut Vec<u8>) {
    let sum = checksum(pg);
    put_u32(pg, 0, sum);
}

fn page(flags: u32, next: u32, entries: &[Vec<u8>]) -> Vec<u8> {
    let mut pg = vec![0u8; PS];
    put_u32(&mut pg, 20, next);
    put_u16(&mut pg, 34, entries.len() as u16);
    put_u32(&mut pg, 36, flags);
    let mut at = 0usize;
    for (i, e) in entries.iter().enumerate() {
        pg[40 + at..40 + at + e.len()].copy_from_slice(e);
        let tag = PS - 4 * (i + 1);
        put_u16(&mut pg, tag, e.len() as u16);
        put_u16(&mut pg, tag + 2, at as u16);
        at += e.len();
    }
    seal(&mut pg);
    pg
}

fn header(page_size: u32, revision: u32) -> Vec<u8> {
    let mut pg = vec![0u8; PS];
    put_u32(&mut pg, 4, 0x89AB_CDEF);
    put_u32(&mut pg, 8, 0x620);
    put_u32(&mut pg, 232, revision);
    put_u32(&mut pg, 236, page_size);
    pg
}

fn blank() -> Vec<u8> {
    vec![0u8; PS]
}

fn file(pages: Vec<Vec<u8>>) -> Vec<u8> {
    let mut all = header(PS as u32, REVISION);
    for p in pages {
        all.extend_from_slice(&p);
    }
    all
}

fn open(pages: Vec<Vec<u8>>) -> Store {
    Store::open(file(pages), 0x11, 0x20).unwrap()
}

fn leaf_entry(key: &[u8], data: &[u8]) -> Vec<u8> {
    let mut e = Vec::new();
    e.extend_from_slice(&(key.len() as u16).to_le_bytes());
    e.extend_from_slice(key);
    e.extend_from_slice(data);
    e
}

fn branch_entry(key: &[u8], child: u32) -> Vec<u8> {
    let mut e = Vec::new();
    e.extend_from_slice(&(key.len() as u16).to_le_bytes());
    e.extend_from_slice(key);
    e.extend_from_slice(&child.to_le_bytes());
    e
}

/// The test's own encoder of records, after the layout that the decoder
/// documents.
fn encode(
    count: u8,
    fixed: &[Vec<u8>],
    variable: &[Vec<u8>],
    tagged: Option<&[(u16, u8, Vec<u8>)]>,
) -> Vec<u8> {
    let mut r = vec![if tagged.is_some() { 1u8 } else { 0u8 }, count];
    for f in fixed {
        r.extend_from_slice(f);
    }
    let mut end = 0u16;
    for v in variable {
        end += v.len() as u16;
        r.extend_from_slice(&end.to_le_bytes());
    }
    for v in variable {
        r.extend_from_slice(v);
    }
    if let Some(entries) = tagged {
        r.extend_from_slice(&(entries.len() as u16).to_le_bytes());
        let mut end = 0u16;
        for (id, flags, bytes) in entries {
            end += bytes.len() as u16;
            r.extend_from_slice(&id.to_le_bytes());
            r.extend_from_slice(&end.to_le_bytes());
            r.push(*flags);
        }
        for (_, _, bytes) in entries {
            r.extend_from_slice(bytes);
        }
    }
    r
}

fn utf16(s: &str) -> Vec<u8> {
    s.encode_utf16().flat_map(|u| u.to_le_bytes()).collect()
}

fn units(s: &str) -> Vec<u16> {
    s.encode_utf16().collect()
}

fn row(table_id: u32, kind: u16, id: u32, code: u32, width: u32, name: &[u8]) -> Vec<u8> {
    encode(
        6,
        &[
            table_id.to_le_bytes().to_vec(),
            kind.to_le_bytes().to_vec(),
            id.to_le_bytes().to_vec(),
            code.to_le_bytes().to_vec(),
            width.to_le_bytes().to_vec(),
            0u32.to_le_bytes().to_vec(),
        ],
        &[name.to_vec()],
        None,
    )
}

fn keyed(rows: Vec<Vec<u8>>) -> Vec<Vec<u8>> {
    rows.iter().enumerate().map(|(i, r)| leaf_entry(&(i as u32).to_be_bytes(), r)).collect()
}

fn people_schema() -> TableSchema {
    TableSchema::new(
        b"T".to_vec(),
        vec![Column { id: 1, kind: ColumnType::I32, width: 4 }],
        vec![Column { id: 128, kind: ColumnType::Text, width: 0 }],
        vec![],
        5,
        None,
    )
    .unwrap()
}

fn people_rule() -> TableRule {
    TableRule {
        table: b"T".to_vec(),
        kind: ReportSuffix::FileReport,
        marker: Marker::Any,
        host_column: None,
        fields: vec![
            FieldRule { column: 1, field: "id".to_string(), transform: Transform::Number },
            FieldRule { column: 128, field: "name".to_string(), transform: Transform::Text },
        ],
    }
}

/// A store with the catalog at page 4, which describes the table `T` with a
/// fixed column `id` and a variable column `name`, and the table at page 5
/// with two records.
fn people_store() -> Vec<u8> {
    let catalog = page(
        0x3,
        0,
        &keyed(vec![
            row(2, 1, 2, 5, 0, b"T"),
            row(2, 2, 1, 4, 4, b"id"),
            row(2, 2, 128, 10, 0, b"name"),
        ]),
    );
    let table = page(
        0x3,
        0,
        &[
            leaf_entry(&[0, 0, 0, 1], &encode(1, &[1i32.to_le_bytes().to_vec()], &[utf16("a")], None)),
            leaf_entry(&[0, 0, 0, 2], &encode(1, &[2i32.to_le_bytes().to_vec()], &[utf16("bb")], None)),
        ],
    );
    file(vec![blank(), blank(), catalog, table])
}

fn one(id: u32, s: Scalar) -> Field {
    Field { id, value: Value::One(s) }
}

#[test]
fn end_to_end_two_records_in_key_order() {
    let mapper = Mapper { rules: vec![people_rule()] };
    let tables = read_store(people_store(), &mapper).unwrap();
    assert_eq!(tables.len(), 1);
    assert_eq!(tables[0].table, b"T".to_vec());
    assert_eq!(tables[0].fault, None);
    assert!(tables[0].diagnostics.is_empty());
    assert_eq!(
        tables[0].records,
        vec![
            ReportRecord {
                kind: ReportSuffix::FileReport,
                fields: vec![
                    ReportField { name: "id".to_string(), value: FieldValue::Number(1) },
                    ReportField { name: "name".to_string(), value: FieldValue::Text("a".to_string()) },
                ],
            },
            ReportRecord {
                kind: ReportSuffix::FileReport,
                fields: vec![
                    ReportField { name: "id".to_string(), value: FieldValue::Number(2) },
                    ReportField { name: "name".to_string(), value: FieldValue::Text("bb".to_string()) },
                ],
            },
        ]
    );
}

#[test]
fn end_to_end_reports_are_rendered_by_kind() {
    let mapper = Mapper { rules: vec![people_rule()] };
    let producer = ReportProducer::new(ReportFormat::Json, ReportType::ToFile);
    let (tables, mut reports) =
        generate_report(people_store(), &mapper, &producer, "UNKNOWN", "20230307_015244").unwrap();
    assert_eq!(tables.len(), 1);
    assert_eq!(reports.len(), 3);
    assert_eq!(reports[0].0, "UNKNOWN_File_Report_20230307_015244.json");
    assert_eq!(reports[1].0, "UNKNOWN_Activity_History_Report_20230307_015244.json");
    assert_eq!(reports[2].0, "UNKNOWN_Internet_History_Report_20230307_015244.json");
    assert_eq!(
        reports[0].1.take_output(),
        "{\"id\":1,\"name\":\"a\"}\n{\"id\":2,\"name\":\"bb\"}"
    );
    assert_eq!(reports[1].1.take_output(), "");
    assert_eq!(reports[2].1.take_output(), "");
}

#[test]
fn store_with_a_bad_signature_is_corrupt() {
    let mut bytes = people_store();
    bytes[4] ^= 0xff;
    assert_eq!(Store::open(bytes, 0x11, 0x20).err(), Some(Error::CorruptPage));
    assert_eq!(Store::open(vec![0u8; 100], 0x11, 0x20).err(), Some(Error::CorruptPage));
}

#[test]
fn store_of_another_revision_is_not_supported() {
    assert_eq!(Store::open(people_store(), 0x15, 0x20).err(), Some(Error::UnsupportedVersion));
    assert_eq!(Store::open(people_store(), 0x11, 0x13).err(), Some(Error::UnsupportedVersion));
    let mut bytes = people_store();
    put_u32(&mut bytes, 8, 0x621);
    assert_eq!(Store::open(bytes, 0x11, 0x20).err(), Some(Error::UnsupportedVersion));
    let mapper = Mapper { rules: vec![] };
    let mut old = people_store();
    put_u32(&mut old, 232, 0x10);
    assert_eq!(read_store(old, &mapper).err(), Some(Error::UnsupportedVersion));
    let mut new = people_store();
    put_u32(&mut new, 232, 0xE7);
    assert_eq!(Store::open_supported(new).err(), Some(Error::UnsupportedVersion));
    let mut last = people_store();
    put_u32(&mut last, 232, 0xE6);
    assert!(Store::open_supported(last).is_ok());
    let mut first = people_store();
    put_u32(&mut first, 232, 0x11);
    assert!(Store::open_supported(first).is_ok());
}

#[test]
fn store_with_an_odd_page_size_is_corrupt() {
    let mut bytes = people_store();
    put_u32(&mut bytes, 236, 3000);
    assert_eq!(Store::open(bytes, 0x11, 0x20).err(), Some(Error::CorruptPage));
    let mut bytes = header(PS as u32, REVISION);
    put_u32(&mut bytes, 236, 4096);
    assert_eq!(Store::open(bytes, 0x11, 0x20).err(), Some(Error::CorruptPage));
}

#[test]
fn store_knows_its_pages() {
    let store = Store::open(people_store(), 0x11, 0x20).unwrap();
    assert_eq!(store.page_size(), PS);
    assert_eq!(store.page_count(), 5);
    assert_eq!(store.revision(), REVISION);
}

#[test]
fn page_beyond_the_file_is_out_of_range() {
    let store = Store::open(people_store(), 0x11, 0x20).unwrap();
    assert_eq!(store.read_page(0).err(), Some(Error::OutOfRange));
    assert_eq!(store.read_page(6).err(), Some(Error::OutOfRange));
    assert!(store.read_page(5).is_ok());
}

#[test]
fn first_page_is_read_as_a_page_without_entries() {
    let store = Store::open(people_store(), 0x11, 0x20).unwrap();
    let p = store.read_page(1).unwrap();
    assert_eq!(p.kind, PageKind::Empty);
    assert_eq!(p.number, 1);
    assert_eq!(p.next, 0);
    assert!(p.entries.is_empty());
}

#[test]
fn page_is_read_with_its_entries() {
    let store = open(vec![page(0x2, 7, &[vec![1, 2, 3], vec![], vec![9]])]);
    let p = store.read_page(2).unwrap();
    assert_eq!(p.number, 2);
    assert_eq!(p.kind, PageKind::Leaf);
    assert_eq!(p.next, 7);
    assert_eq!(p.entries, vec![vec![1, 2, 3], vec![], vec![9]]);
}

#[test]
fn page_with_a_wrong_checksum_is_corrupt() {
    let mut pg = page(0x2, 0, &[vec![1, 2, 3]]);
    pg[100] ^= 1;
    let store = open(vec![pg]);
    assert_eq!(store.read_page(2).err(), Some(Error::CorruptPage));
    let store = open(vec![blank()]);
    assert_eq!(store.read_page(2).err(), Some(Error::CorruptPage));
}

#[test]
fn page_with_more_entries_than_fit_is_corrupt() {
    let mut pg = vec![0u8; PS];
    put_u32(&mut pg, 36, 0x2);
    put_u16(&mut pg, 34, 600);
    seal(&mut pg);
    let store = open(vec![pg]);
    assert_eq!(store.read_page(2).err(), Some(Error::CorruptPage));
    let mut pg = vec![0u8; PS];
    put_u32(&mut pg, 36, 0x2);
    put_u16(&mut pg, 34, 502);
    seal(&mut pg);
    let store = open(vec![pg]);
    assert!(store.read_page(2).is_ok());
    let mut pg = vec![0u8; PS];
    put_u32(&mut pg, 36, 0x2);
    put_u16(&mut pg, 34, 503);
    seal(&mut pg);
    let store = open(vec![pg]);
    assert_eq!(store.read_page(2).err(), Some(Error::CorruptPage));
}

#[test]
fn page_with_overlapping_entries_is_corrupt() {
    let mut pg = page(0x2, 0, &[vec![1, 2, 3], vec![4, 5]]);
    put_u16(&mut pg, PS - 8 + 2, 2);
    seal(&mut pg);
    let store = open(vec![pg]);
    assert_eq!(store.read_page(2).err(), Some(Error::CorruptPage));
}

#[test]
fn page_with_an_entry_that_runs_into_the_list_is_corrupt() {
    let mut pg = page(0x2, 0, &[vec![1, 2, 3]]);
    put_u16(&mut pg, PS - 4, (PS - 40 - 3) as u16);
    seal(&mut pg);
    let store = open(vec![pg]);
    assert_eq!(store.read_page(2).err(), Some(Error::CorruptPage));
}

#[test]
fn page_without_a_role_or_empty_with_entries_is_corrupt() {
    let store = open(vec![page(0x40, 0, &[]), page(0x8, 0, &[vec![1]]), page(0x8, 0, &[])]);
    assert_eq!(store.read_page(2).err(), Some(Error::CorruptPage));
    assert_eq!(store.read_page(3).err(), Some(Error::CorruptPage));
    assert_eq!(store.read_page(4).unwrap().kind, PageKind::Empty);
}

#[test]
fn flags_decide_the_role_of_a_page() {
    assert_eq!(page_kind(0x2), Some(PageKind::Leaf));
    assert_eq!(page_kind(0x3), Some(PageKind::Leaf));
    assert_eq!(page_kind(0x82), Some(PageKind::LongValue));
    assert_eq!(page_kind(0x1), Some(PageKind::Root));
    assert_eq!(page_kind(0x5), Some(PageKind::Root));
    assert_eq!(page_kind(0x4), Some(PageKind::Branch));
    assert_eq!(page_kind(0x84), Some(PageKind::Branch));
    assert_eq!(page_kind(0xA), Some(PageKind::Empty));
    assert_eq!(page_kind(0x80), None);
    assert_eq!(page_kind(0), None);
}

fn rec(key: &[u8], data: &[u8]) -> RawRecord {
    RawRecord { key: key.to_vec(), data: data.to_vec() }
}

/// A tree of two levels: the root at page 2, and the leaves 3, 4 and 5.
fn small_tree(link_3: u32, link_4: u32) -> Store {
    open(vec![
        page(0x5, 0, &[branch_entry(b"b", 3), branch_entry(b"d", 4), branch_entry(b"", 5)]),
        page(0x2, link_3, &[leaf_entry(b"a", b"1"), leaf_entry(b"b", b"2")]),
        page(0x2, link_4, &[leaf_entry(b"c", b"3")]),
        page(0x2, 0, &[leaf_entry(b"e", b"4"), leaf_entry(b"f", b"5")]),
    ])
}

#[test]
fn scan_follows_the_leaves_in_key_order() {
    let store = small_tree(4, 5);
    let (records, fault) = scan(&store, 2);
    assert_eq!(fault, None);
    assert_eq!(
        records,
        vec![rec(b"a", b"1"), rec(b"b", b"2"), rec(b"c", b"3"), rec(b"e", b"4"), rec(b"f", b"5")]
    );
}

#[test]
fn scan_along_the_leaves_gives_what_descending_gives() {
    let store = small_tree(4, 5);
    let (chained, fault) = scan(&store, 2);
    assert_eq!(fault, None);
    let root = store.read_page(2).unwrap();
    let mut descended = Vec::new();
    for e in &root.entries {
        let child = u32::from_le_bytes([e[e.len() - 4], e[e.len() - 3], e[e.len() - 2], e[e.len() - 1]]);
        for entry in &store.read_page(child).unwrap().entries {
            descended.push(read_leaf_entry(entry).unwrap());
        }
    }
    assert_eq!(chained, descended);
}

#[test]
fn scan_of_a_tree_of_one_leaf() {
    let store = open(vec![page(0x3, 0, &[leaf_entry(b"k", b"v")]), page(0x3, 0, &[])]);
    assert_eq!(scan(&store, 2), (vec![rec(b"k", b"v")], None));
    assert_eq!(scan(&store, 3), (vec![], None));
}

#[test]
fn scan_keeps_what_it_read_before_a_fault() {
    let store = small_tree(4, 9);
    let (records, fault) = scan(&store, 2);
    assert_eq!(records, vec![rec(b"a", b"1"), rec(b"b", b"2"), rec(b"c", b"3")]);
    assert_eq!(fault, Some(Error::OutOfRange));
    let store = small_tree(4, 2);
    let (records, fault) = scan(&store, 2);
    assert_eq!(records.len(), 3);
    assert_eq!(fault, Some(Error::CorruptBTree));
}

#[test]
fn scan_stops_at_a_damaged_entry() {
    let store = open(vec![page(0x2, 0, &[leaf_entry(b"a", b"1"), vec![9, 0, 1], leaf_entry(b"c", b"3")])]);
    assert_eq!(scan(&store, 2), (vec![rec(b"a", b"1")], Some(Error::CorruptBTree)));
}

#[test]
fn scan_from_a_page_that_is_no_tree_fails() {
    let store = open(vec![page(0x8, 0, &[]), page(0x5, 0, &[]), page(0x5, 0, &[vec![1, 0, 7]]), blank()]);
    assert_eq!(scan(&store, 1), (vec![], Some(Error::CorruptBTree)));
    assert_eq!(scan(&store, 2), (vec![], Some(Error::CorruptBTree)));
    assert_eq!(scan(&store, 3), (vec![], Some(Error::CorruptBTree)));
    assert_eq!(scan(&store, 4), (vec![], Some(Error::CorruptBTree)));
    assert_eq!(scan(&store, 5), (vec![], Some(Error::CorruptPage)));
    assert_eq!(scan(&store, 6), (vec![], Some(Error::OutOfRange)));
}

/// Leaves at the pages 5 to 9, each with one record, where page 9 names
/// page 5 as the next one.
fn circle() -> Store {
    let mut pages = vec![blank(), blank(), blank()];
    for n in 5u32..=9 {
        let next = if n == 9 { 5 } else { n + 1 };
        pages.push(page(0x2, next, &[leaf_entry(&[n as u8], b"x")]));
    }
    open(pages)
}

#[test]
fn next_page_chain_that_revisits_page_5_after_page_9_is_corrupt() {
    let store = circle();
    assert_eq!(store.page_count(), 9);
    let (records, fault) = scan(&store, 5);
    assert_eq!(fault, Some(Error::CorruptBTree));
    assert_eq!(records.len(), 10);
    assert_eq!(records[0], rec(&[5], b"x"));
    assert_eq!(records[4], rec(&[9], b"x"));
    assert_eq!(records[5], rec(&[5], b"x"));
}

#[test]
fn cursor_gives_the_fault_of_a_circle_again_and_again() {
    let store = circle();
    let mut cursor = Cursor::open(&store, 5).unwrap();
    let mut seen = 0;
    loop {
        match cursor.next() {
            Ok(Some(_)) => seen += 1,
            Ok(None) => panic!("the walk must not end without a fault"),
            Err(e) => {
                assert_eq!(e, Error::CorruptBTree);
                break;
            }
        }
    }
    assert_eq!(seen, 10);
    assert_eq!(cursor.next(), Err(Error::CorruptBTree));
}

#[test]
fn descent_in_a_circle_of_branches_is_corrupt() {
    let store = open(vec![page(0x5, 0, &[branch_entry(b"", 3)]), page(0x4, 0, &[branch_entry(b"", 2)])]);
    assert_eq!(find_leaf(&store, 2, None).err(), Some(Error::CorruptBTree));
    assert_eq!(Cursor::open(&store, 2).err(), Some(Error::CorruptBTree));
}

#[test]
fn cursor_walks_and_starts_over() {
    let store = small_tree(4, 5);
    let mut cursor = Cursor::open(&store, 2).unwrap();
    assert_eq!(cursor.next(), Ok(Some(rec(b"a", b"1"))));
    assert_eq!(cursor.next(), Ok(Some(rec(b"b", b"2"))));
    assert_eq!(cursor.next(), Ok(Some(rec(b"c", b"3"))));
    assert_eq!(cursor.first(), Ok(Some(rec(b"a", b"1"))));
    assert_eq!(cursor.next(), Ok(Some(rec(b"b", b"2"))));
    assert_eq!(cursor.next(), Ok(Some(rec(b"c", b"3"))));
    assert_eq!(cursor.next(), Ok(Some(rec(b"e", b"4"))));
    assert_eq!(cursor.next(), Ok(Some(rec(b"f", b"5"))));
    assert_eq!(cursor.next(), Ok(None));
    assert_eq!(cursor.next(), Ok(None));
}

#[test]
fn cursor_seeks_the_first_record_at_or_after_a_key() {
    let store = small_tree(4, 5);
    let mut cursor = Cursor::open(&store, 2).unwrap();
    assert_eq!(cursor.seek(b"c"), Ok(Some(rec(b"c", b"3"))));
    assert_eq!(cursor.next(), Ok(Some(rec(b"e", b"4"))));
    assert_eq!(cursor.seek(b"d"), Ok(Some(rec(b"e", b"4"))));
    assert_eq!(cursor.seek(b"a"), Ok(Some(rec(b"a", b"1"))));
    assert_eq!(cursor.seek(b"bb"), Ok(Some(rec(b"c", b"3"))));
    assert_eq!(cursor.seek(b"g"), Ok(None));
    assert_eq!(cursor.seek(b""), Ok(Some(rec(b"a", b"1"))));
    assert_eq!(cursor.advance_to(b"f"), Ok(Some(rec(b"f", b"5"))));
}

#[test]
fn find_leaf_goes_where_the_key_belongs() {
    let store = small_tree(4, 5);
    assert_eq!(find_leaf(&store, 2, None).unwrap().number, 3);
    assert_eq!(find_leaf(&store, 2, Some(b"a")).unwrap().number, 3);
    assert_eq!(find_leaf(&store, 2, Some(b"b")).unwrap().number, 3);
    assert_eq!(find_leaf(&store, 2, Some(b"c")).unwrap().number, 4);
    assert_eq!(find_leaf(&store, 2, Some(b"d")).unwrap().number, 4);
    assert_eq!(find_leaf(&store, 2, Some(b"da")).unwrap().number, 5);
    assert_eq!(find_leaf(&store, 2, Some(b"zz")).unwrap().number, 5);
}

#[test]
fn keys_compare_byte_by_byte() {
    assert!(key_at_most(b"", b""));
    assert!(key_at_most(b"", b"a"));
    assert!(!key_at_most(b"a", b""));
    assert!(key_at_most(b"a", b"a"));
    assert!(key_at_most(b"a", b"ab"));
    assert!(!key_at_most(b"ab", b"a"));
    assert!(key_at_most(&[0x7f], &[0x80]));
    assert!(!key_at_most(&[0xff], &[0x01, 0xff]));
}

#[test]
fn leaf_entry_is_a_key_and_a_record() {
    assert_eq!(read_leaf_entry(&[2, 0, 7, 8, 9]), Some(rec(&[7, 8], &[9])));
    assert_eq!(read_leaf_entry(&[0, 0]), Some(rec(&[], &[])));
    assert_eq!(read_leaf_entry(&[3, 0, 7, 8]), None);
    assert_eq!(read_leaf_entry(&[0]), None);
}

#[test]
fn numbers_are_read_low_byte_first() {
    let b = [0x01, 0x02, 0x03, 0x04, 0x05, 0x06, 0x07, 0x08, 0x09];
    assert_eq!(read_u16(&b, 1), 0x0302);
    assert_eq!(read_u32(&b, 0), 0x04030201);
    assert_eq!(read_u64(&b, 1), 0x0908070605040302);
    assert_eq!(read_u32_be(&b, 0), 0x01020304);
    assert_eq!(copy_range(&b, 2, 5), vec![3, 4, 5]);
    assert_eq!(copy_range(&b, 4, 4), Vec::<u8>::new());
}

#[test]
fn signed_numbers_are_read_in_twos_complement() {
    assert_eq!(to_i8(0x7f), 127);
    assert_eq!(to_i8(0x80), -128);
    assert_eq!(to_i8(0xff), -1);
    assert_eq!(to_i16(0x8000), i16::MIN);
    assert_eq!(to_i16(0xfffe), -2);
    assert_eq!(to_i32(0x7fff_ffff), i32::MAX);
    assert_eq!(to_i32(0xffff_ffff), -1);
    assert_eq!(to_i64(0x8000_0000_0000_0000), i64::MIN);
    assert_eq!(to_i64(5), 5);
}

#[test]
fn bytes_are_read_as_values_of_a_type() {
    assert_eq!(convert(ColumnType::Bool, &[0]), Some(Scalar::Bool(false)));
    assert_eq!(convert(ColumnType::Bool, &[2]), Some(Scalar::Bool(true)));
    assert_eq!(convert(ColumnType::I8, &[0xfe]), Some(Scalar::Signed(-2)));
    assert_eq!(convert(ColumnType::U8, &[0xfe]), Some(Scalar::Unsigned(254)));
    assert_eq!(convert(ColumnType::I16, &[0xfe, 0xff]), Some(Scalar::Signed(-2)));
    assert_eq!(convert(ColumnType::U16, &[0xfe, 0xff]), Some(Scalar::Unsigned(65534)));
    assert_eq!(convert(ColumnType::I32, &[0xfe, 0xff, 0xff, 0xff]), Some(Scalar::Signed(-2)));
    assert_eq!(convert(ColumnType::U32, &[1, 0, 0, 1]), Some(Scalar::Unsigned(0x01000001)));
    assert_eq!(convert(ColumnType::I64, &[0xff; 8]), Some(Scalar::Signed(-1)));
    assert_eq!(convert(ColumnType::U64, &[0xff; 8]), Some(Scalar::Unsigned(u64::MAX)));
    assert_eq!(convert(ColumnType::DateTime32, &[1, 1, 0, 0]), Some(Scalar::DateTime(257)));
    assert_eq!(
        convert(ColumnType::DateTime64, &[0, 0, 0, 0, 1, 0, 0, 0]),
        Some(Scalar::DateTime(1 << 32))
    );
    assert_eq!(convert(ColumnType::Currency, &[0xf0, 0xd8, 0xff, 0xff, 0xff, 0xff, 0xff, 0xff]), Some(Scalar::Currency(-10000)));
    assert_eq!(convert(ColumnType::Text, &utf16("hé")), Some(Scalar::Text(units("hé"))));
    assert_eq!(convert(ColumnType::Text, &[]), Some(Scalar::Text(vec![])));
    assert_eq!(convert(ColumnType::Binary, &[1, 2, 3]), Some(Scalar::Binary(vec![1, 2, 3])));
}

#[test]
fn bytes_of_the_wrong_length_are_no_value() {
    assert_eq!(convert(ColumnType::Bool, &[]), None);
    assert_eq!(convert(ColumnType::U8, &[1, 2]), None);
    assert_eq!(convert(ColumnType::I16, &[1]), None);
    assert_eq!(convert(ColumnType::U32, &[1, 2, 3]), None);
    assert_eq!(convert(ColumnType::I64, &[0; 9]), None);
    assert_eq!(convert(ColumnType::DateTime32, &[0; 8]), None);
    assert_eq!(convert(ColumnType::Text, &[0x41]), None);
}

#[test]
fn type_codes_and_sizes() {
    let all = [
        ColumnType::Bool,
        ColumnType::I8,
        ColumnType::U8,
        ColumnType::I16,
        ColumnType::U16,
        ColumnType::I32,
        ColumnType::U32,
        ColumnType::I64,
        ColumnType::U64,
        ColumnType::DateTime32,
        ColumnType::DateTime64,
        ColumnType::Currency,
        ColumnType::Text,
        ColumnType::Binary,
    ];
    for kind in all {
        assert_eq!(ColumnType::from_code(kind.code()), Some(kind));
    }
    assert_eq!(ColumnType::from_code(4), Some(ColumnType::I32));
    assert_eq!(ColumnType::from_code(11), Some(ColumnType::Binary));
    assert_eq!(ColumnType::from_code(12), Some(ColumnType::Text));
    assert_eq!(ColumnType::from_code(0), None);
    assert_eq!(ColumnType::from_code(6), None);
    assert_eq!(ColumnType::from_code(21), None);
    assert_eq!(ColumnType::I32.byte_size(), Some(4));
    assert_eq!(ColumnType::Currency.byte_size(), Some(8));
    assert_eq!(ColumnType::U16.byte_size(), Some(2));
    assert_eq!(ColumnType::Bool.byte_size(), Some(1));
    assert_eq!(ColumnType::Text.byte_size(), None);
}

fn col(id: u32, kind: ColumnType, width: u16) -> Column {
    Column { id, kind, width }
}

#[test]
fn schema_is_checked_when_it_is_made() {
    let ok = TableSchema::new(
        b"t".to_vec(),
        vec![col(1, ColumnType::I32, 4), col(3, ColumnType::Text, 6)],
        vec![col(128, ColumnType::Binary, 0), col(255, ColumnType::Text, 0)],
        vec![col(256, ColumnType::Text, 0), col(65535, ColumnType::I64, 0)],
        9,
        Some(10),
    )
    .unwrap();
    assert_eq!(ok.name(), &b"t".to_vec());
    assert_eq!(ok.fixed().len(), 2);
    assert_eq!(ok.variable().len(), 2);
    assert_eq!(ok.tagged().len(), 2);
    assert_eq!(ok.root_page(), 9);
    assert_eq!(ok.long_value_root(), Some(10));
    let bad = |fixed: Vec<Column>, variable: Vec<Column>, tagged: Vec<Column>| {
        TableSchema::new(vec![], fixed, variable, tagged, 2, None).err()
    };
    assert_eq!(bad(vec![col(1, ColumnType::I32, 2)], vec![], vec![]), Some(Error::CatalogCorrupt));
    assert_eq!(bad(vec![col(1, ColumnType::Text, 3)], vec![], vec![]), Some(Error::CatalogCorrupt));
    assert_eq!(bad(vec![col(1, ColumnType::Binary, 0)], vec![], vec![]), Some(Error::CatalogCorrupt));
    assert_eq!(bad(vec![col(0, ColumnType::U8, 1)], vec![], vec![]), Some(Error::CatalogCorrupt));
    assert_eq!(bad(vec![col(128, ColumnType::U8, 1)], vec![], vec![]), Some(Error::CatalogCorrupt));
    assert_eq!(
        bad(vec![col(2, ColumnType::U8, 1), col(2, ColumnType::U8, 1)], vec![], vec![]),
        Some(Error::CatalogCorrupt)
    );
    assert_eq!(
        bad(vec![], vec![col(129, ColumnType::U8, 0), col(128, ColumnType::U8, 0)], vec![]),
        Some(Error::CatalogCorrupt)
    );
    assert_eq!(bad(vec![], vec![col(256, ColumnType::U8, 0)], vec![]), Some(Error::CatalogCorrupt));
    assert_eq!(bad(vec![], vec![], vec![col(255, ColumnType::U8, 0)]), Some(Error::CatalogCorrupt));
    assert_eq!(bad(vec![], vec![], vec![col(65536, ColumnType::U8, 0)]), Some(Error::CatalogCorrupt));
    assert_eq!(bad(vec![], vec![], vec![]), None);
}

fn wide_schema() -> TableSchema {
    TableSchema::new(
        b"wide".to_vec(),
        vec![col(1, ColumnType::I32, 4), col(2, ColumnType::Bool, 1), col(3, ColumnType::U16, 2)],
        vec![col(128, ColumnType::Text, 0), col(129, ColumnType::Binary, 0), col(130, ColumnType::U32, 0)],
        vec![col(256, ColumnType::Text, 0), col(257, ColumnType::U16, 0), col(300, ColumnType::Binary, 0)],
        5,
        Some(6),
    )
    .unwrap()
}

#[test]
fn decode_recovers_what_the_encoder_wrote() {
    let mut many = Vec::new();
    for v in [7u16, 8, 9] {
        many.extend_from_slice(&2u16.to_le_bytes());
        many.extend_from_slice(&v.to_le_bytes());
    }
    let raw = encode(
        2,
        &[(-5i32).to_le_bytes().to_vec(), vec![1], vec![0xaa, 0xbb]],
        &[utf16("héllo"), vec![], 77u32.to_le_bytes().to_vec()],
        Some(&[
            (300, 0, vec![1, 2, 3]),
            (257, 2, many),
            (256, 1, 9u32.to_le_bytes().to_vec()),
            (256, 0, vec![]),
            (999, 0, vec![5]),
        ]),
    );
    let record = decode(&wide_schema(), &raw).unwrap();
    assert_eq!(
        record,
        Record {
            fields: vec![
                one(1, Scalar::Signed(-5)),
                one(2, Scalar::Bool(true)),
                Field { id: 3, value: Value::Absent },
                one(128, Scalar::Text(units("héllo"))),
                one(130, Scalar::Unsigned(77)),
                one(300, Scalar::Binary(vec![1, 2, 3])),
                Field {
                    id: 257,
                    value: Value::Many(vec![Scalar::Unsigned(7), Scalar::Unsigned(8), Scalar::Unsigned(9)]),
                },
                Field { id: 256, value: Value::LongValue(9) },
                one(256, Scalar::Text(vec![])),
                one(999, Scalar::Binary(vec![5])),
            ],
        }
    );
    assert_eq!(record.get(1), Some(&Value::One(Scalar::Signed(-5))));
    assert_eq!(record.get(3), Some(&Value::Absent));
    assert_eq!(record.get(129), None);
    assert_eq!(record.get(256), Some(&Value::LongValue(9)));
}

#[test]
fn decode_without_tagged_columns_ignores_what_follows() {
    let mut raw = encode(3, &[1i32.to_le_bytes().to_vec(), vec![0], vec![2, 0]], &[vec![], vec![], vec![]], None);
    raw.extend_from_slice(&[0xff; 7]);
    let record = decode(&wide_schema(), &raw).unwrap();
    assert_eq!(
        record.fields,
        vec![one(1, Scalar::Signed(1)), one(2, Scalar::Bool(false)), one(3, Scalar::Unsigned(2))]
    );
}

#[test]
fn decode_gives_the_same_on_the_same_input() {
    let schema = wide_schema();
    let raw = encode(
        3,
        &[9i32.to_le_bytes().to_vec(), vec![1], vec![3, 4]],
        &[utf16("x"), vec![1], vec![]],
        Some(&[(256, 0, utf16("tag"))]),
    );
    assert_eq!(decode(&schema, &raw), decode(&schema, &raw));
    let cut = &raw[..raw.len() - 1];
    assert_eq!(decode(&schema, cut), decode(&schema, cut));
    assert_eq!(decode(&schema, cut), Err(Error::TruncatedRecord));
}

#[test]
fn decode_refuses_every_truncation_of_a_record_without_slack() {
    let schema = wide_schema();
    let raw = encode(
        3,
        &[9i32.to_le_bytes().to_vec(), vec![1], vec![3, 4]],
        &[utf16("x"), vec![1], vec![]],
        Some(&[(256, 0, utf16("tag"))]),
    );
    assert!(decode(&schema, &raw).is_ok());
    for keep in 0..raw.len() {
        assert_eq!(decode(&schema, &raw[..keep]), Err(Error::TruncatedRecord));
    }
}

#[test]
fn decode_refuses_bytes_shorter_than_the_shortest_record() {
    let schema = wide_schema();
    let shortest = vec![0u8; 2 + 7 + 6];
    assert_eq!(
        decode(&schema, &shortest).unwrap().fields,
        vec![
            Field { id: 1, value: Value::Absent },
            Field { id: 2, value: Value::Absent },
            Field { id: 3, value: Value::Absent },
        ]
    );
    assert_eq!(decode(&schema, &shortest[..14]), Err(Error::TruncatedRecord));
    assert_eq!(decode(&schema, &[]), Err(Error::TruncatedRecord));
}

#[test]
fn decode_refuses_offsets_that_run_backwards_or_too_far() {
    let schema = people_schema();
    let mut raw = encode(1, &[1i32.to_le_bytes().to_vec()], &[utf16("ab")], None);
    assert!(decode(&schema, &raw).is_ok());
    put_u16(&mut raw, 6, 5);
    assert_eq!(decode(&schema, &raw), Err(Error::TruncatedRecord));
    put_u16(&mut raw, 6, 3);
    assert_eq!(decode(&schema, &raw), Err(Error::TruncatedRecord));
    let schema = wide_schema();
    let mut raw = encode(0, &[vec![0; 4], vec![0], vec![0; 2]], &[utf16("ab"), vec![1], vec![]], None);
    put_u16(&mut raw, 11, 3);
    assert_eq!(decode(&schema, &raw), Err(Error::TruncatedRecord));
}

#[test]
fn decode_refuses_tagged_entries_that_do_not_fit() {
    let schema = wide_schema();
    let fixed = [vec![0; 4], vec![0], vec![0; 2]];
    let variable = [vec![], vec![], vec![]];
    let good = encode(0, &fixed, &variable, Some(&[(257, 0, vec![1, 0])]));
    assert!(decode(&schema, &good).is_ok());
    let odd = encode(0, &fixed, &variable, Some(&[(257, 0, vec![1])]));
    assert_eq!(decode(&schema, &odd), Err(Error::TruncatedRecord));
    let long = encode(0, &fixed, &variable, Some(&[(256, 1, vec![1, 2, 3])]));
    assert_eq!(decode(&schema, &long), Err(Error::TruncatedRecord));
    let items = encode(0, &fixed, &variable, Some(&[(257, 2, vec![2, 0, 1])]));
    assert_eq!(decode(&schema, &items), Err(Error::TruncatedRecord));
    let mut flagged = encode(0, &fixed, &variable, None);
    flagged[0] = 1;
    assert_eq!(decode(&schema, &flagged), Err(Error::TruncatedRecord));
    let none = encode(0, &fixed, &variable, Some(&[]));
    assert_eq!(decode(&schema, &none).unwrap().fields.len(), 3);
}

#[test]
fn decode_takes_a_count_beyond_the_schema_as_all_columns() {
    let schema = people_schema();
    let raw = encode(9, &[3i32.to_le_bytes().to_vec()], &[vec![]], None);
    assert_eq!(decode(&schema, &raw).unwrap().fields, vec![one(1, Scalar::Signed(3))]);
}

fn segment(id: u32, place: u32, data: &[u8]) -> Vec<u8> {
    let mut key = id.to_be_bytes().to_vec();
    key.extend_from_slice(&place.to_be_bytes());
    leaf_entry(&key, data)
}

/// A tree of long values at page 2: the long values 3 and 7, the second in
/// three segments over two leaves.
fn long_values() -> Store {
    open(vec![
        page(0x5, 0, &[branch_entry(&[0, 0, 0, 7, 0, 0, 0, 2], 3), branch_entry(b"", 4)]),
        page(0x82, 4, &[segment(3, 0, b"abc"), segment(7, 0, b"he"), segment(7, 2, b"ll")]),
        page(0x82, 0, &[segment(7, 4, b"o"), segment(9, 0, b"")]),
    ])
}

#[test]
fn long_value_is_joined_from_its_segments() {
    let store = long_values();
    assert_eq!(resolve(&store, 2, 3), Ok(b"abc".to_vec()));
    assert_eq!(resolve(&store, 2, 7), Ok(b"hello".to_vec()));
    assert_eq!(resolve(&store, 2, 9), Ok(vec![]));
    assert_eq!(resolve_or_empty(&store, 2, 7), (b"hello".to_vec(), None));
}

#[test]
fn long_value_without_segments_dangles() {
    let store = long_values();
    assert_eq!(resolve(&store, 2, 5), Err(Error::DanglingLongValue));
    assert_eq!(resolve(&store, 2, 8), Err(Error::DanglingLongValue));
    assert_eq!(resolve(&store, 2, 10), Err(Error::DanglingLongValue));
    assert_eq!(resolve(&store, 2, 0), Err(Error::DanglingLongValue));
    assert_eq!(resolve_or_empty(&store, 2, 5), (vec![], Some(Error::DanglingLongValue)));
}

#[test]
fn long_value_walk_that_breaks_off_gives_the_fault() {
    let store = open(vec![page(0x82, 9, &[segment(3, 0, b"abc")])]);
    assert_eq!(resolve(&store, 2, 3), Err(Error::OutOfRange));
    assert_eq!(resolve(&store, 2, 4), Err(Error::OutOfRange));
    assert_eq!(resolve(&store, 2, 2), Err(Error::DanglingLongValue));
    assert_eq!(resolve(&store, 7, 2), Err(Error::OutOfRange));
    assert_eq!(resolve_or_empty(&store, 2, 3), (vec![], Some(Error::OutOfRange)));
}

#[test]
fn segment_keys_order_as_the_numbers_do() {
    assert_eq!(make_segment_key(0x01020304, 0x0a0b0c0d), vec![1, 2, 3, 4, 10, 11, 12, 13]);
    assert_eq!(make_segment_key(0, 0), vec![0; 8]);
    assert!(key_at_most(&make_segment_key(255, 9), &make_segment_key(256, 0)));
    assert!(segment_of(&rec(&[0, 0, 0, 7, 0, 0, 0, 2], b""), 7));
    assert!(!segment_of(&rec(&[0, 0, 0, 7, 0, 0, 0, 2], b""), 2));
    assert!(!segment_of(&rec(&[0, 0, 0, 7], b""), 7));
}

#[test]
fn catalog_row_is_read_by_its_own_decoder() {
    let raw = row(2, 2, 128, 10, 255, b"name");
    let e = read_entry(&raw).unwrap();
    assert_eq!(e.table_id, 2);
    assert_eq!(e.kind, EntryKind::Column);
    assert_eq!(e.id, 128);
    assert_eq!(e.code, 10);
    assert_eq!(e.width, 255);
    assert_eq!(e.flags, 0);
    assert_eq!(e.name, b"name".to_vec());
    assert_eq!(read_entry(&row(1, 1, 1, 5, 0, b"")).unwrap().kind, EntryKind::Table);
    assert_eq!(read_entry(&row(1, 3, 1, 5, 0, b"")).unwrap().kind, EntryKind::Index);
    assert_eq!(read_entry(&row(1, 4, 1, 5, 0, b"")).unwrap().kind, EntryKind::LongValue);
    assert_eq!(read_entry(&row(1, 5, 1, 5, 0, b"")).unwrap().kind, EntryKind::Other);
    assert_eq!(read_entry(&raw[..raw.len() - 1]), None);
    assert_eq!(read_entry(&raw[..25]), None);
    let mut short = raw.clone();
    short[1] = 5;
    assert_eq!(read_entry(&short), None);
}

#[test]
fn storage_class_follows_the_identifier() {
    assert_eq!(storage_class(0), None);
    assert_eq!(storage_class(1), Some(StorageClass::Fixed));
    assert_eq!(storage_class(127), Some(StorageClass::Fixed));
    assert_eq!(storage_class(128), Some(StorageClass::Variable));
    assert_eq!(storage_class(255), Some(StorageClass::Variable));
    assert_eq!(storage_class(256), Some(StorageClass::Tagged));
    assert_eq!(storage_class(65535), Some(StorageClass::Tagged));
    assert_eq!(storage_class(65536), None);
}

#[test]
fn catalog_holds_the_tables_that_its_own_scan_names() {
    let store = Store::open(people_store(), 0x11, 0x20).unwrap();
    let catalog = load_catalog(&store).unwrap();
    assert_eq!(catalog.len(), 1);
    let (records, fault) = scan(&store, CATALOG_ROOT);
    assert_eq!(fault, None);
    let names: Vec<Vec<u8>> = records
        .iter()
        .map(|r| read_entry(&r.data).unwrap())
        .filter(|e| e.kind == EntryKind::Table)
        .map(|e| e.name)
        .collect();
    assert_eq!(names, vec![b"T".to_vec()]);
    for i in 0..catalog.len() {
        assert!(names.contains(catalog.get(i).name()));
    }
    let t = catalog.find(b"T").unwrap();
    assert_eq!(t.root_page(), 5);
    assert_eq!(t.fixed(), &vec![col(1, ColumnType::I32, 4)]);
    assert_eq!(t.variable(), &vec![col(128, ColumnType::Text, 0)]);
    assert!(t.tagged().is_empty());
    assert_eq!(t.long_value_root(), None);
    assert!(catalog.find(b"t").is_none());
    assert!(catalog.find(b"name").is_none());
    assert!(catalog.find(b"").is_none());
}

#[test]
fn catalog_keeps_tables_of_unknown_shape_and_columns_by_class() {
    let catalog_page = page(
        0x3,
        0,
        &keyed(vec![
            row(7, 2, 256, 12, 0, b"body"),
            row(7, 1, 7, 3, 0, b"first"),
            row(8, 1, 8, 2, 0, b"second"),
            row(7, 2, 1, 15, 8, b"n"),
            row(7, 4, 1, 5, 0, b""),
            row(7, 2, 2, 99, 3, b"odd"),
            row(8, 2, 200, 9, 0, b"blob"),
            row(7, 5, 1, 0, 0, b"callback"),
            row(7, 3, 1, 0, 0, b"index"),
            row(7, 2, 0, 4, 4, b"nowhere"),
        ]),
    );
    let store = open(vec![blank(), blank(), catalog_page, blank()]);
    let catalog = load_catalog(&store).unwrap();
    assert_eq!(catalog.len(), 2);
    assert_eq!(catalog.get(0).name(), &b"first".to_vec());
    assert_eq!(catalog.get(1).name(), &b"second".to_vec());
    let first = catalog.find(b"first").unwrap();
    assert_eq!(first.root_page(), 3);
    assert_eq!(first.fixed(), &vec![col(1, ColumnType::I64, 8), col(2, ColumnType::Binary, 3)]);
    assert!(first.variable().is_empty());
    assert_eq!(first.tagged(), &vec![col(256, ColumnType::Text, 0)]);
    assert_eq!(first.long_value_root(), Some(5));
    let second = catalog.find(b"second").unwrap();
    assert_eq!(second.root_page(), 2);
    assert!(second.fixed().is_empty());
    assert_eq!(second.variable(), &vec![col(200, ColumnType::Binary, 0)]);
    assert_eq!(second.long_value_root(), None);
}

#[test]
fn catalog_with_columns_out_of_order_is_corrupt() {
    let rows = keyed(vec![
        row(7, 1, 7, 3, 0, b"first"),
        row(7, 2, 2, 4, 4, b"b"),
        row(7, 2, 1, 4, 4, b"a"),
    ]);
    let store = open(vec![blank(), blank(), page(0x3, 0, &rows), blank()]);
    assert_eq!(load_catalog(&store).err(), Some(Error::CatalogCorrupt));
}

#[test]
fn catalog_with_a_table_without_a_root_is_corrupt() {
    for root in [0u32, 1, 6, 1000] {
        let catalog_page = page(0x3, 0, &keyed(vec![row(2, 1, 2, root, 0, b"T")]));
        let store = open(vec![blank(), blank(), catalog_page, blank()]);
        assert_eq!(load_catalog(&store).err(), Some(Error::CatalogCorrupt));
    }
    let catalog_page = page(0x3, 0, &keyed(vec![row(2, 1, 2, 5, 0, b"T")]));
    let store = open(vec![blank(), blank(), catalog_page, blank()]);
    assert_eq!(load_catalog(&store).unwrap().len(), 1);
}

#[test]
fn catalog_with_bad_rows_or_columns_is_corrupt() {
    let store = open(vec![blank(), blank(), page(0x3, 0, &[leaf_entry(b"k", &[0; 10])]), blank()]);
    assert_eq!(load_catalog(&store).err(), Some(Error::CatalogCorrupt));
    let rows = keyed(vec![row(2, 1, 2, 5, 0, b"T"), row(2, 2, 1, 4, 2, b"id")]);
    let store = open(vec![blank(), blank(), page(0x3, 0, &rows), blank()]);
    assert_eq!(load_catalog(&store).err(), Some(Error::CatalogCorrupt));
    let rows = keyed(vec![row(2, 1, 2, 5, 0, b"T"), row(2, 2, 1, 9, 70000, b"id")]);
    let store = open(vec![blank(), blank(), page(0x3, 0, &rows), blank()]);
    assert_eq!(load_catalog(&store).err(), Some(Error::CatalogCorrupt));
}

#[test]
fn catalog_that_cannot_be_walked_gives_the_fault_of_the_walk() {
    let store = open(vec![blank(), blank(), blank(), blank()]);
    assert_eq!(load_catalog(&store).err(), Some(Error::CorruptPage));
    let store = open(vec![blank()]);
    assert_eq!(load_catalog(&store).err(), Some(Error::OutOfRange));
    let store = open(vec![blank(), blank(), page(0x8, 0, &[])]);
    assert_eq!(load_catalog(&store).err(), Some(Error::CorruptBTree));
    let mapper = Mapper { rules: vec![] };
    assert_eq!(read_store(file(vec![blank()]), &mapper).err(), Some(Error::OutOfRange));
}

#[test]
fn bytes_compare_by_content() {
    assert!(same_bytes(b"", b""));
    assert!(same_bytes(b"abc", b"abc"));
    assert!(!same_bytes(b"abc", b"abd"));
    assert!(!same_bytes(b"abc", b"ab"));
}

#[test]
fn values_are_read_as_numbers_and_text() {
    assert_eq!(to_number(&Value::One(Scalar::Unsigned(7))), Some(7));
    assert_eq!(to_number(&Value::One(Scalar::DateTime(8))), Some(8));
    assert_eq!(to_number(&Value::One(Scalar::Bool(true))), Some(1));
    assert_eq!(to_number(&Value::One(Scalar::Bool(false))), Some(0));
    assert_eq!(to_number(&Value::One(Scalar::Signed(9))), Some(9));
    assert_eq!(to_number(&Value::One(Scalar::Signed(-9))), None);
    assert_eq!(to_number(&Value::One(Scalar::Currency(10))), Some(10));
    assert_eq!(to_number(&Value::One(Scalar::Currency(-1))), None);
    assert_eq!(to_number(&Value::One(Scalar::Text(vec![]))), None);
    assert_eq!(to_number(&Value::Absent), None);
    assert_eq!(to_number(&Value::LongValue(3)), None);
    assert_eq!(to_number(&Value::Many(vec![Scalar::Unsigned(1)])), None);
    assert_eq!(to_text(&Value::One(Scalar::Text(units("C:\\é")))), Some("C:\\é".to_string()));
    assert_eq!(to_text(&Value::One(Scalar::Text(vec![0x41, 0xD800, 0x42]))), Some("A\u{FFFD}B".to_string()));
    assert_eq!(to_text(&Value::One(Scalar::Text(vec![0xD83D, 0xDE00]))), Some("\u{1F600}".to_string()));
    assert_eq!(to_text(&Value::One(Scalar::Binary(vec![0x41]))), None);
    assert_eq!(to_text(&Value::Absent), None);
}

#[test]
fn mapper_picks_the_fields_of_the_first_rule_for_a_table() {
    let mut second = people_rule();
    second.kind = ReportSuffix::InternetHistory;
    let mapper = Mapper { rules: vec![people_rule(), second] };
    let record = Record {
        fields: vec![
            one(1, Scalar::Signed(-1)),
            one(128, Scalar::Text(units("n"))),
            one(128, Scalar::Text(units("second"))),
        ],
    };
    assert_eq!(
        mapper.map(b"T", &record),
        Some(ReportRecord {
            kind: ReportSuffix::FileReport,
            fields: vec![ReportField { name: "name".to_string(), value: FieldValue::Text("n".to_string()) }],
        })
    );
    assert_eq!(mapper.map(b"U", &record), None);
    assert_eq!(mapper.rule_for(b"T", &record).unwrap().kind, ReportSuffix::FileReport);
    assert!(mapper.rule_for(b"", &record).is_none());
    assert!(mapper.knows(b"T"));
    assert!(!mapper.knows(b"U"));
    assert_eq!(mapper.host(b"T", &record), None);
    assert_eq!(map_by(&people_rule(), &Record { fields: vec![] }).fields, vec![]);
}

#[test]
fn host_is_the_text_of_the_column_that_the_rule_names() {
    let mut rule = people_rule();
    let record = Record { fields: vec![one(1, Scalar::Signed(1)), one(128, Scalar::Text(units("PC-1")))] };
    assert_eq!(host_of(&rule, &record), None);
    rule.host_column = Some(128);
    assert_eq!(host_of(&rule, &record), Some("PC-1".to_string()));
    rule.host_column = Some(1);
    assert_eq!(host_of(&rule, &record), None);
    rule.host_column = Some(500);
    assert_eq!(host_of(&rule, &record), None);
}

#[test]
fn emit_closes_the_open_record_and_fills_the_next() {
    let mut sink = ReportSink::Json(ReportJson::new(ReportType::ToFile, None));
    let first = ReportRecord {
        kind: ReportSuffix::FileReport,
        fields: vec![
            ReportField { name: "a".to_string(), value: FieldValue::Number(1) },
            ReportField { name: "b".to_string(), value: FieldValue::Text("x\"y".to_string()) },
        ],
    };
    let empty = ReportRecord { kind: ReportSuffix::FileReport, fields: vec![] };
    emit(&mut sink, &first);
    assert_eq!(sink.take_output(), "");
    assert!(sink.is_some_val_in_record());
    emit(&mut sink, &empty);
    assert_eq!(sink.take_output(), "{\"a\":1,\"b\":\"x\\\"y\"}");
    assert!(!sink.is_some_val_in_record());
    emit(&mut sink, &first);
    sink.footer();
    assert_eq!(sink.take_output(), "\n{\"a\":1,\"b\":\"x\\\"y\"}");
}

/// A store whose table `T` has a tagged column of long text, with a tree of
/// long values at page 6 that holds the long value 1 and not the long value 2.
fn store_with_long_values() -> Vec<u8> {
    let catalog = page(
        0x3,
        0,
        &keyed(vec![
            row(2, 1, 2, 5, 0, b"T"),
            row(2, 2, 1, 4, 4, b"id"),
            row(2, 2, 256, 12, 0, b"body"),
            row(2, 2, 257, 14, 0, b"size"),
            row(2, 4, 1, 6, 0, b""),
        ]),
    );
    let fixed = |n: i32| vec![n.to_le_bytes().to_vec()];
    let table = page(
        0x3,
        0,
        &[
            leaf_entry(&[1], &encode(1, &fixed(1), &[], Some(&[(256, 1, 1u32.to_le_bytes().to_vec())]))),
            leaf_entry(&[2], &[1, 1, 0]),
            leaf_entry(&[3], &encode(1, &fixed(3), &[], Some(&[(256, 1, 2u32.to_le_bytes().to_vec()), (257, 1, 2u32.to_le_bytes().to_vec())]))),
            leaf_entry(&[4], &encode(1, &fixed(4), &[], Some(&[(256, 0, utf16("inline"))]))),
        ],
    );
    let lv = page(0x83, 0, &[segment(1, 0, &utf16("lo")), segment(1, 4, &utf16("ng"))]);
    file(vec![blank(), blank(), catalog, table, lv])
}

fn body_rule() -> TableRule {
    TableRule {
        table: b"T".to_vec(),
        kind: ReportSuffix::ActivityHistory,
        marker: Marker::Any,
        host_column: Some(256),
        fields: vec![
            FieldRule { column: 256, field: "body".to_string(), transform: Transform::Text },
            FieldRule { column: 1, field: "id".to_string(), transform: Transform::Number },
            FieldRule { column: 257, field: "size".to_string(), transform: Transform::Number },
        ],
    }
}

fn text(name: &str, value: &str) -> ReportField {
    ReportField { name: name.to_string(), value: FieldValue::Text(value.to_string()) }
}

fn number(name: &str, value: u64) -> ReportField {
    ReportField { name: name.to_string(), value: FieldValue::Number(value) }
}

#[test]
fn table_scan_goes_on_past_a_dangling_long_value_and_a_truncated_record() {
    let store = Store::open(store_with_long_values(), 0x11, 0x20).unwrap();
    let catalog = load_catalog(&store).unwrap();
    let schema = catalog.find(b"T").unwrap();
    assert_eq!(schema.long_value_root(), Some(6));
    let report = table_report(&store, schema, &Mapper { rules: vec![body_rule()] });
    assert_eq!(report.table, b"T".to_vec());
    assert_eq!(report.fault, None);
    assert_eq!(report.host, Some("long".to_string()));
    assert_eq!(
        report.diagnostics,
        vec![
            Diagnostic { record: 1, column: None, error: Error::TruncatedRecord },
            Diagnostic { record: 2, column: Some(256), error: Error::DanglingLongValue },
            Diagnostic { record: 2, column: Some(257), error: Error::DanglingLongValue },
        ]
    );
    let kind = ReportSuffix::ActivityHistory;
    assert_eq!(
        report.records,
        vec![
            ReportRecord { kind, fields: vec![text("body", "long"), number("id", 1)] },
            ReportRecord { kind, fields: vec![text("body", ""), number("id", 3)] },
            ReportRecord { kind, fields: vec![text("body", "inline"), number("id", 4)] },
        ]
    );
}

#[test]
fn settle_resolves_long_values_and_leaves_the_rest() {
    let store = Store::open(store_with_long_values(), 0x11, 0x20).unwrap();
    let catalog = load_catalog(&store).unwrap();
    let schema = catalog.find(b"T").unwrap();
    let mut record = Record {
        fields: vec![
            one(1, Scalar::Signed(1)),
            Field { id: 256, value: Value::LongValue(1) },
            Field { id: 257, value: Value::LongValue(1) },
            Field { id: 900, value: Value::LongValue(1) },
            Field { id: 256, value: Value::LongValue(5) },
            Field { id: 3, value: Value::Absent },
        ],
    };
    let mut notes = vec![Diagnostic { record: 0, column: None, error: Error::TruncatedRecord }];
    settle(&store, schema, &mut record, 4, &mut notes);
    assert_eq!(
        record.fields,
        vec![
            one(1, Scalar::Signed(1)),
            one(256, Scalar::Text(units("long"))),
            Field { id: 257, value: Value::Absent },
            one(900, Scalar::Binary(utf16("long"))),
            one(256, Scalar::Text(vec![])),
            Field { id: 3, value: Value::Absent },
        ]
    );
    assert_eq!(
        notes,
        vec![
            Diagnostic { record: 0, column: None, error: Error::TruncatedRecord },
            Diagnostic { record: 4, column: Some(256), error: Error::DanglingLongValue },
        ]
    );
    let mut record = Record { fields: vec![Field { id: 256, value: Value::LongValue(1) }] };
    let mut notes = vec![];
    settle(&store, &people_schema(), &mut record, 0, &mut notes);
    assert_eq!(record.fields, vec![one(256, Scalar::Binary(vec![]))]);
    assert_eq!(notes, vec![Diagnostic { record: 0, column: Some(256), error: Error::DanglingLongValue }]);
}

#[test]
fn table_with_a_broken_tree_keeps_what_it_gave() {
    let mut bytes = people_store();
    let mut table = page(
        0x3,
        9,
        &[leaf_entry(&[1], &encode(1, &[1i32.to_le_bytes().to_vec()], &[utf16("a")], None))],
    );
    seal(&mut table);
    bytes[4 * PS..5 * PS].copy_from_slice(&table);
    let mapper = Mapper { rules: vec![people_rule()] };
    let tables = read_store(bytes, &mapper).unwrap();
    assert_eq!(tables.len(), 1);
    assert_eq!(tables[0].fault, Some(Error::OutOfRange));
    assert_eq!(tables[0].records.len(), 1);
}

#[test]
fn tables_without_a_rule_are_passed_over() {
    let mapper = Mapper { rules: vec![] };
    assert_eq!(read_store(people_store(), &mapper).unwrap(), vec![]);
    let mut other = people_rule();
    other.table = b"Other".to_vec();
    let mapper = Mapper { rules: vec![other] };
    assert_eq!(read_store(people_store(), &mapper).unwrap(), vec![]);
}

#[test]
fn reports_are_filed_under_the_host_that_the_store_names() {
    let mapper = Mapper { rules: vec![body_rule()] };
    let producer = ReportProducer::new(ReportFormat::Csv, ReportType::ToStdout);
    let tables = read_store(store_with_long_values(), &mapper).unwrap();
    assert_eq!(find_host(&tables), Some(&"long".to_string()));
    let mut reports = write_reports(&producer, &tables, "FALLBACK", "S");
    assert_eq!(reports.len(), 3);
    assert_eq!(reports[0].0, "long_File_Report_S.csv");
    assert_eq!(reports[1].0, "long_Activity_History_Report_S.csv");
    assert_eq!(reports[2].0, "long_Internet_History_Report_S.csv");
    assert_eq!(reports[0].1.take_output(), "");
    assert_eq!(
        reports[1].1.take_output(),
        "Report Suffix,body,id\n\"activity_history\",\"long\",1\n\"activity_history\",\"\",3\n\"activity_history\",\"inline\",4\n"
    );
    assert_eq!(reports[2].1.take_output(), "");
    assert_eq!(find_host(&vec![]), None);
    let (name, mut sink) = write_report(&producer, &tables, "H", ReportSuffix::Unknown, "S");
    assert_eq!(name, "H__S.csv");
    assert_eq!(sink.take_output(), "");
}

#[test]
fn error_names() {
    assert_eq!(Error::OutOfRange.name(), "OutOfRange");
    assert_eq!(Error::CorruptPage.name(), "CorruptPage");
    assert_eq!(Error::CatalogCorrupt.name(), "CatalogCorrupt");
    assert_eq!(Error::UnsupportedVersion.name(), "UnsupportedVersion");
    assert_eq!(Error::CorruptBTree.name(), "CorruptBTree");
    assert_eq!(Error::TruncatedRecord.name(), "TruncatedRecord");
    assert_eq!(Error::DanglingLongValue.name(), "DanglingLongValue");
    assert_eq!(Error::IoError.name(), "IoError");
}

#[test]
fn report_labels_name_their_kinds() {
    for kind in [
        ReportSuffix::FileReport,
        ReportSuffix::ActivityHistory,
        ReportSuffix::InternetHistory,
        ReportSuffix::Unknown,
    ] {
        assert_eq!(ReportSuffix::from_label(kind.label()), kind);
    }
    assert_eq!(ReportSuffix::FileReport.label(), "File_Report");
    assert_eq!(ReportSuffix::ActivityHistory.label(), "Activity_History_Report");
    assert_eq!(ReportSuffix::InternetHistory.label(), "Internet_History_Report");
    assert_eq!(ReportSuffix::Unknown.label(), "");
}

#[test]
fn catalog_tells_the_identifier_of_a_named_column() {
    let store = Store::open(store_with_long_values(), 0x11, 0x20).unwrap();
    let catalog = load_catalog(&store).unwrap();
    assert_eq!(catalog.column_id(b"T", b"id"), Some(1));
    assert_eq!(catalog.column_id(b"T", b"body"), Some(256));
    assert_eq!(catalog.column_id(b"T", b"size"), Some(257));
    assert_eq!(catalog.column_id(b"T", b"T"), None);
    assert_eq!(catalog.column_id(b"T", b""), None);
    assert_eq!(catalog.column_id(b"U", b"id"), None);
    assert_eq!(catalog.column_id(b"id", b"id"), None);
}

#[test]
fn rules_bound_by_name_give_the_reports_of_an_opened_store() {
    let store = Store::open(store_with_long_values(), 0x11, 0x20).unwrap();
    let catalog = load_catalog(&store).unwrap();
    let rule = TableRule {
        table: b"T".to_vec(),
        kind: ReportSuffix::InternetHistory,
        marker: Marker::Any,
        host_column: catalog.column_id(b"T", b"host"),
        fields: vec![FieldRule {
            column: catalog.column_id(b"T", b"id").unwrap(),
            field: "n".to_string(),
            transform: Transform::Number,
        }],
    };
    let mapper = Mapper { rules: vec![rule] };
    let tables = report_tables(&store, &catalog, &mapper);
    assert_eq!(tables.len(), 1);
    assert_eq!(tables[0].host, None);
    let kind = ReportSuffix::InternetHistory;
    assert_eq!(
        tables[0].records,
        vec![
            ReportRecord { kind, fields: vec![number("n", 1)] },
            ReportRecord { kind, fields: vec![number("n", 3)] },
            ReportRecord { kind, fields: vec![number("n", 4)] },
        ]
    );
    assert_eq!(tables, read_store(store_with_long_values(), &mapper).unwrap());
}

#[test]
fn cursor_opens_at_the_leaf_of_a_key() {
    let store = small_tree(4, 5);
    let mut cursor = Cursor::open_at(&store, 2, Some(b"c")).unwrap();
    assert_eq!(cursor.next(), Ok(Some(rec(b"c", b"3"))));
    let mut cursor = Cursor::open_at(&store, 2, Some(b"zz")).unwrap();
    assert_eq!(cursor.next(), Ok(Some(rec(b"e", b"4"))));
    let mut cursor = Cursor::open_at(&store, 2, None).unwrap();
    assert_eq!(cursor.next(), Ok(Some(rec(b"a", b"1"))));
    assert_eq!(Cursor::open_at(&store, 9, None).err(), Some(Error::OutOfRange));
}

fn named(table: &[u8], kind: ReportSuffix, marker: Option<&[u8]>, host: Option<&[u8]>, fields: &[(&[u8], &str, Transform)]) -> NamedTable {
    NamedTable {
        table: table.to_vec(),
        kind,
        marker: marker.map(|m| m.to_vec()),
        host: host.map(|h| h.to_vec()),
        fields: fields
            .iter()
            .map(|(c, f, t)| NamedField { column: c.to_vec(), field: f.to_string(), transform: *t })
            .collect(),
    }
}

#[test]
fn rules_are_bound_to_the_columns_of_the_catalog() {
    let store = Store::open_supported(store_with_long_values()).unwrap();
    let catalog = load_catalog(&store).unwrap();
    let known = vec![
        named(
            b"T",
            ReportSuffix::InternetHistory,
            Some(b"size"),
            Some(b"body"),
            &[(b"id", "n", Transform::Number), (b"gone", "g", Transform::Text), (b"body", "b", Transform::Text)],
        ),
        named(b"T", ReportSuffix::ActivityHistory, Some(b"gone"), Some(b"gone"), &[]),
        named(b"U", ReportSuffix::FileReport, None, None, &[(b"id", "n", Transform::Number)]),
    ];
    let mapper = bind(&catalog, &known);
    assert_eq!(
        mapper.rules,
        vec![
            TableRule {
                table: b"T".to_vec(),
                kind: ReportSuffix::InternetHistory,
                marker: Marker::Holds(257),
                host_column: Some(256),
                fields: vec![
                    FieldRule { column: 1, field: "n".to_string(), transform: Transform::Number },
                    FieldRule { column: 256, field: "b".to_string(), transform: Transform::Text },
                ],
            },
            TableRule {
                table: b"T".to_vec(),
                kind: ReportSuffix::ActivityHistory,
                marker: Marker::Nothing,
                host_column: None,
                fields: vec![],
            },
            TableRule {
                table: b"U".to_vec(),
                kind: ReportSuffix::FileReport,
                marker: Marker::Any,
                host_column: None,
                fields: vec![],
            },
        ]
    );
    assert_eq!(bind(&catalog, &vec![]).rules, vec![]);
}

#[test]
fn records_go_to_the_report_of_the_first_rule_that_applies() {
    let visits = TableRule {
        table: b"T".to_vec(),
        kind: ReportSuffix::InternetHistory,
        marker: Marker::Holds(300),
        host_column: None,
        fields: vec![FieldRule { column: 300, field: "url".to_string(), transform: Transform::Text }],
    };
    let never = TableRule {
        table: b"T".to_vec(),
        kind: ReportSuffix::ActivityHistory,
        marker: Marker::Nothing,
        host_column: None,
        fields: vec![],
    };
    let mapper = Mapper { rules: vec![never.clone(), visits.clone(), people_rule()] };
    let visit = Record {
        fields: vec![one(1, Scalar::Signed(1)), one(300, Scalar::Text(units("http://x")))],
    };
    let file = Record { fields: vec![one(1, Scalar::Signed(2)), Field { id: 300, value: Value::Absent }] };
    assert!(rule_applies(&visits, b"T", &visit));
    assert!(!rule_applies(&visits, b"T", &file));
    assert!(!rule_applies(&visits, b"U", &visit));
    assert!(!rule_applies(&never, b"T", &visit));
    assert!(rule_applies(&people_rule(), b"T", &file));
    assert_eq!(
        mapper.map(b"T", &visit),
        Some(ReportRecord { kind: ReportSuffix::InternetHistory, fields: vec![text("url", "http://x")] })
    );
    assert_eq!(
        mapper.map(b"T", &file),
        Some(ReportRecord { kind: ReportSuffix::FileReport, fields: vec![number("id", 2)] })
    );
    let only = Mapper { rules: vec![visits, never] };
    assert_eq!(only.map(b"T", &file), None);
    assert!(only.knows(b"T"));
}

#[test]
fn one_table_feeds_the_reports_of_its_kinds() {
    let store = Store::open_supported(store_with_long_values()).unwrap();
    let catalog = load_catalog(&store).unwrap();
    let known = vec![
        named(b"T", ReportSuffix::InternetHistory, Some(b"body"), None, &[(b"body", "b", Transform::Text)]),
        named(b"T", ReportSuffix::FileReport, None, None, &[(b"id", "n", Transform::Number)]),
    ];
    let mapper = bind(&catalog, &known);
    let tables = report_tables(&store, &catalog, &mapper);
    assert_eq!(tables.len(), 1);
    let producer = ReportProducer::new(ReportFormat::Json, ReportType::ToFile);
    let mut reports = write_reports(&producer, &tables, "H", "S");
    assert_eq!(reports[0].1.take_output(), "");
    assert_eq!(reports[1].1.take_output(), "");
    assert_eq!(
        reports[2].1.take_output(),
        "{\"b\":\"long\"}\n{\"b\":\"\"}\n{\"b\":\"inline\"}"
    );
}

#[test]
fn every_record_is_reported_once_and_in_its_place() {
    let mapper = Mapper { rules: vec![people_rule()] };
    let store = Store::open_supported(people_store()).unwrap();
    let catalog = load_catalog(&store).unwrap();
    let schema = catalog.find(b"T").unwrap();
    let (raw, fault) = scan(&store, schema.root_page());
    assert_eq!(fault, None);
    let report = table_report(&store, schema, &mapper);
    assert_eq!(report.records.len(), raw.len());
    for (i, r) in raw.iter().enumerate() {
        let record = decode(schema, &r.data).unwrap();
        assert_eq!(Some(report.records[i].clone()), mapper.map(b"T", &record));
    }
}

#[test]
fn scan_gives_no_more_records_than_the_pages_have_room_for() {
    let store = circle();
    let (records, fault) = scan(&store, 5);
    assert_eq!(fault, Some(Error::CorruptBTree));
    assert!(records.len() <= (store.page_count() + 1) * (store.page_size() / 4));
    assert!(records.len() <= store.page_count() + 1);
}
