//! From a store to its reports: every table that a rule names is walked
//! over, its records are decoded, their long values resolved, and what the
//! rule picks from them is handed to the sink of the report that the table
//! belongs to.
//!
//! A record that cannot be decoded is passed over and noted, and so is a
//! long value that cannot be resolved, whose field is left empty. A fault of
//! a table's tree ends the walk over that table and keeps what it gave.

use vstd::prelude::*;
use vstd::string::*;

use crate::btree::{raws, scan, scan_of, RawModel};
use crate::catalog::{catalog_of, load_catalog, Catalog};
use crate::decode::{decode, decoded, tagged_kind};
use crate::error::Error;
use crate::long_value::{resolve, resolved};
use crate::mapper::{
    emit, emitted, host_by, mapped, names_table, Mapper, ReportRecord, ReportRecordModel,
    TableRule,
};
use crate::page::{opened, Store, StoreModel, HIGHEST_REVISION, LOWEST_REVISION};
use crate::report::{
    file_name, fresh_sink, sink_after_new_record, Report, ReportProducer, ReportSink,
    ReportSuffix, SinkState,
};
use crate::schema::{Column, ColumnType, SchemaModel, TableSchema};
use crate::value::{convert, scalar_of, FieldModel, Record, Value, ValueModel};

verus! {

/// A note of something that was passed over: the record, counted from the
/// first one of its table, the column where one is concerned, and the fault.
#[derive(Clone, Copy, Debug, PartialEq, Eq, Structural)]
pub struct Diagnostic {
    pub record: usize,
    pub column: Option<u32>,
    pub error: Error,
}

/// The value that bytes give to a column, where they can be read as the
/// column's type.
pub open spec fn value_from(kind: ColumnType, bytes: Seq<u8>) -> ValueModel {
    match scalar_of(kind, bytes) {
        Some(item) => ValueModel::One(item),
        None => ValueModel::Absent,
    }
}

/// What resolving the long value of a field gives. A table without a tree of
/// long values has none.
pub open spec fn long_value_in(store: StoreModel, schema: SchemaModel, id: u32) -> Result<
    Seq<u8>,
    Error,
> {
    match schema.long_value_root {
        None => Err(Error::DanglingLongValue),
        Some(root) => resolved(store, root, id),
    }
}

/// The field with its long value resolved: the bytes of the long value, read
/// as the column's type. A long value that cannot be resolved leaves the
/// field empty. Other fields stay as they are.
pub open spec fn settled_field(store: StoreModel, schema: SchemaModel, f: FieldModel) -> FieldModel {
    match f.value {
        ValueModel::LongValue(id) => FieldModel {
            id: f.id,
            value: value_from(
                tagged_kind(schema.tagged, f.id as int, 0),
                match long_value_in(store, schema, id) {
                    Ok(bytes) => bytes,
                    Err(_) => Seq::empty(),
                },
            ),
        },
        _ => f,
    }
}

/// The record with its long values resolved.
pub open spec fn settled(store: StoreModel, schema: SchemaModel, record: Seq<FieldModel>) -> Seq<
    FieldModel,
> {
    Seq::new(record.len(), |i: int| settled_field(store, schema, record[i]))
}

/// The notes of the long values among the first `upto` fields of record
/// `number` that could not be resolved.
pub open spec fn unresolved(
    store: StoreModel,
    schema: SchemaModel,
    record: Seq<FieldModel>,
    number: usize,
    upto: int,
) -> Seq<Diagnostic>
    decreases upto,
{
    if upto <= 0 {
        Seq::empty()
    } else {
        let before = unresolved(store, schema, record, number, upto - 1);
        match record[upto - 1].value {
            ValueModel::LongValue(id) => match long_value_in(store, schema, id) {
                Ok(_) => before,
                Err(e) => before.push(
                    Diagnostic { record: number, column: Some(record[upto - 1].id), error: e },
                ),
            },
            _ => before,
        }
    }
}

/// What a table gives to its report, as plain values.
pub struct TableReportModel {
    pub table: Seq<u8>,
    /// The records of the report, one for each record of the table that
    /// could be decoded, in the order of the table.
    pub records: Seq<ReportRecordModel>,
    /// The notes of what was passed over.
    pub diagnostics: Seq<Diagnostic>,
    /// The fault that ended the walk over the table, if one did.
    pub fault: Option<Error>,
    /// The name of the host, from the first record that gives one.
    pub host: Option<Seq<char>>,
}

/// What the first `upto` records of a table give to its report: for every
/// record that can be decoded and to which a rule applies what the rule
/// picks from it, in the order of the records.
pub open spec fn records_of(
    store: StoreModel,
    schema: SchemaModel,
    rules: Seq<TableRule>,
    recs: Seq<RawModel>,
    upto: int,
) -> Seq<ReportRecordModel>
    decreases upto,
{
    if upto <= 0 {
        Seq::empty()
    } else {
        let before = records_of(store, schema, rules, recs, upto - 1);
        match decoded(schema, recs[upto - 1].data) {
            Err(_) => before,
            Ok(record) => match mapped(rules, schema.name, settled(store, schema, record)) {
                Some(found) => before.push(found),
                None => before,
            },
        }
    }
}

/// The notes of what was passed over in the first `upto` records of a table.
pub open spec fn diagnostics_of(
    store: StoreModel,
    schema: SchemaModel,
    recs: Seq<RawModel>,
    upto: int,
) -> Seq<Diagnostic>
    decreases upto,
{
    if upto <= 0 {
        Seq::empty()
    } else {
        let before = diagnostics_of(store, schema, recs, upto - 1);
        match decoded(schema, recs[upto - 1].data) {
            Err(e) => before.push(
                Diagnostic { record: (upto - 1) as usize, column: None, error: e },
            ),
            Ok(record) => before + unresolved(
                store,
                schema,
                record,
                (upto - 1) as usize,
                record.len() as int,
            ),
        }
    }
}

/// The name of the host that the first `upto` records of a table give: that
/// of the first record that gives one.
pub open spec fn host_among(
    store: StoreModel,
    schema: SchemaModel,
    rules: Seq<TableRule>,
    recs: Seq<RawModel>,
    upto: int,
) -> Option<Seq<char>>
    decreases upto,
{
    if upto <= 0 {
        None
    } else {
        match host_among(store, schema, rules, recs, upto - 1) {
            Some(host) => Some(host),
            None => match decoded(schema, recs[upto - 1].data) {
                Err(_) => None,
                Ok(record) => host_by(rules, schema.name, settled(store, schema, record)),
            },
        }
    }
}

/// What a table gives to its report.
pub open spec fn table_report_of(
    store: StoreModel,
    schema: SchemaModel,
    rules: Seq<TableRule>,
) -> TableReportModel {
    let walk = scan_of(store, schema.root_page);
    TableReportModel {
        table: schema.name,
        records: records_of(store, schema, rules, walk.0, walk.0.len() as int),
        diagnostics: diagnostics_of(store, schema, walk.0, walk.0.len() as int),
        fault: walk.1,
        host: host_among(store, schema, rules, walk.0, walk.0.len() as int),
    }
}

/// What a table gives to its report.
#[derive(Clone, Debug, PartialEq, Eq)]
pub struct TableReport {
    pub table: Vec<u8>,
    pub records: Vec<ReportRecord>,
    pub diagnostics: Vec<Diagnostic>,
    pub fault: Option<Error>,
    pub host: Option<String>,
}

/// The plain values of a vector of records of a report.
pub open spec fn report_records(v: Seq<ReportRecord>) -> Seq<ReportRecordModel> {
    Seq::new(v.len(), |i: int| v[i]@)
}

impl View for TableReport {
    type V = TableReportModel;

    open spec fn view(&self) -> TableReportModel {
        TableReportModel {
            table: self.table@,
            records: report_records(self.records@),
            diagnostics: self.diagnostics@,
            fault: self.fault,
            host: match self.host {
                Some(s) => Some(s@),
                None => None,
            },
        }
    }
}

/// Resolves a long value of a table.
fn long_value(store: &Store, schema: &TableSchema, id: u32) -> (r: Result<Vec<u8>, Error>)
    ensures
        match r {
            Ok(bytes) => long_value_in(store@, schema@, id) == Ok::<Seq<u8>, Error>(bytes@),
            Err(e) => long_value_in(store@, schema@, id) == Err::<Seq<u8>, Error>(e),
        },
{
    match schema.long_value_root() {
        None => Err(Error::DanglingLongValue),
        Some(root) => resolve(store, root, id),
    }
}

/// Reads bytes as a value of a column.
fn make_value(kind: ColumnType, bytes: &[u8]) -> (r: Value)
    ensures
        r@ == value_from(kind, bytes@),
{
    match convert(kind, bytes) {
        Some(item) => Value::One(item),
        None => Value::Absent,
    }
}

/// The type of the tagged column `id`.
fn kind_of_tagged(cols: &Vec<Column>, id: u32) -> (r: ColumnType)
    ensures
        r == tagged_kind(cols@, id as int, 0),
{
    let mut i: usize = 0;
    while i < cols.len()
        invariant
            i <= cols.len(),
            tagged_kind(cols@, id as int, 0) == tagged_kind(cols@, id as int, i as int),
        decreases cols.len() - i,
    {
        if cols[i].id == id {
            return cols[i].kind;
        }
        i += 1;
    }
    ColumnType::Binary
}

/// Resolves the long values of a record, and notes those that cannot be
/// resolved.
pub fn settle(
    store: &Store,
    schema: &TableSchema,
    record: &mut Record,
    number: usize,
    notes: &mut Vec<Diagnostic>,
)
    ensures
        final(record)@ == settled(store@, schema@, old(record)@),
        final(notes)@ == old(notes)@ + unresolved(
            store@,
            schema@,
            old(record)@,
            number,
            old(record)@.len() as int,
        ),
{
    let len = record.fields.len();
    let mut i: usize = 0;
    assert(notes@ =~= old(notes)@ + unresolved(store@, schema@, old(record)@, number, 0));
    while i < len
        invariant
            i <= len,
            len == record.fields.len(),
            len == old(record).fields.len(),
            forall|k: int|
                0 <= k < i ==> (#[trigger] record@[k]) == settled_field(
                    store@,
                    schema@,
                    old(record)@[k],
                ),
            forall|k: int| i <= k < len ==> (#[trigger] record@[k]) == old(record)@[k],
            notes@ == old(notes)@ + unresolved(store@, schema@, old(record)@, number, i as int),
        decreases len - i,
    {
        assert(record@[i as int] == old(record)@[i as int]);
        let ghost before = record@;
        let found = match &record.fields[i].value {
            Value::LongValue(id) => Some(*id),
            _ => None,
        };
        match found {
            Some(id) => {
                let column = record.fields[i].id;
                let kind = kind_of_tagged(schema.tagged(), column);
                let value = match long_value(store, schema, id) {
                    Ok(bytes) => make_value(kind, bytes.as_slice()),
                    Err(e) => {
                        let ghost noted = notes@;
                        notes.push(Diagnostic { record: number, column: Some(column), error: e });
                        assert(notes@ =~= old(notes)@ + unresolved(
                            store@,
                            schema@,
                            old(record)@,
                            number,
                            i + 1,
                        ));
                        let empty: Vec<u8> = Vec::new();
                        make_value(kind, empty.as_slice())
                    },
                };
                record.fields[i].value = value;
                assert(record@[i as int] == settled_field(store@, schema@, old(record)@[i as int]));
                assert forall|k: int| 0 <= k < len && k != i implies (#[trigger] record@[k])
                    == before[k] by {}
            },
            None => {},
        }
        i += 1;
    }
    assert(record@ =~= settled(store@, schema@, old(record)@));
}

/// Walks over a table and gives what its records give to the table's
/// report.
pub fn table_report(store: &Store, schema: &TableSchema, mapper: &Mapper) -> (r: TableReport)
    ensures
        r@ == table_report_of(store@, schema@, mapper.rules@),
{
    let (recs, fault) = scan(store, schema.root_page());
    let ghost walk = scan_of(store@, schema@.root_page);
    let mut records: Vec<ReportRecord> = Vec::new();
    let mut diagnostics: Vec<Diagnostic> = Vec::new();
    let mut host: Option<String> = None;
    let mut i: usize = 0;
    assert(report_records(records@) =~= records_of(store@, schema@, mapper.rules@, walk.0, 0));
    while i < recs.len()
        invariant
            i <= recs.len(),
            raws(recs@) == walk.0,
            report_records(records@) == records_of(
                store@,
                schema@,
                mapper.rules@,
                walk.0,
                i as int,
            ),
            diagnostics@ == diagnostics_of(store@, schema@, walk.0, i as int),
            (match host {
                Some(s) => Some(s@),
                None => None,
            }) == host_among(store@, schema@, mapper.rules@, walk.0, i as int),
        decreases recs.len() - i,
    {
        assert(recs@[i as int]@ == walk.0[i as int]);
        match decode(schema, recs[i].data.as_slice()) {
            Err(e) => {
                diagnostics.push(Diagnostic { record: i, column: None, error: e });
            },
            Ok(mut record) => {
                settle(store, schema, &mut record, i, &mut diagnostics);
                if host.is_none() {
                    host = mapper.host(schema.name().as_slice(), &record);
                }
                match mapper.map(schema.name().as_slice(), &record) {
                    Some(found) => {
                        let ghost before = report_records(records@);
                        records.push(found);
                        assert(report_records(records@) =~= before.push(found@));
                    },
                    None => {},
                }
            },
        }
        i += 1;
    }
    let table = crate::bytes::copy_range(schema.name().as_slice(), 0, schema.name().len());
    assert(schema@.name.subrange(0, schema@.name.len() as int) == schema@.name);
    TableReport { table, records, diagnostics, fault, host }
}

/// What the first `upto` tables of the catalog give to the reports: the
/// report of every table that a rule is for, in the order of the catalog.
pub open spec fn reports_of(
    store: StoreModel,
    catalog: Seq<SchemaModel>,
    rules: Seq<TableRule>,
    upto: int,
) -> Seq<TableReportModel>
    decreases upto,
{
    if upto <= 0 {
        Seq::empty()
    } else {
        let before = reports_of(store, catalog, rules, upto - 1);
        if names_table(rules, catalog[upto - 1].name) {
            before.push(table_report_of(store, catalog[upto - 1], rules))
        } else {
            before
        }
    }
}

/// What reading a store gives: the reports of its tables. A file that is no
/// store of a supported revision, and a catalog that cannot be loaded, end
/// the work on the store.
pub open spec fn store_report_of(bytes: Seq<u8>, rules: Seq<TableRule>) -> Result<
    Seq<TableReportModel>,
    Error,
> {
    match opened(bytes, LOWEST_REVISION, HIGHEST_REVISION) {
        Err(e) => Err(e),
        Ok(store) => match catalog_of(store) {
            Err(e) => Err(e),
            Ok(catalog) => Ok(reports_of(store, catalog, rules, catalog.len() as int)),
        },
    }
}

/// The plain values of a vector of reports of tables.
pub open spec fn table_reports(v: Seq<TableReport>) -> Seq<TableReportModel> {
    Seq::new(v.len(), |i: int| v[i]@)
}

/// Gives the reports of the tables of a store that the rules name, in the
/// order of the catalog.
pub fn report_tables(store: &Store, catalog: &Catalog, mapper: &Mapper) -> (r: Vec<TableReport>)
    ensures
        table_reports(r@) == reports_of(store@, catalog@, mapper.rules@, catalog@.len() as int),
{
    let mut out: Vec<TableReport> = Vec::new();
    let mut t: usize = 0;
    assert(table_reports(out@) =~= reports_of(store@, catalog@, mapper.rules@, 0));
    while t < catalog.len()
        invariant
            t <= catalog@.len(),
            table_reports(out@) == reports_of(store@, catalog@, mapper.rules@, t as int),
        decreases catalog@.len() - t,
    {
        let schema = catalog.get(t);
        if mapper.knows(schema.name().as_slice()) {
            let report = table_report(store, schema, mapper);
            let ghost before = table_reports(out@);
            out.push(report);
            assert(table_reports(out@) =~= before.push(report@));
        }
        t += 1;
    }
    out
}

/// Reads a store of a supported revision from the bytes of its file and
/// gives the reports of the tables that the rules are for.
pub fn read_store(bytes: Vec<u8>, mapper: &Mapper) -> (r: Result<Vec<TableReport>, Error>)
    ensures
        match r {
            Ok(tables) => store_report_of(bytes@, mapper.rules@) == Ok::<
                Seq<TableReportModel>,
                Error,
            >(table_reports(tables@)),
            Err(e) => store_report_of(bytes@, mapper.rules@) == Err::<Seq<TableReportModel>, Error>(
                e,
            ),
        },
{
    let store = match Store::open_supported(bytes) {
        Ok(store) => store,
        Err(e) => {
            return Err(e);
        },
    };
    let catalog = match load_catalog(&store) {
        Ok(catalog) => catalog,
        Err(e) => {
            return Err(e);
        },
    };
    Ok(report_tables(&store, &catalog, mapper))
}

/// The sink after those of the first `upto` records that belong to a kind of
/// report were handed to it.
pub open spec fn fed_records(
    s: SinkState,
    records: Seq<ReportRecordModel>,
    kind: ReportSuffix,
    upto: int,
) -> SinkState
    decreases upto,
{
    if upto <= 0 {
        s
    } else if records[upto - 1].kind == kind {
        emitted(fed_records(s, records, kind, upto - 1), records[upto - 1])
    } else {
        fed_records(s, records, kind, upto - 1)
    }
}

/// The sink after the records of the first `upto` tables that belong to a
/// kind of report were handed to it.
pub open spec fn fed_tables(
    s: SinkState,
    tables: Seq<TableReportModel>,
    kind: ReportSuffix,
    upto: int,
) -> SinkState
    decreases upto,
{
    if upto <= 0 {
        s
    } else {
        fed_records(
            fed_tables(s, tables, kind, upto - 1),
            tables[upto - 1].records,
            kind,
            tables[upto - 1].records.len() as int,
        )
    }
}

/// The name of the host that the first `upto` tables give: that of the first
/// table that gives one.
pub open spec fn host_of_tables(tables: Seq<TableReportModel>, upto: int) -> Option<Seq<char>>
    decreases upto,
{
    if upto <= 0 {
        None
    } else {
        match host_of_tables(tables, upto - 1) {
            Some(host) => Some(host),
            None => tables[upto - 1].host,
        }
    }
}

/// The name of the host under which the reports of a store are filed: the
/// one that the store gives, else the one that the caller falls back on.
pub open spec fn host_name(tables: Seq<TableReportModel>, fallback: Seq<char>) -> Seq<char> {
    match host_of_tables(tables, tables.len() as int) {
        Some(host) => host,
        None => fallback,
    }
}

/// The sink of one kind of report after the whole report was written: a
/// fresh sink, fed with the records of that kind, and ended.
pub open spec fn written(
    tables: Seq<TableReportModel>,
    kind: ReportSuffix,
    producer: &ReportProducer,
) -> SinkState {
    sink_after_new_record(
        fed_tables(
            fresh_sink(producer.format(), producer.report_type(), Some(kind)),
            tables,
            kind,
            tables.len() as int,
        ),
    )
}

/// Whether a pair of a file's name and a sink is the report of one kind,
/// begun at the time of the stamp.
pub open spec fn is_report_of(
    name: Seq<char>,
    sink: SinkState,
    tables: Seq<TableReportModel>,
    host: Seq<char>,
    kind: ReportSuffix,
    stamp: Seq<char>,
    producer: &ReportProducer,
) -> bool {
    &&& name == file_name(host, kind.label_text(), stamp, producer.format())
    &&& sink == written(tables, kind, producer)
}

/// The name of the host, once a table has given it, stays the same however
/// many more tables are looked at.
proof fn lemma_host_stays(tables: Seq<TableReportModel>, found: int, upto: int)
    requires
        0 <= found <= upto,
        host_of_tables(tables, found) is Some,
    ensures
        host_of_tables(tables, upto) == host_of_tables(tables, found),
    decreases upto - found,
{
    if found < upto {
        lemma_host_stays(tables, found, upto - 1);
    }
}

/// The name of the host that the tables give.
pub fn find_host<'a>(tables: &'a Vec<TableReport>) -> (r: Option<&'a String>)
    ensures
        (match r {
            Some(s) => Some(s@),
            None => None,
        }) == host_of_tables(table_reports(tables@), tables.len() as int),
{
    let mut i: usize = 0;
    while i < tables.len()
        invariant
            i <= tables.len(),
            host_of_tables(table_reports(tables@), i as int) is None,
        decreases tables.len() - i,
    {
        assert(tables@[i as int]@ == table_reports(tables@)[i as int]);
        match &tables[i].host {
            Some(host) => {
                proof {
                    lemma_host_stays(table_reports(tables@), i + 1, tables.len() as int);
                }
                return Some(host);
            },
            None => {},
        }
        i += 1;
    }
    None
}

/// Writes the report of one kind: begins it under the name of the host,
/// hands it the records of that kind, table by table, and ends it.
pub fn write_report(
    producer: &ReportProducer,
    tables: &Vec<TableReport>,
    host: &str,
    kind: ReportSuffix,
    stamp: &str,
) -> (r: (String, ReportSink))
    ensures
        is_report_of(r.0@, r.1@, table_reports(tables@), host@, kind, stamp@, producer),
{
    let (name, mut sink) = producer.new_report(host, kind.label(), stamp);
    proof {
        kind.lemma_label_names_kind();
    }
    let ghost fresh = sink@;
    let ghost all = table_reports(tables@);
    let mut t: usize = 0;
    while t < tables.len()
        invariant
            t <= tables.len(),
            all == table_reports(tables@),
            sink.can_emit(),
            sink@ == fed_tables(fresh, all, kind, t as int),
        decreases tables.len() - t,
    {
        let records = &tables[t].records;
        assert(tables@[t as int]@ == all[t as int]);
        let ghost begun = sink@;
        let mut i: usize = 0;
        while i < records.len()
            invariant
                i <= records.len(),
                sink.can_emit(),
                sink@ == fed_records(begun, report_records(records@), kind, i as int),
            decreases records.len() - i,
        {
            assert(records@[i as int]@ == report_records(records@)[i as int]);
            if records[i].kind == kind {
                emit(&mut sink, &records[i]);
            }
            i += 1;
        }
        t += 1;
    }
    sink.footer();
    (name, sink)
}

/// Writes the reports of a store, one for each kind: the files, the
/// activities and the visits, in this order, all begun at the time of the
/// stamp.
pub fn write_reports(
    producer: &ReportProducer,
    tables: &Vec<TableReport>,
    fallback_host: &str,
    stamp: &str,
) -> (r: Vec<(String, ReportSink)>)
    ensures
        r@.len() == 3,
        is_report_of(
            r@[0].0@,
            r@[0].1@,
            table_reports(tables@),
            host_name(table_reports(tables@), fallback_host@),
            ReportSuffix::FileReport,
            stamp@,
            producer,
        ),
        is_report_of(
            r@[1].0@,
            r@[1].1@,
            table_reports(tables@),
            host_name(table_reports(tables@), fallback_host@),
            ReportSuffix::ActivityHistory,
            stamp@,
            producer,
        ),
        is_report_of(
            r@[2].0@,
            r@[2].1@,
            table_reports(tables@),
            host_name(table_reports(tables@), fallback_host@),
            ReportSuffix::InternetHistory,
            stamp@,
            producer,
        ),
{
    let host: &str = match find_host(tables) {
        Some(found) => found.as_str(),
        None => fallback_host,
    };
    let mut out: Vec<(String, ReportSink)> = Vec::new();
    out.push(write_report(producer, tables, host, ReportSuffix::FileReport, stamp));
    out.push(write_report(producer, tables, host, ReportSuffix::ActivityHistory, stamp));
    out.push(write_report(producer, tables, host, ReportSuffix::InternetHistory, stamp));
    out
}

/// Reads a store and writes its reports, begun at the time of the stamp.
/// The reports are handed back with the names of their files, beside what
/// every table gave, so that the caller can put them where they belong and
/// tell what was passed over.
pub fn generate_report(
    bytes: Vec<u8>,
    mapper: &Mapper,
    producer: &ReportProducer,
    fallback_host: &str,
    stamp: &str,
) -> (r: Result<(Vec<TableReport>, Vec<(String, ReportSink)>), Error>)
    ensures
        match r {
            Ok((tables, reports)) => {
                &&& store_report_of(bytes@, mapper.rules@) == Ok::<Seq<TableReportModel>, Error>(
                    table_reports(tables@),
                )
                &&& reports@.len() == 3
                &&& is_report_of(
                    reports@[0].0@,
                    reports@[0].1@,
                    table_reports(tables@),
                    host_name(table_reports(tables@), fallback_host@),
                    ReportSuffix::FileReport,
                    stamp@,
                    producer,
                )
                &&& is_report_of(
                    reports@[1].0@,
                    reports@[1].1@,
                    table_reports(tables@),
                    host_name(table_reports(tables@), fallback_host@),
                    ReportSuffix::ActivityHistory,
                    stamp@,
                    producer,
                )
                &&& is_report_of(
                    reports@[2].0@,
                    reports@[2].1@,
                    table_reports(tables@),
                    host_name(table_reports(tables@), fallback_host@),
                    ReportSuffix::InternetHistory,
                    stamp@,
                    producer,
                )
            },
            Err(e) => store_report_of(bytes@, mapper.rules@) == Err::<Seq<TableReportModel>, Error>(
                e,
            ),
        },
{
    match read_store(bytes, mapper) {
        Err(e) => Err(e),
        Ok(tables) => {
            let reports = write_reports(producer, &tables, fallback_host, stamp);
            Ok((tables, reports))
        },
    }
}

/// What one record of a table gives to the report, where it can be decoded
/// and a rule applies to it.
pub open spec fn reported(
    store: StoreModel,
    schema: SchemaModel,
    rules: Seq<TableRule>,
    raw: RawModel,
) -> Option<ReportRecordModel> {
    match decoded(schema, raw.data) {
        Err(_) => None,
        Ok(record) => mapped(rules, schema.name, settled(store, schema, record)),
    }
}

/// Every record of a table is reported once, and in its place: where each of
/// the first `upto` records of a table can be decoded and is one that a rule
/// applies to, the report holds exactly as many records, and each is what
/// the rule picks from the record of the table in the same place.
pub proof fn lemma_each_record_is_reported_once(
    store: StoreModel,
    schema: SchemaModel,
    rules: Seq<TableRule>,
    recs: Seq<RawModel>,
    upto: int,
)
    requires
        0 <= upto <= recs.len(),
        forall|i: int| 0 <= i < upto ==> reported(store, schema, rules, #[trigger] recs[i]) is Some,
    ensures
        records_of(store, schema, rules, recs, upto).len() == upto,
        forall|i: int|
            0 <= i < upto ==> Some(#[trigger] records_of(store, schema, rules, recs, upto)[i])
                == reported(store, schema, rules, recs[i]),
    decreases upto,
{
    if upto > 0 {
        lemma_each_record_is_reported_once(store, schema, rules, recs, upto - 1);
        assert(reported(store, schema, rules, recs[upto - 1]) is Some);
        let before = records_of(store, schema, rules, recs, upto - 1);
        let all = records_of(store, schema, rules, recs, upto);
        assert forall|i: int| 0 <= i < upto implies Some(#[trigger] all[i]) == reported(
            store,
            schema,
            rules,
            recs[i],
        ) by {
            if i < upto - 1 {
                assert(all[i] == before[i]);
            }
        }
    }
}

/// A table whose walk ends without a fault, and whose records can all be
/// decoded and are such that a rule applies to each, gives a report of
/// exactly its records, in the order of their keys in the tree.
pub proof fn lemma_table_is_reported_in_order(
    store: StoreModel,
    schema: SchemaModel,
    rules: Seq<TableRule>,
)
    requires
        forall|i: int|
            0 <= i < scan_of(store, schema.root_page).0.len() ==> reported(
                store,
                schema,
                rules,
                #[trigger] scan_of(store, schema.root_page).0[i],
            ) is Some,
    ensures
        table_report_of(store, schema, rules).records.len() == scan_of(
            store,
            schema.root_page,
        ).0.len(),
        forall|i: int|
            0 <= i < scan_of(store, schema.root_page).0.len() ==> Some(
                #[trigger] table_report_of(store, schema, rules).records[i],
            ) == reported(store, schema, rules, scan_of(store, schema.root_page).0[i]),
{
    let walk = scan_of(store, schema.root_page);
    lemma_each_record_is_reported_once(store, schema, rules, walk.0, walk.0.len() as int);
}

} // verus!
