//! The artifact mapper: which columns of which table become which fields of
//! which report. What is known of the tables is data: a list of rules, one
//! for each table, read in one way for all of them.

use vstd::prelude::*;
use vstd::string::*;

use crate::bytes::copy_range;
use crate::catalog::{column_id_in, same_bytes, Catalog, EntryModel};
use crate::report::{
    sink_after_new_record, sink_with_value, Report, ReportSink, ReportSuffix, SinkState,
};
use crate::text::{decimal, json_text_of_str};
use crate::value::{first_of, FieldModel, Record, Scalar, ScalarModel, Value, ValueModel};

verus! {

/// How a value becomes the value of a field.
#[derive(Clone, Copy, Debug, PartialEq, Eq, Structural)]
pub enum Transform {
    /// Text is decoded from UTF-16.
    Text,
    /// Numbers, dates and truth values are given as unsigned numbers.
    Number,
}

/// One field of a report: the column that it comes from, its name, and how
/// the value is read.
#[derive(Clone, Debug, PartialEq, Eq)]
pub struct FieldRule {
    pub column: u32,
    pub field: String,
    pub transform: Transform,
}

/// A rule for a field as plain values.
pub struct FieldRuleModel {
    pub column: u32,
    pub field: Seq<char>,
    pub transform: Transform,
}

impl View for FieldRule {
    type V = FieldRuleModel;

    open spec fn view(&self) -> FieldRuleModel {
        FieldRuleModel { column: self.column, field: self.field@, transform: self.transform }
    }
}

/// The plain values of a vector of rules for fields.
pub open spec fn field_rules(v: Seq<FieldRule>) -> Seq<FieldRuleModel> {
    Seq::new(v.len(), |i: int| v[i]@)
}

/// The records of a table that a rule is for.
#[derive(Clone, Copy, Debug, PartialEq, Eq, Structural)]
pub enum Marker {
    /// Every record.
    Any,
    /// The records that hold a value for the column.
    Holds(u32),
    /// No record: the column that marks them is not in the store.
    Nothing,
}

/// What is known of the records of one kind in one table: the records that
/// are of the kind, the report that they belong to, the column that names
/// the host, if one does, and the fields.
#[derive(Clone, Debug, PartialEq, Eq)]
pub struct TableRule {
    pub table: Vec<u8>,
    pub kind: ReportSuffix,
    pub marker: Marker,
    pub host_column: Option<u32>,
    pub fields: Vec<FieldRule>,
}

/// The value of a field of a report.
#[derive(Clone, Debug, PartialEq, Eq)]
pub enum FieldValue {
    Text(String),
    Number(u64),
}

/// The value of a field as a plain value.
pub enum FieldValueModel {
    Text(Seq<char>),
    Number(u64),
}

impl View for FieldValue {
    type V = FieldValueModel;

    open spec fn view(&self) -> FieldValueModel {
        match self {
            FieldValue::Text(s) => FieldValueModel::Text(s@),
            FieldValue::Number(n) => FieldValueModel::Number(*n),
        }
    }
}

/// A named value of a report.
#[derive(Clone, Debug, PartialEq, Eq)]
pub struct ReportField {
    pub name: String,
    pub value: FieldValue,
}

/// A named value as plain values.
pub struct ReportFieldModel {
    pub name: Seq<char>,
    pub value: FieldValueModel,
}

impl View for ReportField {
    type V = ReportFieldModel;

    open spec fn view(&self) -> ReportFieldModel {
        ReportFieldModel { name: self.name@, value: self.value@ }
    }
}

/// The plain values of a vector of named values.
pub open spec fn report_fields(v: Seq<ReportField>) -> Seq<ReportFieldModel> {
    Seq::new(v.len(), |i: int| v[i]@)
}

/// What one record of a table gives to a report.
#[derive(Clone, Debug, PartialEq, Eq)]
pub struct ReportRecord {
    pub kind: ReportSuffix,
    pub fields: Vec<ReportField>,
}

/// A record of a report as plain values.
pub struct ReportRecordModel {
    pub kind: ReportSuffix,
    pub fields: Seq<ReportFieldModel>,
}

impl View for ReportRecord {
    type V = ReportRecordModel;

    open spec fn view(&self) -> ReportRecordModel {
        ReportRecordModel { kind: self.kind, fields: report_fields(self.fields@) }
    }
}

/// The text that `String::from_utf16_lossy` gives for UTF-16 code units:
/// the characters that they encode, with the replacement character in the
/// place of every unit that encodes none. It depends on the units alone.
pub uninterp spec fn text_of_units(units: Seq<u16>) -> Seq<char>;

/// Calls `String::from_utf16_lossy` of the standard library. Assumed, not
/// proved: the result is the text named by [`text_of_units`].
#[verifier::external_body]
fn decode_utf16(units: &[u16]) -> (r: String)
    ensures
        r@ == text_of_units(units@),
{
    String::from_utf16_lossy(units)
}

/// What the record holds for a column: the value of the first field of that
/// column.
pub open spec fn value_in(record: Seq<FieldModel>, column: u32) -> Option<ValueModel> {
    if exists|i: int| first_of(record, column, i) {
        Some(record[choose|i: int| first_of(record, column, i)].value)
    } else {
        None
    }
}

/// The number that a value gives: an unsigned number, a date or a truth
/// value as it is, a signed number or an amount where it is not negative.
pub open spec fn number_of(v: ValueModel) -> Option<u64> {
    match v {
        ValueModel::One(ScalarModel::Unsigned(n)) => Some(n),
        ValueModel::One(ScalarModel::DateTime(n)) => Some(n),
        ValueModel::One(ScalarModel::Bool(b)) => Some(
            if b {
                1u64
            } else {
                0u64
            },
        ),
        ValueModel::One(ScalarModel::Signed(n)) => if n >= 0 {
            Some(n as u64)
        } else {
            None
        },
        ValueModel::One(ScalarModel::Currency(n)) => if n >= 0 {
            Some(n as u64)
        } else {
            None
        },
        _ => None,
    }
}

/// The text that a value gives: that of a single value of text.
pub open spec fn text_of(v: ValueModel) -> Option<Seq<char>> {
    match v {
        ValueModel::One(ScalarModel::Text(units)) => Some(text_of_units(units)),
        _ => None,
    }
}

/// What a value gives to a field that reads it in the given way.
pub open spec fn transformed(v: ValueModel, transform: Transform) -> Option<FieldValueModel> {
    match transform {
        Transform::Text => match text_of(v) {
            Some(s) => Some(FieldValueModel::Text(s)),
            None => None,
        },
        Transform::Number => match number_of(v) {
            Some(n) => Some(FieldValueModel::Number(n)),
            None => None,
        },
    }
}

/// What a record gives to the field of a rule: nothing where the record
/// does not hold the column, or holds a value that the rule cannot read.
pub open spec fn mapped_field(rule: FieldRule, record: Seq<FieldModel>) -> Option<
    ReportFieldModel,
> {
    match value_in(record, rule.column) {
        None => None,
        Some(v) => match transformed(v, rule.transform) {
            None => None,
            Some(value) => Some(ReportFieldModel { name: rule.field@, value }),
        },
    }
}

/// What a record gives to the fields of the first `upto` rules, in the order
/// of the rules.
pub open spec fn mapped_fields(rules: Seq<FieldRule>, record: Seq<FieldModel>, upto: int) -> Seq<
    ReportFieldModel,
>
    decreases upto,
{
    if upto <= 0 {
        Seq::empty()
    } else {
        match mapped_field(rules[upto - 1], record) {
            Some(f) => mapped_fields(rules, record, upto - 1).push(f),
            None => mapped_fields(rules, record, upto - 1),
        }
    }
}

/// What a record of a table gives to the table's report.
pub open spec fn mapped_by(rule: TableRule, record: Seq<FieldModel>) -> ReportRecordModel {
    ReportRecordModel {
        kind: rule.kind,
        fields: mapped_fields(rule.fields@, record, rule.fields@.len() as int),
    }
}

/// Whether the record holds a value for the column.
pub open spec fn holds(record: Seq<FieldModel>, column: u32) -> bool {
    match value_in(record, column) {
        Some(v) => !(v is Absent),
        None => false,
    }
}

/// Whether the rule is for the table and for records such as this one.
pub open spec fn applies(rule: TableRule, table: Seq<u8>, record: Seq<FieldModel>) -> bool {
    rule.table@ == table && match rule.marker {
        Marker::Any => true,
        Marker::Holds(column) => holds(record, column),
        Marker::Nothing => false,
    }
}

/// The first rule from `from` on that applies to a record of a table; the
/// number of rules where none does.
pub open spec fn rule_at(rules: Seq<TableRule>, table: Seq<u8>, record: Seq<FieldModel>, from: int) -> int
    decreases rules.len() - from,
{
    if from < 0 || from >= rules.len() || applies(rules[from], table, record) {
        from
    } else {
        rule_at(rules, table, record, from + 1)
    }
}

/// Whether some rule is for the table.
pub open spec fn names_table(rules: Seq<TableRule>, table: Seq<u8>) -> bool {
    exists|i: int| 0 <= i < rules.len() && (#[trigger] rules[i]).table@ == table
}

/// What a record of a table gives to a report: what the first rule that
/// applies to it picks from it, and nothing where no rule applies.
pub open spec fn mapped(rules: Seq<TableRule>, table: Seq<u8>, record: Seq<FieldModel>) -> Option<
    ReportRecordModel,
> {
    if rule_at(rules, table, record, 0) < rules.len() {
        Some(mapped_by(rules[rule_at(rules, table, record, 0)], record))
    } else {
        None
    }
}

/// The name of the host that a record of a table gives: what the rule that
/// applies to it finds.
pub open spec fn host_by(rules: Seq<TableRule>, table: Seq<u8>, record: Seq<FieldModel>) -> Option<
    Seq<char>,
> {
    if rule_at(rules, table, record, 0) < rules.len() {
        host_in(rules[rule_at(rules, table, record, 0)], record)
    } else {
        None
    }
}

/// The name of the host that a record gives: the text of the column that the
/// rule names for it.
pub open spec fn host_in(rule: TableRule, record: Seq<FieldModel>) -> Option<Seq<char>> {
    match rule.host_column {
        None => None,
        Some(column) => match value_in(record, column) {
            None => None,
            Some(v) => text_of(v),
        },
    }
}

/// The sink after the first `upto` fields of a record were put into its open
/// record.
pub open spec fn filled(s: SinkState, fields: Seq<ReportFieldModel>, upto: int) -> SinkState
    decreases upto,
{
    if upto <= 0 {
        s
    } else {
        let before = filled(s, fields, upto - 1);
        match fields[upto - 1].value {
            FieldValueModel::Text(text) => sink_with_value(
                before,
                fields[upto - 1].name,
                json_text_of_str(text),
                crate::csv_report::quoted(text),
            ),
            FieldValueModel::Number(n) => sink_with_value(
                before,
                fields[upto - 1].name,
                decimal(n as nat),
                decimal(n as nat),
            ),
        }
    }
}

/// The sink after a record was handed to it: the record that was open is
/// closed, and the fields of the new one are put into the next.
pub open spec fn emitted(s: SinkState, record: ReportRecordModel) -> SinkState {
    filled(sink_after_new_record(s), record.fields, record.fields.len() as int)
}

/// Reads a value as a number.
pub fn to_number(v: &Value) -> (r: Option<u64>)
    ensures
        r == number_of(v@),
{
    match v {
        Value::One(Scalar::Unsigned(n)) => Some(*n),
        Value::One(Scalar::DateTime(n)) => Some(*n),
        Value::One(Scalar::Bool(b)) => Some(
            if *b {
                1
            } else {
                0
            },
        ),
        Value::One(Scalar::Signed(n)) => if *n >= 0 {
            Some(*n as u64)
        } else {
            None
        },
        Value::One(Scalar::Currency(n)) => if *n >= 0 {
            Some(*n as u64)
        } else {
            None
        },
        _ => None,
    }
}

/// Reads a value as text.
pub fn to_text(v: &Value) -> (r: Option<String>)
    ensures
        match r {
            Some(s) => text_of(v@) == Some(s@),
            None => text_of(v@) is None,
        },
{
    match v {
        Value::One(Scalar::Text(units)) => Some(decode_utf16(units.as_slice())),
        _ => None,
    }
}

/// Looks a column up in a record.
fn lookup<'a>(record: &'a Record, column: u32) -> (r: Option<&'a Value>)
    ensures
        match r {
            Some(v) => value_in(record@, column) == Some(v@),
            None => value_in(record@, column) is None,
        },
{
    let found = record.get(column);
    proof {
        match found {
            Some(v) => {
                let i = choose|i: int| first_of(record@, column, i) && record@[i].value == v@;
                let k = choose|k: int| first_of(record@, column, k);
                assert(first_of(record@, column, k));
                assert(record@[i].id == column && record@[k].id == column);
                assert(i == k);
            },
            None => {
                assert forall|i: int| !first_of(record@, column, i) by {
                    if 0 <= i < record@.len() {
                        assert(record@[i].id != column);
                    }
                }
            },
        }
    }
    found
}

/// Maps one field.
fn map_field(rule: &FieldRule, record: &Record) -> (r: Option<ReportField>)
    ensures
        match r {
            Some(f) => mapped_field(*rule, record@) == Some(f@),
            None => mapped_field(*rule, record@) is None,
        },
{
    match lookup(record, rule.column) {
        None => None,
        Some(v) => match rule.transform {
            Transform::Text => match to_text(v) {
                Some(s) => Some(ReportField { name: rule.field.clone(), value: FieldValue::Text(s) }),
                None => None,
            },
            Transform::Number => match to_number(v) {
                Some(n) => Some(
                    ReportField { name: rule.field.clone(), value: FieldValue::Number(n) },
                ),
                None => None,
            },
        },
    }
}

/// Maps a record of a table by the table's rule.
pub fn map_by(rule: &TableRule, record: &Record) -> (r: ReportRecord)
    ensures
        r@ == mapped_by(*rule, record@),
{
    let mut out: Vec<ReportField> = Vec::new();
    let mut i: usize = 0;
    assert(report_fields(out@) =~= mapped_fields(rule.fields@, record@, 0));
    while i < rule.fields.len()
        invariant
            i <= rule.fields.len(),
            report_fields(out@) == mapped_fields(rule.fields@, record@, i as int),
        decreases rule.fields.len() - i,
    {
        match map_field(&rule.fields[i], record) {
            Some(f) => {
                let ghost before = report_fields(out@);
                out.push(f);
                assert(report_fields(out@) =~= before.push(f@));
            },
            None => {},
        }
        i += 1;
    }
    ReportRecord { kind: rule.kind, fields: out }
}

/// The name of the host that a record gives.
pub fn host_of(rule: &TableRule, record: &Record) -> (r: Option<String>)
    ensures
        match r {
            Some(s) => host_in(*rule, record@) == Some(s@),
            None => host_in(*rule, record@) is None,
        },
{
    match rule.host_column {
        None => None,
        Some(column) => match lookup(record, column) {
            None => None,
            Some(v) => to_text(v),
        },
    }
}

/// Whether a rule applies to a record of a table.
pub fn rule_applies(rule: &TableRule, table_name: &[u8], record: &Record) -> (r: bool)
    ensures
        r == applies(*rule, table_name@, record@),
{
    if !same_bytes(rule.table.as_slice(), table_name) {
        return false;
    }
    match rule.marker {
        Marker::Any => true,
        Marker::Nothing => false,
        Marker::Holds(column) => match lookup(record, column) {
            Some(v) => match v {
                Value::Absent => false,
                _ => true,
            },
            None => false,
        },
    }
}

/// What is known of the tables of the store.
pub struct Mapper {
    pub rules: Vec<TableRule>,
}

impl Mapper {
    /// Whether some rule is for the table.
    pub fn knows(&self, table_name: &[u8]) -> (r: bool)
        ensures
            r == names_table(self.rules@, table_name@),
    {
        let mut i: usize = 0;
        while i < self.rules.len()
            invariant
                i <= self.rules.len(),
                forall|j: int| 0 <= j < i ==> (#[trigger] self.rules@[j]).table@ != table_name@,
            decreases self.rules.len() - i,
        {
            if same_bytes(self.rules[i].table.as_slice(), table_name) {
                return true;
            }
            i += 1;
        }
        false
    }

    /// The rule for a record of a table: the first one that applies to it.
    pub fn rule_for(&self, table_name: &[u8], record: &Record) -> (r: Option<&TableRule>)
        ensures
            match r {
                Some(rule) => rule_at(self.rules@, table_name@, record@, 0) < self.rules@.len()
                    && self.rules@[rule_at(self.rules@, table_name@, record@, 0)] == *rule,
                None => rule_at(self.rules@, table_name@, record@, 0) >= self.rules@.len(),
            },
    {
        let mut i: usize = 0;
        while i < self.rules.len()
            invariant
                i <= self.rules.len(),
                rule_at(self.rules@, table_name@, record@, 0) == rule_at(
                    self.rules@,
                    table_name@,
                    record@,
                    i as int,
                ),
            decreases self.rules.len() - i,
        {
            if rule_applies(&self.rules[i], table_name, record) {
                return Some(&self.rules[i]);
            }
            i += 1;
        }
        None
    }

    /// Maps a record of a table to a record of a report. A record to which
    /// no rule applies gives nothing.
    pub fn map(&self, table_name: &[u8], record: &Record) -> (r: Option<ReportRecord>)
        ensures
            match r {
                Some(found) => mapped(self.rules@, table_name@, record@) == Some(found@),
                None => mapped(self.rules@, table_name@, record@) is None,
            },
    {
        match self.rule_for(table_name, record) {
            Some(rule) => Some(map_by(rule, record)),
            None => None,
        }
    }

    /// The name of the host that a record of a table gives.
    pub fn host(&self, table_name: &[u8], record: &Record) -> (r: Option<String>)
        ensures
            match r {
                Some(s) => host_by(self.rules@, table_name@, record@) == Some(s@),
                None => host_by(self.rules@, table_name@, record@) is None,
            },
    {
        match self.rule_for(table_name, record) {
            Some(rule) => host_of(rule, record),
            None => None,
        }
    }
}

/// A field of a report, with its column known by name.
#[derive(Clone, Debug, PartialEq, Eq)]
pub struct NamedField {
    pub column: Vec<u8>,
    pub field: String,
    pub transform: Transform,
}

/// What is known of the records of one kind in one table, with the columns
/// known by name: the column that marks the records of the kind, if they are
/// not all the records of the table, the column that names the host, if one
/// does, and the fields.
#[derive(Clone, Debug, PartialEq, Eq)]
pub struct NamedTable {
    pub table: Vec<u8>,
    pub kind: ReportSuffix,
    pub marker: Option<Vec<u8>>,
    pub host: Option<Vec<u8>>,
    pub fields: Vec<NamedField>,
}

/// The identifier of a column that may be named.
pub open spec fn named_column(entries: Seq<EntryModel>, table: Seq<u8>, name: Option<Vec<u8>>) -> Option<
    u32,
> {
    match name {
        Some(n) => column_id_in(entries, table, n@),
        None => None,
    }
}

/// The records that a rule is for, where a column may be named that marks
/// them: all where none is named, and none where the one that is named is
/// not in the store.
pub open spec fn bound_marker(entries: Seq<EntryModel>, table: Seq<u8>, name: Option<Vec<u8>>) -> Marker {
    match name {
        None => Marker::Any,
        Some(n) => match column_id_in(entries, table, n@) {
            Some(column) => Marker::Holds(column),
            None => Marker::Nothing,
        },
    }
}

/// The rules for those among the first `upto` fields whose column the
/// catalog holds, in the order of the fields.
pub open spec fn bound_fields(
    entries: Seq<EntryModel>,
    table: Seq<u8>,
    fields: Seq<NamedField>,
    upto: int,
) -> Seq<FieldRuleModel>
    decreases upto,
{
    if upto <= 0 {
        Seq::empty()
    } else {
        let before = bound_fields(entries, table, fields, upto - 1);
        match column_id_in(entries, table, fields[upto - 1].column@) {
            Some(column) => before.push(
                FieldRuleModel {
                    column,
                    field: fields[upto - 1].field@,
                    transform: fields[upto - 1].transform,
                },
            ),
            None => before,
        }
    }
}

/// Whether a rule is what is known of a table, with every column under the
/// identifier that the catalog gives it.
pub open spec fn binds(entries: Seq<EntryModel>, named: NamedTable, rule: TableRule) -> bool {
    &&& rule.table@ == named.table@
    &&& rule.kind == named.kind
    &&& rule.marker == bound_marker(entries, named.table@, named.marker)
    &&& rule.host_column == named_column(entries, named.table@, named.host)
    &&& field_rules(rule.fields@) == bound_fields(
        entries,
        named.table@,
        named.fields@,
        named.fields@.len() as int,
    )
}

fn bind_column(catalog: &Catalog, table: &[u8], name: &Option<Vec<u8>>) -> (r: Option<u32>)
    ensures
        r == named_column(catalog.rows(), table@, *name),
{
    match name {
        Some(n) => catalog.column_id(table, n.as_slice()),
        None => None,
    }
}

fn bind_fields(catalog: &Catalog, table: &[u8], fields: &Vec<NamedField>) -> (r: Vec<FieldRule>)
    ensures
        field_rules(r@) == bound_fields(catalog.rows(), table@, fields@, fields@.len() as int),
{
    let mut out: Vec<FieldRule> = Vec::new();
    let mut i: usize = 0;
    assert(field_rules(out@) =~= bound_fields(catalog.rows(), table@, fields@, 0));
    while i < fields.len()
        invariant
            i <= fields.len(),
            field_rules(out@) == bound_fields(catalog.rows(), table@, fields@, i as int),
        decreases fields.len() - i,
    {
        match catalog.column_id(table, fields[i].column.as_slice()) {
            Some(column) => {
                let ghost before = field_rules(out@);
                let rule = FieldRule {
                    column,
                    field: fields[i].field.clone(),
                    transform: fields[i].transform,
                };
                out.push(rule);
                assert(field_rules(out@) =~= before.push(rule@));
            },
            None => {},
        }
        i += 1;
    }
    out
}

/// Makes the rules for a store from what is known of its tables by name:
/// one rule for each, in their order, with every column under the identifier
/// that the store's catalog gives it. A field whose column the catalog does
/// not hold is left out.
pub fn bind(catalog: &Catalog, known: &Vec<NamedTable>) -> (r: Mapper)
    ensures
        r.rules@.len() == known@.len(),
        forall|i: int|
            0 <= i < known@.len() ==> binds(catalog.rows(), known@[i], #[trigger] r.rules@[i]),
{
    let mut rules: Vec<TableRule> = Vec::new();
    let mut i: usize = 0;
    while i < known.len()
        invariant
            i <= known.len(),
            rules@.len() == i,
            forall|k: int| 0 <= k < i ==> binds(catalog.rows(), known@[k], #[trigger] rules@[k]),
        decreases known.len() - i,
    {
        let named = &known[i];
        let table = copy_range(named.table.as_slice(), 0, named.table.len());
        assert(named.table@.subrange(0, named.table@.len() as int) == named.table@);
        let marker = match &named.marker {
            None => Marker::Any,
            Some(n) => match catalog.column_id(named.table.as_slice(), n.as_slice()) {
                Some(column) => Marker::Holds(column),
                None => Marker::Nothing,
            },
        };
        let rule = TableRule {
            table,
            kind: named.kind,
            marker,
            host_column: bind_column(catalog, named.table.as_slice(), &named.host),
            fields: bind_fields(catalog, named.table.as_slice(), &named.fields),
        };
        rules.push(rule);
        i += 1;
    }
    Mapper { rules }
}

/// Hands a record of a report to a sink: closes the record that was open and
/// puts the fields into the next one.
pub fn emit(sink: &mut ReportSink, record: &ReportRecord)
    requires
        old(sink).can_emit(),
    ensures
        final(sink)@ == emitted(old(sink)@, record@),
        final(sink).can_emit(),
{
    sink.new_record();
    let mut i: usize = 0;
    while i < record.fields.len()
        invariant
            i <= record.fields.len(),
            sink.can_emit(),
            sink@ == filled(sink_after_new_record(old(sink)@), record@.fields, i as int),
        decreases record.fields.len() - i,
    {
        let field = &record.fields[i];
        assert(field@ == record@.fields[i as int]);
        match &field.value {
            FieldValue::Text(text) => {
                sink.str_val(field.name.as_str(), text.clone());
            },
            FieldValue::Number(n) => {
                sink.int_val(field.name.as_str(), *n);
            },
        }
        i += 1;
    }
}

} // verus!
