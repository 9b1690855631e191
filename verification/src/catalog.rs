//! The catalog resolver: the table of the store that describes all tables,
//! read with a decoder of its own, and the schemas that it describes.
//!
//! The catalog is a tree like that of any table; its root is a page that
//! every store keeps at the same number. Its records have the layout of all
//! records, with six fixed columns, which every record holds, and one
//! variable column:
//!
//! * the identifier of the table that the entry belongs to (32 bits);
//! * the type of the entry (16 bits): 1 a table, 2 a column, 3 an index,
//!   4 the tree of the table's long values;
//! * the identifier of the entry, for a column the column's (32 bits);
//! * for a column the code of its type, for a table and for a tree of long
//!   values the number of the root page (32 bits);
//! * for a fixed column its width (32 bits);
//! * flags (32 bits);
//! * the name.

use vstd::prelude::*;

use crate::btree::{raws, scan, scan_of, RawModel, RawRecord};
use crate::bytes::{copy_range, read_u16, read_u32, u16_at, u32_at};
use crate::error::Error;
use crate::page::{Store, StoreModel};
use crate::schema::{
    schema_ok, Column, ColumnType, SchemaModel, TableSchema, FIRST_FIXED_ID, FIRST_TAGGED_ID,
    FIRST_VARIABLE_ID, LAST_FIXED_ID, LAST_TAGGED_ID, LAST_VARIABLE_ID,
};

verus! {

/// The page at which the catalog begins.
pub const CATALOG_ROOT: u32 = 4;

/// The length of a catalog record without its name.
pub const ENTRY_LEN: usize = 26;

/// What an entry of the catalog describes.
#[derive(Clone, Copy, Debug, PartialEq, Eq, Structural)]
pub enum EntryKind {
    Table,
    Column,
    Index,
    LongValue,
    /// An entry of a type that this reader has no use for.
    Other,
}

/// The storage class of a column.
#[derive(Clone, Copy, Debug, PartialEq, Eq, Structural)]
pub enum StorageClass {
    Fixed,
    Variable,
    Tagged,
}

/// One row of the catalog.
#[derive(Clone, Debug, PartialEq, Eq)]
pub struct CatalogEntry {
    pub table_id: u32,
    pub kind: EntryKind,
    pub id: u32,
    /// The code of a column's type, or the number of a root page.
    pub code: u32,
    pub width: u32,
    pub flags: u32,
    pub name: Vec<u8>,
}

/// One row of the catalog as plain values.
pub struct EntryModel {
    pub table_id: u32,
    pub kind: EntryKind,
    pub id: u32,
    pub code: u32,
    pub width: u32,
    pub flags: u32,
    pub name: Seq<u8>,
}

impl View for CatalogEntry {
    type V = EntryModel;

    open spec fn view(&self) -> EntryModel {
        EntryModel {
            table_id: self.table_id,
            kind: self.kind,
            id: self.id,
            code: self.code,
            width: self.width,
            flags: self.flags,
            name: self.name@,
        }
    }
}

/// The plain values of a vector of entries.
pub open spec fn entry_models(v: Seq<CatalogEntry>) -> Seq<EntryModel> {
    Seq::new(v.len(), |i: int| v[i]@)
}

/// What a type of entry stands for.
pub open spec fn kind_of_code(code: int) -> EntryKind {
    if code == 1 {
        EntryKind::Table
    } else if code == 2 {
        EntryKind::Column
    } else if code == 3 {
        EntryKind::Index
    } else if code == 4 {
        EntryKind::LongValue
    } else {
        EntryKind::Other
    }
}

/// Whether the bytes are a record of the catalog: they hold the six fixed
/// columns and the name that they announce.
pub open spec fn entry_fits(raw: Seq<u8>) -> bool {
    &&& raw.len() >= ENTRY_LEN
    &&& raw[1] >= 6
    &&& ENTRY_LEN + u16_at(raw, 24) <= raw.len()
}

/// The row that a record of the catalog holds.
pub open spec fn entry_of(raw: Seq<u8>) -> EntryModel {
    EntryModel {
        table_id: u32_at(raw, 2) as u32,
        kind: kind_of_code(u16_at(raw, 6)),
        id: u32_at(raw, 8) as u32,
        code: u32_at(raw, 12) as u32,
        width: u32_at(raw, 16) as u32,
        flags: u32_at(raw, 20) as u32,
        name: raw.subrange(ENTRY_LEN as int, ENTRY_LEN + u16_at(raw, 24)),
    }
}

/// The storage class that a column's identifier tells.
pub open spec fn class_of(id: u32) -> Option<StorageClass> {
    if FIRST_FIXED_ID <= id <= LAST_FIXED_ID {
        Some(StorageClass::Fixed)
    } else if FIRST_VARIABLE_ID <= id <= LAST_VARIABLE_ID {
        Some(StorageClass::Variable)
    } else if FIRST_TAGGED_ID <= id <= LAST_TAGGED_ID {
        Some(StorageClass::Tagged)
    } else {
        None
    }
}

/// The column that an entry describes. A type that this reader does not
/// know is read as binary. The width counts for a fixed column only; one
/// that no record can hold is put down as none.
pub open spec fn column_of(e: EntryModel) -> Column {
    Column {
        id: e.id,
        kind: match ColumnType::of_code(e.code as int) {
            Some(kind) => kind,
            None => ColumnType::Binary,
        },
        width: if class_of(e.id) == Some(StorageClass::Fixed) && e.width <= 65535 {
            e.width as u16
        } else {
            0
        },
    }
}

/// Whether the entry describes a column of the table and the class.
pub open spec fn is_column_of(e: EntryModel, table_id: u32, class: StorageClass) -> bool {
    e.kind == EntryKind::Column && e.table_id == table_id && class_of(e.id) == Some(class)
}

/// The columns of a table and a class among the first `upto` entries, in the
/// order of the entries.
pub open spec fn columns(
    entries: Seq<EntryModel>,
    table_id: u32,
    class: StorageClass,
    upto: int,
) -> Seq<Column>
    decreases upto,
{
    if upto <= 0 {
        Seq::empty()
    } else if is_column_of(entries[upto - 1], table_id, class) {
        columns(entries, table_id, class, upto - 1).push(column_of(entries[upto - 1]))
    } else {
        columns(entries, table_id, class, upto - 1)
    }
}

/// The root of the tree of long values of a table, as the last entry for it
/// among the first `upto` entries gives it.
pub open spec fn long_values_of(entries: Seq<EntryModel>, table_id: u32, upto: int) -> Option<u32>
    decreases upto,
{
    if upto <= 0 {
        None
    } else if entries[upto - 1].kind == EntryKind::LongValue && entries[upto - 1].table_id
        == table_id {
        Some(entries[upto - 1].code)
    } else {
        long_values_of(entries, table_id, upto - 1)
    }
}

/// The schema that the entries give for the table of entry `t`, before it is
/// checked.
pub open spec fn draft(entries: Seq<EntryModel>, t: int) -> SchemaModel {
    let n = entries.len() as int;
    let id = entries[t].table_id;
    SchemaModel {
        name: entries[t].name,
        fixed: columns(entries, id, StorageClass::Fixed, n),
        variable: columns(entries, id, StorageClass::Variable, n),
        tagged: columns(entries, id, StorageClass::Tagged, n),
        root_page: entries[t].code,
        long_value_root: long_values_of(entries, id, n),
    }
}

/// Whether the entries describe the table of entry `t` consistently: its
/// root is a page of the store behind the header, and its columns are a
/// schema.
pub open spec fn table_ok(entries: Seq<EntryModel>, t: int, pages: int) -> bool {
    2 <= entries[t].code <= pages && schema_ok(draft(entries, t))
}

/// Whether all tables among the first `upto` entries are described
/// consistently.
pub open spec fn tables_ok(entries: Seq<EntryModel>, pages: int, upto: int) -> bool {
    forall|t: int|
        0 <= t < upto && (#[trigger] entries[t]).kind == EntryKind::Table ==> table_ok(
            entries,
            t,
            pages,
        )
}

/// The schemas of the tables among the first `upto` entries, in the order of
/// the entries.
pub open spec fn tables(entries: Seq<EntryModel>, upto: int) -> Seq<SchemaModel>
    decreases upto,
{
    if upto <= 0 {
        Seq::empty()
    } else if entries[upto - 1].kind == EntryKind::Table {
        tables(entries, upto - 1).push(draft(entries, upto - 1))
    } else {
        tables(entries, upto - 1)
    }
}

/// The rows that the records of the catalog hold.
pub open spec fn rows(recs: Seq<RawModel>) -> Seq<EntryModel> {
    Seq::new(recs.len(), |i: int| entry_of(recs[i].data))
}

/// Whether every record is a record of the catalog.
pub open spec fn rows_fit(recs: Seq<RawModel>) -> bool {
    forall|i: int| 0 <= i < recs.len() ==> entry_fits((#[trigger] recs[i]).data)
}

/// What loading the catalog of a store gives: the schemas of its tables. A
/// fault of the walk over the catalog's tree is the answer; records that are
/// no records of the catalog, and tables that are not described
/// consistently, make the catalog corrupt.
pub open spec fn catalog_of(store: StoreModel) -> Result<Seq<SchemaModel>, Error> {
    let walk = scan_of(store, CATALOG_ROOT);
    match walk.1 {
        Some(e) => Err(e),
        None => if rows_fit(walk.0) && tables_ok(
            rows(walk.0),
            store.page_count(),
            walk.0.len() as int,
        ) {
            Ok(tables(rows(walk.0), walk.0.len() as int))
        } else {
            Err(Error::CatalogCorrupt)
        },
    }
}

/// Whether `i` is the first schema of the given name.
pub open spec fn first_named(all: Seq<SchemaModel>, name: Seq<u8>, i: int) -> bool {
    &&& 0 <= i < all.len()
    &&& all[i].name == name
    &&& forall|j: int| 0 <= j < i ==> (#[trigger] all[j]).name != name
}

/// Every schema comes from an entry of the catalog that describes a table
/// and bears the schema's name.
proof fn lemma_tables_come_from_entries(entries: Seq<EntryModel>, upto: int, i: int)
    requires
        0 <= upto <= entries.len(),
        0 <= i < tables(entries, upto).len(),
    ensures
        exists|k: int|
            0 <= k < upto && (#[trigger] entries[k]).kind == EntryKind::Table && entries[k].name
                == tables(entries, upto)[i].name,
    decreases upto,
{
    if entries[upto - 1].kind == EntryKind::Table && i == tables(entries, upto).len() - 1 {
        assert(entries[upto - 1].name == tables(entries, upto)[i].name);
    } else {
        lemma_tables_come_from_entries(entries, upto - 1, i);
        let k = choose|k: int|
            0 <= k < upto - 1 && (#[trigger] entries[k]).kind == EntryKind::Table
                && entries[k].name == tables(entries, upto - 1)[i].name;
        assert(entries[k].name == tables(entries, upto)[i].name);
    }
}

/// No table is found that the catalog does not hold: where the catalog of a
/// store was loaded, the name of each of its schemas is the name of a table
/// in a record that the walk over the catalog's own tree gives.
pub proof fn lemma_found_tables_are_in_catalog(store: StoreModel, i: int)
    requires
        catalog_of(store) is Ok,
        0 <= i < catalog_of(store).unwrap().len(),
    ensures
        exists|k: int|
            0 <= k < scan_of(store, CATALOG_ROOT).0.len() && entry_fits(
                (#[trigger] scan_of(store, CATALOG_ROOT).0[k]).data,
            ) && entry_of(scan_of(store, CATALOG_ROOT).0[k].data).kind == EntryKind::Table
                && entry_of(scan_of(store, CATALOG_ROOT).0[k].data).name == catalog_of(
                store,
            ).unwrap()[i].name,
{
    let walk = scan_of(store, CATALOG_ROOT);
    let entries = rows(walk.0);
    lemma_tables_come_from_entries(entries, walk.0.len() as int, i);
    let k = choose|k: int|
        0 <= k < walk.0.len() && (#[trigger] entries[k]).kind == EntryKind::Table
            && entries[k].name == tables(entries, walk.0.len() as int)[i].name;
    assert(entry_fits(walk.0[k].data));
    assert(entries[k] == entry_of(walk.0[k].data));
}

/// Whether the entry describes a table of the given name.
pub open spec fn is_table_named(e: EntryModel, name: Seq<u8>) -> bool {
    e.kind == EntryKind::Table && e.name == name
}

/// Whether the entry describes a column of the given table and name.
pub open spec fn is_column_named(e: EntryModel, table_id: u32, name: Seq<u8>) -> bool {
    e.kind == EntryKind::Column && e.table_id == table_id && e.name == name
}

/// The first entry from `from` on that describes a table of the given name;
/// the number of entries where there is none.
pub open spec fn table_entry(entries: Seq<EntryModel>, name: Seq<u8>, from: int) -> int
    decreases entries.len() - from,
{
    if from < 0 || from >= entries.len() || is_table_named(entries[from], name) {
        from
    } else {
        table_entry(entries, name, from + 1)
    }
}

/// The first entry from `from` on that describes a column of the given
/// table and name; the number of entries where there is none.
pub open spec fn column_entry(
    entries: Seq<EntryModel>,
    table_id: u32,
    name: Seq<u8>,
    from: int,
) -> int
    decreases entries.len() - from,
{
    if from < 0 || from >= entries.len() || is_column_named(entries[from], table_id, name) {
        from
    } else {
        column_entry(entries, table_id, name, from + 1)
    }
}

/// The identifier of the column of the given name in the table of the given
/// name, as the entries tell it: that of the first such column of the first
/// such table.
pub open spec fn column_id_in(entries: Seq<EntryModel>, table: Seq<u8>, column: Seq<u8>) -> Option<
    u32,
> {
    let t = table_entry(entries, table, 0);
    if t >= entries.len() {
        None
    } else {
        let c = column_entry(entries, entries[t].table_id, column, 0);
        if c >= entries.len() {
            None
        } else {
            Some(entries[c].id)
        }
    }
}

/// Reads one record of the catalog.
pub fn read_entry(raw: &[u8]) -> (r: Option<CatalogEntry>)
    ensures
        match r {
            Some(e) => entry_fits(raw@) && e@ == entry_of(raw@),
            None => !entry_fits(raw@),
        },
{
    if raw.len() < ENTRY_LEN || raw[1] < 6 {
        return None;
    }
    let name_len = read_u16(raw, 24) as usize;
    if name_len > raw.len() - ENTRY_LEN {
        return None;
    }
    let code = read_u16(raw, 6);
    let kind = if code == 1 {
        EntryKind::Table
    } else if code == 2 {
        EntryKind::Column
    } else if code == 3 {
        EntryKind::Index
    } else if code == 4 {
        EntryKind::LongValue
    } else {
        EntryKind::Other
    };
    Some(
        CatalogEntry {
            table_id: read_u32(raw, 2),
            kind,
            id: read_u32(raw, 8),
            code: read_u32(raw, 12),
            width: read_u32(raw, 16),
            flags: read_u32(raw, 20),
            name: copy_range(raw, ENTRY_LEN, ENTRY_LEN + name_len),
        },
    )
}

/// The storage class of a column.
pub fn storage_class(id: u32) -> (r: Option<StorageClass>)
    ensures
        r == class_of(id),
{
    if FIRST_FIXED_ID <= id && id <= LAST_FIXED_ID {
        Some(StorageClass::Fixed)
    } else if FIRST_VARIABLE_ID <= id && id <= LAST_VARIABLE_ID {
        Some(StorageClass::Variable)
    } else if FIRST_TAGGED_ID <= id && id <= LAST_TAGGED_ID {
        Some(StorageClass::Tagged)
    } else {
        None
    }
}

fn same_class(a: Option<StorageClass>, b: StorageClass) -> (r: bool)
    ensures
        r == (a == Some(b)),
{
    match a {
        Some(c) => c == b,
        None => false,
    }
}

fn make_column(e: &CatalogEntry) -> (r: Column)
    ensures
        r == column_of(e@),
{
    let kind = match ColumnType::from_code(e.code) {
        Some(kind) => kind,
        None => ColumnType::Binary,
    };
    let width: u16 = if same_class(storage_class(e.id), StorageClass::Fixed) && e.width <= 65535 {
        e.width as u16
    } else {
        0
    };
    Column { id: e.id, kind, width }
}

fn collect_columns(entries: &Vec<CatalogEntry>, table_id: u32, class: StorageClass) -> (r: Vec<
    Column,
>)
    ensures
        r@ == columns(entry_models(entries@), table_id, class, entries.len() as int),
{
    let mut out: Vec<Column> = Vec::new();
    let mut i: usize = 0;
    while i < entries.len()
        invariant
            i <= entries.len(),
            out@ == columns(entry_models(entries@), table_id, class, i as int),
        decreases entries.len() - i,
    {
        let e = &entries[i];
        assert(e@ == entry_models(entries@)[i as int]);
        if e.kind == EntryKind::Column && e.table_id == table_id && same_class(
            storage_class(e.id),
            class,
        ) {
            out.push(make_column(e));
        }
        i += 1;
    }
    out
}

fn find_long_values(entries: &Vec<CatalogEntry>, table_id: u32) -> (r: Option<u32>)
    ensures
        r == long_values_of(entry_models(entries@), table_id, entries.len() as int),
{
    let mut found: Option<u32> = None;
    let mut i: usize = 0;
    while i < entries.len()
        invariant
            i <= entries.len(),
            found == long_values_of(entry_models(entries@), table_id, i as int),
        decreases entries.len() - i,
    {
        let e = &entries[i];
        assert(e@ == entry_models(entries@)[i as int]);
        if e.kind == EntryKind::LongValue && e.table_id == table_id {
            found = Some(e.code);
        }
        i += 1;
    }
    found
}

/// Copies a vector of bytes.
fn copy_bytes(v: &Vec<u8>) -> (r: Vec<u8>)
    ensures
        r@ == v@,
{
    let r = copy_range(v.as_slice(), 0, v.len());
    assert(v@.subrange(0, v.len() as int) == v@);
    r
}

/// Whether two runs of bytes are the same.
pub fn same_bytes(a: &[u8], b: &[u8]) -> (r: bool)
    ensures
        r == (a@ == b@),
{
    if a.len() != b.len() {
        return false;
    }
    let mut i: usize = 0;
    while i < a.len()
        invariant
            i <= a.len(),
            a.len() == b.len(),
            forall|k: int| 0 <= k < i ==> a@[k] == b@[k],
        decreases a.len() - i,
    {
        if a[i] != b[i] {
            return false;
        }
        i += 1;
    }
    assert(a@ =~= b@);
    true
}

/// The catalog of a store: its rows, and the schemas of the tables that
/// they describe.
pub struct Catalog {
    tables: Vec<TableSchema>,
    entries: Vec<CatalogEntry>,
}

/// The plain values of a vector of schemas.
pub open spec fn schema_models(v: Seq<TableSchema>) -> Seq<SchemaModel> {
    Seq::new(v.len(), |i: int| v[i]@)
}

impl View for Catalog {
    type V = Seq<SchemaModel>;

    closed spec fn view(&self) -> Seq<SchemaModel> {
        schema_models(self.tables@)
    }
}

impl Catalog {
    /// The rows of the catalog, in the order of its tree.
    pub closed spec fn rows(&self) -> Seq<EntryModel> {
        entry_models(self.entries@)
    }

    /// The identifier of the column of the given name in the table of the
    /// given name.
    pub fn column_id(&self, table: &[u8], column: &[u8]) -> (r: Option<u32>)
        ensures
            r == column_id_in(self.rows(), table@, column@),
    {
        let ghost all = self.rows();
        let n = self.entries.len();
        let mut t: usize = 0;
        while t < n
            invariant
                t <= n,
                n == self.entries.len(),
                all == entry_models(self.entries@),
                table_entry(all, table@, 0) == table_entry(all, table@, t as int),
            ensures
                t >= n || is_table_named(all[t as int], table@),
            decreases n - t,
        {
            let e = &self.entries[t];
            assert(e@ == all[t as int]);
            if e.kind == EntryKind::Table && same_bytes(e.name.as_slice(), table) {
                break ;
            }
            t += 1;
        }
        if t >= n {
            return None;
        }
        let table_id = self.entries[t].table_id;
        assert(self.entries@[t as int]@ == all[t as int]);
        let mut c: usize = 0;
        while c < n
            invariant
                c <= n,
                t < n,
                n == self.entries.len(),
                all == entry_models(self.entries@),
                table_entry(all, table@, 0) == t,
                table_id == all[t as int].table_id,
                column_entry(all, table_id, column@, 0) == column_entry(
                    all,
                    table_id,
                    column@,
                    c as int,
                ),
            decreases n - c,
        {
            let e = &self.entries[c];
            assert(e@ == all[c as int]);
            if e.kind == EntryKind::Column && e.table_id == table_id && same_bytes(
                e.name.as_slice(),
                column,
            ) {
                return Some(e.id);
            }
            c += 1;
        }
        None
    }

    /// The number of tables.
    pub fn len(&self) -> (r: usize)
        ensures
            r == self@.len(),
    {
        self.tables.len()
    }

    /// The schema of table `i`, in the order of the catalog.
    pub fn get(&self, i: usize) -> (r: &TableSchema)
        requires
            i < self@.len(),
        ensures
            r@ == self@[i as int],
    {
        &self.tables[i]
    }

    /// The schema of the first table of the given name.
    pub fn find(&self, name: &[u8]) -> (r: Option<&TableSchema>)
        ensures
            match r {
                Some(schema) => exists|i: int|
                    first_named(self@, name@, i) && self@[i] == schema@,
                None => forall|i: int| 0 <= i < self@.len() ==> (#[trigger] self@[i]).name != name@,
            },
    {
        let mut i: usize = 0;
        while i < self.tables.len()
            invariant
                i <= self.tables.len(),
                forall|j: int| 0 <= j < i ==> (#[trigger] self@[j]).name != name@,
            decreases self.tables.len() - i,
        {
            if same_bytes(self.tables[i].name().as_slice(), name) {
                assert(first_named(self@, name@, i as int));
                return Some(&self.tables[i]);
            }
            i += 1;
        }
        None
    }
}

/// Reads the records of the catalog as rows.
fn read_rows(recs: &Vec<RawRecord>) -> (r: Option<Vec<CatalogEntry>>)
    ensures
        match r {
            Some(entries) => rows_fit(raws(recs@)) && entry_models(entries@) == rows(raws(recs@)),
            None => !rows_fit(raws(recs@)),
        },
{
    let mut out: Vec<CatalogEntry> = Vec::new();
    let mut i: usize = 0;
    while i < recs.len()
        invariant
            i <= recs.len(),
            out@.len() == i,
            forall|k: int| 0 <= k < i ==> entry_fits((#[trigger] raws(recs@)[k]).data),
            forall|k: int| 0 <= k < i ==> (#[trigger] out@[k])@ == entry_of(raws(recs@)[k].data),
        decreases recs.len() - i,
    {
        assert(recs@[i as int]@ == raws(recs@)[i as int]);
        match read_entry(recs[i].data.as_slice()) {
            Some(e) => {
                out.push(e);
            },
            None => {
                assert(!entry_fits(raws(recs@)[i as int].data));
                return None;
            },
        }
        i += 1;
    }
    assert(entry_models(out@) =~= rows(raws(recs@)));
    Some(out)
}

/// Makes the schemas of the tables that the rows describe.
fn build_tables(entries: &Vec<CatalogEntry>, pages: usize) -> (r: Option<Vec<TableSchema>>)
    ensures
        match r {
            Some(found) => tables_ok(
                entry_models(entries@),
                pages as int,
                entries.len() as int,
            ) && schema_models(found@) == tables(entry_models(entries@), entries.len() as int),
            None => !tables_ok(entry_models(entries@), pages as int, entries.len() as int),
        },
{
    let ghost all = entry_models(entries@);
    let mut out: Vec<TableSchema> = Vec::new();
    let mut t: usize = 0;
    assert(schema_models(out@) =~= tables(all, 0));
    while t < entries.len()
        invariant
            t <= entries.len(),
            all == entry_models(entries@),
            tables_ok(all, pages as int, t as int),
            schema_models(out@) == tables(all, t as int),
        decreases entries.len() - t,
    {
        let e = &entries[t];
        assert(e@ == all[t as int]);
        if e.kind == EntryKind::Table {
            if e.code < 2 || e.code as usize > pages {
                assert(!table_ok(all, t as int, pages as int));
                return None;
            }
            let made = TableSchema::new(
                copy_bytes(&e.name),
                collect_columns(entries, e.table_id, StorageClass::Fixed),
                collect_columns(entries, e.table_id, StorageClass::Variable),
                collect_columns(entries, e.table_id, StorageClass::Tagged),
                e.code,
                find_long_values(entries, e.table_id),
            );
            match made {
                Ok(schema) => {
                    assert(schema@ == draft(all, t as int));
                    let ghost before = schema_models(out@);
                    out.push(schema);
                    assert(schema_models(out@) =~= before.push(draft(all, t as int)));
                },
                Err(_) => {
                    assert(!table_ok(all, t as int, pages as int));
                    return None;
                },
            }
        }
        t += 1;
    }
    Some(out)
}

/// Loads the catalog of a store: walks over the catalog's tree, reads its
/// records as rows, and makes the schema of every table.
pub fn load_catalog(store: &Store) -> (r: Result<Catalog, Error>)
    ensures
        match r {
            Ok(catalog) => catalog_of(store@) == Ok::<Seq<SchemaModel>, Error>(catalog@)
                && catalog.rows() == rows(scan_of(store@, CATALOG_ROOT).0),
            Err(e) => catalog_of(store@) == Err::<Seq<SchemaModel>, Error>(e),
        },
{
    let (recs, fault) = scan(store, CATALOG_ROOT);
    match fault {
        Some(e) => {
            return Err(e);
        },
        None => {},
    }
    let entries = match read_rows(&recs) {
        Some(entries) => entries,
        None => {
            return Err(Error::CatalogCorrupt);
        },
    };
    match build_tables(&entries, store.page_count()) {
        Some(tables) => Ok(Catalog { tables, entries }),
        None => Err(Error::CatalogCorrupt),
    }
}

} // verus!
