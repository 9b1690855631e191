//! The record decoder: from a table's schema and the bytes of one record to
//! the values of the record's columns.
//!
//! A record is laid out in this order:
//!
//! * one byte of flags, of which the lowest bit says that tagged columns
//!   follow, and one byte that counts the fixed columns that the record holds;
//! * the fixed columns of the schema, each with its width; those beyond the
//!   count are there and are not read;
//! * for every variable column of the schema the 16-bit offset at which its
//!   bytes end, then the bytes of the variable columns, one after another; a
//!   column that ends where the one before it ends is absent;
//! * where the flags say so, the 16-bit number of tagged entries, the
//!   entries, and their bytes. An entry holds the column's identifier in 16
//!   bits, the offset at which its bytes end in 16 bits, and one byte of
//!   flags: the lowest bit marks the identifier of a long value, the next one
//!   a multi-valued column, whose items each follow their 16-bit length.

use vstd::prelude::*;

use crate::bytes::{read_u16, read_u32, u16_at, u32_at};
use crate::error::Error;
use crate::schema::{
    lemma_ascending_ids_are_few, schema_ok, width_fits, Column, ColumnType, SchemaModel,
    TableSchema, FIRST_FIXED_ID, FIRST_VARIABLE_ID, LAST_FIXED_ID, LAST_VARIABLE_ID,
};
use crate::value::{
    convert, fields, lemma_scalar_of_is_some, scalar_of, scalars, Field, FieldModel, Record,
    Scalar, ScalarModel, Value, ValueModel,
};

verus! {

/// Where the fixed column `i` begins, counted from the first fixed column.
pub open spec fn fixed_start(cols: Seq<Column>, i: int) -> int
    decreases i,
{
    if i <= 0 {
        0
    } else {
        fixed_start(cols, i - 1) + cols[i - 1].width
    }
}

/// Where the offsets of the variable columns begin.
pub open spec fn table_at(s: SchemaModel) -> int {
    2 + fixed_start(s.fixed, s.fixed.len() as int)
}

/// Where the bytes of the variable columns begin.
pub open spec fn data_at(s: SchemaModel) -> int {
    table_at(s) + 2 * s.variable.len()
}

/// The length of the shortest record of a schema: one that holds no
/// variable and no tagged column.
pub open spec fn min_len(s: SchemaModel) -> int {
    data_at(s)
}

/// The offset at which the bytes of entry `k` end, read from a table whose
/// first offset stands at `first` and whose entries are `stride` bytes apart.
/// Before the first entry the bytes begin.
pub open spec fn end_of(raw: Seq<u8>, first: int, stride: int, k: int) -> int {
    if k < 0 {
        0
    } else {
        u16_at(raw, first + stride * k)
    }
}

/// Whether the offsets of the first `n` entries do not run backwards: no
/// entry ends before an earlier one, nor before the bytes begin.
pub open spec fn ends_ascend(raw: Seq<u8>, first: int, stride: int, n: int) -> bool {
    forall|i: int, j: int|
        -1 <= i <= j < n ==> #[trigger] end_of(raw, first, stride, i) <= #[trigger] end_of(
            raw,
            first,
            stride,
            j,
        )
}

/// The bytes of entry `k`, where the bytes of all entries begin at `data`.
pub open spec fn slot(raw: Seq<u8>, first: int, stride: int, data: int, k: int) -> Seq<u8> {
    raw.subrange(data + end_of(raw, first, stride, k - 1), data + end_of(raw, first, stride, k))
}

/// The field of the fixed column `i`: its value where the record's count
/// reaches the column, else the mark of absence.
pub open spec fn fixed_field(cols: Seq<Column>, raw: Seq<u8>, i: int) -> FieldModel {
    FieldModel {
        id: cols[i].id,
        value: if i < raw[1] {
            ValueModel::One(
                scalar_of(
                    cols[i].kind,
                    raw.subrange(
                        2 + fixed_start(cols, i),
                        2 + fixed_start(cols, i) + cols[i].width,
                    ),
                ).unwrap(),
            )
        } else {
            ValueModel::Absent
        },
    }
}

/// The fields of the fixed columns, one for every column of the schema.
pub open spec fn fixed_fields(cols: Seq<Column>, raw: Seq<u8>) -> Seq<FieldModel> {
    Seq::new(cols.len(), |i: int| fixed_field(cols, raw, i))
}

/// Whether the variable columns fit the record: the offsets do not run
/// backwards, the record holds the bytes up to the last offset, and the bytes
/// of every column that is present can be read as a value of its type.
pub open spec fn variable_fits(cols: Seq<Column>, raw: Seq<u8>, table: int) -> bool {
    let data = table + 2 * cols.len();
    &&& ends_ascend(raw, table, 2, cols.len() as int)
    &&& data + end_of(raw, table, 2, cols.len() - 1) <= raw.len()
    &&& forall|k: int|
        0 <= k < cols.len() && (#[trigger] slot(raw, table, 2, data, k)).len() > 0 ==> scalar_of(
            cols[k].kind,
            slot(raw, table, 2, data, k),
        ) is Some
}

/// The fields of those among the first `upto` variable columns that are
/// present.
pub open spec fn variable_fields(cols: Seq<Column>, raw: Seq<u8>, table: int, upto: int) -> Seq<
    FieldModel,
>
    decreases upto,
{
    if upto <= 0 {
        Seq::empty()
    } else {
        let before = variable_fields(cols, raw, table, upto - 1);
        let bytes = slot(raw, table, 2, table + 2 * cols.len(), upto - 1);
        if bytes.len() == 0 {
            before
        } else {
            before.push(
                FieldModel {
                    id: cols[upto - 1].id,
                    value: ValueModel::One(scalar_of(cols[upto - 1].kind, bytes).unwrap()),
                },
            )
        }
    }
}

/// The type of the tagged column `id`, looked for from column `from` on. A
/// column that the schema does not know is taken as binary.
pub open spec fn tagged_kind(cols: Seq<Column>, id: int, from: int) -> ColumnType
    decreases cols.len() - from,
{
    if from < 0 || from >= cols.len() {
        ColumnType::Binary
    } else if cols[from].id == id {
        cols[from].kind
    } else {
        tagged_kind(cols, id, from + 1)
    }
}

/// The items of a multi-valued column: each item follows its 16-bit length.
/// There are none where a length runs past the bytes or an item cannot be
/// read as a value of the type.
pub open spec fn items_of(kind: ColumnType, b: Seq<u8>) -> Option<Seq<ScalarModel>>
    decreases b.len(),
{
    if b.len() == 0 {
        Some(Seq::empty())
    } else if b.len() < 2 || 2 + u16_at(b, 0) > b.len() {
        None
    } else {
        match scalar_of(kind, b.subrange(2, 2 + u16_at(b, 0))) {
            None => None,
            Some(item) => match items_of(kind, b.skip(2 + u16_at(b, 0))) {
                None => None,
                Some(rest) => Some(seq![item] + rest),
            },
        }
    }
}

/// The value of a tagged entry with the given flags and bytes.
pub open spec fn tagged_value(kind: ColumnType, flags: int, b: Seq<u8>) -> Option<ValueModel> {
    if flags % 2 == 1 {
        if b.len() == 4 {
            Some(ValueModel::LongValue(u32_at(b, 0) as u32))
        } else {
            None
        }
    } else if (flags / 2) % 2 == 1 {
        match items_of(kind, b) {
            Some(items) => Some(ValueModel::Many(items)),
            None => None,
        }
    } else {
        match scalar_of(kind, b) {
            Some(item) => Some(ValueModel::One(item)),
            None => None,
        }
    }
}

/// The number of tagged entries of a record whose tagged part begins at `at`.
pub open spec fn tagged_count(raw: Seq<u8>, at: int) -> int {
    u16_at(raw, at)
}

/// The value of the tagged entry `k`.
pub open spec fn tagged_entry_value(cols: Seq<Column>, raw: Seq<u8>, at: int, k: int) -> Option<
    ValueModel,
> {
    let m = tagged_count(raw, at);
    tagged_value(
        tagged_kind(cols, u16_at(raw, at + 2 + 5 * k), 0),
        raw[at + 2 + 5 * k + 4] as int,
        slot(raw, at + 4, 5, at + 2 + 5 * m, k),
    )
}

/// Whether the tagged part that begins at `at` fits the record.
pub open spec fn tagged_fits(cols: Seq<Column>, raw: Seq<u8>, at: int) -> bool {
    &&& at + 2 <= raw.len()
    &&& at + 2 + 5 * tagged_count(raw, at) <= raw.len()
    &&& ends_ascend(raw, at + 4, 5, tagged_count(raw, at))
    &&& at + 2 + 5 * tagged_count(raw, at) + end_of(raw, at + 4, 5, tagged_count(raw, at) - 1)
        <= raw.len()
    &&& forall|k: int|
        0 <= k < tagged_count(raw, at) ==> (#[trigger] tagged_entry_value(cols, raw, at, k)) is Some
}

/// The fields of the tagged entries, in the order of the entries.
pub open spec fn tagged_fields(cols: Seq<Column>, raw: Seq<u8>, at: int) -> Seq<FieldModel> {
    Seq::new(
        tagged_count(raw, at) as nat,
        |k: int|
            FieldModel {
                id: u16_at(raw, at + 2 + 5 * k) as u32,
                value: tagged_entry_value(cols, raw, at, k).unwrap(),
            },
    )
}

/// Whether the record's flags announce tagged columns.
pub open spec fn has_tagged(raw: Seq<u8>) -> bool {
    raw[0] % 2 == 1
}

/// Where the tagged part of a record begins: behind the bytes of the
/// variable columns.
pub open spec fn tagged_at(s: SchemaModel, raw: Seq<u8>) -> int {
    data_at(s) + end_of(raw, table_at(s), 2, s.variable.len() - 1)
}

/// Whether the bytes are a record of the schema: no table of offsets asks for
/// more bytes than there are, and every value can be read as its type.
pub open spec fn record_fits(s: SchemaModel, raw: Seq<u8>) -> bool {
    &&& raw.len() >= min_len(s)
    &&& variable_fits(s.variable, raw, table_at(s))
    &&& has_tagged(raw) ==> tagged_fits(s.tagged, raw, tagged_at(s, raw))
}

/// The fields of a record of the schema.
pub open spec fn record_of(s: SchemaModel, raw: Seq<u8>) -> Seq<FieldModel> {
    fixed_fields(s.fixed, raw) + variable_fields(
        s.variable,
        raw,
        table_at(s),
        s.variable.len() as int,
    ) + if has_tagged(raw) {
        tagged_fields(s.tagged, raw, tagged_at(s, raw))
    } else {
        Seq::empty()
    }
}

/// What decoding gives: the fields of the record, or the refusal of bytes
/// that are no record of the schema.
pub open spec fn decoded(s: SchemaModel, raw: Seq<u8>) -> Result<Seq<FieldModel>, Error> {
    if record_fits(s, raw) {
        Ok(record_of(s, raw))
    } else {
        Err(Error::TruncatedRecord)
    }
}

/// No fixed column begins further on than its number times the greatest
/// width.
proof fn lemma_fixed_start_bound(cols: Seq<Column>, i: int)
    requires
        0 <= i <= cols.len(),
    ensures
        0 <= fixed_start(cols, i) <= 65535 * i,
    decreases i,
{
    if i > 0 {
        lemma_fixed_start_bound(cols, i - 1);
    }
}

/// The fixed columns begin one behind the other.
proof fn lemma_fixed_start_grows(cols: Seq<Column>, i: int, j: int)
    requires
        0 <= i <= j <= cols.len(),
    ensures
        fixed_start(cols, i) <= fixed_start(cols, j),
    decreases j - i,
{
    if i < j {
        lemma_fixed_start_grows(cols, i, j - 1);
    }
}

/// Offsets that ascend up to an entry, and do so at the next entry, ascend
/// up to the next entry.
proof fn lemma_ends_ascend_step(raw: Seq<u8>, first: int, stride: int, k: int)
    requires
        0 <= k,
        ends_ascend(raw, first, stride, k),
        end_of(raw, first, stride, k - 1) <= end_of(raw, first, stride, k),
    ensures
        ends_ascend(raw, first, stride, k + 1),
{
    assert forall|i: int, j: int| -1 <= i <= j < k + 1 implies #[trigger] end_of(
        raw,
        first,
        stride,
        i,
    ) <= #[trigger] end_of(raw, first, stride, j) by {
        if j == k && i < k {
            assert(end_of(raw, first, stride, i) <= end_of(raw, first, stride, k - 1));
        }
    }
}

/// The width of the fixed part of a record.
fn fixed_area(cols: &Vec<Column>) -> (r: usize)
    requires
        cols.len() <= 127,
    ensures
        r == fixed_start(cols@, cols.len() as int),
        r <= 65535 * 127,
{
    let mut sum: usize = 0;
    let mut i: usize = 0;
    while i < cols.len()
        invariant
            i <= cols.len() <= 127,
            sum == fixed_start(cols@, i as int),
            sum <= 65535 * i,
        decreases cols.len() - i,
    {
        sum = sum + cols[i].width as usize;
        i += 1;
    }
    sum
}

/// Reads the fixed columns.
fn fixed_part(cols: &Vec<Column>, raw: &[u8]) -> (r: Vec<Field>)
    requires
        cols.len() <= 127,
        forall|i: int| 0 <= i < cols.len() ==> width_fits(#[trigger] cols[i]),
        raw.len() >= 2 + fixed_start(cols@, cols.len() as int),
    ensures
        fields(r@) == fixed_fields(cols@, raw@),
{
    proof {
        lemma_fixed_start_bound(cols@, cols.len() as int);
    }
    let count = raw[1] as usize;
    let mut out: Vec<Field> = Vec::new();
    let mut at: usize = 2;
    let mut i: usize = 0;
    while i < cols.len()
        invariant
            i <= cols.len() <= 127,
            count == raw@[1],
            at == 2 + fixed_start(cols@, i as int),
            forall|k: int| 0 <= k < cols.len() ==> width_fits(#[trigger] cols[k]),
            raw.len() >= 2 + fixed_start(cols@, cols.len() as int),
            out@.len() == i,
            forall|k: int| 0 <= k < i ==> (#[trigger] out@[k])@ == fixed_field(cols@, raw@, k),
        decreases cols.len() - i,
    {
        let col = cols[i];
        let width = col.width as usize;
        proof {
            lemma_fixed_start_bound(cols@, i as int);
            lemma_fixed_start_grows(cols@, i + 1, cols.len() as int);
        }
        let value = if i < count {
            let bytes = &raw[at..at + width];
            proof {
                assert(width_fits(cols[i as int]));
                lemma_scalar_of_is_some(col.kind, bytes@);
            }
            match convert(col.kind, bytes) {
                Some(item) => Value::One(item),
                None => Value::Absent,
            }
        } else {
            Value::Absent
        };
        out.push(Field { id: col.id, value });
        at = at + width;
        i += 1;
    }
    assert(fields(out@) =~= fixed_fields(cols@, raw@));
    out
}

/// Reads the variable columns whose offsets begin at `table`. Gives the
/// fields of those that are present and the place behind their bytes.
fn variable_part(cols: &Vec<Column>, raw: &[u8], table: usize) -> (r: Option<(Vec<Field>, usize)>)
    requires
        cols.len() <= 128,
        table + 2 * cols.len() <= raw.len(),
        table <= 65535 * 127 + 2,
    ensures
        match r {
            Some((found, end)) => {
                &&& variable_fits(cols@, raw@, table as int)
                &&& fields(found@) == variable_fields(cols@, raw@, table as int, cols.len() as int)
                &&& end == table + 2 * cols.len() + end_of(raw@, table as int, 2, cols.len() - 1)
            },
            None => !variable_fits(cols@, raw@, table as int),
        },
{
    let n = cols.len();
    let data = table + 2 * n;
    let mut out: Vec<Field> = Vec::new();
    let mut before: usize = 0;
    let mut k: usize = 0;
    while k < n
        invariant
            k <= n,
            n == cols.len(),
            n <= 128,
            data == table + 2 * n,
            data <= raw.len(),
            table <= 65535 * 127 + 2,
            before == end_of(raw@, table as int, 2, k - 1),
            data + before <= raw.len(),
            ends_ascend(raw@, table as int, 2, k as int),
            forall|j: int|
                0 <= j < k && (#[trigger] slot(raw@, table as int, 2, data as int, j)).len() > 0
                    ==> scalar_of(cols[j].kind, slot(raw@, table as int, 2, data as int, j)) is Some,
            fields(out@) == variable_fields(cols@, raw@, table as int, k as int),
        decreases n - k,
    {
        let end = read_u16(raw, table + 2 * k) as usize;
        assert(end == end_of(raw@, table as int, 2, k as int));
        if end < before {
            assert(end_of(raw@, table as int, 2, k - 1) > end_of(raw@, table as int, 2, k as int));
            return None;
        }
        if end > raw.len() - data {
            assert(end_of(raw@, table as int, 2, k as int) > raw.len() - data);
            assert(ends_ascend(raw@, table as int, 2, n as int) ==> end_of(
                raw@,
                table as int,
                2,
                k as int,
            ) <= end_of(raw@, table as int, 2, n - 1));
            return None;
        }
        if end > before {
            let bytes = &raw[data + before..data + end];
            assert(bytes@ == slot(raw@, table as int, 2, data as int, k as int));
            match convert(cols[k].kind, bytes) {
                Some(item) => {
                    let ghost prior = fields(out@);
                    out.push(Field { id: cols[k].id, value: Value::One(item) });
                    assert(fields(out@) =~= prior.push(
                        FieldModel { id: cols[k as int].id, value: ValueModel::One(item@) },
                    ));
                },
                None => {
                    return None;
                },
            }
        } else {
            assert(slot(raw@, table as int, 2, data as int, k as int).len() == 0);
        }
        proof {
            lemma_ends_ascend_step(raw@, table as int, 2, k as int);
        }
        before = end;
        k += 1;
    }
    Some((out, data + before))
}

/// Looks the type of a tagged column up.
fn find_tagged_kind(cols: &Vec<Column>, id: u16) -> (r: ColumnType)
    ensures
        r == tagged_kind(cols@, id as int, 0),
{
    let mut i: usize = 0;
    while i < cols.len()
        invariant
            i <= cols.len(),
            tagged_kind(cols@, id as int, 0) == tagged_kind(cols@, id as int, i as int),
        decreases cols.len() - i,
    {
        if cols[i].id == id as u32 {
            return cols[i].kind;
        }
        i += 1;
    }
    ColumnType::Binary
}

/// Reads the items of a multi-valued column.
fn read_items(kind: ColumnType, b: &[u8]) -> (r: Option<Vec<Scalar>>)
    ensures
        match r {
            Some(items) => items_of(kind, b@) == Some(scalars(items@)),
            None => items_of(kind, b@) is None,
        },
{
    let mut out: Vec<Scalar> = Vec::new();
    let mut at: usize = 0;
    assert(b@.skip(0) == b@);
    assert(scalars(out@) =~= Seq::empty());
    while at < b.len()
        invariant
            at <= b.len(),
            items_of(kind, b@) == (match items_of(kind, b@.skip(at as int)) {
                Some(rest) => Some(scalars(out@) + rest),
                None => None,
            }),
        decreases b.len() - at,
    {
        let ghost tail = b@.skip(at as int);
        if b.len() - at < 2 {
            return None;
        }
        let len = read_u16(b, at) as usize;
        assert(len == u16_at(tail, 0));
        if len > b.len() - at - 2 {
            return None;
        }
        let bytes = &b[at + 2..at + 2 + len];
        assert(bytes@ == tail.subrange(2, 2 + len));
        assert(tail.skip(2 + len) == b@.skip(at + 2 + len));
        match convert(kind, bytes) {
            Some(item) => {
                let ghost prior = scalars(out@);
                out.push(item);
                assert(scalars(out@) =~= prior.push(item@));
                proof {
                    match items_of(kind, b@.skip(at + 2 + len)) {
                        Some(rest) => {
                            assert(prior + (seq![item@] + rest) =~= prior.push(item@) + rest);
                        },
                        None => {},
                    }
                }
            },
            None => {
                return None;
            },
        }
        at = at + 2 + len;
    }
    proof {
        assert(b@.skip(at as int).len() == 0);
        assert(scalars(out@) + Seq::<ScalarModel>::empty() =~= scalars(out@));
    }
    Some(out)
}

/// Reads the value of one tagged entry.
fn read_tagged_value(kind: ColumnType, flags: u8, b: &[u8]) -> (r: Option<Value>)
    ensures
        match r {
            Some(v) => tagged_value(kind, flags as int, b@) == Some(v@),
            None => tagged_value(kind, flags as int, b@) is None,
        },
{
    if flags % 2 == 1 {
        if b.len() == 4 {
            Some(Value::LongValue(read_u32(b, 0)))
        } else {
            None
        }
    } else if (flags / 2) % 2 == 1 {
        match read_items(kind, b) {
            Some(items) => Some(Value::Many(items)),
            None => None,
        }
    } else {
        match convert(kind, b) {
            Some(item) => Some(Value::One(item)),
            None => None,
        }
    }
}

/// Reads the tagged part of a record, which begins at `at`.
fn tagged_part(cols: &Vec<Column>, raw: &[u8], at: usize) -> (r: Option<Vec<Field>>)
    requires
        at <= raw.len(),
    ensures
        match r {
            Some(found) => tagged_fits(cols@, raw@, at as int) && fields(found@) == tagged_fields(
                cols@,
                raw@,
                at as int,
            ),
            None => !tagged_fits(cols@, raw@, at as int),
        },
{
    if raw.len() - at < 2 {
        return None;
    }
    let m = read_u16(raw, at) as usize;
    if 5 * m > raw.len() - at - 2 {
        return None;
    }
    let data = at + 2 + 5 * m;
    let mut out: Vec<Field> = Vec::new();
    let mut before: usize = 0;
    let mut k: usize = 0;
    while k < m
        invariant
            k <= m,
            m == tagged_count(raw@, at as int),
            data == at + 2 + 5 * m,
            data <= raw.len(),
            before == end_of(raw@, at + 4, 5, k - 1),
            data + before <= raw.len(),
            ends_ascend(raw@, at + 4, 5, k as int),
            out@.len() == k,
            forall|j: int|
                0 <= j < k ==> (#[trigger] tagged_entry_value(cols@, raw@, at as int, j)) == Some(
                    out@[j].value@,
                ) && out@[j].id == u16_at(raw@, at + 2 + 5 * j),
        decreases m - k,
    {
        let entry = at + 2 + 5 * k;
        let id = read_u16(raw, entry);
        let end = read_u16(raw, entry + 2) as usize;
        let flags = raw[entry + 4];
        assert(end == end_of(raw@, at + 4, 5, k as int));
        if end < before {
            assert(end_of(raw@, at + 4, 5, k - 1) > end_of(raw@, at + 4, 5, k as int));
            return None;
        }
        if end > raw.len() - data {
            assert(end_of(raw@, at + 4, 5, k as int) > raw.len() - data);
            assert(ends_ascend(raw@, at + 4, 5, m as int) ==> end_of(raw@, at + 4, 5, k as int)
                <= end_of(raw@, at + 4, 5, m - 1));
            return None;
        }
        let bytes = &raw[data + before..data + end];
        assert(bytes@ == slot(raw@, at + 4, 5, data as int, k as int));
        let kind = find_tagged_kind(cols, id);
        match read_tagged_value(kind, flags, bytes) {
            Some(value) => {
                out.push(Field { id: id as u32, value });
            },
            None => {
                assert(tagged_entry_value(cols@, raw@, at as int, k as int) is None);
                return None;
            },
        }
        proof {
            lemma_ends_ascend_step(raw@, at + 4, 5, k as int);
        }
        before = end;
        k += 1;
    }
    assert(fields(out@) =~= tagged_fields(cols@, raw@, at as int));
    Some(out)
}

/// Decodes one record of a table. The bytes are refused as truncated where
/// they are no record of the schema.
pub fn decode(schema: &TableSchema, raw: &[u8]) -> (r: Result<Record, Error>)
    ensures
        match r {
            Ok(record) => decoded(schema@, raw@) == Ok::<Seq<FieldModel>, Error>(record@),
            Err(e) => decoded(schema@, raw@) == Err::<Seq<FieldModel>, Error>(e),
        },
        raw.len() < min_len(schema@) ==> r == Err::<Record, Error>(Error::TruncatedRecord),
{
    proof {
        use_type_invariant(schema);
        lemma_ascending_ids_are_few(
            schema@.fixed,
            FIRST_FIXED_ID as int,
            LAST_FIXED_ID as int,
        );
        lemma_ascending_ids_are_few(
            schema@.variable,
            FIRST_VARIABLE_ID as int,
            LAST_VARIABLE_ID as int,
        );
    }
    let table = 2 + fixed_area(schema.fixed());
    let data = table + 2 * schema.variable().len();
    if raw.len() < data {
        return Err(Error::TruncatedRecord);
    }
    let mut all = fixed_part(schema.fixed(), raw);
    let ghost fixed_found = fields(all@);
    match variable_part(schema.variable(), raw, table) {
        None => Err(Error::TruncatedRecord),
        Some((mut found, end)) => {
            let ghost variable_found = fields(found@);
            all.append(&mut found);
            assert(fields(all@) =~= fixed_found + variable_found);
            if raw[0] % 2 == 1 {
                match tagged_part(schema.tagged(), raw, end) {
                    None => Err(Error::TruncatedRecord),
                    Some(mut tagged) => {
                        let ghost tagged_found = fields(tagged@);
                        all.append(&mut tagged);
                        assert(fields(all@) =~= fixed_found + variable_found + tagged_found);
                        Ok(Record { fields: all })
                    },
                }
            } else {
                assert(fields(all@) =~= fixed_found + variable_found + Seq::<FieldModel>::empty());
                Ok(Record { fields: all })
            }
        },
    }
}

/// Decoding has no state: the schema and the bytes decide what comes out, so
/// that two runs on the same input give the same record or the same refusal.
pub proof fn lemma_decode_is_deterministic(
    s: SchemaModel,
    raw: Seq<u8>,
    first: Result<Seq<FieldModel>, Error>,
    second: Result<Seq<FieldModel>, Error>,
)
    requires
        first == decoded(s, raw),
        second == decoded(s, raw),
    ensures
        first == second,
{
}

/// A record cut down to fewer bytes than the shortest record of its schema
/// is refused as truncated.
pub proof fn lemma_truncated_is_refused(s: SchemaModel, raw: Seq<u8>, keep: int)
    requires
        0 <= keep <= raw.len(),
        keep < min_len(s),
    ensures
        decoded(s, raw.take(keep)) == Err::<Seq<FieldModel>, Error>(Error::TruncatedRecord),
{
}

/// The shortest record of a schema is as long as `min_len` says: no shorter
/// bytes are a record, and that many zero bytes are one, in which every
/// column is absent.
pub proof fn lemma_min_len_is_least(s: SchemaModel)
    requires
        schema_ok(s),
    ensures
        forall|raw: Seq<u8>| #[trigger] record_fits(s, raw) ==> raw.len() >= min_len(s),
        record_fits(s, Seq::new(min_len(s) as nat, |i: int| 0u8)),
{
    lemma_fixed_start_bound(s.fixed, s.fixed.len() as int);
    let raw = Seq::new(min_len(s) as nat, |i: int| 0u8);
    let table = table_at(s);
    let n = s.variable.len() as int;
    assert forall|k: int| -1 <= k < n implies #[trigger] end_of(raw, table, 2, k) == 0 by {
        if k >= 0 {
            assert(raw[table + 2 * k] == 0);
            assert(raw[table + 2 * k + 1] == 0);
        }
    }
    assert(ends_ascend(raw, table, 2, n));
    assert forall|k: int| 0 <= k < n implies (#[trigger] slot(raw, table, 2, table + 2 * n, k)).len()
        == 0 by {
        assert(end_of(raw, table, 2, k) == 0);
        assert(end_of(raw, table, 2, k - 1) == 0);
    }
    assert(!has_tagged(raw));
}

} // verus!
