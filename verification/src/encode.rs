//! The layout of a record, written down from the other side: the bytes that
//! hold given columns. Decoding them gives the columns back.

use vstd::prelude::*;

use crate::bytes::{signed, u16_at, u32_at, u64_at};
use crate::decode::{
    decoded, end_of, fixed_field, fixed_fields, fixed_start, has_tagged, min_len, record_fits,
    record_of, slot, table_at, tagged_at, tagged_count, tagged_entry_value, tagged_fields,
    tagged_fits, tagged_kind, tagged_value, variable_fields, variable_fits,
};
use crate::error::Error;
use crate::schema::{schema_ok, Column, ColumnType, SchemaModel};
use crate::value::{length_fits, scalar_of, units_of, FieldModel, ScalarModel, ValueModel};

verus! {

/// One tagged entry of a record: the column, the flags, and the bytes.
pub struct TaggedItem {
    pub id: u16,
    pub flags: u8,
    pub bytes: Seq<u8>,
}

/// What a record holds, column by column: the number of fixed columns that
/// count, the bytes of every fixed column of the schema, the bytes of every
/// variable column, where none stand for an absent column, and the tagged
/// entries, if the record has a tagged part.
pub struct Content {
    pub count: u8,
    pub fixed: Seq<Seq<u8>>,
    pub variable: Seq<Seq<u8>>,
    pub tagged: Option<Seq<TaggedItem>>,
}

/// A number in two bytes, low byte first.
pub open spec fn le16(x: int) -> Seq<u8> {
    seq![(x % 256) as u8, (x / 256) as u8]
}

/// The first `upto` parts, one after another.
pub open spec fn chained(parts: Seq<Seq<u8>>, upto: int) -> Seq<u8>
    decreases upto,
{
    if upto <= 0 {
        Seq::empty()
    } else {
        chained(parts, upto - 1) + parts[upto - 1]
    }
}

/// The table of the offsets at which the first `upto` parts end.
pub open spec fn ends_table(parts: Seq<Seq<u8>>, upto: int) -> Seq<u8>
    decreases upto,
{
    if upto <= 0 {
        Seq::empty()
    } else {
        ends_table(parts, upto - 1) + le16(chained(parts, upto).len() as int)
    }
}

/// The bytes of the tagged entries.
pub open spec fn item_bytes(items: Seq<TaggedItem>) -> Seq<Seq<u8>> {
    Seq::new(items.len(), |k: int| items[k].bytes)
}

/// The table of the first `upto` tagged entries: for each the column, the
/// offset at which its bytes end, and the flags.
pub open spec fn entries_table(items: Seq<TaggedItem>, upto: int) -> Seq<u8>
    decreases upto,
{
    if upto <= 0 {
        Seq::empty()
    } else {
        entries_table(items, upto - 1) + le16(items[upto - 1].id as int) + le16(
            chained(item_bytes(items), upto).len() as int,
        ) + seq![items[upto - 1].flags]
    }
}

/// The tagged part of a record.
pub open spec fn tagged_part(c: Content) -> Seq<u8> {
    match c.tagged {
        None => Seq::empty(),
        Some(items) => le16(items.len() as int) + entries_table(items, items.len() as int)
            + chained(item_bytes(items), items.len() as int),
    }
}

/// The bytes of the record that holds the given columns.
pub open spec fn written(c: Content) -> Seq<u8> {
    seq![
        if c.tagged is Some {
            1u8
        } else {
            0u8
        },
        c.count,
    ] + chained(c.fixed, c.fixed.len() as int) + ends_table(c.variable, c.variable.len() as int)
        + chained(c.variable, c.variable.len() as int) + tagged_part(c)
}

/// Whether the columns can be written as a record of the schema: every
/// fixed column has its width, the bytes of the variable columns and those
/// of the tagged entries can be counted in 16 bits, as can the tagged
/// entries, and all bytes can be read as values of their columns.
pub open spec fn content_fits(s: SchemaModel, c: Content) -> bool {
    &&& c.fixed.len() == s.fixed.len()
    &&& forall|i: int| 0 <= i < c.fixed.len() ==> (#[trigger] c.fixed[i]).len() == s.fixed[i].width
    &&& c.variable.len() == s.variable.len()
    &&& chained(c.variable, c.variable.len() as int).len() <= 65535
    &&& forall|k: int|
        0 <= k < c.variable.len() && (#[trigger] c.variable[k]).len() > 0 ==> scalar_of(
            s.variable[k].kind,
            c.variable[k],
        ) is Some
    &&& c.tagged matches Some(items) ==> {
        &&& items.len() <= 65535
        &&& chained(item_bytes(items), items.len() as int).len() <= 65535
        &&& forall|k: int|
            0 <= k < items.len() ==> tagged_value(
                tagged_kind(s.tagged, (#[trigger] items[k]).id as int, 0),
                items[k].flags as int,
                items[k].bytes,
            ) is Some
    }
}

/// The fields of those among the first `upto` variable columns that hold
/// bytes.
pub open spec fn present_fields(cols: Seq<Column>, parts: Seq<Seq<u8>>, upto: int) -> Seq<
    FieldModel,
>
    decreases upto,
{
    if upto <= 0 {
        Seq::empty()
    } else if parts[upto - 1].len() == 0 {
        present_fields(cols, parts, upto - 1)
    } else {
        present_fields(cols, parts, upto - 1).push(
            FieldModel {
                id: cols[upto - 1].id,
                value: ValueModel::One(scalar_of(cols[upto - 1].kind, parts[upto - 1]).unwrap()),
            },
        )
    }
}

/// The fields that the columns stand for: every fixed column of the schema,
/// absent beyond the count; the variable columns that hold bytes; and the
/// tagged entries.
pub open spec fn content_fields(s: SchemaModel, c: Content) -> Seq<FieldModel> {
    Seq::new(
        s.fixed.len(),
        |i: int|
            FieldModel {
                id: s.fixed[i].id,
                value: if i < c.count {
                    ValueModel::One(scalar_of(s.fixed[i].kind, c.fixed[i]).unwrap())
                } else {
                    ValueModel::Absent
                },
            },
    ) + present_fields(s.variable, c.variable, c.variable.len() as int) + match c.tagged {
        None => Seq::empty(),
        Some(items) => Seq::new(
            items.len(),
            |k: int|
                FieldModel {
                    id: items[k].id as u32,
                    value: tagged_value(
                        tagged_kind(s.tagged, items[k].id as int, 0),
                        items[k].flags as int,
                        items[k].bytes,
                    ).unwrap(),
                },
        ),
    }
}

/// Two bytes, low byte first, are read as the number that they were written
/// for.
proof fn lemma_le16_reads_back(x: int)
    requires
        0 <= x <= 65535,
    ensures
        le16(x).len() == 2,
        u16_at(le16(x), 0) == x,
{
}

/// The parts before a part are no longer than the parts up to a later one.
proof fn lemma_chained_grows(parts: Seq<Seq<u8>>, i: int, j: int)
    requires
        0 <= i <= j,
    ensures
        chained(parts, i).len() <= chained(parts, j).len(),
    decreases j - i,
{
    if i < j {
        lemma_chained_grows(parts, i, j - 1);
    }
}

/// A part stands in the chain behind the parts before it.
proof fn lemma_chained_part(parts: Seq<Seq<u8>>, n: int, i: int)
    requires
        0 <= i < n,
    ensures
        chained(parts, i).len() + parts[i].len() == chained(parts, i + 1).len(),
        chained(parts, i + 1).len() <= chained(parts, n).len(),
        chained(parts, n).subrange(
            chained(parts, i).len() as int,
            chained(parts, i + 1).len() as int,
        ) == parts[i],
    decreases n,
{
    lemma_chained_grows(parts, i + 1, n);
    if n == i + 1 {
        assert(chained(parts, n).subrange(
            chained(parts, i).len() as int,
            chained(parts, i + 1).len() as int,
        ) =~= parts[i]);
    } else {
        lemma_chained_part(parts, n - 1, i);
        assert(chained(parts, n).subrange(
            chained(parts, i).len() as int,
            chained(parts, i + 1).len() as int,
        ) =~= chained(parts, n - 1).subrange(
            chained(parts, i).len() as int,
            chained(parts, i + 1).len() as int,
        ));
    }
}

/// The table of offsets holds two bytes for every part, and the offset of
/// part `k` is read from it as the length of the parts up to it.
proof fn lemma_ends_table(parts: Seq<Seq<u8>>, n: int, k: int)
    requires
        0 <= k < n,
        chained(parts, n).len() <= 65535,
    ensures
        ends_table(parts, n).len() == 2 * n,
        u16_at(ends_table(parts, n), 2 * k) == chained(parts, k + 1).len(),
    decreases n,
{
    lemma_chained_grows(parts, k + 1, n);
    lemma_chained_grows(parts, n - 1, n);
    lemma_ends_table_len(parts, n - 1);
    let e = chained(parts, n).len() as int;
    lemma_le16_reads_back(e);
    if k == n - 1 {
        assert(ends_table(parts, n)[2 * k] == le16(e)[0]);
        assert(ends_table(parts, n)[2 * k + 1] == le16(e)[1]);
    } else {
        lemma_ends_table(parts, n - 1, k);
        assert(ends_table(parts, n)[2 * k] == ends_table(parts, n - 1)[2 * k]);
        assert(ends_table(parts, n)[2 * k + 1] == ends_table(parts, n - 1)[2 * k + 1]);
    }
}

/// The table of offsets holds two bytes for every part.
proof fn lemma_ends_table_len(parts: Seq<Seq<u8>>, n: int)
    requires
        0 <= n,
    ensures
        ends_table(parts, n).len() == 2 * n,
    decreases n,
{
    if n > 0 {
        lemma_ends_table_len(parts, n - 1);
    }
}

/// The table of tagged entries holds five bytes for every entry.
proof fn lemma_entries_table_len(items: Seq<TaggedItem>, n: int)
    requires
        0 <= n,
    ensures
        entries_table(items, n).len() == 5 * n,
    decreases n,
{
    if n > 0 {
        lemma_entries_table_len(items, n - 1);
    }
}

/// The column, the offset and the flags of entry `k` are read from the table
/// of tagged entries as they were written.
proof fn lemma_entries_table(items: Seq<TaggedItem>, n: int, k: int)
    requires
        0 <= k < n <= items.len(),
        chained(item_bytes(items), n).len() <= 65535,
    ensures
        entries_table(items, n).len() == 5 * n,
        u16_at(entries_table(items, n), 5 * k) == items[k].id,
        u16_at(entries_table(items, n), 5 * k + 2) == chained(item_bytes(items), k + 1).len(),
        entries_table(items, n)[5 * k + 4] == items[k].flags,
    decreases n,
{
    let parts = item_bytes(items);
    lemma_chained_grows(parts, k + 1, n);
    lemma_chained_grows(parts, n - 1, n);
    lemma_entries_table_len(items, n - 1);
    lemma_entries_table_len(items, n);
    let e = chained(parts, n).len() as int;
    let t = entries_table(items, n);
    let before = entries_table(items, n - 1);
    lemma_le16_reads_back(e);
    lemma_le16_reads_back(items[n - 1].id as int);
    if k == n - 1 {
        assert(t[5 * k] == le16(items[k].id as int)[0]);
        assert(t[5 * k + 1] == le16(items[k].id as int)[1]);
        assert(t[5 * k + 2] == le16(e)[0]);
        assert(t[5 * k + 3] == le16(e)[1]);
        assert(t[5 * k + 4] == items[k].flags);
    } else {
        lemma_entries_table(items, n - 1, k);
        assert(t[5 * k] == before[5 * k]);
        assert(t[5 * k + 1] == before[5 * k + 1]);
        assert(t[5 * k + 2] == before[5 * k + 2]);
        assert(t[5 * k + 3] == before[5 * k + 3]);
        assert(t[5 * k + 4] == before[5 * k + 4]);
    }
}

/// The fixed columns of a record that was written take the room that the
/// schema gives them.
proof fn lemma_fixed_room(s: SchemaModel, c: Content, i: int)
    requires
        content_fits(s, c),
        0 <= i <= s.fixed.len(),
    ensures
        chained(c.fixed, i).len() == fixed_start(s.fixed, i),
    decreases i,
{
    if i > 0 {
        lemma_fixed_room(s, c, i - 1);
    }
}

/// Where the fixed columns of a record that was written end.
pub open spec fn fixed_end(c: Content) -> int {
    2 + chained(c.fixed, c.fixed.len() as int).len() as int
}

/// Where the offsets of the variable columns end.
pub open spec fn table_end(c: Content) -> int {
    fixed_end(c) + ends_table(c.variable, c.variable.len() as int).len() as int
}

/// Where the bytes of the variable columns end.
pub open spec fn variable_end(c: Content) -> int {
    table_end(c) + chained(c.variable, c.variable.len() as int).len() as int
}

/// Where the parts of a record that was written stand in it.
proof fn lemma_sections(c: Content)
    ensures
        written(c).len() == variable_end(c) + tagged_part(c).len(),
        written(c)[0] == (if c.tagged is Some {
            1u8
        } else {
            0u8
        }),
        written(c)[1] == c.count,
        written(c).subrange(2, fixed_end(c)) == chained(c.fixed, c.fixed.len() as int),
        written(c).subrange(fixed_end(c), table_end(c)) == ends_table(
            c.variable,
            c.variable.len() as int,
        ),
        written(c).subrange(table_end(c), variable_end(c)) == chained(
            c.variable,
            c.variable.len() as int,
        ),
        written(c).subrange(variable_end(c), written(c).len() as int) == tagged_part(c),
{
    let raw = written(c);
    assert(raw.subrange(2, fixed_end(c)) =~= chained(c.fixed, c.fixed.len() as int));
    assert(raw.subrange(fixed_end(c), table_end(c)) =~= ends_table(
        c.variable,
        c.variable.len() as int,
    ));
    assert(raw.subrange(table_end(c), variable_end(c)) =~= chained(
        c.variable,
        c.variable.len() as int,
    ));
    assert(raw.subrange(variable_end(c), raw.len() as int) =~= tagged_part(c));
}

/// The fixed columns are read from a record as they were written.
proof fn lemma_fixed_read_back(s: SchemaModel, c: Content)
    requires
        content_fits(s, c),
    ensures
        table_at(s) == fixed_end(c),
        fixed_fields(s.fixed, written(c)) == Seq::new(
            s.fixed.len(),
            |i: int|
                FieldModel {
                    id: s.fixed[i].id,
                    value: if i < c.count {
                        ValueModel::One(scalar_of(s.fixed[i].kind, c.fixed[i]).unwrap())
                    } else {
                        ValueModel::Absent
                    },
                },
        ),
{
    let raw = written(c);
    let n = s.fixed.len() as int;
    let f = chained(c.fixed, n);
    lemma_sections(c);
    lemma_fixed_room(s, c, n);
    assert forall|i: int| 0 <= i < n implies raw.subrange(
        2 + fixed_start(s.fixed, i),
        2 + fixed_start(s.fixed, i) + s.fixed[i].width,
    ) == #[trigger] c.fixed[i] by {
        lemma_fixed_room(s, c, i);
        lemma_fixed_room(s, c, i + 1);
        lemma_chained_part(c.fixed, n, i);
        let a = chained(c.fixed, i).len() as int;
        let b = chained(c.fixed, i + 1).len() as int;
        assert(raw.subrange(2 + a, 2 + b) =~= raw.subrange(2, fixed_end(c)).subrange(a, b));
    }
    assert forall|i: int| 0 <= i < n implies fixed_field(s.fixed, raw, i) == (FieldModel {
        id: s.fixed[i].id,
        value: if i < c.count {
            ValueModel::One(scalar_of(s.fixed[i].kind, c.fixed[i]).unwrap())
        } else {
            ValueModel::Absent
        },
    }) by {
        assert(raw.subrange(
            2 + fixed_start(s.fixed, i),
            2 + fixed_start(s.fixed, i) + s.fixed[i].width,
        ) == c.fixed[i]);
    }
    assert(fixed_fields(s.fixed, raw) =~= Seq::new(
        s.fixed.len(),
        |i: int|
            FieldModel {
                id: s.fixed[i].id,
                value: if i < c.count {
                    ValueModel::One(scalar_of(s.fixed[i].kind, c.fixed[i]).unwrap())
                } else {
                    ValueModel::Absent
                },
            },
    ));
}

/// The fields of the variable columns of a record are those of the bytes
/// that its slots hold.
proof fn lemma_variable_fields_of_slots(
    cols: Seq<Column>,
    parts: Seq<Seq<u8>>,
    raw: Seq<u8>,
    table: int,
    upto: int,
)
    requires
        0 <= upto <= cols.len(),
        forall|k: int|
            0 <= k < cols.len() ==> #[trigger] slot(raw, table, 2, table + 2 * cols.len(), k)
                == parts[k],
    ensures
        variable_fields(cols, raw, table, upto) == present_fields(cols, parts, upto),
    decreases upto,
{
    if upto > 0 {
        lemma_variable_fields_of_slots(cols, parts, raw, table, upto - 1);
        assert(slot(raw, table, 2, table + 2 * cols.len(), upto - 1) == parts[upto - 1]);
    }
}

/// The variable columns are read from a record as they were written.
proof fn lemma_variable_read_back(s: SchemaModel, c: Content)
    requires
        content_fits(s, c),
    ensures
        variable_fits(s.variable, written(c), table_at(s)),
        variable_fields(s.variable, written(c), table_at(s), s.variable.len() as int)
            == present_fields(s.variable, c.variable, c.variable.len() as int),
        tagged_at(s, written(c)) == variable_end(c),
        written(c).len() >= min_len(s),
{
    let raw = written(c);
    let n = s.variable.len() as int;
    let table = table_at(s);
    let data = table + 2 * n;
    let t = ends_table(c.variable, n);
    let v = chained(c.variable, n);
    lemma_sections(c);
    lemma_fixed_room(s, c, s.fixed.len() as int);
    lemma_ends_table_len(c.variable, n);
    assert forall|k: int| -1 <= k < n implies #[trigger] end_of(raw, table, 2, k) == chained(
        c.variable,
        k + 1,
    ).len() by {
        if k >= 0 {
            lemma_ends_table(c.variable, n, k);
            assert(t[2 * k] == raw.subrange(table, table_end(c))[2 * k]);
            assert(t[2 * k + 1] == raw.subrange(table, table_end(c))[2 * k + 1]);
        }
    }
    assert forall|i: int, j: int| -1 <= i <= j < n implies #[trigger] end_of(raw, table, 2, i)
        <= #[trigger] end_of(raw, table, 2, j) by {
        lemma_chained_grows(c.variable, i + 1, j + 1);
    }
    assert forall|k: int| 0 <= k < n implies #[trigger] slot(raw, table, 2, data, k)
        == c.variable[k] by {
        lemma_chained_part(c.variable, n, k);
        let a = chained(c.variable, k).len() as int;
        let b = chained(c.variable, k + 1).len() as int;
        assert(end_of(raw, table, 2, k - 1) == a);
        assert(end_of(raw, table, 2, k) == b);
        assert(raw.subrange(data + a, data + b) =~= raw.subrange(data, variable_end(c)).subrange(
            a,
            b,
        ));
    }
    assert(end_of(raw, table, 2, n - 1) == v.len());
    lemma_variable_fields_of_slots(s.variable, c.variable, raw, table, n);
}

/// A number that is read from a part of a record is read from the record at
/// the place of the part.
proof fn lemma_u16_in_part(whole: Seq<u8>, at: int, part: Seq<u8>, j: int)
    requires
        0 <= at,
        at + part.len() <= whole.len(),
        whole.subrange(at, at + part.len()) == part,
        0 <= j,
        j + 2 <= part.len(),
    ensures
        u16_at(whole, at + j) == u16_at(part, j),
        whole[at + j] == part[j],
{
    assert(part[j] == whole.subrange(at, at + part.len())[j]);
    assert(part[j + 1] == whole.subrange(at, at + part.len())[j + 1]);
}

/// A byte of a part of a record is a byte of the record at the place of the
/// part.
proof fn lemma_byte_in_part(whole: Seq<u8>, at: int, part: Seq<u8>, j: int)
    requires
        0 <= at,
        at + part.len() <= whole.len(),
        whole.subrange(at, at + part.len()) == part,
        0 <= j < part.len(),
    ensures
        whole[at + j] == part[j],
{
    assert(part[j] == whole.subrange(at, at + part.len())[j]);
}

/// A range of a part of a record is a range of the record.
proof fn lemma_range_in_part(whole: Seq<u8>, at: int, part: Seq<u8>, a: int, b: int)
    requires
        0 <= at,
        at + part.len() <= whole.len(),
        whole.subrange(at, at + part.len()) == part,
        0 <= a <= b <= part.len(),
    ensures
        whole.subrange(at + a, at + b) == part.subrange(a, b),
{
    assert(whole.subrange(at + a, at + b) =~= whole.subrange(at, at + part.len()).subrange(a, b));
}

/// Where the pieces of the tagged part of a record that was written stand.
proof fn lemma_tagged_layout(c: Content, items: Seq<TaggedItem>)
    requires
        c.tagged == Some(items),
        items.len() <= 65535,
    ensures
        written(c).len() == variable_end(c) + 2 + 5 * items.len() + chained(
            item_bytes(items),
            items.len() as int,
        ).len(),
        variable_end(c) >= 2,
        u16_at(written(c), variable_end(c)) == items.len(),
        written(c).subrange(variable_end(c) + 2, variable_end(c) + 2 + 5 * items.len())
            == entries_table(items, items.len() as int),
        written(c).subrange(variable_end(c) + 2 + 5 * items.len(), written(c).len() as int)
            == chained(item_bytes(items), items.len() as int),
{
    let raw = written(c);
    let g = tagged_part(c);
    let at = variable_end(c);
    let m = items.len() as int;
    let e = entries_table(items, m);
    let b = chained(item_bytes(items), m);
    lemma_sections(c);
    lemma_entries_table_len(items, m);
    lemma_le16_reads_back(m);
    assert(g.len() == 2 + 5 * m + b.len());
    assert(g.subrange(0, 2) =~= le16(m));
    assert(g.subrange(2, 2 + 5 * m) =~= e);
    assert(g.subrange(2 + 5 * m, g.len() as int) =~= b);
    lemma_u16_in_part(raw, at, g, 0);
    assert(u16_at(g, 0) == u16_at(le16(m), 0));
    lemma_range_in_part(raw, at, g, 2, 2 + 5 * m);
    lemma_range_in_part(raw, at, g, 2 + 5 * m, g.len() as int);
}

/// One tagged entry is read from a record as it was written.
proof fn lemma_tagged_entry(s: SchemaModel, c: Content, items: Seq<TaggedItem>, k: int)
    requires
        content_fits(s, c),
        c.tagged == Some(items),
        0 <= k < items.len(),
    ensures
        u16_at(written(c), variable_end(c) + 2 + 5 * k) == items[k].id,
        end_of(written(c), variable_end(c) + 4, 5, k) == chained(item_bytes(items), k + 1).len(),
        end_of(written(c), variable_end(c) + 4, 5, k - 1) == chained(item_bytes(items), k).len(),
        tagged_entry_value(s.tagged, written(c), variable_end(c), k) == tagged_value(
            tagged_kind(s.tagged, items[k].id as int, 0),
            items[k].flags as int,
            items[k].bytes,
        ),
{
    let raw = written(c);
    let at = variable_end(c);
    let m = items.len() as int;
    let parts = item_bytes(items);
    let e = entries_table(items, m);
    let b = chained(parts, m);
    lemma_tagged_layout(c, items);
    lemma_entries_table(items, m, k);
    lemma_u16_in_part(raw, at + 2, e, 5 * k);
    lemma_u16_in_part(raw, at + 2, e, 5 * k + 2);
    lemma_byte_in_part(raw, at + 2, e, 5 * k + 4);
    assert(at + 4 + 5 * k == at + 2 + (5 * k + 2));
    if k > 0 {
        lemma_entries_table(items, m, k - 1);
        lemma_u16_in_part(raw, at + 2, e, 5 * (k - 1) + 2);
        assert(at + 4 + 5 * (k - 1) == at + 2 + (5 * (k - 1) + 2));
    }
    lemma_chained_part(parts, m, k);
    let x = chained(parts, k).len() as int;
    let y = chained(parts, k + 1).len() as int;
    lemma_range_in_part(raw, at + 2 + 5 * m, b, x, y);
    assert(parts[k] == items[k].bytes);
    assert(tagged_count(raw, at) == m);
    assert(slot(raw, at + 4, 5, at + 2 + 5 * m, k) == items[k].bytes);
}

/// The tagged entries are read from a record as they were written.
proof fn lemma_tagged_read_back(s: SchemaModel, c: Content, items: Seq<TaggedItem>)
    requires
        content_fits(s, c),
        c.tagged == Some(items),
    ensures
        tagged_fits(s.tagged, written(c), variable_end(c)),
        tagged_fields(s.tagged, written(c), variable_end(c)) == Seq::new(
            items.len(),
            |k: int|
                FieldModel {
                    id: items[k].id as u32,
                    value: tagged_value(
                        tagged_kind(s.tagged, items[k].id as int, 0),
                        items[k].flags as int,
                        items[k].bytes,
                    ).unwrap(),
                },
        ),
{
    let raw = written(c);
    let at = variable_end(c);
    let m = items.len() as int;
    let parts = item_bytes(items);
    lemma_tagged_layout(c, items);
    assert forall|i: int, j: int| -1 <= i <= j < m implies #[trigger] end_of(raw, at + 4, 5, i)
        <= #[trigger] end_of(raw, at + 4, 5, j) by {
        lemma_chained_grows(parts, i + 1, j + 1);
        if i >= 0 {
            lemma_tagged_entry(s, c, items, i);
        }
        if j >= 0 {
            lemma_tagged_entry(s, c, items, j);
        }
    }
    if m > 0 {
        lemma_tagged_entry(s, c, items, m - 1);
    }
    assert forall|k: int| 0 <= k < m implies (#[trigger] tagged_entry_value(
        s.tagged,
        raw,
        at,
        k,
    )) is Some by {
        lemma_tagged_entry(s, c, items, k);
        assert(tagged_value(
            tagged_kind(s.tagged, items[k].id as int, 0),
            items[k].flags as int,
            items[k].bytes,
        ) is Some);
    }
    assert forall|k: int| 0 <= k < m implies tagged_fields(s.tagged, raw, at)[k] == (FieldModel {
        id: items[k].id as u32,
        value: tagged_value(
            tagged_kind(s.tagged, items[k].id as int, 0),
            items[k].flags as int,
            items[k].bytes,
        ).unwrap(),
    }) by {
        lemma_tagged_entry(s, c, items, k);
    }
    assert(tagged_fields(s.tagged, raw, at) =~= Seq::new(
        items.len(),
        |k: int|
            FieldModel {
                id: items[k].id as u32,
                value: tagged_value(
                    tagged_kind(s.tagged, items[k].id as int, 0),
                    items[k].flags as int,
                    items[k].bytes,
                ).unwrap(),
            },
    ));
}

/// Decoding undoes writing: the bytes that hold given columns of a schema
/// are decoded to the fields that the columns stand for, with every column
/// present or absent as it was written.
pub proof fn lemma_decode_undoes_writing(s: SchemaModel, c: Content)
    requires
        schema_ok(s),
        content_fits(s, c),
    ensures
        decoded(s, written(c)) == Ok::<Seq<FieldModel>, Error>(content_fields(s, c)),
{
    let raw = written(c);
    lemma_sections(c);
    lemma_fixed_read_back(s, c);
    lemma_variable_read_back(s, c);
    match c.tagged {
        Some(items) => {
            lemma_tagged_read_back(s, c, items);
            assert(has_tagged(raw));
        },
        None => {
            assert(!has_tagged(raw));
        },
    }
    assert(record_fits(s, raw));
    assert(record_of(s, raw) == content_fields(s, c));
}

/// A number in `n` bytes, low byte first.
pub open spec fn le_bytes(x: int, n: nat) -> Seq<u8>
    decreases n,
{
    if n == 0 {
        Seq::empty()
    } else {
        seq![(x % 256) as u8] + le_bytes(x / 256, (n - 1) as nat)
    }
}

/// The number that stands for a signed one in two's complement, where
/// `half` is the least number that stands for a negative one.
pub open spec fn unsigned(v: int, half: int) -> int {
    if v >= 0 {
        v
    } else {
        v + 2 * half
    }
}

/// The bytes of text: its code units, low byte first.
pub open spec fn unit_bytes(units: Seq<u16>) -> Seq<u8> {
    Seq::new(
        2 * units.len(),
        |i: int|
            if i % 2 == 0 {
                (units[i / 2] % 256) as u8
            } else {
                (units[i / 2] / 256) as u8
            },
    )
}

/// Whether a value is one of the type: of the type's kind, and a number
/// that the type's bytes can hold.
pub open spec fn value_fits(kind: ColumnType, v: ScalarModel) -> bool {
    match kind {
        ColumnType::Bool => v is Bool,
        ColumnType::I8 => v matches ScalarModel::Signed(n) && -128 <= n < 128,
        ColumnType::U8 => v matches ScalarModel::Unsigned(n) && n < 256,
        ColumnType::I16 => v matches ScalarModel::Signed(n) && -32768 <= n < 32768,
        ColumnType::U16 => v matches ScalarModel::Unsigned(n) && n < 65536,
        ColumnType::I32 => v matches ScalarModel::Signed(n) && -2147483648 <= n < 2147483648,
        ColumnType::U32 => v matches ScalarModel::Unsigned(n) && n < 4294967296,
        ColumnType::I64 => v is Signed,
        ColumnType::U64 => v is Unsigned,
        ColumnType::DateTime32 => v matches ScalarModel::DateTime(n) && n < 4294967296,
        ColumnType::DateTime64 => v is DateTime,
        ColumnType::Currency => v is Currency,
        ColumnType::Text => v is Text,
        ColumnType::Binary => v is Binary,
    }
}

/// The bytes that hold a value of a type.
pub open spec fn scalar_bytes(kind: ColumnType, v: ScalarModel) -> Seq<u8> {
    match v {
        ScalarModel::Bool(b) => seq![
            if b {
                1u8
            } else {
                0u8
            },
        ],
        ScalarModel::Signed(n) => match kind {
            ColumnType::I8 => le_bytes(unsigned(n as int, 128), 1),
            ColumnType::I16 => le_bytes(unsigned(n as int, 32768), 2),
            ColumnType::I32 => le_bytes(unsigned(n as int, 2147483648), 4),
            _ => le_bytes(unsigned(n as int, 9223372036854775808), 8),
        },
        ScalarModel::Unsigned(n) => match kind {
            ColumnType::U8 => le_bytes(n as int, 1),
            ColumnType::U16 => le_bytes(n as int, 2),
            ColumnType::U32 => le_bytes(n as int, 4),
            _ => le_bytes(n as int, 8),
        },
        ScalarModel::DateTime(n) => match kind {
            ColumnType::DateTime32 => le_bytes(n as int, 4),
            _ => le_bytes(n as int, 8),
        },
        ScalarModel::Currency(n) => le_bytes(unsigned(n as int, 9223372036854775808), 8),
        ScalarModel::Text(units) => unit_bytes(units),
        ScalarModel::Binary(bytes) => bytes,
    }
}

/// A number that was written in one, two, four or eight bytes is read back.
proof fn lemma_le_bytes_read_back(x: int)
    requires
        0 <= x,
    ensures
        le_bytes(x, 1).len() == 1,
        le_bytes(x, 2).len() == 2,
        le_bytes(x, 4).len() == 4,
        le_bytes(x, 8).len() == 8,
        x < 256 ==> le_bytes(x, 1)[0] == x,
        x < 65536 ==> u16_at(le_bytes(x, 2), 0) == x,
        x < 4294967296 ==> u32_at(le_bytes(x, 4), 0) == x,
        x < 18446744073709551616 ==> u64_at(le_bytes(x, 8), 0) == x,
{
    reveal_with_fuel(le_bytes, 9);
    let b = le_bytes(x, 8);
    let x1 = x / 256;
    let x2 = x1 / 256;
    let x3 = x2 / 256;
    let x4 = x3 / 256;
    let x5 = x4 / 256;
    let x6 = x5 / 256;
    let x7 = x6 / 256;
    assert(b =~= seq![
        (x % 256) as u8,
        (x1 % 256) as u8,
        (x2 % 256) as u8,
        (x3 % 256) as u8,
        (x4 % 256) as u8,
        (x5 % 256) as u8,
        (x6 % 256) as u8,
        (x7 % 256) as u8,
    ]);
    assert(le_bytes(x, 4) =~= seq![
        (x % 256) as u8,
        (x1 % 256) as u8,
        (x2 % 256) as u8,
        (x3 % 256) as u8,
    ]);
    assert(le_bytes(x, 2) =~= seq![(x % 256) as u8, (x1 % 256) as u8]);
    assert(le_bytes(x, 1) =~= seq![(x % 256) as u8]);
}

/// A value of a type that was written is read back from its bytes.
pub proof fn lemma_scalar_read_back(kind: ColumnType, v: ScalarModel)
    requires
        value_fits(kind, v),
    ensures
        length_fits(kind, scalar_bytes(kind, v).len() as int),
        scalar_of(kind, scalar_bytes(kind, v)) == Some(v),
{
    match v {
        ScalarModel::Bool(b) => {},
        ScalarModel::Signed(n) => {
            let half: int = match kind {
                ColumnType::I8 => 128,
                ColumnType::I16 => 32768,
                ColumnType::I32 => 2147483648,
                _ => 9223372036854775808,
            };
            lemma_le_bytes_read_back(unsigned(n as int, half));
            assert(signed(unsigned(n as int, half), half) == n);
        },
        ScalarModel::Unsigned(n) => {
            lemma_le_bytes_read_back(n as int);
        },
        ScalarModel::DateTime(n) => {
            lemma_le_bytes_read_back(n as int);
        },
        ScalarModel::Currency(n) => {
            lemma_le_bytes_read_back(unsigned(n as int, 9223372036854775808));
            assert(signed(unsigned(n as int, 9223372036854775808), 9223372036854775808) == n);
        },
        ScalarModel::Text(units) => {
            let b = unit_bytes(units);
            assert forall|i: int| 0 <= i < units.len() implies u16_at(b, 2 * i) as u16
                == #[trigger] units[i] by {
                assert(b[2 * i] == (units[(2 * i) / 2] % 256) as u8);
                assert(b[2 * i + 1] == (units[(2 * i + 1) / 2] / 256) as u8);
            }
            assert(units_of(b) =~= units);
        },
        ScalarModel::Binary(bytes) => {},
    }
}

} // verus!
