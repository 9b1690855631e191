//! The values of a record, and how the bytes of a column are read as a value
//! of the column's type.

use vstd::prelude::*;

use crate::bytes::{
    copy_range, read_u16, read_u32, read_u64, signed, to_i16, to_i32, to_i64, to_i8, u16_at,
    u32_at, u64_at,
};
use crate::schema::ColumnType;

verus! {

/// One value of a column.
#[derive(Clone, Debug, PartialEq, Eq)]
pub enum Scalar {
    Bool(bool),
    Signed(i64),
    Unsigned(u64),
    /// A date and time, as the count that the store holds.
    DateTime(u64),
    /// A fixed-point amount, as the scaled integer that the store holds.
    Currency(i64),
    /// Text, as UTF-16 code units.
    Text(Vec<u16>),
    Binary(Vec<u8>),
}

/// One value of a column, as a plain value.
pub enum ScalarModel {
    Bool(bool),
    Signed(i64),
    Unsigned(u64),
    DateTime(u64),
    Currency(i64),
    Text(Seq<u16>),
    Binary(Seq<u8>),
}

impl View for Scalar {
    type V = ScalarModel;

    open spec fn view(&self) -> ScalarModel {
        match self {
            Scalar::Bool(b) => ScalarModel::Bool(*b),
            Scalar::Signed(n) => ScalarModel::Signed(*n),
            Scalar::Unsigned(n) => ScalarModel::Unsigned(*n),
            Scalar::DateTime(n) => ScalarModel::DateTime(*n),
            Scalar::Currency(n) => ScalarModel::Currency(*n),
            Scalar::Text(units) => ScalarModel::Text(units@),
            Scalar::Binary(bytes) => ScalarModel::Binary(bytes@),
        }
    }
}

/// What a record holds for a column.
#[derive(Clone, Debug, PartialEq, Eq)]
pub enum Value {
    /// A fixed column that the record does not reach.
    Absent,
    One(Scalar),
    /// The values of a multi-valued column, in their order.
    Many(Vec<Scalar>),
    /// The identifier of a long value that is stored apart from the record.
    LongValue(u32),
}

/// What a record holds for a column, as a plain value.
pub enum ValueModel {
    Absent,
    One(ScalarModel),
    Many(Seq<ScalarModel>),
    LongValue(u32),
}

/// The plain values of a vector of values.
pub open spec fn scalars(v: Seq<Scalar>) -> Seq<ScalarModel> {
    Seq::new(v.len(), |i: int| v[i]@)
}

impl View for Value {
    type V = ValueModel;

    open spec fn view(&self) -> ValueModel {
        match self {
            Value::Absent => ValueModel::Absent,
            Value::One(s) => ValueModel::One(s@),
            Value::Many(v) => ValueModel::Many(scalars(v@)),
            Value::LongValue(id) => ValueModel::LongValue(*id),
        }
    }
}

/// A column's identifier with what the record holds for it.
#[derive(Clone, Debug, PartialEq, Eq)]
pub struct Field {
    pub id: u32,
    pub value: Value,
}

/// A field as a plain value.
pub struct FieldModel {
    pub id: u32,
    pub value: ValueModel,
}

impl View for Field {
    type V = FieldModel;

    open spec fn view(&self) -> FieldModel {
        FieldModel { id: self.id, value: self.value@ }
    }
}

/// The plain values of a vector of fields.
pub open spec fn fields(v: Seq<Field>) -> Seq<FieldModel> {
    Seq::new(v.len(), |i: int| v[i]@)
}

/// A decoded record: the fixed columns of the schema first, each with its
/// value or marked absent, then the variable columns and the tagged columns
/// that the record holds.
#[derive(Clone, Debug, PartialEq, Eq)]
pub struct Record {
    pub fields: Vec<Field>,
}

impl View for Record {
    type V = Seq<FieldModel>;

    open spec fn view(&self) -> Seq<FieldModel> {
        fields(self.fields@)
    }
}

/// Whether `i` is the first field of the column `id`.
pub open spec fn first_of(r: Seq<FieldModel>, id: u32, i: int) -> bool {
    &&& 0 <= i < r.len()
    &&& r[i].id == id
    &&& forall|j: int| 0 <= j < i ==> (#[trigger] r[j]).id != id
}

impl Record {
    /// What the record holds for a column: the first field of that column.
    pub fn get(&self, id: u32) -> (r: Option<&Value>)
        ensures
            match r {
                Some(v) => exists|i: int| first_of(self@, id, i) && self@[i].value == v@,
                None => forall|i: int| 0 <= i < self@.len() ==> (#[trigger] self@[i]).id != id,
            },
    {
        let mut i: usize = 0;
        while i < self.fields.len()
            invariant
                i <= self.fields.len(),
                forall|j: int| 0 <= j < i ==> (#[trigger] self@[j]).id != id,
            decreases self.fields.len() - i,
        {
            if self.fields[i].id == id {
                assert(first_of(self@, id, i as int));
                return Some(&self.fields[i].value);
            }
            i += 1;
        }
        None
    }
}

/// The UTF-16 code units that bytes hold, low byte first.
pub open spec fn units_of(b: Seq<u8>) -> Seq<u16> {
    Seq::new((b.len() / 2) as nat, |i: int| u16_at(b, 2 * i) as u16)
}

/// The value that the bytes of a column stand for, where they have the
/// length that the column's type asks for: one size for the numbers, an even
/// number of bytes for text.
pub open spec fn scalar_of(kind: ColumnType, b: Seq<u8>) -> Option<ScalarModel> {
    match kind {
        ColumnType::Bool => if b.len() == 1 {
            Some(ScalarModel::Bool(b[0] != 0))
        } else {
            None
        },
        ColumnType::I8 => if b.len() == 1 {
            Some(ScalarModel::Signed(signed(b[0] as int, 128) as i64))
        } else {
            None
        },
        ColumnType::U8 => if b.len() == 1 {
            Some(ScalarModel::Unsigned(b[0] as u64))
        } else {
            None
        },
        ColumnType::I16 => if b.len() == 2 {
            Some(ScalarModel::Signed(signed(u16_at(b, 0), 32768) as i64))
        } else {
            None
        },
        ColumnType::U16 => if b.len() == 2 {
            Some(ScalarModel::Unsigned(u16_at(b, 0) as u64))
        } else {
            None
        },
        ColumnType::I32 => if b.len() == 4 {
            Some(ScalarModel::Signed(signed(u32_at(b, 0), 2147483648) as i64))
        } else {
            None
        },
        ColumnType::U32 => if b.len() == 4 {
            Some(ScalarModel::Unsigned(u32_at(b, 0) as u64))
        } else {
            None
        },
        ColumnType::I64 => if b.len() == 8 {
            Some(ScalarModel::Signed(signed(u64_at(b, 0), 9223372036854775808) as i64))
        } else {
            None
        },
        ColumnType::U64 => if b.len() == 8 {
            Some(ScalarModel::Unsigned(u64_at(b, 0) as u64))
        } else {
            None
        },
        ColumnType::DateTime32 => if b.len() == 4 {
            Some(ScalarModel::DateTime(u32_at(b, 0) as u64))
        } else {
            None
        },
        ColumnType::DateTime64 => if b.len() == 8 {
            Some(ScalarModel::DateTime(u64_at(b, 0) as u64))
        } else {
            None
        },
        ColumnType::Currency => if b.len() == 8 {
            Some(ScalarModel::Currency(signed(u64_at(b, 0), 9223372036854775808) as i64))
        } else {
            None
        },
        ColumnType::Text => if b.len() % 2 == 0 {
            Some(ScalarModel::Text(units_of(b)))
        } else {
            None
        },
        ColumnType::Binary => Some(ScalarModel::Binary(b)),
    }
}

/// Whether bytes of this length can be read as a value of the type.
pub open spec fn length_fits(kind: ColumnType, len: int) -> bool {
    match kind.size() {
        Some(n) => len == n,
        None => kind == ColumnType::Text ==> len % 2 == 0,
    }
}

/// Bytes can be read as a value exactly where their length fits the type.
pub proof fn lemma_scalar_of_is_some(kind: ColumnType, b: Seq<u8>)
    ensures
        scalar_of(kind, b) is Some <==> length_fits(kind, b.len() as int),
{
}

fn read_units(b: &[u8]) -> (r: Vec<u16>)
    requires
        b.len() % 2 == 0,
    ensures
        r@ == units_of(b@),
{
    let n = b.len() / 2;
    let mut r: Vec<u16> = Vec::new();
    let mut i: usize = 0;
    while i < n
        invariant
            i <= n,
            n == b.len() / 2,
            r@.len() == i,
            forall|k: int| 0 <= k < i ==> r@[k] == u16_at(b@, 2 * k) as u16,
        decreases n - i,
    {
        r.push(read_u16(b, 2 * i));
        i += 1;
    }
    assert(r@ =~= units_of(b@));
    r
}

/// Reads the bytes of a column as a value of the column's type. There is no
/// value where the length of the bytes does not fit the type.
pub fn convert(kind: ColumnType, b: &[u8]) -> (r: Option<Scalar>)
    ensures
        match r {
            Some(s) => scalar_of(kind, b@) == Some(s@),
            None => scalar_of(kind, b@) is None,
        },
{
    match kind {
        ColumnType::Bool => if b.len() == 1 {
            Some(Scalar::Bool(b[0] != 0))
        } else {
            None
        },
        ColumnType::I8 => if b.len() == 1 {
            Some(Scalar::Signed(to_i8(b[0]) as i64))
        } else {
            None
        },
        ColumnType::U8 => if b.len() == 1 {
            Some(Scalar::Unsigned(b[0] as u64))
        } else {
            None
        },
        ColumnType::I16 => if b.len() == 2 {
            Some(Scalar::Signed(to_i16(read_u16(b, 0)) as i64))
        } else {
            None
        },
        ColumnType::U16 => if b.len() == 2 {
            Some(Scalar::Unsigned(read_u16(b, 0) as u64))
        } else {
            None
        },
        ColumnType::I32 => if b.len() == 4 {
            Some(Scalar::Signed(to_i32(read_u32(b, 0)) as i64))
        } else {
            None
        },
        ColumnType::U32 => if b.len() == 4 {
            Some(Scalar::Unsigned(read_u32(b, 0) as u64))
        } else {
            None
        },
        ColumnType::I64 => if b.len() == 8 {
            Some(Scalar::Signed(to_i64(read_u64(b, 0))))
        } else {
            None
        },
        ColumnType::U64 => if b.len() == 8 {
            Some(Scalar::Unsigned(read_u64(b, 0)))
        } else {
            None
        },
        ColumnType::DateTime32 => if b.len() == 4 {
            Some(Scalar::DateTime(read_u32(b, 0) as u64))
        } else {
            None
        },
        ColumnType::DateTime64 => if b.len() == 8 {
            Some(Scalar::DateTime(read_u64(b, 0)))
        } else {
            None
        },
        ColumnType::Currency => if b.len() == 8 {
            Some(Scalar::Currency(to_i64(read_u64(b, 0))))
        } else {
            None
        },
        ColumnType::Text => if b.len() % 2 == 0 {
            Some(Scalar::Text(read_units(b)))
        } else {
            None
        },
        ColumnType::Binary => {
            let copy = copy_range(b, 0, b.len());
            assert(b@.subrange(0, b.len() as int) == b@);
            Some(Scalar::Binary(copy))
        },
    }
}

} // verus!
