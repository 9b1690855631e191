//! What the catalog says of a table: its columns, by storage class, and the
//! pages at which its trees begin.
//!
//! A column's identifier tells its storage class: 1 to 127 are fixed
//! columns, 128 to 255 variable columns, 256 and above tagged columns.

use vstd::prelude::*;

use crate::error::Error;

verus! {

/// The lowest identifier of a fixed column.
pub const FIRST_FIXED_ID: u32 = 1;

/// The highest identifier of a fixed column.
pub const LAST_FIXED_ID: u32 = 127;

/// The lowest identifier of a variable column.
pub const FIRST_VARIABLE_ID: u32 = 128;

/// The highest identifier of a variable column.
pub const LAST_VARIABLE_ID: u32 = 255;

/// The lowest identifier of a tagged column.
pub const FIRST_TAGGED_ID: u32 = 256;

/// The highest identifier of a tagged column.
pub const LAST_TAGGED_ID: u32 = 65535;

/// The semantic type of a column: how the bytes of a value are read.
#[derive(Clone, Copy, Debug, PartialEq, Eq, Structural)]
pub enum ColumnType {
    Bool,
    I8,
    U8,
    I16,
    U16,
    I32,
    U32,
    I64,
    U64,
    /// Seconds of an epoch in 32 bits.
    DateTime32,
    /// Ticks of an epoch in 64 bits.
    DateTime64,
    /// A 64-bit fixed-point amount.
    Currency,
    /// Text in UTF-16, low byte first.
    Text,
    Binary,
}

impl ColumnType {
    /// The number of bytes of a value, for the types that have one size.
    pub open spec fn size(self) -> Option<int> {
        match self {
            ColumnType::Bool | ColumnType::I8 | ColumnType::U8 => Some(1),
            ColumnType::I16 | ColumnType::U16 => Some(2),
            ColumnType::I32 | ColumnType::U32 | ColumnType::DateTime32 => Some(4),
            ColumnType::I64 | ColumnType::U64 | ColumnType::DateTime64 | ColumnType::Currency => Some(
                8,
            ),
            ColumnType::Text | ColumnType::Binary => None,
        }
    }

    /// The type that a type code of the catalog stands for.
    pub open spec fn of_code(code: int) -> Option<ColumnType> {
        if code == 1 {
            Some(ColumnType::Bool)
        } else if code == 2 {
            Some(ColumnType::U8)
        } else if code == 3 {
            Some(ColumnType::I16)
        } else if code == 4 {
            Some(ColumnType::I32)
        } else if code == 5 {
            Some(ColumnType::Currency)
        } else if code == 8 {
            Some(ColumnType::DateTime64)
        } else if code == 9 || code == 11 {
            Some(ColumnType::Binary)
        } else if code == 10 || code == 12 {
            Some(ColumnType::Text)
        } else if code == 14 {
            Some(ColumnType::U32)
        } else if code == 15 {
            Some(ColumnType::I64)
        } else if code == 17 {
            Some(ColumnType::U16)
        } else if code == 18 {
            Some(ColumnType::I8)
        } else if code == 19 {
            Some(ColumnType::U64)
        } else if code == 20 {
            Some(ColumnType::DateTime32)
        } else {
            None
        }
    }

    /// The code under which the catalog names the type.
    pub open spec fn code_of(self) -> int {
        match self {
            ColumnType::Bool => 1,
            ColumnType::U8 => 2,
            ColumnType::I16 => 3,
            ColumnType::I32 => 4,
            ColumnType::Currency => 5,
            ColumnType::DateTime64 => 8,
            ColumnType::Binary => 9,
            ColumnType::Text => 10,
            ColumnType::U32 => 14,
            ColumnType::I64 => 15,
            ColumnType::U16 => 17,
            ColumnType::I8 => 18,
            ColumnType::U64 => 19,
            ColumnType::DateTime32 => 20,
        }
    }

    /// The number of bytes of a value, for the types that have one size.
    pub fn byte_size(&self) -> (r: Option<usize>)
        ensures
            match r {
                Some(n) => self.size() == Some(n as int),
                None => self.size() is None,
            },
    {
        match self {
            ColumnType::Bool | ColumnType::I8 | ColumnType::U8 => Some(1),
            ColumnType::I16 | ColumnType::U16 => Some(2),
            ColumnType::I32 | ColumnType::U32 | ColumnType::DateTime32 => Some(4),
            ColumnType::I64 | ColumnType::U64 | ColumnType::DateTime64 | ColumnType::Currency => Some(
                8,
            ),
            ColumnType::Text | ColumnType::Binary => None,
        }
    }

    /// The type that a type code of the catalog stands for.
    pub fn from_code(code: u32) -> (r: Option<ColumnType>)
        ensures
            r == Self::of_code(code as int),
    {
        if code == 1 {
            Some(ColumnType::Bool)
        } else if code == 2 {
            Some(ColumnType::U8)
        } else if code == 3 {
            Some(ColumnType::I16)
        } else if code == 4 {
            Some(ColumnType::I32)
        } else if code == 5 {
            Some(ColumnType::Currency)
        } else if code == 8 {
            Some(ColumnType::DateTime64)
        } else if code == 9 || code == 11 {
            Some(ColumnType::Binary)
        } else if code == 10 || code == 12 {
            Some(ColumnType::Text)
        } else if code == 14 {
            Some(ColumnType::U32)
        } else if code == 15 {
            Some(ColumnType::I64)
        } else if code == 17 {
            Some(ColumnType::U16)
        } else if code == 18 {
            Some(ColumnType::I8)
        } else if code == 19 {
            Some(ColumnType::U64)
        } else if code == 20 {
            Some(ColumnType::DateTime32)
        } else {
            None
        }
    }

    /// The code under which the catalog names the type.
    pub fn code(&self) -> (r: u32)
        ensures
            r == self.code_of(),
            Self::of_code(r as int) == Some(*self),
    {
        match self {
            ColumnType::Bool => 1,
            ColumnType::U8 => 2,
            ColumnType::I16 => 3,
            ColumnType::I32 => 4,
            ColumnType::Currency => 5,
            ColumnType::DateTime64 => 8,
            ColumnType::Binary => 9,
            ColumnType::Text => 10,
            ColumnType::U32 => 14,
            ColumnType::I64 => 15,
            ColumnType::U16 => 17,
            ColumnType::I8 => 18,
            ColumnType::U64 => 19,
            ColumnType::DateTime32 => 20,
        }
    }
}

/// One column of a table. The width counts for a fixed column only.
#[derive(Clone, Copy, Debug, PartialEq, Eq, Structural)]
pub struct Column {
    pub id: u32,
    pub kind: ColumnType,
    pub width: u16,
}

/// A table's schema, as plain values.
pub struct SchemaModel {
    pub name: Seq<u8>,
    pub fixed: Seq<Column>,
    pub variable: Seq<Column>,
    pub tagged: Seq<Column>,
    pub root_page: u32,
    pub long_value_root: Option<u32>,
}

/// Whether the identifiers lie between `low` and `high` and grow from each
/// column to the next.
pub open spec fn ids_ascend(cols: Seq<Column>, low: int, high: int) -> bool {
    &&& forall|i: int| 0 <= i < cols.len() ==> low <= (#[trigger] cols[i]).id <= high
    &&& forall|i: int, j: int|
        0 <= i < j < cols.len() ==> (#[trigger] cols[i]).id < (#[trigger] cols[j]).id
}

/// Whether a fixed column's width is that of its type. Text takes an even
/// number of bytes, and no fixed column is empty.
pub open spec fn width_fits(c: Column) -> bool {
    match c.kind.size() {
        Some(n) => c.width == n,
        None => c.width >= 1 && (c.kind == ColumnType::Text ==> c.width % 2 == 0),
    }
}

/// Whether the columns are a schema: in each storage class the identifiers
/// are of that class and grow, and every fixed column has the width of its
/// type.
pub open spec fn schema_ok(s: SchemaModel) -> bool {
    &&& ids_ascend(s.fixed, FIRST_FIXED_ID as int, LAST_FIXED_ID as int)
    &&& ids_ascend(s.variable, FIRST_VARIABLE_ID as int, LAST_VARIABLE_ID as int)
    &&& ids_ascend(s.tagged, FIRST_TAGGED_ID as int, LAST_TAGGED_ID as int)
    &&& forall|i: int| 0 <= i < s.fixed.len() ==> width_fits(#[trigger] s.fixed[i])
}

/// Columns whose identifiers grow are at most as many as the identifiers
/// between the bounds.
pub proof fn lemma_ascending_ids_are_few(cols: Seq<Column>, low: int, high: int)
    requires
        low <= high,
        ids_ascend(cols, low, high),
    ensures
        cols.len() <= high - low + 1,
        forall|i: int| 0 <= i < cols.len() ==> low + i <= (#[trigger] cols[i]).id,
{
    assert forall|i: int| 0 <= i < cols.len() implies low + i <= (#[trigger] cols[i]).id by {
        lemma_id_at_least(cols, low, high, i);
    }
    if cols.len() > 0 {
        let last = cols.len() - 1;
        lemma_id_at_least(cols, low, high, last);
        assert(cols[last].id <= high);
    }
}

proof fn lemma_id_at_least(cols: Seq<Column>, low: int, high: int, i: int)
    requires
        ids_ascend(cols, low, high),
        0 <= i < cols.len(),
    ensures
        low + i <= cols[i].id,
    decreases i,
{
    if i > 0 {
        lemma_id_at_least(cols, low, high, i - 1);
        assert(cols[i - 1].id < cols[i].id);
    } else {
        assert(low <= cols[0].id);
    }
}

fn check_ids(cols: &Vec<Column>, low: u32, high: u32) -> (r: bool)
    ensures
        r == ids_ascend(cols@, low as int, high as int),
{
    let mut i: usize = 0;
    while i < cols.len()
        invariant
            i <= cols.len(),
            forall|k: int| 0 <= k < i ==> low <= (#[trigger] cols@[k]).id <= high,
            forall|k: int, j: int| 0 <= k < j < i ==> (#[trigger] cols@[k]).id < (#[trigger] cols@[j]).id,
        decreases cols.len() - i,
    {
        let id = cols[i].id;
        if id < low || id > high {
            return false;
        }
        if i > 0 && cols[i - 1].id >= id {
            assert(!(cols@[i - 1].id < cols@[i as int].id));
            return false;
        }
        proof {
            assert forall|k: int, j: int| 0 <= k < j < i + 1 implies (#[trigger] cols@[k]).id < (
            #[trigger] cols@[j]).id by {
                if j == i && k < i - 1 {
                    assert(cols@[k].id < cols@[i - 1].id);
                }
            }
        }
        i += 1;
    }
    true
}

fn check_width(c: &Column) -> (r: bool)
    ensures
        r == width_fits(*c),
{
    match c.kind.byte_size() {
        Some(n) => c.width as usize == n,
        None => c.width >= 1 && (!(c.kind == ColumnType::Text) || c.width % 2 == 0),
    }
}

fn check_widths(cols: &Vec<Column>) -> (r: bool)
    ensures
        r == (forall|i: int| 0 <= i < cols.len() ==> width_fits(#[trigger] cols[i])),
{
    let mut i: usize = 0;
    while i < cols.len()
        invariant
            i <= cols.len(),
            forall|k: int| 0 <= k < i ==> width_fits(#[trigger] cols[k]),
        decreases cols.len() - i,
    {
        if !check_width(&cols[i]) {
            return false;
        }
        i += 1;
    }
    true
}

/// The schema of one table. It is checked when it is made, and not changed
/// afterwards.
pub struct TableSchema {
    name: Vec<u8>,
    fixed: Vec<Column>,
    variable: Vec<Column>,
    tagged: Vec<Column>,
    root_page: u32,
    long_value_root: Option<u32>,
}

impl View for TableSchema {
    type V = SchemaModel;

    closed spec fn view(&self) -> SchemaModel {
        SchemaModel {
            name: self.name@,
            fixed: self.fixed@,
            variable: self.variable@,
            tagged: self.tagged@,
            root_page: self.root_page,
            long_value_root: self.long_value_root,
        }
    }
}

impl TableSchema {
    /// Every schema that exists has passed the check.
    #[verifier::type_invariant]
    pub open spec fn well_formed(self) -> bool {
        schema_ok(self@)
    }

    /// Makes a schema from the columns of each storage class. Columns that
    /// are no schema are refused as a fault of the catalog.
    pub fn new(
        name: Vec<u8>,
        fixed: Vec<Column>,
        variable: Vec<Column>,
        tagged: Vec<Column>,
        root_page: u32,
        long_value_root: Option<u32>,
    ) -> (r: Result<TableSchema, Error>)
        ensures
            match r {
                Ok(schema) => schema@ == (SchemaModel {
                    name: name@,
                    fixed: fixed@,
                    variable: variable@,
                    tagged: tagged@,
                    root_page,
                    long_value_root,
                }) && schema_ok(schema@),
                Err(e) => e == Error::CatalogCorrupt && !schema_ok(
                    SchemaModel {
                        name: name@,
                        fixed: fixed@,
                        variable: variable@,
                        tagged: tagged@,
                        root_page,
                        long_value_root,
                    },
                ),
            },
    {
        if check_ids(&fixed, FIRST_FIXED_ID, LAST_FIXED_ID) && check_ids(
            &variable,
            FIRST_VARIABLE_ID,
            LAST_VARIABLE_ID,
        ) && check_ids(&tagged, FIRST_TAGGED_ID, LAST_TAGGED_ID) && check_widths(&fixed) {
            Ok(TableSchema { name, fixed, variable, tagged, root_page, long_value_root })
        } else {
            Err(Error::CatalogCorrupt)
        }
    }

    /// The name of the table.
    pub fn name(&self) -> (r: &Vec<u8>)
        ensures
            r@ == self@.name,
    {
        &self.name
    }

    /// The fixed columns, in the order of their identifiers.
    pub fn fixed(&self) -> (r: &Vec<Column>)
        ensures
            r@ == self@.fixed,
    {
        &self.fixed
    }

    /// The variable columns, in the order of their identifiers.
    pub fn variable(&self) -> (r: &Vec<Column>)
        ensures
            r@ == self@.variable,
    {
        &self.variable
    }

    /// The tagged columns, in the order of their identifiers.
    pub fn tagged(&self) -> (r: &Vec<Column>)
        ensures
            r@ == self@.tagged,
    {
        &self.tagged
    }

    /// The page at which the tree of the table begins.
    pub fn root_page(&self) -> (r: u32)
        ensures
            r == self@.root_page,
    {
        self.root_page
    }

    /// The page at which the tree of the table's long values begins, if the
    /// table has one.
    pub fn long_value_root(&self) -> (r: Option<u32>)
        ensures
            r == self@.long_value_root,
    {
        self.long_value_root
    }
}

} // verus!
