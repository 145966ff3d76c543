//! Records, schemas, index definitions and the delta unit that flows
//! between operators.

use vstd::prelude::*;

use crate::fields::{field_eq, Field, FieldType, FieldV};

verus! {

/// Identifier of the schema a record was produced under.
#[derive(Clone, Copy, PartialEq, Eq, Structural, Debug)]
pub struct SchemaIdentifier {
    pub id: u32,
    pub version: u16,
}

/// An ordered row of field values, an optional schema identifier, and the
/// version number the cache assigns on insert and raises on every
/// mutation.
#[derive(Debug)]
pub struct Record {
    pub schema_id: Option<SchemaIdentifier>,
    pub values: Vec<Field>,
    pub version: Option<u32>,
}

/// Mathematical view of a `Record`.
pub struct RecordV {
    pub schema_id: Option<SchemaIdentifier>,
    pub values: Seq<FieldV>,
    pub version: Option<u32>,
}

impl View for Record {
    type V = RecordV;

    open spec fn view(&self) -> RecordV {
        RecordV { schema_id: self.schema_id, values: self.values.deep_view(), version: self.version }
    }
}

impl DeepView for Record {
    type V = RecordV;

    open spec fn deep_view(&self) -> RecordV {
        self@
    }
}

impl Record {
    pub fn new(schema_id: Option<SchemaIdentifier>, values: Vec<Field>) -> (r: Self)
        ensures
            r@ == (RecordV { schema_id, values: values.deep_view(), version: None }),
    {
        Record { schema_id, values, version: None }
    }
}

impl Clone for Record {
    /// Cloning preserves the mathematical value.
    fn clone(&self) -> (r: Self)
        ensures
            r@ == self@,
    {
        let r = Record {
            schema_id: self.schema_id,
            values: clone_fields(&self.values),
            version: self.version,
        };
        proof {
            assert(r@.values =~= self@.values);
        }
        r
    }
}

/// Clone a row of field values, preserving the view.
pub fn clone_fields(values: &Vec<Field>) -> (r: Vec<Field>)
    ensures
        r.deep_view() == values.deep_view(),
{
    let mut r: Vec<Field> = Vec::new();
    let mut i: usize = 0;
    while i < values.len()
        invariant
            i <= values@.len(),
            r.deep_view() =~= values.deep_view().take(i as int),
        decreases values@.len() - i,
    {
        proof {
            assert(values.deep_view().len() == values@.len());
            assert(r.deep_view().len() == i);
            assert(r@.len() == i);
        }
        let f = values[i].clone();
        r.push(f);
        i = i + 1;
        proof {
            assert(r.deep_view() =~= values.deep_view().take(i as int));
        }
    }
    proof {
        assert(r.deep_view() =~= values.deep_view());
    }
    r
}

/// Decide equality of two rows of field values (equality of views).
pub fn fields_eq(a: &Vec<Field>, b: &Vec<Field>) -> (r: bool)
    ensures
        r == (a.deep_view() == b.deep_view()),
{
    if a.len() != b.len() {
        assert(a.deep_view() != b.deep_view());
        return false;
    }
    let mut i: usize = 0;
    while i < a.len()
        invariant
            i <= a.len(),
            a.deep_view().len() == b.deep_view().len(),
            forall|j: int| 0 <= j < i ==> a.deep_view()[j] == b.deep_view()[j],
        decreases a.len() - i,
    {
        if !field_eq(&a[i], &b[i]) {
            proof {
                assert(a.deep_view()[i as int] == a@[i as int]@);
                assert(b.deep_view()[i as int] == b@[i as int]@);
            }
            return false;
        }
        proof {
            assert(a.deep_view()[i as int] == a@[i as int]@);
            assert(b.deep_view()[i as int] == b@[i as int]@);
        }
        i = i + 1;
    }
    proof {
        assert(a.deep_view() =~= b.deep_view());
    }
    true
}

/// One column of a schema.
#[derive(Debug)]
pub struct FieldDefinition {
    pub name: String,
    pub typ: FieldType,
    pub nullable: bool,
}

impl Clone for FieldDefinition {
    /// Cloning preserves name, type and nullability.
    fn clone(&self) -> (r: Self)
        ensures
            r.name@ == self.name@,
            r.typ == self.typ,
            r.nullable == self.nullable,
    {
        FieldDefinition { name: self.name.clone(), typ: self.typ, nullable: self.nullable }
    }
}

/// Ordered column definitions, the primary key as a list of column
/// positions (possibly empty), and an identifier.
#[derive(Debug)]
pub struct Schema {
    pub identifier: Option<SchemaIdentifier>,
    pub fields: Vec<FieldDefinition>,
    pub primary_index: Vec<usize>,
}

/// Primary-key positions are in-bounds and pairwise distinct.
pub open spec fn primary_index_wf(primary_index: Seq<usize>, field_count: nat) -> bool {
    &&& forall|i: int|
        0 <= i < primary_index.len() ==> #[trigger] primary_index[i] < field_count
    &&& forall|i: int, j: int|
        0 <= i < j < primary_index.len() ==> primary_index[i] != primary_index[j]
}

impl Schema {
    /// The schema's primary key is in-bounds and free of repeats.
    pub open spec fn wf(&self) -> bool {
        primary_index_wf(self.primary_index@, self.fields@.len())
    }
}

impl Clone for Schema {
    /// Cloning preserves identifier, column count and the primary index.
    fn clone(&self) -> (r: Self)
        ensures
            r.identifier == self.identifier,
            r.fields@.len() == self.fields@.len(),
            forall|i: int|
                0 <= i < self.fields@.len() ==> #[trigger] r.fields@[i].typ == self.fields@[i].typ
                    && r.fields@[i].name@ == self.fields@[i].name@ && r.fields@[i].nullable
                    == self.fields@[i].nullable,
            r.primary_index@ == self.primary_index@,
            r.wf() == self.wf(),
    {
        let mut fields: Vec<FieldDefinition> = Vec::new();
        let mut i: usize = 0;
        while i < self.fields.len()
            invariant
                i <= self.fields@.len(),
                fields@.len() == i,
                forall|j: int|
                    0 <= j < i ==> #[trigger] fields@[j].typ == self.fields@[j].typ
                        && fields@[j].name@ == self.fields@[j].name@ && fields@[j].nullable
                        == self.fields@[j].nullable,
            decreases self.fields.len() - i,
        {
            fields.push(self.fields[i].clone());
            i = i + 1;
        }
        let mut primary_index: Vec<usize> = Vec::new();
        let mut i: usize = 0;
        while i < self.primary_index.len()
            invariant
                i <= self.primary_index@.len(),
                primary_index@ =~= self.primary_index@.take(i as int),
            decreases self.primary_index.len() - i,
        {
            primary_index.push(self.primary_index[i]);
            i = i + 1;
        }
        proof {
            assert(primary_index@ =~= self.primary_index@);
        }
        Schema { identifier: self.identifier, fields, primary_index }
    }
}

/// A secondary index over record content: an ordered composite index over
/// a list of column positions, or a token index over one text column.
#[derive(Debug)]
pub enum IndexDefinition {
    SortedInverted(Vec<usize>),
    FullText(usize),
}

impl Clone for IndexDefinition {
    /// Cloning preserves the definition.
    fn clone(&self) -> (r: Self)
        ensures
            r.deep_view() == self.deep_view(),
    {
        match self {
            IndexDefinition::SortedInverted(cols) => {
                let mut c: Vec<usize> = Vec::new();
                let mut i: usize = 0;
                while i < cols.len()
                    invariant
                        i <= cols@.len(),
                        c@ =~= cols@.take(i as int),
                    decreases cols.len() - i,
                {
                    c.push(cols[i]);
                    i = i + 1;
                }
                proof {
                    assert(c@ =~= cols@);
                }
                IndexDefinition::SortedInverted(c)
            },
            IndexDefinition::FullText(col) => IndexDefinition::FullText(*col),
        }
    }
}

/// Mathematical view of an index definition.
pub enum IndexDefinitionV {
    SortedInverted(Seq<usize>),
    FullText(usize),
}

impl DeepView for IndexDefinition {
    type V = IndexDefinitionV;

    open spec fn deep_view(&self) -> IndexDefinitionV {
        match self {
            IndexDefinition::SortedInverted(cols) => IndexDefinitionV::SortedInverted(cols@),
            IndexDefinition::FullText(col) => IndexDefinitionV::FullText(*col),
        }
    }
}

/// The change-data-capture delta unit.
#[derive(Debug)]
pub enum Operation {
    Insert { new: Record },
    Update { old: Record, new: Record },
    Delete { old: Record },
    BatchInsert { new: Vec<Record> },
}

/// Mathematical view of a delta.
pub enum OperationV {
    Insert { new: RecordV },
    Update { old: RecordV, new: RecordV },
    Delete { old: RecordV },
    BatchInsert { new: Seq<RecordV> },
}

impl View for Operation {
    type V = OperationV;

    open spec fn view(&self) -> OperationV {
        match self {
            Operation::Insert { new } => OperationV::Insert { new: new@ },
            Operation::Update { old, new } => OperationV::Update { old: old@, new: new@ },
            Operation::Delete { old } => OperationV::Delete { old: old@ },
            Operation::BatchInsert { new } => OperationV::BatchInsert { new: new.deep_view() },
        }
    }
}

impl DeepView for Operation {
    type V = OperationV;

    open spec fn deep_view(&self) -> OperationV {
        self@
    }
}

/// Project the primary-key columns out of a row, in primary-index order.
pub open spec fn spec_primary_key(primary_index: Seq<usize>, values: Seq<FieldV>) -> Seq<FieldV> {
    primary_index.map(|_i: int, c: usize| values[c as int])
}

/// Extract the primary key of a row: the key columns' values, in
/// primary-index order.
pub fn get_primary_key(primary_index: &Vec<usize>, values: &Vec<Field>) -> (r: Vec<Field>)
    requires
        forall|i: int|
            0 <= i < primary_index@.len() ==> #[trigger] primary_index@[i] < values@.len(),
    ensures
        r.deep_view() == spec_primary_key(primary_index@, values.deep_view()),
{
    let ghost key = spec_primary_key(primary_index@, values.deep_view());
    let mut r: Vec<Field> = Vec::new();
    let mut i: usize = 0;
    while i < primary_index.len()
        invariant
            i <= primary_index@.len(),
            forall|j: int|
                0 <= j < primary_index@.len() ==> #[trigger] primary_index@[j] < values@.len(),
            key == spec_primary_key(primary_index@, values.deep_view()),
            r.deep_view() =~= key.take(i as int),
        decreases primary_index@.len() - i,
    {
        proof {
            assert(key.len() == primary_index@.len());
            assert(r.deep_view().len() == i);
            assert(r@.len() == i);
            assert(values.deep_view().len() == values@.len());
        }
        let f = values[primary_index[i]].clone();
        proof {
            let c = primary_index@[i as int] as int;
            assert(key[i as int] == values.deep_view()[c]);
            assert(values.deep_view()[c] == values@[c]@);
        }
        r.push(f);
        i = i + 1;
        proof {
            assert(r.deep_view() =~= key.take(i as int));
        }
    }
    proof {
        assert(r.deep_view() =~= key);
    }
    r
}

} // verus!
