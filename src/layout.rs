use vstd::prelude::*;

use crate::error::{VmError, VmResult};

verus! {

/// A primitive type of the guest's debug information.
#[derive(Clone, Copy, Debug, PartialEq, Eq, Structural)]
pub enum Primitive {
    Void,
    I8,
    U8,
    I16,
    U16,
    I32,
    U32,
    I64,
    U64,
}

/// The type of a structure field.
#[derive(Debug)]
pub enum TypeKind {
    Primitive(Primitive),
    Bitfield,
    Array(Box<TypeKind>, u32),
    Function,
    Pointer(Box<TypeKind>),
    Struct(String),
    Union(String),
    Unknown,
}

impl TypeKind {
    /// A copy of the type.
    pub fn duplicate(&self) -> (r: TypeKind)
        ensures
            r == *self,
        decreases self,
    {
        match self {
            TypeKind::Primitive(p) => TypeKind::Primitive(*p),
            TypeKind::Bitfield => TypeKind::Bitfield,
            TypeKind::Array(t, n) => TypeKind::Array(Box::new((**t).duplicate()), *n),
            TypeKind::Function => TypeKind::Function,
            TypeKind::Pointer(t) => TypeKind::Pointer(Box::new((**t).duplicate())),
            TypeKind::Struct(s) => TypeKind::Struct(s.clone()),
            TypeKind::Union(s) => TypeKind::Union(s.clone()),
            TypeKind::Unknown => TypeKind::Unknown,
        }
    }
}

/// A named field at an offset of its structure.
#[derive(Debug)]
pub struct StructField {
    pub name: String,
    pub offset: u64,
    pub typ: TypeKind,
}

impl StructField {
    /// A copy of the field.
    pub fn duplicate(&self) -> (r: StructField)
        ensures
            r == *self,
    {
        StructField { name: self.name.clone(), offset: self.offset, typ: self.typ.duplicate() }
    }
}

/// The layout of a structure: its size and its fields in declared order.
#[derive(Debug)]
pub struct Struct {
    pub size: u64,
    pub name: String,
    pub fields: Vec<StructField>,
}

/// Index of the first field named `name`, looking from `start` on.
pub open spec fn field_index_from(fields: Seq<StructField>, name: Seq<char>, start: int) -> Option<
    int,
>
    decreases fields.len() - start,
{
    if start < 0 || start >= fields.len() {
        None
    } else if fields[start].name@ == name {
        Some(start)
    } else {
        field_index_from(fields, name, start + 1)
    }
}

/// Index of the first field named `name`.
pub open spec fn field_index(fields: Seq<StructField>, name: Seq<char>) -> Option<int> {
    field_index_from(fields, name, 0)
}

/// What `field_index_from` finds is a field of that name, with none before it.
pub proof fn lemma_field_index_from(fields: Seq<StructField>, name: Seq<char>, start: int)
    requires
        0 <= start,
    ensures
        field_index_from(fields, name, start) matches Some(i) ==> start <= i < fields.len()
            && fields[i].name@ == name && forall|j: int|
            start <= j < i ==> (#[trigger] fields[j]).name@ != name,
        field_index_from(fields, name, start) is None ==> forall|j: int|
            start <= j < fields.len() ==> (#[trigger] fields[j]).name@ != name,
    decreases fields.len() - start,
{
    if start < fields.len() && fields[start].name@ != name {
        lemma_field_index_from(fields, name, start + 1);
    }
}

/// Fields in declared order: offsets never decrease and none passes the end.
pub open spec fn layout_ordered(size: u64, fields: Seq<StructField>) -> bool {
    &&& forall|i: int, j: int| 0 <= i <= j < fields.len() ==> fields[i].offset <= fields[j].offset
    &&& forall|i: int| 0 <= i < fields.len() ==> (#[trigger] fields[i]).offset <= size
}

/// Bytes from the field at `i` to the next field, or to the end for the last.
pub open spec fn field_span(size: u64, fields: Seq<StructField>, i: int) -> int {
    if i + 1 < fields.len() {
        fields[i + 1].offset - fields[i].offset
    } else {
        size - fields[i].offset
    }
}

/// A borrowed view of a structure layout.
#[derive(Clone, Copy, Debug)]
pub struct StructRef<'a> {
    pub size: u64,
    pub name: &'a str,
    pub fields: &'a [StructField],
}

impl Struct {
    pub fn borrow(&self) -> (r: StructRef<'_>)
        ensures
            r.size == self.size,
            r.name@ == self.name@,
            r.fields@ == self.fields@,
    {
        StructRef { size: self.size, name: self.name.as_str(), fields: self.fields.as_slice() }
    }
}

impl<'a> StructRef<'a> {
    /// Position of the first field named `field_name`.
    fn position(&self, field_name: &str) -> (r: Option<usize>)
        ensures
            match r {
                Some(i) => field_index(self.fields@, field_name@) == Some(i as int) && i
                    < self.fields@.len(),
                None => field_index(self.fields@, field_name@) is None,
            },
    {
        proof {
            lemma_field_index_from(self.fields@, field_name@, 0);
        }
        let key = field_name.to_owned();
        let mut i: usize = 0;
        while i < self.fields.len()
            invariant
                key@ == field_name@,
                i <= self.fields@.len(),
                field_index(self.fields@, key@) == field_index_from(self.fields@, key@, i as int),
            decreases self.fields@.len() - i,
        {
            if self.fields[i].name == key {
                return Some(i);
            }
            i += 1;
        }
        None
    }

    /// The first field named `field_name`.
    pub fn find_field(&self, field_name: &str) -> (r: Option<&'a StructField>)
        ensures
            match field_index(self.fields@, field_name@) {
                Some(i) => r == Some(&self.fields@[i]),
                None => r is None,
            },
    {
        match self.position(field_name) {
            Some(i) => Some(&self.fields[i]),
            None => None,
        }
    }

    /// Offset of the first field named `field_name`.
    pub fn find_offset(&self, field_name: &str) -> (r: Option<u64>)
        ensures
            match field_index(self.fields@, field_name@) {
                Some(i) => r == Some(self.fields@[i].offset),
                None => r is None,
            },
    {
        match self.position(field_name) {
            Some(i) => Some(self.fields[i].offset),
            None => None,
        }
    }

    /// Offset of the first field named `field_name`, or an error naming the
    /// field and the structure.
    pub fn require_offset(&self, field_name: &str) -> (r: VmResult<u64>)
        ensures
            match field_index(self.fields@, field_name@) {
                Some(i) => r == Ok::<u64, VmError>(self.fields@[i].offset),
                None => r matches Err(VmError::MissingField(f, s)) && f@ == field_name@ && s@
                    == self.name@,
            },
    {
        match self.position(field_name) {
            Some(i) => Ok(self.fields[i].offset),
            None => Err(VmError::MissingField(field_name.to_owned(), self.name.to_owned())),
        }
    }

    /// Offset and size of the first field named `field_name`; the size runs
    /// to the next field, or to the end of the structure for the last one.
    pub fn find_offset_and_size(&self, field_name: &str) -> (r: VmResult<(u64, u64)>)
        requires
            layout_ordered(self.size, self.fields@),
        ensures
            match field_index(self.fields@, field_name@) {
                Some(i) => r == Ok::<(u64, u64), VmError>(
                    (self.fields@[i].offset, field_span(self.size, self.fields@, i) as u64),
                ),
                None => r matches Err(VmError::MissingField(f, s)) && f@ == field_name@ && s@
                    == self.name@,
            },
    {
        match self.position(field_name) {
            Some(i) => {
                let field = &self.fields[i];
                let end = if i + 1 < self.fields.len() {
                    self.fields[i + 1].offset
                } else {
                    self.size
                };
                Ok((field.offset, end - field.offset))
            },
            None => Err(VmError::MissingField(field_name.to_owned(), self.name.to_owned())),
        }
    }

    /// An owned copy of the layout.
    pub fn into_owned(&self) -> (r: Struct)
        ensures
            r.size == self.size,
            r.name@ == self.name@,
            r.fields@ == self.fields@,
    {
        let mut fields: Vec<StructField> = Vec::new();
        let mut i: usize = 0;
        while i < self.fields.len()
            invariant
                i <= self.fields@.len(),
                fields@ == self.fields@.subrange(0, i as int),
            decreases self.fields@.len() - i,
        {
            fields.push(self.fields[i].duplicate());
            i += 1;
            assert(fields@ =~= self.fields@.subrange(0, i as int));
        }
        assert(fields@ =~= self.fields@);
        Struct { size: self.size, name: self.name.to_owned(), fields }
    }
}

/// With offsets that strictly increase and all lie inside the structure,
/// every field found has a size of at least one byte and ends inside the
/// structure.
pub proof fn lemma_field_span_in_bounds(size: u64, fields: Seq<StructField>, name: Seq<char>)
    requires
        forall|i: int, j: int| 0 <= i < j < fields.len() ==> fields[i].offset < fields[j].offset,
        forall|i: int| 0 <= i < fields.len() ==> (#[trigger] fields[i]).offset < size,
    ensures
        field_index(fields, name) matches Some(i) ==> field_span(size, fields, i) >= 1
            && fields[i].offset + field_span(size, fields, i) <= size,
{
    lemma_field_index_from(fields, name, 0);
    if let Some(i) = field_index(fields, name) {
        assert(fields[i].offset < size);
        if i + 1 < fields.len() {
            assert(fields[i].offset < fields[i + 1].offset);
            assert(fields[i + 1].offset < size);
        }
    }
}

} // verus!
