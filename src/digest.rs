use vstd::prelude::*;

use crate::paths::copy_component;

verus! {

/// The name under which a value is fed into a digest.
#[derive(Clone, Copy, Debug, PartialEq, Eq, Structural)]
pub enum FieldName {
    Filename,
    IsExecutable,
    Mode,
    Uid,
    Gid,
    FileContent,
    Symlink,
    Path,
    Source,
    PreservePermissions,
    OwnerUid,
    OwnerGid,
    Umask,
}

/// A value fed into a digest.
#[derive(Debug, PartialEq, Eq)]
pub enum FieldValue {
    Bytes(Vec<u8>),
    Bool(bool),
    Int(u32),
}

/// The model of a field value.
pub enum ValueModel {
    Bytes(Seq<u8>),
    Bool(bool),
    Int(u32),
}

impl FieldValue {
    pub open spec fn view(&self) -> ValueModel {
        match self {
            FieldValue::Bytes(b) => ValueModel::Bytes(b@),
            FieldValue::Bool(b) => ValueModel::Bool(*b),
            FieldValue::Int(n) => ValueModel::Int(*n),
        }
    }
}

/// One named value fed into a digest.
#[derive(Debug, PartialEq, Eq)]
pub struct Field {
    pub name: FieldName,
    pub value: FieldValue,
}

impl Field {
    pub open spec fn view(&self) -> (FieldName, ValueModel) {
        (self.name, self.value@)
    }
}

pub open spec fn bytes_field(name: FieldName, b: Seq<u8>) -> (FieldName, ValueModel) {
    (name, ValueModel::Bytes(b))
}

pub open spec fn bool_field(name: FieldName, b: bool) -> (FieldName, ValueModel) {
    (name, ValueModel::Bool(b))
}

pub open spec fn int_field(name: FieldName, n: u32) -> (FieldName, ValueModel) {
    (name, ValueModel::Int(n))
}

/// An optional value contributes its field when present and nothing when absent.
pub open spec fn opt_int_fields(name: FieldName, o: Option<u32>) -> Seq<(FieldName, ValueModel)> {
    match o {
        Some(n) => seq![int_field(name, n)],
        None => Seq::empty(),
    }
}

/// Accumulates the fingerprint of one build step: the exact sequence of
/// named values fed into it, in order. Two digests are equal exactly when
/// the same fields were fed in the same order.
#[derive(Debug, PartialEq, Eq)]
pub struct Digest {
    fields: Vec<Field>,
}

impl View for Digest {
    type V = Seq<(FieldName, ValueModel)>;

    closed spec fn view(&self) -> Seq<(FieldName, ValueModel)> {
        self.fields@.map_values(|f: Field| f@)
    }
}

impl Digest {
    /// An empty digest.
    pub fn new() -> (r: Digest)
        ensures
            r@ == Seq::<(FieldName, ValueModel)>::empty(),
    {
        let r = Digest { fields: Vec::new() };
        assert(r@ =~= Seq::<(FieldName, ValueModel)>::empty());
        r
    }

    /// Number of fields fed so far.
    pub fn len(&self) -> (r: usize)
        ensures
            r == self@.len(),
    {
        self.fields.len()
    }

    /// The fields fed so far, in order.
    pub fn fields(&self) -> (r: &Vec<Field>)
        ensures
            r@.map_values(|f: Field| f@) == self@,
    {
        &self.fields
    }

    fn push(&mut self, f: Field)
        ensures
            final(self)@ == old(self)@.push(f@),
    {
        self.fields.push(f);
        assert(self@ =~= old(self)@.push(f@));
    }

    /// Feeds a byte-string value (a path, a link target).
    pub fn field_bytes(&mut self, name: FieldName, value: &Vec<u8>)
        ensures
            final(self)@ == old(self)@.push(bytes_field(name, value@)),
    {
        self.push(Field { name, value: FieldValue::Bytes(copy_component(value)) });
    }

    /// Feeds a boolean value.
    pub fn field_bool(&mut self, name: FieldName, value: bool)
        ensures
            final(self)@ == old(self)@.push(bool_field(name, value)),
    {
        self.push(Field { name, value: FieldValue::Bool(value) });
    }

    /// Feeds an integer value.
    pub fn field_int(&mut self, name: FieldName, value: u32)
        ensures
            final(self)@ == old(self)@.push(int_field(name, value)),
    {
        self.push(Field { name, value: FieldValue::Int(value) });
    }

    /// Feeds an optional integer: nothing when it is absent.
    pub fn opt_field_int(&mut self, name: FieldName, value: Option<u32>)
        ensures
            final(self)@ == old(self)@ + opt_int_fields(name, value),
    {
        match value {
            Some(n) => {
                self.field_int(name, n);
                assert(self@ =~= old(self)@ + opt_int_fields(name, value));
            },
            None => {
                assert(self@ =~= old(self)@ + opt_int_fields(name, value));
            },
        }
    }

    /// Feeds the content of a regular file.
    pub fn file(&mut self, content: &Vec<u8>)
        ensures
            final(self)@ == old(self)@.push(bytes_field(FieldName::FileContent, content@)),
    {
        self.field_bytes(FieldName::FileContent, content);
    }
}

} // verus!
