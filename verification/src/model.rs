//! Packets, their test vectors, and the values a vector expects.

use crate::hex::is_hex_string;
use vstd::prelude::*;

verus! {

/// The value that a vector expects of one decoded field.
#[derive(Debug, PartialEq, Eq)]
pub enum FieldValue {
    /// An integer in the unsigned 64-bit range.
    Unsigned(u64),
    /// Any other JSON value (negative, fractional, too large, not a
    /// number), kept as its JSON text.
    Other(String),
}

/// One entry of a vector's expected fields.
#[derive(Debug, PartialEq, Eq)]
pub struct Field {
    pub key: String,
    pub value: FieldValue,
}

/// What a vector says of the decoded packet.
#[derive(Debug, PartialEq, Eq)]
pub enum Expected {
    /// A JSON object: its entries in the order in which they were read.
    Object(Vec<Field>),
    /// Any JSON value that is no object, kept as its JSON text.
    Other(String),
}

/// One test case: a packed encoding and the fields it decodes to.
#[derive(Debug, PartialEq, Eq)]
pub struct TestVector {
    /// The encoding, as hexadecimal digits.
    pub packed: String,
    /// The expected fields.
    pub unpacked: Expected,
    /// A packet name that replaces the group's name for this vector.
    pub packet: Option<String>,
}

/// A named packet type with its test vectors, in document order.
#[derive(Debug, PartialEq, Eq)]
pub struct PacketGroup {
    pub name: String,
    pub tests: Vec<TestVector>,
}

/// The mathematical value of a [`FieldValue`].
pub ghost enum ValueModel {
    Unsigned(u64),
    Other(Seq<char>),
}

/// The mathematical value of a [`Field`].
pub ghost struct FieldModel {
    pub key: Seq<char>,
    pub value: ValueModel,
}

/// The mathematical value of an [`Expected`].
pub ghost enum ExpectedModel {
    Object(Seq<FieldModel>),
    Other(Seq<char>),
}

/// The mathematical value of a [`TestVector`].
pub ghost struct VectorModel {
    pub packed: Seq<char>,
    pub unpacked: ExpectedModel,
    pub packet: Option<Seq<char>>,
}

/// The mathematical value of a [`PacketGroup`].
pub ghost struct GroupModel {
    pub name: Seq<char>,
    pub tests: Seq<VectorModel>,
}

impl View for FieldValue {
    type V = ValueModel;

    open spec fn view(&self) -> ValueModel {
        match *self {
            FieldValue::Unsigned(v) => ValueModel::Unsigned(v),
            FieldValue::Other(text) => ValueModel::Other(text@),
        }
    }
}

impl View for Field {
    type V = FieldModel;

    open spec fn view(&self) -> FieldModel {
        FieldModel { key: self.key@, value: self.value@ }
    }
}

impl View for Expected {
    type V = ExpectedModel;

    open spec fn view(&self) -> ExpectedModel {
        match *self {
            Expected::Object(fields) => ExpectedModel::Object(fields_view(fields@)),
            Expected::Other(text) => ExpectedModel::Other(text@),
        }
    }
}

impl View for TestVector {
    type V = VectorModel;

    open spec fn view(&self) -> VectorModel {
        VectorModel {
            packed: self.packed@,
            unpacked: self.unpacked@,
            packet: match self.packet {
                Some(name) => Some(name@),
                None => None,
            },
        }
    }
}

impl View for PacketGroup {
    type V = GroupModel;

    open spec fn view(&self) -> GroupModel {
        GroupModel { name: self.name@, tests: vectors_view(self.tests@) }
    }
}

/// The values of a sequence of fields.
pub open spec fn fields_view(fields: Seq<Field>) -> Seq<FieldModel> {
    fields.map_values(|f: Field| f@)
}

/// The values of a sequence of vectors.
pub open spec fn vectors_view(vectors: Seq<TestVector>) -> Seq<VectorModel> {
    vectors.map_values(|v: TestVector| v@)
}

/// The values of a sequence of groups.
pub open spec fn groups_view(groups: Seq<PacketGroup>) -> Seq<GroupModel> {
    groups.map_values(|g: PacketGroup| g@)
}

/// The values of a sequence of names.
pub open spec fn names_view(names: Seq<String>) -> Seq<Seq<char>> {
    names.map_values(|n: String| n@)
}

/// Whether a test unit can be made of a vector: its packed string is an
/// even number of hexadecimal digits, and its expected fields are an
/// object whose values are all unsigned 64-bit integers.
pub open spec fn is_well_formed(vector: VectorModel) -> bool {
    &&& is_hex_string(vector.packed)
    &&& vector.unpacked is Object
    &&& forall|j: int|
        0 <= j < vector.unpacked->Object_0.len() ==> (
        #[trigger] vector.unpacked->Object_0[j]).value is Unsigned
}

} // verus!
