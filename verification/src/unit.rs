//! Test units: what is emitted for one selected vector.

use crate::error::{ErrorModel, GenerateError};
use crate::hex::{decode_hex, hex_to_bytes, is_hex_digit, is_hex_string};
use crate::literal::{
    decimal, lemma_decimal_injective, lemma_decimal_is_digits, unsuffixed_literal,
};
use crate::model::{
    fields_view, is_well_formed, Expected, ExpectedModel, Field, FieldModel, FieldValue,
    ValueModel,
};
use crate::select::{Candidate, Selected};
use vstd::prelude::*;

verus! {

/// One comparison of a decoded field with the value a vector expects.
#[derive(Debug, PartialEq, Eq)]
pub struct Assertion {
    /// Name of the accessor that is called on the decoded packet.
    pub accessor: String,
    pub expected: u64,
}

/// One generated test: a name, the bytes handed to the decoder, the
/// decoder's place, and the comparisons made on what it returns.
#[derive(Debug, PartialEq, Eq)]
pub struct TestUnit {
    pub name: String,
    pub bytes: Vec<u8>,
    /// The module that holds the decoder types.
    pub module: String,
    /// The decoder type inside that module.
    pub decoder: String,
    pub assertions: Vec<Assertion>,
}

/// The mathematical value of an [`Assertion`].
pub ghost struct AssertionModel {
    pub accessor: Seq<char>,
    pub expected: u64,
}

/// The mathematical value of a [`TestUnit`].
pub ghost struct UnitModel {
    pub name: Seq<char>,
    pub bytes: Seq<u8>,
    pub module: Seq<char>,
    pub decoder: Seq<char>,
    pub assertions: Seq<AssertionModel>,
}

impl View for Assertion {
    type V = AssertionModel;

    open spec fn view(&self) -> AssertionModel {
        AssertionModel { accessor: self.accessor@, expected: self.expected }
    }
}

impl View for TestUnit {
    type V = UnitModel;

    open spec fn view(&self) -> UnitModel {
        UnitModel {
            name: self.name@,
            bytes: self.bytes@,
            module: self.module@,
            decoder: self.decoder@,
            assertions: assertions_view(self.assertions@),
        }
    }
}

/// The values of a sequence of assertions.
pub open spec fn assertions_view(list: Seq<Assertion>) -> Seq<AssertionModel> {
    list.map_values(|a: Assertion| a@)
}

/// The values of a sequence of units.
pub open spec fn units_view(units: Seq<TestUnit>) -> Seq<UnitModel> {
    units.map_values(|u: TestUnit| u@)
}

/// The name of a vector's test: the effective packet name, the marker
/// `_vector_`, the vector's position in its group counted from 1, and the
/// packed string behind `_0x`.
pub open spec fn test_name(name: Seq<char>, ordinal: nat, packed: Seq<char>) -> Seq<char> {
    name + "_vector_"@ + decimal(ordinal) + "_0x"@ + packed
}

/// The accessor of a field: `get_` and the field's name.
pub open spec fn accessor_name(key: Seq<char>) -> Seq<char> {
    "get_"@ + key
}

/// The decoder type of a packet: the packet's name and `Packet`.
pub open spec fn decoder_name(name: Seq<char>) -> Seq<char> {
    name + "Packet"@
}

/// The comparison made for a field whose value is an unsigned integer.
pub open spec fn assertion_for(field: FieldModel) -> AssertionModel {
    AssertionModel { accessor: accessor_name(field.key), expected: field.value->Unsigned_0 }
}

/// The error for a field of `packet` whose value is no unsigned integer.
pub open spec fn field_error(packet: Seq<char>, field: FieldModel) -> ErrorModel {
    ErrorModel::VectorShape { packet, key: Some(field.key), found: field.value->Other_0 }
}

/// Whether `k` is the first field whose value is no unsigned 64-bit
/// integer.
pub open spec fn is_first_unexpected(fields: Seq<FieldModel>, k: int) -> bool {
    &&& 0 <= k < fields.len()
    &&& fields[k].value is Other
    &&& forall|j: int| 0 <= j < k ==> (#[trigger] fields[j]).value is Unsigned
}

/// The comparisons for the fields of a vector of `packet`: one for each
/// field, in the fields' order; or the error of the first field whose
/// value is no unsigned 64-bit integer.
pub open spec fn assertions_for(packet: Seq<char>, fields: Seq<FieldModel>) -> Result<
    Seq<AssertionModel>,
    ErrorModel,
> {
    if exists|k: int| is_first_unexpected(fields, k) {
        Err(field_error(packet, fields[choose|k: int| is_first_unexpected(fields, k)]))
    } else {
        Ok(fields.map_values(|f: FieldModel| assertion_for(f)))
    }
}

/// The unit for a chosen vector, with decoders under `module`; or the
/// error that stops generation. A packed string that is no hexadecimal
/// string is reported first, then expected fields that are no object,
/// then the first field that is no unsigned 64-bit integer.
pub open spec fn unit_for(chosen: Candidate, module: Seq<char>) -> Result<UnitModel, ErrorModel> {
    if !is_hex_string(chosen.vector.packed) {
        Err(ErrorModel::Encoding { packed: chosen.vector.packed })
    } else {
        match chosen.vector.unpacked {
            ExpectedModel::Other(found) => Err(
                ErrorModel::VectorShape { packet: chosen.name, key: None, found },
            ),
            ExpectedModel::Object(fields) => match assertions_for(chosen.name, fields) {
                Err(e) => Err(e),
                Ok(assertions) => Ok(
                    UnitModel {
                        name: test_name(
                            chosen.name,
                            chosen.ordinal as nat,
                            chosen.vector.packed,
                        ),
                        bytes: decode_hex(chosen.vector.packed),
                        module,
                        decoder: decoder_name(chosen.name),
                        assertions,
                    },
                ),
            },
        }
    }
}

/// The name of the test for the vector at position `ordinal` (from 1) of
/// its group.
pub fn test_name_of(name: &str, ordinal: usize, packed: &str) -> (text: String)
    ensures
        text@ == test_name(name@, ordinal as nat, packed@),
{
    let mut text = String::from_str(name);
    text.append("_vector_");
    let number = unsuffixed_literal(ordinal as u64);
    text.append(number.as_str());
    text.append("_0x");
    text.append(packed);
    text
}

/// The name of the accessor for the field `key`.
pub fn accessor_name_of(key: &str) -> (text: String)
    ensures
        text@ == accessor_name(key@),
{
    let mut text = String::from_str("get_");
    text.append(key);
    text
}

/// The name of the decoder type for the packet `name`.
pub fn decoder_name_of(name: &str) -> (text: String)
    ensures
        text@ == decoder_name(name@),
{
    let mut text = String::from_str(name);
    text.append("Packet");
    text
}

/// Turns the expected fields of a vector of `packet` into comparisons, one
/// for each field and in the fields' order.
///
/// Fails on the first field whose value is no unsigned 64-bit integer,
/// with an error that names the packet, the field and the value found.
pub fn assertions_of(packet: &str, fields: &[Field]) -> (r: Result<Vec<Assertion>, GenerateError>)
    ensures
        match r {
            Ok(list) => Ok::<Seq<AssertionModel>, ErrorModel>(assertions_view(list@)),
            Err(e) => Err(e@),
        } == assertions_for(packet@, fields_view(fields@)),
{
    let ghost models = fields_view(fields@);
    let mut list: Vec<Assertion> = Vec::new();
    let mut i: usize = 0;
    while i < fields.len()
        invariant
            i <= fields.len(),
            models == fields_view(fields@),
            list@.len() == i,
            forall|j: int| 0 <= j < i ==> (#[trigger] models[j]).value is Unsigned,
            forall|j: int| 0 <= j < i ==> (#[trigger] list@[j])@ == assertion_for(models[j]),
        decreases fields.len() - i,
    {
        let field = &fields[i];
        assert(models[i as int] == field@);
        match &field.value {
            FieldValue::Unsigned(v) => {
                list.push(Assertion { accessor: accessor_name_of(field.key.as_str()), expected: *v });
            },
            FieldValue::Other(found) => {
                proof {
                    assert(is_first_unexpected(models, i as int));
                    let k = choose|k: int| is_first_unexpected(models, k);
                    assert(k == i);
                }
                return Err(
                    GenerateError::VectorShape {
                        packet: String::from_str(packet),
                        key: Some(field.key.clone()),
                        found: found.clone(),
                    },
                );
            },
        }
        i += 1;
    }
    proof {
        assert(!exists|k: int| is_first_unexpected(models, k));
        assert(assertions_view(list@) =~= models.map_values(|f: FieldModel| assertion_for(f)));
    }
    Ok(list)
}

/// Builds the test unit for one chosen vector, with decoders under
/// `module`.
///
/// Succeeds exactly when the packed string is a hexadecimal string and the
/// expected fields are an object of unsigned 64-bit integers. The unit then
/// holds the test's name, the decoded bytes, the decoder type named after
/// the effective packet name, and one comparison for each field in the
/// fields' order.
pub fn build_unit(chosen: &Selected, module: &str) -> (r: Result<TestUnit, GenerateError>)
    ensures
        match r {
            Ok(unit) => Ok::<UnitModel, ErrorModel>(unit@),
            Err(e) => Err(e@),
        } == unit_for(chosen@, module@),
{
    let vector = chosen.vector;
    let name = chosen.name.as_str();
    let bytes = match hex_to_bytes(vector.packed.as_str()) {
        Ok(bytes) => bytes,
        Err(e) => {
            return Err(e);
        },
    };
    match &vector.unpacked {
        Expected::Other(found) => Err(
            GenerateError::VectorShape {
                packet: String::from_str(name),
                key: None,
                found: found.clone(),
            },
        ),
        Expected::Object(fields) => {
            match assertions_of(name, fields.as_slice()) {
                Err(e) => Err(e),
                Ok(assertions) => Ok(
                    TestUnit {
                        name: test_name_of(name, chosen.ordinal, vector.packed.as_str()),
                        bytes,
                        module: String::from_str(module),
                        decoder: decoder_name_of(name),
                        assertions,
                    },
                ),
            }
        },
    }
}

/// Two vectors with the same effective name and the same packed string
/// at different positions get different test names.
pub proof fn lemma_test_names_distinct(
    name: Seq<char>,
    packed: Seq<char>,
    first: nat,
    second: nat,
)
    requires
        first != second,
    ensures
        test_name(name, first, packed) != test_name(name, second, packed),
{
    let head = name + "_vector_"@;
    let one = test_name(name, first, packed);
    let two = test_name(name, second, packed);
    if one == two {
        let a = decimal(first);
        let b = decimal(second);
        assert(one.len() == head.len() + a.len() + "_0x"@.len() + packed.len());
        assert(two.len() == head.len() + b.len() + "_0x"@.len() + packed.len());
        assert(a.len() == b.len());
        assert forall|i: int| 0 <= i < a.len() implies a[i] == b[i] by {
            assert(one[head.len() + i] == a[i]);
            assert(two[head.len() + i] == b[i]);
        }
        assert(a =~= b);
        lemma_decimal_injective(first, second);
    }
}

/// If the value of some field is no unsigned integer, one such field
/// comes first.
proof fn lemma_first_unexpected_exists(fields: Seq<FieldModel>, k: int)
    requires
        0 <= k < fields.len(),
        fields[k].value is Other,
    ensures
        exists|f: int| is_first_unexpected(fields, f),
    decreases k,
{
    if forall|j: int| 0 <= j < k ==> (#[trigger] fields[j]).value is Unsigned {
        assert(is_first_unexpected(fields, k));
    } else {
        let j = choose|j: int| 0 <= j < k && !((#[trigger] fields[j]).value is Unsigned);
        lemma_first_unexpected_exists(fields, j);
    }
}

/// A unit that could be built holds what its vector says: the vector's
/// test name, the bytes of its packed string, the decoder named after its
/// effective name, and exactly one comparison for each expected field, in
/// the fields' order, on the field's accessor and with the field's value.
pub proof fn lemma_unit_matches_vector(chosen: Candidate, module: Seq<char>)
    requires
        unit_for(chosen, module) is Ok,
    ensures
        is_hex_string(chosen.vector.packed),
        chosen.vector.unpacked is Object,
        ({
            let unit = unit_for(chosen, module)->Ok_0;
            let fields = chosen.vector.unpacked->Object_0;
            &&& unit.name == test_name(chosen.name, chosen.ordinal as nat, chosen.vector.packed)
            &&& unit.bytes == decode_hex(chosen.vector.packed)
            &&& unit.module == module
            &&& unit.decoder == decoder_name(chosen.name)
            &&& unit.assertions.len() == fields.len()
            &&& forall|j: int|
                0 <= j < fields.len() ==> {
                    &&& (#[trigger] fields[j]).value == ValueModel::Unsigned(
                        unit.assertions[j].expected,
                    )
                    &&& unit.assertions[j].accessor == accessor_name(fields[j].key)
                }
        }),
{
    let fields = chosen.vector.unpacked->Object_0;
    assert forall|j: int| 0 <= j < fields.len() implies (#[trigger] fields[j]).value is Unsigned by {
        if fields[j].value is Other {
            lemma_first_unexpected_exists(fields, j);
        }
    }
}

/// Whether `c` may stand in an identifier: an ASCII letter, a decimal
/// digit or `_`.
pub open spec fn is_identifier_char(c: char) -> bool {
    ('a' <= c && c <= 'z') || ('A' <= c && c <= 'Z') || ('0' <= c && c <= '9') || c == '_'
}

/// Whether `s` can be a part of an identifier: identifier characters
/// only.
pub open spec fn is_identifier_part(s: Seq<char>) -> bool {
    forall|i: int| 0 <= i < s.len() ==> is_identifier_char(#[trigger] s[i])
}

/// Whether `s` has the shape of an identifier: identifier characters
/// only, the first of them no digit, and more than a lone `_`.
pub open spec fn is_identifier(s: Seq<char>) -> bool {
    &&& s.len() > 0
    &&& is_identifier_part(s)
    &&& !('0' <= s[0] && s[0] <= '9')
    &&& s != seq!['_']
}

/// Names are not escaped, so they are identifiers only if their parts
/// are. For a packet name that is an identifier, a packed string of
/// hexadecimal digits and a field name of identifier characters, the
/// test name, the decoder name and the accessor name are identifiers.
pub proof fn lemma_names_are_identifiers(
    name: Seq<char>,
    ordinal: nat,
    packed: Seq<char>,
    key: Seq<char>,
)
    requires
        is_identifier(name),
        is_hex_string(packed),
        is_identifier_part(key),
    ensures
        is_identifier(test_name(name, ordinal, packed)),
        is_identifier(decoder_name(name)),
        is_identifier(accessor_name(key)),
{
    reveal_strlit("_vector_");
    reveal_strlit("_0x");
    reveal_strlit("get_");
    reveal_strlit("Packet");
    lemma_decimal_is_digits(ordinal);
    let digits = decimal(ordinal);
    let full = test_name(name, ordinal, packed);
    assert("_vector_"@.len() == 8 && "_0x"@.len() == 3);
    assert(full.len() == name.len() + 8 + digits.len() + 3 + packed.len());
    assert forall|i: int| 0 <= i < full.len() implies is_identifier_char(#[trigger] full[i]) by {
        let a = name.len();
        let b = a + 8;
        let c = b + digits.len();
        let d = c + 3;
        if i < a {
            assert(full[i] == name[i]);
        } else if i < b {
            assert(full[i] == "_vector_"@[i - a]);
        } else if i < c {
            assert(full[i] == digits[i - b]);
            assert('0' <= digits[i - b] <= '9');
        } else if i < d {
            assert(full[i] == "_0x"@[i - c]);
        } else {
            assert(full[i] == packed[i - d]);
            assert(is_hex_digit(packed[i - d]));
        }
    }
    assert(full[0] == name[0]);
    assert(full.len() > 1);
    let decoder = decoder_name(name);
    assert forall|i: int| 0 <= i < decoder.len() implies is_identifier_char(
        #[trigger] decoder[i],
    ) by {
        if i < name.len() {
            assert(decoder[i] == name[i]);
        } else {
            assert(decoder[i] == "Packet"@[i - name.len()]);
        }
    }
    assert(decoder[0] == name[0]);
    let accessor = accessor_name(key);
    assert forall|i: int| 0 <= i < accessor.len() implies is_identifier_char(
        #[trigger] accessor[i],
    ) by {
        if i < 4 {
            assert(accessor[i] == "get_"@[i]);
        } else {
            assert(accessor[i] == key[i - 4]);
        }
    }
    assert(accessor[0] == 'g');
}

/// A unit can be built for a chosen vector exactly when the vector is
/// well formed.
pub proof fn lemma_unit_exists_iff_well_formed(chosen: Candidate, module: Seq<char>)
    ensures
        unit_for(chosen, module) is Ok <==> is_well_formed(chosen.vector),
{
    if unit_for(chosen, module) is Ok {
        lemma_unit_matches_vector(chosen, module);
    }
    if is_well_formed(chosen.vector) {
        let fields = chosen.vector.unpacked->Object_0;
        assert(!exists|k: int| is_first_unexpected(fields, k));
    }
}

} // verus!
