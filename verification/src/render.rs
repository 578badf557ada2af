//! The source text of test units.

use crate::error::{ErrorModel, GenerateError};
use crate::hex::{byte_hex, byte_to_hex, decode_hex, hex_to_bytes, is_hex_string};
use crate::literal::{decimal, unsuffixed_literal};
use crate::unit::{units_view, Assertion, AssertionModel, TestUnit, UnitModel};
use vstd::prelude::*;

verus! {

/// The text of byte number `k` inside a list: `0x` and two digits, after
/// a comma and a blank unless it comes first.
pub open spec fn byte_item(bytes: Seq<u8>, k: int) -> Seq<char> {
    if k == 0 {
        "0x"@ + byte_hex(bytes[k])
    } else {
        ", 0x"@ + byte_hex(bytes[k])
    }
}

/// The texts of all bytes of a list, in order.
pub open spec fn byte_items(bytes: Seq<u8>) -> Seq<Seq<char>> {
    Seq::new(bytes.len(), |k: int| byte_item(bytes, k))
}

/// The expression that builds a byte vector, such as `vec![0x01, 0x02]`.
pub open spec fn bytes_literal(bytes: Seq<u8>) -> Seq<char> {
    "vec!["@ + byte_items(bytes).flatten() + "]"@
}

/// The statement that compares one decoded field with its expected value.
pub open spec fn assertion_text(a: AssertionModel) -> Seq<char> {
    "    assert_eq!(actual."@ + a.accessor + "(), "@ + decimal(a.expected as nat) + ");\n"@
}

/// The statements of a list of comparisons, one for each.
pub open spec fn assertion_lines(list: Seq<AssertionModel>) -> Seq<Seq<char>> {
    list.map_values(|a: AssertionModel| assertion_text(a))
}

/// The source text of a test unit: a test function that builds the bytes,
/// parses them with the unit's decoder, unwraps the result and makes each
/// comparison in order.
pub open spec fn unit_text(unit: UnitModel) -> Seq<char> {
    "#[test]\nfn "@ + unit.name + "() {\n    let packed = "@ + bytes_literal(unit.bytes)
        + ";\n    let actual = "@ + unit.module + "::"@ + unit.decoder
        + "::parse(&packed).unwrap();\n"@ + assertion_lines(unit.assertions).flatten() + "}\n"@
}

/// The source texts of a list of units, one for each.
pub open spec fn unit_texts(units: Seq<UnitModel>) -> Seq<Seq<char>> {
    units.map_values(|u: UnitModel| unit_text(u))
}

/// The source text of a list of units: their texts, one after another.
pub open spec fn units_text(units: Seq<UnitModel>) -> Seq<char> {
    unit_texts(units).flatten()
}

/// Writes the expression that builds `bytes` as a vector.
pub fn render_bytes(bytes: &[u8]) -> (text: String)
    ensures
        text@ == bytes_literal(bytes@),
{
    let ghost items = byte_items(bytes@);
    let mut text = String::from_str("vec![");
    let mut k: usize = 0;
    assert(text@ =~= "vec!["@ + items.take(0).flatten());
    while k < bytes.len()
        invariant
            k <= bytes.len(),
            items == byte_items(bytes@),
            text@ == "vec!["@ + items.take(k as int).flatten(),
        decreases bytes.len() - k,
    {
        let ghost before = text@;
        if k == 0 {
            text.append("0x");
        } else {
            text.append(", 0x");
        }
        let digits = byte_to_hex(bytes[k]);
        text.append(digits.as_str());
        proof {
            assert(text@ =~= before + items[k as int]);
            assert(items.take(k + 1) =~= items.take(k as int).push(items[k as int]));
            items.take(k as int).lemma_flatten_push(items[k as int]);
            assert(text@ =~= "vec!["@ + items.take(k + 1).flatten());
        }
        k += 1;
    }
    assert(items.take(k as int) =~= items);
    text.append("]");
    text
}

/// Converts a string of hexadecimal digits into the expression that builds
/// its bytes: `"80038302"` becomes `vec![0x80, 0x03, 0x83, 0x02]`.
///
/// Fails as [`hex_to_bytes`] does.
pub fn hexadecimal_to_vec(hex: &str) -> (r: Result<String, GenerateError>)
    ensures
        match r {
            Ok(text) => is_hex_string(hex@) && text@ == bytes_literal(decode_hex(hex@)),
            Err(e) => !is_hex_string(hex@) && e@ == (ErrorModel::Encoding { packed: hex@ }),
        },
{
    match hex_to_bytes(hex) {
        Ok(bytes) => Ok(render_bytes(bytes.as_slice())),
        Err(e) => Err(e),
    }
}

/// Writes the statement that makes one comparison.
pub fn render_assertion(assertion: &Assertion) -> (text: String)
    ensures
        text@ == assertion_text(assertion@),
{
    let mut text = String::from_str("    assert_eq!(actual.");
    text.append(assertion.accessor.as_str());
    text.append("(), ");
    let number = unsuffixed_literal(assertion.expected);
    text.append(number.as_str());
    text.append(");\n");
    text
}

/// Writes the source text of one test unit.
pub fn render_unit(unit: &TestUnit) -> (text: String)
    ensures
        text@ == unit_text(unit@),
{
    let ghost lines = assertion_lines(unit@.assertions);
    let mut text = String::from_str("#[test]\nfn ");
    text.append(unit.name.as_str());
    text.append("() {\n    let packed = ");
    let packed = render_bytes(unit.bytes.as_slice());
    text.append(packed.as_str());
    text.append(";\n    let actual = ");
    text.append(unit.module.as_str());
    text.append("::");
    text.append(unit.decoder.as_str());
    text.append("::parse(&packed).unwrap();\n");
    let ghost head = text@;
    let mut k: usize = 0;
    assert(text@ =~= head + lines.take(0).flatten());
    while k < unit.assertions.len()
        invariant
            k <= unit.assertions.len(),
            lines == assertion_lines(unit@.assertions),
            text@ == head + lines.take(k as int).flatten(),
        decreases unit.assertions.len() - k,
    {
        let line = render_assertion(&unit.assertions[k]);
        text.append(line.as_str());
        proof {
            assert(lines[k as int] == line@);
            assert(lines.take(k + 1) =~= lines.take(k as int).push(lines[k as int]));
            lines.take(k as int).lemma_flatten_push(lines[k as int]);
            assert(text@ =~= head + lines.take(k + 1).flatten());
        }
        k += 1;
    }
    assert(lines.take(k as int) =~= lines);
    text.append("}\n");
    assert(text@ =~= unit_text(unit@));
    text
}

/// Writes the source text of a list of units: one text after another, in
/// the order of the list.
pub fn render_units(units: &[TestUnit]) -> (text: String)
    ensures
        text@ == units_text(units_view(units@)),
{
    let ghost texts = unit_texts(units_view(units@));
    let mut text = String::new();
    let mut k: usize = 0;
    assert(text@ =~= texts.take(0).flatten());
    while k < units.len()
        invariant
            k <= units.len(),
            texts == unit_texts(units_view(units@)),
            text@ == texts.take(k as int).flatten(),
        decreases units.len() - k,
    {
        let one = render_unit(&units[k]);
        text.append(one.as_str());
        proof {
            assert(texts[k as int] == one@);
            assert(texts.take(k + 1) =~= texts.take(k as int).push(texts[k as int]));
            texts.take(k as int).lemma_flatten_push(texts[k as int]);
        }
        k += 1;
    }
    assert(texts.take(k as int) =~= texts);
    text
}

} // verus!
