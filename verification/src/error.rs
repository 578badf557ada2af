//! The ways in which generating a test unit can fail.

use vstd::prelude::*;

verus! {

/// A fatal generation error. Any of them aborts the whole batch.
#[derive(Debug, PartialEq, Eq)]
pub enum GenerateError {
    /// The packed string has odd length or holds a character that is no
    /// hexadecimal digit.
    Encoding { packed: String },
    /// The expected fields of a vector of `packet` are not an object
    /// (`key` is `None`), or the value under `key` is not an integer in
    /// the unsigned 64-bit range. `found` is the JSON text that was met.
    VectorShape { packet: String, key: Option<String>, found: String },
}

/// The mathematical value of a [`GenerateError`].
pub ghost enum ErrorModel {
    Encoding { packed: Seq<char> },
    VectorShape { packet: Seq<char>, key: Option<Seq<char>>, found: Seq<char> },
}

impl View for GenerateError {
    type V = ErrorModel;

    open spec fn view(&self) -> ErrorModel {
        match *self {
            GenerateError::Encoding { packed } => ErrorModel::Encoding { packed: packed@ },
            GenerateError::VectorShape { packet, key, found } => ErrorModel::VectorShape {
                packet: packet@,
                key: match key {
                    Some(k) => Some(k@),
                    None => None,
                },
                found: found@,
            },
        }
    }
}

/// The diagnostic text of an error.
pub open spec fn message_text(e: ErrorModel) -> Seq<char> {
    match e {
        ErrorModel::Encoding { packed } => "invalid hexadecimal string: "@ + packed,
        ErrorModel::VectorShape { packet, key: None, found } => "packet "@ + packet
            + ": expected an object of fields, found: "@ + found,
        ErrorModel::VectorShape { packet, key: Some(k), found } => "packet "@ + packet
            + ": expected an unsigned 64-bit integer for key "@ + k + ", found: "@ + found,
    }
}

impl GenerateError {
    /// A human-readable diagnostic that names the offending input.
    pub fn message(&self) -> (text: String)
        ensures
            text@ == message_text(self@),
    {
        match self {
            GenerateError::Encoding { packed } => {
                let mut text = String::from_str("invalid hexadecimal string: ");
                text.append(packed.as_str());
                text
            },
            GenerateError::VectorShape { packet, key, found } => {
                let mut text = String::from_str("packet ");
                text.append(packet.as_str());
                match key {
                    None => {
                        text.append(": expected an object of fields, found: ");
                    },
                    Some(k) => {
                        text.append(": expected an unsigned 64-bit integer for key ");
                        text.append(k.as_str());
                        text.append(", found: ");
                    },
                }
                text.append(found.as_str());
                text
            },
        }
    }
}

} // verus!
