//! The generic value representation and the payload decoder.

use vstd::prelude::*;
use vstd::string::StringExecFns;

verus! {

/// A raw payload, as the hive decoder hands it out: the closed set of
/// value encodings this walker understands.
#[derive(Debug)]
pub enum Payload {
    /// The value carries no data.
    NoData,
    /// A UTF string payload.
    Str(String),
    /// A 32-bit integer payload.
    I32(i32),
}

/// What came of reading and decoding one value's payload.
#[derive(Debug)]
pub enum DecodeOutcome {
    /// The payload decoded to one of the known encodings.
    Decoded(Payload),
    /// The decoder reported that no payload was present.
    Missing,
    /// The decoder failed on the payload bytes.
    Failed,
}

/// The generic value stored on a value node.
#[derive(Debug, PartialEq)]
pub enum RegValue {
    /// No recoverable content; the node still records the value's presence.
    Absent,
    Str(String),
    I32(i32),
}

/// Mathematical image of a generic value.
pub enum RegValueV {
    Absent,
    Str(Seq<char>),
    I32(i32),
}

impl View for RegValue {
    type V = RegValueV;

    open spec fn view(&self) -> RegValueV {
        match *self {
            RegValue::Absent => RegValueV::Absent,
            RegValue::Str(s) => RegValueV::Str(s@),
            RegValue::I32(n) => RegValueV::I32(n),
        }
    }
}

/// The generic value that a decode outcome maps to: any failure, and any
/// absence of a payload, maps to `Absent`; string and integer payloads
/// pass through.
pub open spec fn decoded_value(outcome: DecodeOutcome) -> RegValueV {
    match outcome {
        DecodeOutcome::Decoded(p) => match p {
            Payload::NoData => RegValueV::Absent,
            Payload::Str(s) => RegValueV::Str(s@),
            Payload::I32(n) => RegValueV::I32(n),
        },
        DecodeOutcome::Missing => RegValueV::Absent,
        DecodeOutcome::Failed => RegValueV::Absent,
    }
}

/// Converts a raw decode outcome into the generic value representation,
/// tolerating decode failure: the result is exactly `decoded_value`.
pub fn decode_value(outcome: &DecodeOutcome) -> (r: RegValue)
    ensures
        r@ == decoded_value(*outcome),
{
    match outcome {
        DecodeOutcome::Decoded(p) => match p {
            Payload::NoData => RegValue::Absent,
            Payload::Str(s) => RegValue::Str(s.clone()),
            Payload::I32(n) => RegValue::I32(*n),
        },
        DecodeOutcome::Missing => RegValue::Absent,
        DecodeOutcome::Failed => RegValue::Absent,
    }
}

/// The display name a value node gets: empty value names become
/// `"default"`, all others pass through unchanged.
pub open spec fn canon_spec(name: Seq<char>) -> Seq<char> {
    if name.len() == 0 {
        "default"@
    } else {
        name
    }
}

/// Canonicalizes a value's name: the empty name becomes `"default"`,
/// a non-empty name is returned as it came.
pub fn canonical_name(name: String) -> (r: String)
    ensures
        r@ == canon_spec(name@),
        name@.len() == 0 ==> r@ == "default"@,
        name@.len() > 0 ==> r == name,
{
    if name.as_str().is_empty() {
        String::from_str("default")
    } else {
        name
    }
}

} // verus!
