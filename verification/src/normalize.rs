//! The value normaliser: byte strings under certain registry codes become
//! calendar timestamps or text.

use vstd::prelude::*;
use vstd::utf8::{decode_utf8, valid_utf8};
use crate::code::RegistryCode;
use crate::value::{Timestamp, Value, ValueView};

verus! {

/// What a byte string under a listed code is turned into.
#[derive(Clone, Copy, Debug, PartialEq, Eq, Structural)]
pub enum Target {
    Timestamp,
    Text,
}

/// Why a byte string could not be normalised.
#[derive(Clone, Copy, Debug, PartialEq, Eq, Structural)]
pub enum ConversionError {
    MalformedTimestamp,
    InvalidText,
}

/// The conversion table: the device clock is a timestamp, the device name and
/// the serial number are text, and no other code is listed.
pub open spec fn spec_target_of(code: RegistryCode) -> Option<Target> {
    if code == (RegistryCode { a: 0, b: 0, c: 1, d: 0, e: 0, f: 255 }) {
        Some(Target::Timestamp)
    } else if code == (RegistryCode { a: 0, b: 0, c: 42, d: 0, e: 0, f: 255 }) {
        Some(Target::Text)
    } else if code == (RegistryCode { a: 0, b: 0, c: 96, d: 1, e: 0, f: 255 }) {
        Some(Target::Text)
    } else {
        None
    }
}

pub fn target_of(code: &RegistryCode) -> (t: Option<Target>)
    ensures
        t == spec_target_of(*code),
{
    if code.a == 0 && code.b == 0 && code.e == 0 && code.f == 255 {
        if code.c == 1 && code.d == 0 {
            Some(Target::Timestamp)
        } else if (code.c == 42 && code.d == 0) || (code.c == 96 && code.d == 1) {
            Some(Target::Text)
        } else {
            None
        }
    } else {
        None
    }
}

/// A time field is either unspecified (255) or at most `max`.
pub open spec fn time_field_valid(x: u8, max: u8) -> bool {
    x == 255 || x <= max
}

/// A time field's value, `None` where the device left it unspecified.
pub open spec fn spec_field(x: u8) -> Option<u8> {
    if x == 255 {
        None
    } else {
        Some(x)
    }
}

/// The twelve-byte timestamp encoding: year (two bytes, big-endian), month,
/// day, weekday, hour, minute, second, hundredth, offset in minutes (two
/// bytes, big-endian, signed) and clock status. It is valid when all twelve
/// bytes are there and each time field is in its range; bytes after the
/// twelfth are not looked at.
pub open spec fn timestamp_encoding_valid(b: Seq<u8>) -> bool {
    &&& b.len() >= 12
    &&& time_field_valid(b[5], 23)
    &&& time_field_valid(b[6], 59)
    &&& time_field_valid(b[7], 59)
    &&& time_field_valid(b[8], 99)
}

/// The offset that two big-endian bytes encode, `None` for the pattern
/// 0x8000 that stands for "unspecified".
pub open spec fn spec_offset(hi: u8, lo: u8) -> Option<i16> {
    let raw = hi as int * 256 + lo as int;
    if raw == 0x8000 {
        None
    } else if raw < 0x8000 {
        Some(raw as i16)
    } else {
        Some((raw - 0x10000) as i16)
    }
}

/// The timestamp that a valid encoding holds, field by field.
pub open spec fn spec_timestamp(b: Seq<u8>) -> Timestamp {
    Timestamp {
        year: (b[0] as int * 256 + b[1] as int) as u16,
        month: b[2],
        day: b[3],
        weekday: b[4],
        hour: spec_field(b[5]),
        minute: spec_field(b[6]),
        second: spec_field(b[7]),
        hundredth: spec_field(b[8]),
        offset_minutes: spec_offset(b[9], b[10]),
        clock_status: spec_field(b[11]),
    }
}

/// Asks `dlms_cosem::DateTime::parse` whether it accepts the bytes. The
/// parser reads five date bytes, four time bytes, two offset bytes and one
/// status byte; it fails when the input ends before the twelfth byte or when
/// hour, minute, second or hundredth is neither 255 nor within its range, and
/// it checks nothing else.
#[verifier::external_body]
fn clock_parses(bytes: &[u8]) -> (ok: bool)
    ensures
        ok == timestamp_encoding_valid(bytes@),
{
    dlms_cosem::DateTime::parse(bytes).is_ok()
}

/// `String::from_utf8` yields the text that the bytes encode when they are
/// valid UTF-8, and fails otherwise.
#[verifier::external_body]
fn text_of_bytes(bytes: Vec<u8>) -> (text: Option<String>)
    ensures
        text is Some <==> valid_utf8(bytes@),
        text matches Some(s) ==> s@ == decode_utf8(bytes@),
{
    match String::from_utf8(bytes) {
        Ok(s) => Some(s),
        Err(_) => None,
    }
}

fn field(x: u8) -> (r: Option<u8>)
    ensures
        r == spec_field(x),
{
    if x == 255 {
        None
    } else {
        Some(x)
    }
}

fn read_timestamp(bytes: &[u8]) -> (t: Timestamp)
    requires
        bytes@.len() >= 12,
    ensures
        t == spec_timestamp(bytes@),
{
    let year: u16 = (bytes[0] as u16) * 256 + (bytes[1] as u16);
    let raw: u16 = (bytes[9] as u16) * 256 + (bytes[10] as u16);
    let offset_minutes: Option<i16> = if raw == 0x8000 {
        None
    } else if raw < 0x8000 {
        Some(raw as i16)
    } else {
        Some((raw as i32 - 0x10000) as i16)
    };
    Timestamp {
        year,
        month: bytes[2],
        day: bytes[3],
        weekday: bytes[4],
        hour: field(bytes[5]),
        minute: field(bytes[6]),
        second: field(bytes[7]),
        hundredth: field(bytes[8]),
        offset_minutes,
        clock_status: field(bytes[11]),
    }
}

/// What parsing a timestamp encoding yields.
pub open spec fn spec_parse_timestamp(b: Seq<u8>) -> Result<Timestamp, ConversionError> {
    if timestamp_encoding_valid(b) {
        Ok(spec_timestamp(b))
    } else {
        Err(ConversionError::MalformedTimestamp)
    }
}

/// Decodes a timestamp. A valid encoding gives every field as encoded; any
/// other input gives an error and no timestamp at all.
pub fn parse_timestamp(bytes: &[u8]) -> (r: Result<Timestamp, ConversionError>)
    ensures
        r == spec_parse_timestamp(bytes@),
{
    if clock_parses(bytes) {
        Ok(read_timestamp(bytes))
    } else {
        Err(ConversionError::MalformedTimestamp)
    }
}

/// What decoding bytes as text yields.
pub open spec fn spec_parse_text(b: Seq<u8>) -> Result<Seq<char>, ConversionError> {
    if valid_utf8(b) {
        Ok(decode_utf8(b))
    } else {
        Err(ConversionError::InvalidText)
    }
}

/// Decodes UTF-8 text. Invalid bytes give an error, never an altered or
/// shortened text.
pub fn parse_text(bytes: Vec<u8>) -> (r: Result<String, ConversionError>)
    ensures
        match r {
            Ok(s) => spec_parse_text(bytes@) == Ok::<Seq<char>, ConversionError>(s@),
            Err(e) => spec_parse_text(bytes@) == Err::<Seq<char>, ConversionError>(e),
        },
{
    match text_of_bytes(bytes) {
        Some(s) => Ok(s),
        None => Err(ConversionError::InvalidText),
    }
}

/// Normalisation towards a target: a byte string is converted to the target,
/// every other value stays as it is, and without a target nothing changes.
pub open spec fn spec_normalize_to(target: Option<Target>, v: ValueView) -> Result<
    ValueView,
    ConversionError,
> {
    match (target, v) {
        (Some(Target::Timestamp), ValueView::Bytes(b)) => match spec_parse_timestamp(b) {
            Ok(t) => Ok(ValueView::Timestamp(t)),
            Err(e) => Err(e),
        },
        (Some(Target::Text), ValueView::Bytes(b)) => match spec_parse_text(b) {
            Ok(s) => Ok(ValueView::Text(s)),
            Err(e) => Err(e),
        },
        _ => Ok(v),
    }
}

/// Normalisation of the value under a code: towards the target that the
/// conversion table gives for the code.
pub open spec fn spec_normalize(code: RegistryCode, v: ValueView) -> Result<
    ValueView,
    ConversionError,
> {
    spec_normalize_to(spec_target_of(code), v)
}

/// The content of a normalisation result.
pub open spec fn view_result(r: Result<Value, ConversionError>) -> Result<
    ValueView,
    ConversionError,
> {
    match r {
        Ok(v) => Ok(v@),
        Err(e) => Err(e),
    }
}

/// Normalises a value towards a given target.
pub fn normalize_to(target: Option<Target>, value: Value) -> (r: Result<Value, ConversionError>)
    ensures
        view_result(r) == spec_normalize_to(target, value@),
{
    match target {
        None => Ok(value),
        Some(target) => match value {
            Value::Bytes(bytes) => match target {
                Target::Timestamp => match parse_timestamp(bytes.as_slice()) {
                    Ok(t) => Ok(Value::Timestamp(t)),
                    Err(e) => Err(e),
                },
                Target::Text => match parse_text(bytes) {
                    Ok(s) => Ok(Value::Text(s)),
                    Err(e) => Err(e),
                },
            },
            other => Ok(other),
        },
    }
}

/// Normalises the value that a reading holds under `code`.
pub fn normalize(code: &RegistryCode, value: Value) -> (r: Result<Value, ConversionError>)
    ensures
        view_result(r) == spec_normalize(*code, value@),
{
    normalize_to(target_of(code), value)
}

/// Normalising a normalised value changes nothing: whatever `normalize`
/// returns for a code is returned again when it is normalised under that code.
pub proof fn lemma_normalize_idempotent(code: RegistryCode, v: ValueView)
    ensures
        spec_normalize(code, v) matches Ok(w) ==> spec_normalize(code, w) == Ok::<
            ValueView,
            ConversionError,
        >(w),
{
}

/// A value that is no byte string is returned as it is, under every code.
pub proof fn lemma_normalize_keeps_other_values(code: RegistryCode, v: ValueView)
    requires
        !(v is Bytes),
    ensures
        spec_normalize(code, v) == Ok::<ValueView, ConversionError>(v),
{
}

/// Under a code whose target is a timestamp, a valid encoding is normalised
/// to the timestamp with the encoded fields, and every other byte string is
/// an error.
pub proof fn lemma_timestamp_normalization(code: RegistryCode, bytes: Seq<u8>)
    requires
        spec_target_of(code) == Some(Target::Timestamp),
    ensures
        timestamp_encoding_valid(bytes) ==> spec_normalize(code, ValueView::Bytes(bytes)) == Ok::<
            ValueView,
            ConversionError,
        >(ValueView::Timestamp(spec_timestamp(bytes))),
        !timestamp_encoding_valid(bytes) ==> spec_normalize(code, ValueView::Bytes(bytes)) == Err::<
            ValueView,
            ConversionError,
        >(ConversionError::MalformedTimestamp),
{
}

/// Under a code whose target is text, valid UTF-8 is normalised to the text
/// that it encodes, and every other byte string is an error.
pub proof fn lemma_text_normalization(code: RegistryCode, bytes: Seq<u8>)
    requires
        spec_target_of(code) == Some(Target::Text),
    ensures
        valid_utf8(bytes) ==> spec_normalize(code, ValueView::Bytes(bytes)) == Ok::<
            ValueView,
            ConversionError,
        >(ValueView::Text(decode_utf8(bytes))),
        !valid_utf8(bytes) ==> spec_normalize(code, ValueView::Bytes(bytes)) == Err::<
            ValueView,
            ConversionError,
        >(ConversionError::InvalidText),
{
}

} // verus!
