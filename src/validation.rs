//! Field checks applied to submitted readings and key-provisioning requests.
use vstd::prelude::*;

verus! {

/// Upper bound, in UTF-8 bytes, on a sensor id.
pub const MAX_SENSOR_ID_LENGTH: usize = 100;

/// Upper bound, in UTF-8 bytes, on a unit label.
pub const MAX_UNIT_LENGTH: usize = 50;

/// Upper bound, in UTF-8 bytes, on the display name of an API key.
pub const MAX_NAME_LENGTH: usize = 255;

pub const SENSOR_ID_EMPTY: &'static str = "Sensor ID cannot be empty";

pub const SENSOR_ID_TOO_LONG: &'static str = "Sensor ID exceeds maximum length of 100";

pub const SENSOR_ID_BAD_CHARS: &'static str =
    "Sensor ID contains invalid characters. Only letters, numbers, '-', and '_' are allowed.";

pub const UNIT_EMPTY: &'static str = "Unit cannot be empty";

pub const UNIT_TOO_LONG: &'static str = "Unit exceeds maximum length of 50";

pub const UNIT_BAD_CHARS: &'static str =
    "Unit contains invalid characters. Only letters, numbers, and symbols (°%/ ) are allowed.";

pub const NAME_EMPTY: &'static str = "API key name cannot be empty";

pub const NAME_TOO_LONG: &'static str = "Name exceeds maximum length of 255";

/// Whether a character is alphabetic or numeric in the Unicode sense.
pub uninterp spec fn alphanumeric(c: char) -> bool;

/// Relies on `char::is_alphanumeric`: its answer depends on the character alone.
#[verifier::external_body]
fn is_alphanumeric(c: char) -> (r: bool)
    ensures
        r == alphanumeric(c),
{
    c.is_alphanumeric()
}

/// The result is an error carrying exactly `msg`.
pub open spec fn fails_with(r: Result<(), String>, msg: &str) -> bool {
    r is Err && r->Err_0@ == msg@
}

pub open spec fn sensor_id_char(c: char) -> bool {
    alphanumeric(c) || c == '-' || c == '_'
}

pub open spec fn unit_char(c: char) -> bool {
    alphanumeric(c) || c == '°' || c == '%' || c == '/' || c == ' '
}

/// Length of a string in UTF-8 bytes.
pub open spec fn byte_len(s: &str) -> usize {
    s.len()
}

/// A submitted payload failed one of the checks; the message says which.
#[derive(Debug, Clone, PartialEq, Eq)]
pub struct ValidationError(pub String);

/// The body of an error reply: a message, a stable code, and optional details.
#[derive(Debug, Clone, PartialEq, Eq)]
pub struct ErrorResponse {
    pub error: String,
    pub code: String,
    pub details: Option<String>,
}

pub struct Validator;

impl Validator {
    /// A sensor id is non-empty, at most `MAX_SENSOR_ID_LENGTH` bytes, and made of
    /// alphanumerics, `-` and `_`. The checks are made in that order.
    pub fn sensor_id(id: &str) -> (r: Result<(), String>)
        ensures
            id@.len() == 0 ==> fails_with(r, SENSOR_ID_EMPTY),
            id@.len() > 0 && byte_len(id) > MAX_SENSOR_ID_LENGTH ==> fails_with(
                r,
                SENSOR_ID_TOO_LONG,
            ),
            id@.len() > 0 && byte_len(id) <= MAX_SENSOR_ID_LENGTH ==> {
                if forall|i: int| 0 <= i < id@.len() ==> sensor_id_char(#[trigger] id@[i]) {
                    r is Ok
                } else {
                    fails_with(r, SENSOR_ID_BAD_CHARS)
                }
            },
    {
        if id.is_empty() {
            return Err(SENSOR_ID_EMPTY.to_string());
        }
        if id.len() > MAX_SENSOR_ID_LENGTH {
            return Err(SENSOR_ID_TOO_LONG.to_string());
        }
        for c in it: id.chars()
            invariant
                it.seq() == id@,
                byte_len(id) <= MAX_SENSOR_ID_LENGTH,
                forall|i: int| 0 <= i < it.index() ==> sensor_id_char(#[trigger] id@[i]),
        {
            if !(is_alphanumeric(c) || c == '-' || c == '_') {
                return Err(SENSOR_ID_BAD_CHARS.to_string());
            }
        }
        Ok(())
    }

    /// A unit label is non-empty, at most `MAX_UNIT_LENGTH` bytes, and made of
    /// alphanumerics and the symbols `°`, `%`, `/` and space. The checks are made
    /// in that order.
    pub fn unit(unit: &str) -> (r: Result<(), String>)
        ensures
            unit@.len() == 0 ==> fails_with(r, UNIT_EMPTY),
            unit@.len() > 0 && byte_len(unit) > MAX_UNIT_LENGTH ==> fails_with(r, UNIT_TOO_LONG),
            unit@.len() > 0 && byte_len(unit) <= MAX_UNIT_LENGTH ==> {
                if forall|i: int| 0 <= i < unit@.len() ==> unit_char(#[trigger] unit@[i]) {
                    r is Ok
                } else {
                    fails_with(r, UNIT_BAD_CHARS)
                }
            },
    {
        if unit.is_empty() {
            return Err(UNIT_EMPTY.to_string());
        }
        if unit.len() > MAX_UNIT_LENGTH {
            return Err(UNIT_TOO_LONG.to_string());
        }
        for c in it: unit.chars()
            invariant
                it.seq() == unit@,
                byte_len(unit) <= MAX_UNIT_LENGTH,
                forall|i: int| 0 <= i < it.index() ==> unit_char(#[trigger] unit@[i]),
        {
            if !(is_alphanumeric(c) || c == '°' || c == '%' || c == '/' || c == ' ') {
                return Err(UNIT_BAD_CHARS.to_string());
            }
        }
        Ok(())
    }

    /// A key's display name is non-empty and at most `MAX_NAME_LENGTH` bytes.
    pub fn api_key_name(name: &str) -> (r: Result<(), String>)
        ensures
            name@.len() == 0 ==> fails_with(r, NAME_EMPTY),
            name@.len() > 0 && byte_len(name) > MAX_NAME_LENGTH ==> fails_with(r, NAME_TOO_LONG),
            name@.len() > 0 && byte_len(name) <= MAX_NAME_LENGTH ==> r is Ok,
    {
        if name.is_empty() {
            return Err(NAME_EMPTY.to_string());
        }
        if name.len() > MAX_NAME_LENGTH {
            return Err(NAME_TOO_LONG.to_string());
        }
        Ok(())
    }
}

} // verus!
