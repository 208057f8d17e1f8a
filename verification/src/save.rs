//! Save loading and schema migration. A save is JSON carrying a
//! `schema_version`; loading parses it, rejects corrupt data and saves from
//! a newer build, and migrates an older known version step by step up to
//! the current schema. Turning the migrated document into world state is
//! left to the caller.

use vstd::prelude::*;
use serde_json::Value;
use crate::text::{decimal, tagged};

verus! {

/// The current save format version.
pub const SAVE_SCHEMA_VERSION: u32 = 1;

#[verifier::external_type_specification]
#[verifier::external_body]
pub struct ExValue(serde_json::Value);

/// Why a save could not be loaded.
#[derive(Debug)]
pub enum SaveError {
    /// Malformed JSON, a missing or non-numeric `schema_version`, or a
    /// version with no registered migration.
    Corrupt(String),
    /// The save comes from a newer build than this one supports.
    UnsupportedFutureVersion { found: u32, supported: u32 },
}

/// What a JSON value holds as an object: `None` when it is not an object,
/// else each member's key mapped to the member's value written as compact
/// JSON text (the value's `Display`). A number that `as_u64` reads as `u`
/// is written as the decimal digits of `u` without leading zeros, and no
/// other value is written as bare digits.
pub uninterp spec fn json_member_texts(v: Value) -> Option<Map<Seq<char>, Seq<char>>>;

/// What `serde_json::from_str::<Value>` makes of the text `s`: the parsed
/// value's members as [`json_member_texts`] gives them, or, when it refuses
/// the text, its error's message (the error's `Display`, which names the
/// fault and where it stands).
pub uninterp spec fn json_parse(s: Seq<char>) -> Result<Option<Map<Seq<char>, Seq<char>>>, Seq<char>>;

/// Whether the JSON parser accepts the text `s`.
pub open spec fn json_accepts(s: Seq<char>) -> bool {
    json_parse(s) is Ok
}

/// The value of a string of decimal digits.
pub open spec fn digits_value(t: Seq<char>) -> int
    decreases t.len(),
{
    if t.len() == 0 { 0 } else { digits_value(t.drop_last()) * 10 + (t.last() as int - 48) }
}

/// The number a member's text writes as bare decimal digits (no sign, no
/// leading zero, no point or exponent), if it does and the number fits a
/// `u64`.
pub open spec fn u64_of_text(t: Seq<char>) -> Option<u64> {
    if t.len() > 0 && (forall|i: int| 0 <= i < t.len() ==> '0' <= #[trigger] t[i] <= '9')
        && (t[0] != '0' || t.len() == 1) && digits_value(t) <= u64::MAX {
        Some(digits_value(t) as u64)
    } else {
        None
    }
}

/// The member `key` of an object read as a `u64` (`None` for a
/// non-object, a missing member, or a member that is not a non-negative
/// integer fitting a `u64`).
pub open spec fn member_u64(members: Option<Map<Seq<char>, Seq<char>>>, key: Seq<char>) -> Option<u64> {
    match members {
        Some(m) => if m.contains_key(key) { u64_of_text(m[key]) } else { None },
        None => None,
    }
}

/// `serde_json::from_str::<Value>`: parses a JSON document, its error
/// converted to its message (`to_string`). The result is [`json_parse`] of
/// the text: the parsed members, or the refusal's message.
#[verifier::external_body]
fn parse_json(json: &str) -> (r: Result<Value, String>)
    ensures
        match (r, json_parse(json@)) {
            (Ok(v), Ok(members)) => members == json_member_texts(v),
            (Err(message), Err(refusal)) => message@ == refusal,
            _ => false,
        },
{
    match serde_json::from_str(json) {
        Ok(value) => Ok(value),
        Err(error) => Err(error.to_string()),
    }
}

/// The compact JSON text of a value (its `Display`), as in
/// [`json_member_texts`].
pub uninterp spec fn json_text(v: Value) -> Seq<char>;

/// `Value::get` with a string key: the member `key` of an object, whose
/// text is the one [`json_member_texts`] gives for that key; `None` for a
/// non-object or a missing member.
#[verifier::external_body]
fn json_get<'a>(value: &'a Value, key: &str) -> (r: Option<&'a Value>)
    ensures
        match json_member_texts(*value) {
            Some(m) => if m.contains_key(key@) { r matches Some(x) && json_text(*x) == m[key@] } else { r is None },
            None => r is None,
        },
{
    value.get(key)
}

/// `Value::as_u64`: the value as a `u64` exactly when its text is the bare
/// decimal digits of a number that fits.
#[verifier::external_body]
fn json_as_u64(value: &Value) -> (r: Option<u64>)
    ensures
        r == u64_of_text(json_text(*value)),
{
    value.as_u64()
}

/// `Value::as_object_mut` then `Map::insert` of `Value::from(n)`: sets the
/// member `key` of an object to the number `n` (written as its decimal
/// digits), and leaves a non-object unchanged.
#[verifier::external_body]
fn json_set_u64(value: &mut Value, key: &str, n: u64)
    ensures
        json_member_texts(*old(value)) matches Some(m)
            ==> json_member_texts(*final(value)) == Some(m.insert(key@, decimal(n as nat))),
        json_member_texts(*old(value)) is None ==> *final(value) == *old(value),
{
    if let Some(object) = value.as_object_mut() {
        object.insert(key.to_string(), Value::from(n));
    }
}

/// The members once the version is set to [`SAVE_SCHEMA_VERSION`]; a
/// non-object stays as it is.
pub open spec fn with_current_version(members: Option<Map<Seq<char>, Seq<char>>>) -> Option<Map<Seq<char>, Seq<char>>> {
    match members {
        Some(m) => Some(m.insert("schema_version"@, decimal(SAVE_SCHEMA_VERSION as nat))),
        None => None,
    }
}

/// The version a too-new save reports: the number itself, or `u32::MAX`
/// when it does not fit.
pub open spec fn reported_version(v: u64) -> u32 {
    if v > u32::MAX { u32::MAX } else { v as u32 }
}

/// The message for a document without a usable `schema_version`.
pub open spec fn missing_version_message() -> Seq<char> {
    "missing or non-numeric schema_version"@
}

/// The message for a version with no registered migration step.
pub open spec fn no_migration_message(version: u32) -> Seq<char> {
    "no migration registered from schema_version "@ + decimal(version as nat)
}

/// The version check applied to a save's `schema_version` field (`None`
/// when it is missing or not a non-negative integer that fits a `u64`). A
/// missing field is corrupt, a version above [`SAVE_SCHEMA_VERSION`] is
/// from an unsupported future build (reported as [`reported_version`]), and
/// anything else is the version to migrate from.
pub fn check_schema_version(field: Option<u64>) -> (r: Result<u32, SaveError>)
    ensures
        match field {
            None => r matches Err(SaveError::Corrupt(m)) && m@ == missing_version_message(),
            Some(v) => if v > SAVE_SCHEMA_VERSION {
                r matches Err(SaveError::UnsupportedFutureVersion { found, supported })
                    && found == reported_version(v) && supported == SAVE_SCHEMA_VERSION
            } else {
                r matches Ok(version) && version == v
            },
        },
{
    match field {
        None => Err(SaveError::Corrupt(String::from_str("missing or non-numeric schema_version"))),
        Some(raw) => {
            if raw > SAVE_SCHEMA_VERSION as u64 {
                let found: u32 = if raw > u32::MAX as u64 { u32::MAX } else { raw as u32 };
                Err(SaveError::UnsupportedFutureVersion { found, supported: SAVE_SCHEMA_VERSION })
            } else {
                Ok(raw as u32)
            }
        },
    }
}

/// Migrate a document one schema version up from `from_version`. Version 0
/// gets its `schema_version` member set to 1, every other member kept (a
/// non-object is returned as it is); no other version has a registered
/// step.
pub fn migrate_step(from_version: u32, value: Value) -> (r: Result<Value, SaveError>)
    ensures
        from_version == 0 ==> (r matches Ok(next)
            && json_member_texts(next) == with_current_version(json_member_texts(value))
            && (json_member_texts(value) is None ==> next == value)),
        from_version != 0 ==> (r matches Err(SaveError::Corrupt(m)) && m@ == no_migration_message(from_version)),
{
    if from_version == 0 {
        let mut value = value;
        json_set_u64(&mut value, "schema_version", 1);
        Ok(value)
    } else {
        Err(SaveError::Corrupt(tagged("no migration registered from schema_version ", from_version as u64)))
    }
}

/// Load a save document: parse it, check its schema version, and migrate
/// it up to [`SAVE_SCHEMA_VERSION`]. Malformed JSON and a missing or
/// non-numeric version are corrupt; a newer version is refused as
/// unsupported; an older known version is migrated, and the current one
/// is returned as parsed.
pub fn load_and_migrate(json: &str) -> (r: Result<Value, SaveError>)
    ensures
        match json_parse(json@) {
            Err(refusal) => r matches Err(SaveError::Corrupt(m)) && m@ == refusal,
            Ok(members) => match member_u64(members, "schema_version"@) {
                None => r matches Err(SaveError::Corrupt(m)) && m@ == missing_version_message(),
                Some(v) => if v > SAVE_SCHEMA_VERSION {
                    r matches Err(SaveError::UnsupportedFutureVersion { found, supported })
                        && found == reported_version(v) && supported == SAVE_SCHEMA_VERSION
                } else {
                    r matches Ok(out) && json_member_texts(out) == (if v == 0 {
                        with_current_version(members)
                    } else {
                        members
                    })
                },
            },
        },
{
    let value = match parse_json(json) {
        Ok(value) => value,
        Err(message) => {
            return Err(SaveError::Corrupt(message));
        },
    };
    let ghost members = json_member_texts(value);
    let field = match json_get(&value, "schema_version") {
        Some(member) => json_as_u64(member),
        None => None,
    };
    let version = match check_schema_version(field) {
        Ok(version) => version,
        Err(error) => {
            return Err(error);
        },
    };
    let mut current: u32 = version;
    let mut value = value;
    while current < SAVE_SCHEMA_VERSION
        invariant
            version <= current <= SAVE_SCHEMA_VERSION,
            json_member_texts(value) == (if current == version { members } else { with_current_version(members) }),
        decreases SAVE_SCHEMA_VERSION - current,
    {
        value = match migrate_step(current, value) {
            Ok(next) => next,
            Err(error) => {
                return Err(error);
            },
        };
        current += 1;
    }
    Ok(value)
}

} // verus!
