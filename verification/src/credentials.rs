//! Secret values of Caddy's environment variables: kept in the system keyring,
//! with a file-backed map of strings as the fallback store.
//!
//! The fallback store is read and written by the caller; the functions here
//! take it as a [`StringMap`] and tell when it has to be written back.
use vstd::prelude::*;

use keyring::Entry;

use crate::string_map::StringMap;
use crate::text::{chars_of, concat2, concat3, owned, str_eq};

verus! {

/// The keyring service under which the secrets are stored.
pub const SERVICE: &'static str = "dev.andcake.pulsegw";

/// The name of the fallback secrets file.
pub const FALLBACK_FILE: &'static str = "env_secrets.json";

#[verifier::external_type_specification]
#[verifier::external_body]
pub struct ExEntry(keyring::Entry);

#[verifier::external_type_specification]
#[verifier::external_body]
pub struct ExKeyringError(keyring::Error);

/// Calls `keyring::Entry::new`. Whether an entry can be made depends on the
/// platform's credential store, so nothing is claimed of the result.
#[verifier::external_body]
fn new_entry(service: &str, user: &str) -> Result<Entry, keyring::Error> {
    Entry::new(service, user)
}

/// Calls `Display::fmt` of `keyring::Error` through `to_string`. Nothing is
/// claimed of the text.
#[verifier::external_body]
fn keyring_error_text(e: &keyring::Error) -> String {
    e.to_string()
}

/// Calls `keyring::Entry::set_password`. The outcome depends on the
/// platform's credential store, so nothing is claimed of it.
#[verifier::external_body]
fn set_password(e: &Entry, password: &str) -> Result<(), keyring::Error> {
    e.set_password(password)
}

/// Calls `keyring::Entry::get_password`. What it reads depends on the
/// platform's credential store, so nothing is claimed of it.
#[verifier::external_body]
fn get_password(e: &Entry) -> Result<String, keyring::Error> {
    e.get_password()
}

/// Calls `keyring::Entry::delete_credential`. The outcome depends on the
/// platform's credential store, so nothing is claimed of it.
#[verifier::external_body]
fn delete_credential(e: &Entry) -> Result<(), keyring::Error> {
    e.delete_credential()
}

/// The keyring entry for `key` under [`SERVICE`]; a failure is reported as
/// `Keyring error: ` followed by the keyring's own message.
pub fn entry(key: &str) -> (r: Result<Entry, String>)
    ensures
        r matches Err(m) ==> exists|t: Seq<char>| m@ == "Keyring error: "@ + t,
{
    match new_entry(SERVICE, key) {
        Ok(e) => Ok(e),
        Err(err) => {
            let text = keyring_error_text(&err);
            Err(concat2("Keyring error: ", text.as_str()))
        },
    }
}

/// The path of the fallback secrets file in `dir`, joined as `Path::join`
/// joins a relative file name.
pub open spec fn join_path(dir: Seq<char>, file: Seq<char>) -> Seq<char> {
    if dir.len() == 0 {
        file
    } else if dir.last() == '/' {
        dir + file
    } else {
        dir + "/"@ + file
    }
}

/// The fallback secrets file: `env_secrets.json` in the application's
/// configuration directory, or in the working directory when there is none.
pub fn fallback_path(config_dir: Option<&str>) -> (r: String)
    ensures
        r@ == join_path(
            match config_dir {
                Some(d) => d@,
                None => "."@,
            },
            FALLBACK_FILE@,
        ),
{
    let dir: &str = match config_dir {
        Some(d) => d,
        None => ".",
    };
    let cs = chars_of(dir);
    if cs.len() == 0 {
        owned(FALLBACK_FILE)
    } else if cs[cs.len() - 1] == '/' {
        concat2(dir, FALLBACK_FILE)
    } else {
        concat3(dir, "/", FALLBACK_FILE)
    }
}

/// Looks `key` up in the fallback store.
pub fn lookup_fallback(fallback: &StringMap, key: &str) -> (r: Result<String, String>)
    ensures
        fallback@.contains_key(key@) ==> (r matches Ok(v) && v@ == fallback@[key@]),
        !fallback@.contains_key(key@) ==> (r matches Err(m) && m@ == "No value stored for '"@ + key@ + "'"@),
{
    match fallback.get(key) {
        Some(v) => Ok(v.clone()),
        None => Err(concat3("No value stored for '", key, "'")),
    }
}

/// Records `value` under `key` in the fallback store unless the keyring
/// confirmed that it holds it; tells whether the fallback store changed.
pub fn store_in_fallback(keyring_confirmed: bool, key: &str, value: &str, fallback: &mut StringMap) -> (r: bool)
    ensures
        r == !keyring_confirmed,
        keyring_confirmed ==> final(fallback)@ == old(fallback)@,
        !keyring_confirmed ==> final(fallback)@ == old(fallback)@.insert(key@, value@),
{
    if keyring_confirmed {
        false
    } else {
        fallback.insert(owned(key), owned(value));
        true
    }
}

/// Whether the keyring takes `value` under `key` and reads it back unchanged.
fn keyring_holds(key: &str, value: &str) -> bool {
    if let Ok(e) = entry(key) {
        if set_password(&e, value).is_ok() {
            if let Ok(readback) = get_password(&e) {
                return str_eq(readback.as_str(), value);
            }
        }
    }
    false
}

/// Stores `value` under `key`: in the keyring when it takes the value and
/// reads it back unchanged, otherwise in the fallback store. Tells whether
/// the fallback store changed and has to be written back.
pub fn store_value(key: &str, value: &str, fallback: &mut StringMap) -> (r: Result<bool, String>)
    ensures
        r matches Ok(wrote) && (if wrote {
            final(fallback)@ == old(fallback)@.insert(key@, value@)
        } else {
            final(fallback)@ == old(fallback)@
        }),
{
    let confirmed = keyring_holds(key, value);
    Ok(store_in_fallback(confirmed, key, value, fallback))
}

/// Saves the value of an environment variable: an empty value removes the
/// stored credential, any other value is stored as [`store_value`] does.
/// Tells whether the fallback store changed and has to be written back.
pub fn save_credential(key: &str, value: &str, fallback: &mut StringMap) -> (r: Result<bool, String>)
    ensures
        value@.len() == 0 ==> {
            &&& r matches Ok(changed) && changed == old(fallback)@.contains_key(key@)
            &&& final(fallback)@ == old(fallback)@.remove(key@)
        },
        value@.len() > 0 ==> (r matches Ok(wrote) && (if wrote {
            final(fallback)@ == old(fallback)@.insert(key@, value@)
        } else {
            final(fallback)@ == old(fallback)@
        })),
{
    if value.is_empty() {
        Ok(delete_value(key, fallback))
    } else {
        store_value(key, value, fallback)
    }
}

/// The value for `key` given the keyring's reading: the keyring's value when
/// it gave one, else the fallback store's, else an error naming the key.
pub open spec fn value_from_spec(
    reading: Option<Seq<char>>,
    fallback: Map<Seq<char>, Seq<char>>,
    key: Seq<char>,
) -> Result<Seq<char>, Seq<char>> {
    match reading {
        Some(v) => Ok(v),
        None => if fallback.contains_key(key) {
            Ok(fallback[key])
        } else {
            Err("No value stored for '"@ + key + "'"@)
        },
    }
}

/// The value for `key` given what the keyring gave: the keyring's value when
/// it gave one, else the fallback store's, else an error naming the key.
pub fn value_from(keyring_value: Option<String>, fallback: &StringMap, key: &str) -> (r: Result<String, String>)
    ensures
        keyring_value matches Some(v) ==> (r matches Ok(x) && x@ == v@),
        keyring_value is None ==> (fallback@.contains_key(key@) ==> (r matches Ok(x) && x@ == fallback@[key@])),
        keyring_value is None ==> (!fallback@.contains_key(key@) ==> (r matches Err(m) && m@ == "No value stored for '"@ + key@ + "'"@)),
{
    match keyring_value {
        Some(v) => Ok(v),
        None => lookup_fallback(fallback, key),
    }
}

/// The mathematical value of a `Result` of strings.
pub open spec fn result_view(r: Result<String, String>) -> Result<Seq<char>, Seq<char>> {
    match r {
        Ok(v) => Ok(v@),
        Err(e) => Err(e@),
    }
}

/// What the keyring gave when it was read under a key. Only reading the
/// keyring makes one, so a reading always carries the key it was read under.
pub struct KeyringReading {
    key: String,
    value: Option<String>,
}

impl KeyringReading {
    /// The key the keyring was read under.
    pub closed spec fn key_view(&self) -> Seq<char> {
        self.key@
    }

    /// What the keyring gave: its value under the key, if it had one.
    pub closed spec fn value_view(&self) -> Option<Seq<char>> {
        match self.value {
            Some(v) => Some(v@),
            None => None,
        }
    }

    /// What the keyring gave.
    pub fn value(&self) -> (r: Option<String>)
        ensures
            r.deep_view() == self.value_view(),
    {
        match &self.value {
            Some(x) => Some(x.clone()),
            None => None,
        }
    }
}

/// Reads the keyring under `key`: what it holds there, if it can be read.
pub(crate) fn keyring_value(key: &str) -> (r: KeyringReading)
    ensures
        r.key_view() == key@,
{
    let mut value: Option<String> = None;
    if let Ok(e) = entry(key) {
        if let Ok(val) = get_password(&e) {
            value = Some(val);
        }
    }
    KeyringReading { key: owned(key), value }
}

/// The value for the key of `reading`: the keyring's value when it gave
/// one, else the fallback store's, else an error naming the key.
pub fn value_of(reading: &KeyringReading, fallback: &StringMap) -> (r: Result<String, String>)
    ensures
        result_view(r) == value_from_spec(reading.value_view(), fallback@, reading.key_view()),
{
    value_from(reading.value(), fallback, reading.key.as_str())
}

/// The value stored under `key`: from the keyring when it has one, else from
/// the fallback store, else an error naming the key.
pub fn get_value(key: &str, fallback: &StringMap) -> (r: Result<String, String>)
    ensures
        fallback@.contains_key(key@) ==> r is Ok,
        r matches Err(m) ==> !fallback@.contains_key(key@) && m@ == "No value stored for '"@ + key@ + "'"@,
        exists|reading: Option<Seq<char>>| result_view(r) == #[trigger] value_from_spec(reading, fallback@, key@),
{
    let reading = keyring_value(key);
    let r = value_of(&reading, fallback);
    assert(result_view(r) == value_from_spec(reading.value_view(), fallback@, key@));
    r
}

/// Whether a value is stored under `key`.
pub fn has_value(key: &str, fallback: &StringMap) -> (r: bool)
    ensures
        fallback@.contains_key(key@) ==> r,
{
    get_value(key, fallback).is_ok()
}

/// Deletes the value stored under `key` from the keyring and from the
/// fallback store. Tells whether the fallback store changed and has to be
/// written back.
pub fn delete_value(key: &str, fallback: &mut StringMap) -> (r: bool)
    ensures
        final(fallback)@ == old(fallback)@.remove(key@),
        r == old(fallback)@.contains_key(key@),
{
    if let Ok(e) = entry(key) {
        let _ = delete_credential(&e);
    }
    fallback.remove(key)
}

} // verus!
