//! The fingerprint bridge's decision logic: input validation for the native
//! string boundary, outcome interpretation, and the enrolled-finger cache
//! that must stay consistent with the native store.

use vstd::prelude::*;
use vstd::string::*;

use crate::configmodel::FingerConfig;
use crate::errors::{ErrorKind, NativeError};

verus! {

/// Options handed to one native authentication attempt.
#[derive(Debug, Clone, Copy, PartialEq, Eq, Structural)]
pub struct FingerprintAuthConfig {
    pub retries: i32,
}

/// One reported reader, as the device list presents it.
#[derive(Debug, Clone)]
pub struct FingerprintDevice {
    pub name: String,
    pub driver: String,
    pub device_id: String,
}

/// A string can cross the native boundary exactly when it embeds no
/// terminator character.
pub open spec fn c_encodable(s: Seq<char>) -> bool {
    forall|i: int| 0 <= i < s.len() ==> s[i] != '\0'
}

/// Checks a string for embedded terminator characters.
pub fn is_c_encodable(s: &str) -> (r: bool)
    ensures
        r == c_encodable(s@),
{
    let n = s.unicode_len();
    let mut i: usize = 0;
    while i < n
        invariant
            n == s@.len(),
            i <= n,
            forall|j: int| 0 <= j < i ==> s@[j] != '\0',
        decreases n - i,
    {
        if s.get_char(i) == '\0' {
            return false;
        }
        i += 1;
    }
    true
}

/// Validates a username for the native string representation.
pub fn check_username(username: &str) -> (r: Result<(), NativeError>)
    ensures
        match r {
            Ok(_) => c_encodable(username@),
            Err(e) => !c_encodable(username@) && e.kind == ErrorKind::InvalidArgument
                && e.message@ == "Invalid username"@,
        },
{
    if is_c_encodable(username) {
        Ok(())
    } else {
        Err(NativeError::new(ErrorKind::InvalidArgument, "Invalid username"))
    }
}

/// Validates a finger name for the native string representation.
pub fn check_finger_name(finger_name: &str) -> (r: Result<(), NativeError>)
    ensures
        match r {
            Ok(_) => c_encodable(finger_name@),
            Err(e) => !c_encodable(finger_name@) && e.kind == ErrorKind::InvalidArgument
                && e.message@ == "Invalid finger name"@,
        },
{
    if is_c_encodable(finger_name) {
        Ok(())
    } else {
        Err(NativeError::new(ErrorKind::InvalidArgument, "Invalid finger name"))
    }
}

/// The device list shown for the hardware's availability: one default
/// reader when hardware is present, none otherwise.
pub fn fingerprint_devices_for(available: bool) -> (devices: Vec<FingerprintDevice>)
    ensures
        available ==> devices@.len() == 1 && devices@[0].name@ == "Default Fingerprint Reader"@
            && devices@[0].driver@ == "fprintd"@ && devices@[0].device_id@ == "default"@,
        !available ==> devices@.len() == 0,
{
    let mut devices: Vec<FingerprintDevice> = Vec::new();
    if available {
        devices.push(
            FingerprintDevice {
                name: String::from_str("Default Fingerprint Reader"),
                driver: String::from_str("fprintd"),
                device_id: String::from_str("default"),
            },
        );
    }
    devices
}

/// Whether one authentication attempt counts as accepted: only a `Success`
/// outcome does; every other outcome is a refusal the caller may retry.
pub fn auth_outcome_accepted(outcome: crate::AuthResult) -> (ok: bool)
    ensures
        ok == (outcome == crate::AuthResult::Success),
{
    match outcome {
        crate::AuthResult::Success => true,
        _ => false,
    }
}

/// The retry count used when a caller names none.
pub fn retries_or_default(retries: Option<i32>) -> (r: i32)
    ensures
        match retries {
            Some(v) => r == v,
            None => r == 3,
        },
{
    match retries {
        Some(v) => v,
        None => 3,
    }
}

/// The configuration cache records `name` among the enrolled fingers.
pub open spec fn has_finger(fingers: Seq<FingerConfig>, name: Seq<char>) -> bool {
    exists|i: int| 0 <= i < fingers.len() && fingers[i].name@ == name
}

/// Looks a finger name up in the configuration cache.
pub fn finger_in_config(fingers: &Vec<FingerConfig>, finger_name: &str) -> (r: bool)
    ensures
        r == has_finger(fingers@, finger_name@),
{
    let mut i: usize = 0;
    while i < fingers.len()
        invariant
            i <= fingers@.len(),
            forall|j: int| 0 <= j < i ==> fingers@[j].name@ != finger_name@,
        decreases fingers@.len() - i,
    {
        if crate::strutil::str_eq(fingers[i].name.as_str(), finger_name) {
            return true;
        }
        i += 1;
    }
    proof {
        if has_finger(fingers@, finger_name@) {
            let j = choose|j: int| 0 <= j < fingers@.len() && fingers@[j].name@ == finger_name@;
            assert(false);
        }
    }
    false
}

/// The message reported for a duplicate enrollment of `name`.
pub open spec fn conflict_message(name: Seq<char>) -> Seq<char> {
    "Finger "@ + name + " is already in config"@
}

/// The message reported when `name` is not in the cache.
pub open spec fn not_found_message(name: Seq<char>) -> Seq<char> {
    "Finger "@ + name + " not found in config"@
}

fn finger_message(name: &str, suffix: &str) -> (s: String)
    ensures
        s@ == "Finger "@ + name@ + suffix@,
{
    let mut s = String::from_str("Finger ");
    s.append(name);
    s.append(suffix);
    s
}

/// Checked before the native enroll call is made: hardware must be
/// present, and a finger name already recorded in the cache is rejected as a
/// conflict, so the native call is never issued a second time for that name.
pub fn enroll_precheck(available: bool, fingers: &Vec<FingerConfig>, finger_name: &str) -> (r:
    Result<(), NativeError>)
    ensures
        match r {
            Ok(_) => available && !has_finger(fingers@, finger_name@),
            Err(e) => if !available {
                e.kind == ErrorKind::Unavailable && e.message@
                    == "Fingerprint device not available"@
            } else {
                has_finger(fingers@, finger_name@) && e.kind == ErrorKind::Conflict && e.message@
                    == conflict_message(finger_name@)
            },
        },
{
    if !available {
        return Err(NativeError::new(ErrorKind::Unavailable, "Fingerprint device not available"));
    }
    if finger_in_config(fingers, finger_name) {
        let msg = finger_message(finger_name, " is already in config");
        return Err(NativeError { kind: ErrorKind::Conflict, message: msg });
    }
    Ok(())
}

/// Records a successful enrollment in the cache: rejected as a conflict when
/// the name is already present (the cache is then left untouched), otherwise
/// appended with its enrollment time.
pub fn record_enrollment(fingers: &mut Vec<FingerConfig>, finger_name: &str, enrolled_at: u64) -> (
    r: Result<(), NativeError>)
    ensures
        match r {
            Ok(_) => {
                &&& !has_finger(old(fingers)@, finger_name@)
                &&& final(fingers)@.len() == old(fingers)@.len() + 1
                &&& final(fingers)@[old(fingers)@.len() as int].name@ == finger_name@
                &&& final(fingers)@[old(fingers)@.len() as int].created_at == enrolled_at
                &&& forall|j: int|
                    0 <= j < old(fingers)@.len() ==> final(fingers)@[j] == old(fingers)@[j]
            },
            Err(e) => {
                &&& has_finger(old(fingers)@, finger_name@)
                &&& final(fingers)@ == old(fingers)@
                &&& e.kind == ErrorKind::Conflict
                &&& e.message@ == conflict_message(finger_name@)
            },
        },
{
    if finger_in_config(fingers, finger_name) {
        let msg = finger_message(finger_name, " is already in config");
        return Err(NativeError { kind: ErrorKind::Conflict, message: msg });
    }
    fingers.push(FingerConfig { name: String::from_str(finger_name), created_at: enrolled_at });
    Ok(())
}

/// The cache with every entry for `name` removed, in order.
pub open spec fn remove_matching(fingers: Seq<FingerConfig>, name: Seq<char>) -> Seq<FingerConfig>
    decreases fingers.len(),
{
    if fingers.len() == 0 {
        Seq::empty()
    } else {
        let rest = remove_matching(fingers.drop_last(), name);
        if fingers.last().name@ == name {
            rest
        } else {
            rest.push(fingers.last())
        }
    }
}

/// Removal removes every entry for the name and keeps all others.
pub proof fn lemma_remove_matching(fingers: Seq<FingerConfig>, name: Seq<char>)
    ensures
        !has_finger(remove_matching(fingers, name), name),
        forall|j: int|
            0 <= j < remove_matching(fingers, name).len() ==> fingers.contains(
                #[trigger] remove_matching(fingers, name)[j],
            ),
    decreases fingers.len(),
{
    if fingers.len() > 0 {
        let rest = remove_matching(fingers.drop_last(), name);
        lemma_remove_matching(fingers.drop_last(), name);
        assert forall|j: int|
            0 <= j < remove_matching(fingers, name).len() implies fingers.contains(
            #[trigger] remove_matching(fingers, name)[j],
        ) by {
            if j < rest.len() {
                assert(remove_matching(fingers, name)[j] == rest[j]);
                let k = choose|k: int|
                    0 <= k < fingers.drop_last().len() && fingers.drop_last()[k] == rest[j];
                assert(fingers[k] == rest[j]);
            } else {
                assert(remove_matching(fingers, name)[j] == fingers.last());
            }
        }
        if fingers.last().name@ != name {
            assert forall|i: int|
                0 <= i < remove_matching(fingers, name).len() implies remove_matching(
                fingers,
                name,
            )[i].name@ != name by {
                if i < rest.len() {
                    assert(remove_matching(fingers, name)[i] == rest[i]);
                }
            }
        }
    }
}

/// Removes a finger from the cache after the native store confirmed the
/// removal: reports when the name was never cached (the cache is then left
/// untouched), otherwise drops every entry carrying the name.
pub fn remove_cached_finger(fingers: &mut Vec<FingerConfig>, finger_name: &str) -> (r: Result<
    (),
    NativeError,
>)
    ensures
        match r {
            Ok(_) => has_finger(old(fingers)@, finger_name@) && final(fingers)@ == remove_matching(
                old(fingers)@,
                finger_name@,
            ),
            Err(e) => {
                &&& !has_finger(old(fingers)@, finger_name@)
                &&& final(fingers)@ == old(fingers)@
                &&& e.kind == ErrorKind::NotFound
                &&& e.message@ == not_found_message(finger_name@)
            },
        },
{
    if !finger_in_config(fingers, finger_name) {
        let msg = finger_message(finger_name, " not found in config");
        return Err(NativeError { kind: ErrorKind::NotFound, message: msg });
    }
    let ghost orig = fingers@;
    let ghost name = finger_name@;
    let mut i: usize = 0;
    let ghost mut k: int = 0;
    while i < fingers.len()
        invariant
            name == finger_name@,
            0 <= k <= orig.len(),
            i == remove_matching(orig.take(k), name).len(),
            fingers@ =~= remove_matching(orig.take(k), name) + orig.skip(k),
            fingers@.len() == i + orig.len() - k,
        decreases orig.len() - k,
    {
        let ghost pre = remove_matching(orig.take(k), name);
        proof {
            assert(k < orig.len());
            assert(fingers@[i as int] == orig[k]);
            assert(orig.take(k + 1).drop_last() =~= orig.take(k));
            assert(orig.take(k + 1).last() == orig[k]);
        }
        let entry = fingers.remove(i);
        let ghost whole = pre + orig.skip(k);
        let matched = crate::strutil::str_eq(entry.name.as_str(), finger_name);
        proof {
            assert(entry == orig[k]);
            assert(matched == (orig[k].name@ == name));
        }
        if matched {
            proof {
                assert(orig.take(k + 1).last().name@ == name);
                assert(remove_matching(orig.take(k + 1), name) == remove_matching(
                    orig.take(k),
                    name,
                ));
                assert(whole.subrange(0, i as int) =~= pre);
                assert(whole.subrange(i + 1, whole.len() as int) =~= orig.skip(k + 1));
                assert(fingers@ =~= pre + orig.skip(k + 1));
                k = k + 1;
            }
        } else {
            fingers.insert(i, entry);
            proof {
                assert(orig.take(k + 1).last().name@ != name);
                assert(remove_matching(orig.take(k + 1), name) == remove_matching(
                    orig.take(k),
                    name,
                ).push(orig[k]));
                assert(fingers@ =~= pre.push(orig[k]) + orig.skip(k + 1));
                k = k + 1;
            }
            i += 1;
        }
    }
    proof {
        assert(orig.take(orig.len() as int) =~= orig);
        assert(orig.skip(orig.len() as int) =~= Seq::<FingerConfig>::empty());
        assert(fingers@ =~= remove_matching(orig, name));
    }
    Ok(())
}

} // verus!
