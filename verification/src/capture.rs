//! Decoding captured face images and voice recordings handed over as
//! standard base64 text, and naming their files by capture time.

use vstd::prelude::*;
use vstd::string::*;

use crate::errors::{ErrorKind, NativeError};
use crate::numfmt::{dec_repr, u64_to_dec_string};

verus! {

/// What base64's standard-alphabet engine decodes `data` to, or nothing when
/// `data` is not valid base64 text.
pub uninterp spec fn base64_standard_decoding(data: Seq<char>) -> Option<Seq<u8>>;

/// Relies on base64's `Engine::decode` with the `general_purpose::STANDARD`
/// engine: the result is a function of the input characters alone, and an
/// empty input decodes to an empty byte sequence.
#[verifier::external_body]
fn base64_decode(data: &str) -> (r: Option<Vec<u8>>)
    ensures
        match r {
            Some(v) => base64_standard_decoding(data@) == Some(v@),
            None => base64_standard_decoding(data@) is None,
        },
        data@.len() == 0 ==> r is Some,
{
    match base64::Engine::decode(&base64::engine::general_purpose::STANDARD, data) {
        Ok(v) => Some(v),
        Err(_) => None,
    }
}

/// Decodes base64 capture data into raw bytes, reporting malformed text as
/// an invalid argument.
pub fn decode_capture_data(data: &str) -> (r: Result<Vec<u8>, NativeError>)
    ensures
        match base64_standard_decoding(data@) {
            Some(s) => r matches Ok(v) && v@ == s,
            None => r matches Err(e) && e.kind == ErrorKind::InvalidArgument && e.message@
                == "Failed to decode capture data"@,
        },
{
    match base64_decode(data) {
        Some(v) => Ok(v),
        None => Err(NativeError::new(ErrorKind::InvalidArgument, "Failed to decode capture data")),
    }
}

/// The file name for a face image captured at `timestamp_millis`.
pub fn face_image_filename(timestamp_millis: u64) -> (r: String)
    ensures
        r@ == "face_"@ + dec_repr(timestamp_millis as nat) + ".jpg"@,
{
    let mut s = String::from_str("face_");
    let num = u64_to_dec_string(timestamp_millis);
    s.append(num.as_str());
    s.append(".jpg");
    proof {
        assert(s@ =~= "face_"@ + dec_repr(timestamp_millis as nat) + ".jpg"@);
    }
    s
}

/// The staging name a face image is cropped from.
pub fn temp_face_image_filename(timestamp_millis: u64) -> (r: String)
    ensures
        r@ == "temp_face_"@ + dec_repr(timestamp_millis as nat) + ".jpg"@,
{
    let mut s = String::from_str("temp_face_");
    let num = u64_to_dec_string(timestamp_millis);
    s.append(num.as_str());
    s.append(".jpg");
    proof {
        assert(s@ =~= "temp_face_"@ + dec_repr(timestamp_millis as nat) + ".jpg"@);
    }
    s
}

/// The file name for a voice recording captured at `timestamp_millis`.
pub fn voice_recording_filename(timestamp_millis: u64) -> (r: String)
    ensures
        r@ == "voice_"@ + dec_repr(timestamp_millis as nat) + ".wav"@,
{
    let mut s = String::from_str("voice_");
    let num = u64_to_dec_string(timestamp_millis);
    s.append(num.as_str());
    s.append(".wav");
    proof {
        assert(s@ =~= "voice_"@ + dec_repr(timestamp_millis as nat) + ".wav"@);
    }
    s
}

} // verus!
