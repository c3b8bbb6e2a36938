//! Entry-name decoding.
//!
//! A zip entry stores its name as raw bytes.  A name that is valid UTF-8 is
//! taken as written; any other name goes to the legacy decoder: Shift JIS,
//! the codec many old zip writers used, except that a leading byte-order
//! mark switches it to the Unicode encoding the mark names.  A name that
//! neither path can represent losslessly is rejected, and the entry
//! carrying it is skipped.

use vstd::prelude::*;

verus! {

/// Whether a byte string is valid UTF-8.
pub uninterp spec fn utf8_valid(b: Seq<u8>) -> bool;

/// The UTF-8 bytes of the lossless decoding of `b` by the legacy decoder:
/// Shift JIS, except that a leading byte-order mark switches the decoder
/// to the Unicode encoding the mark names.  `None` when the input is not
/// well-formed under the active decoder.
pub uninterp spec fn sjis_decoded(b: Seq<u8>) -> Option<Seq<u8>>;

/// Relies on std::str::from_utf8, which its documentation says returns `Ok`
/// exactly when the input bytes are valid UTF-8.
#[verifier::external_body]
fn check_utf8(b: &Vec<u8>) -> (r: bool)
    ensures
        r == utf8_valid(b@),
{
    std::str::from_utf8(b).is_ok()
}

/// Relies on encoding_rs's SHIFT_JIS decoder, whose result depends on the
/// input bytes alone; `InputEmpty` with no replacements reports that the
/// whole input was decoded losslessly.  `new_decoder` sniffs a leading
/// byte-order mark and then decodes as the encoding it names.
#[verifier::external_body]
fn decode_sjis(b: &Vec<u8>) -> (r: Option<Vec<u8>>)
    ensures
        r is Some <==> sjis_decoded(b@) is Some,
        r matches Some(v) ==> Some(v@) == sjis_decoded(b@),
{
    let mut out = String::with_capacity(
        encoding_rs::SHIFT_JIS.new_decoder().max_utf8_buffer_length(b.len())?,
    );
    let (result, _, replaced) = encoding_rs::SHIFT_JIS.new_decoder().decode_to_string(
        b,
        &mut out,
        true,
    );
    if result == encoding_rs::CoderResult::InputEmpty && !replaced {
        Some(out.into_bytes())
    } else {
        None
    }
}

/// The logical name of an entry whose stored name is `raw`: the bytes
/// themselves when they are valid UTF-8, else their lossless decoding by
/// the legacy decoder, else nothing.
pub open spec fn decoded_name(raw: Seq<u8>) -> Option<Seq<u8>> {
    if utf8_valid(raw) {
        Some(raw)
    } else {
        sjis_decoded(raw)
    }
}

/// Decodes a stored entry name into its logical name, or `None` when the
/// entry must be skipped because no decoder represents the name losslessly.
pub fn decode_entry_name(raw: &Vec<u8>) -> (r: Option<Vec<u8>>)
    ensures
        r is Some <==> decoded_name(raw@) is Some,
        r matches Some(v) ==> Some(v@) == decoded_name(raw@),
{
    if check_utf8(raw) {
        let copy = raw.clone();
        proof {
            assert(copy@ =~= raw@);
        }
        Some(copy)
    } else {
        decode_sjis(raw)
    }
}

} // verus!
