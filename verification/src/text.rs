//! Conversions between bytes and text that std provides and vstd does not specify.
use vstd::prelude::*;
use vstd::utf8::{valid_utf8, decode_utf8};

verus! {

/// `String::from_utf8`: the bytes as a `String` when they are valid UTF-8, and
/// `None` otherwise.
#[verifier::external_body]
pub(crate) fn string_from_utf8(bytes: Vec<u8>) -> (r: Option<String>)
    ensures
        r is Some <==> valid_utf8(bytes@),
        r matches Some(s) ==> s@ == decode_utf8(bytes@),
{
    String::from_utf8(bytes).ok()
}

/// The text that `String::from_utf8_lossy` makes of `bytes`: the decoded
/// characters, each invalid UTF-8 sequence replaced by U+FFFD. It depends on
/// the bytes alone.
pub uninterp spec fn utf8_lossy(bytes: Seq<u8>) -> Seq<char>;

/// `String::from_utf8_lossy`: the bytes as text, each invalid UTF-8
/// sequence replaced by U+FFFD. The result is named by `utf8_lossy`; of
/// valid input the documentation says it is the decoded text.
#[verifier::external_body]
pub(crate) fn string_from_utf8_lossy(bytes: Vec<u8>) -> (r: String)
    ensures
        r@ == utf8_lossy(bytes@),
        valid_utf8(bytes@) ==> r@ == decode_utf8(bytes@),
{
    String::from_utf8_lossy(&bytes).into_owned()
}

/// `String::push`: appends one character.
#[verifier::external_body]
pub(crate) fn string_push(s: &mut String, c: char)
    ensures
        final(s)@ == old(s)@.push(c),
{
    s.push(c)
}

/// The bytes of `s` with every trailing zero byte removed.
pub open spec fn trim_trailing_zeros(s: Seq<u8>) -> Seq<u8>
    decreases s.len(),
{
    if s.len() > 0 && s.last() == 0 {
        trim_trailing_zeros(s.drop_last())
    } else {
        s
    }
}

/// Removes trailing zero bytes (the NUL terminators of stored strings).
pub fn trim_zeros(v: &mut Vec<u8>)
    ensures
        final(v)@ == trim_trailing_zeros(old(v)@),
{
    while v.len() > 0 && v[v.len() - 1] == 0
        invariant
            trim_trailing_zeros(v@) == trim_trailing_zeros(old(v)@),
        decreases v.len(),
    {
        let ghost prev = v@;
        v.pop();
        proof {
            assert(v@ =~= prev.drop_last());
        }
    }
}

/// Formats the message for an over-long directory filename.
#[verifier::external_body]
pub(crate) fn filename_too_long_message(length: u32, max: u32) -> String {
    format!("directory contains filename of length {}, this exceeds the max of {}", length, max)
}

/// Formats the message for an unsupported archive version.
#[verifier::external_body]
pub(crate) fn unsupported_version_message(version: u32) -> String {
    format!("header: format version {:#010x} is not supported", version)
}

/// Formats the message for an index entry that could not be read.
#[verifier::external_body]
pub(crate) fn bad_index_entry_message(idx: u32) -> String {
    format!("failed to parse index entry {}", idx)
}

/// Formats the message for a directory name that has no index entry.
#[verifier::external_body]
pub(crate) fn missing_entry_message(name: &str) -> String {
    format!("missing index entry for {}", name)
}

/// Formats the message for an index entry stored under the wrong key.
#[verifier::external_body]
pub(crate) fn crc_mismatch_message(filename: &str, lookup: u32, stored: u32) -> String {
    format!(
        "CRC mismatch for '{:?}': lookup key FilenameCrc({:?}) != stored FilenameCrc({:?})",
        filename,
        lookup,
        stored,
    )
}

} // verus!
