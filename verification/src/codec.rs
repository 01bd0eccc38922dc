//! The wire form of chat envelopes.
//!
//! An envelope travels as one CBOR item: a map with a single entry, whose
//! key is the text `Message` or `ChangeNickname` and whose value is the map
//! of the envelope's fields, each under its name. Heads are in their
//! shortest form and texts are UTF-8, so every envelope has exactly one
//! encoding, and [`decode`] accepts that encoding and nothing else.

use vstd::prelude::*;
use vstd::utf8::*;
use crate::cbor::{
    head, lemma_head_of_parse_head, lemma_parse_head_of_head, parse_head, read_head, write_head,
    MAJOR_MAP, MAJOR_NEGATIVE, MAJOR_TEXT, MAJOR_UNSIGNED,
};
use crate::envelope::{ChatEnvelope, EnvelopeView};

verus! {

/// The bytes were not the encoding of any envelope.
#[derive(Debug, PartialEq, Eq, Clone, Copy)]
pub struct DecodeError;

/// Whether the UTF-8 form of `text` is short enough for its length to stand
/// in the head of a text item. Every `String` is.
pub open spec fn fits(text: Seq<char>) -> bool {
    encode_utf8(text).len() <= u64::MAX
}

/// The text item that holds `text`: its length in bytes, then its UTF-8 form.
pub open spec fn text_item(text: Seq<char>) -> Seq<u8> {
    head(MAJOR_TEXT, encode_utf8(text).len() as u64) + encode_utf8(text)
}

/// The integer item that holds `value`.
pub open spec fn int_item(value: i64) -> Seq<u8> {
    if value >= 0 {
        head(MAJOR_UNSIGNED, value as u64)
    } else {
        head(MAJOR_NEGATIVE, (-1 - value) as u64)
    }
}

/// The head of a map with `entries` entries.
pub open spec fn map_head(entries: u64) -> Seq<u8> {
    head(MAJOR_MAP, entries)
}

/// Whether `envelope` can be encoded: its texts fit.
pub open spec fn valid_envelope(envelope: EnvelopeView) -> bool {
    match envelope {
        EnvelopeView::Message { text, origin_timestamp } => fits(text),
        EnvelopeView::ChangeNickname { nick } => fits(nick),
    }
}

/// The fields of a `Message`: a map of two entries, the text under the name
/// `message` and the timestamp under the name `origin_timestamp`.
pub open spec fn message_fields(text: Seq<char>, origin_timestamp: i64) -> Seq<u8> {
    map_head(2) + (text_item("message"@) + (text_item(text) + (text_item("origin_timestamp"@)
        + int_item(origin_timestamp))))
}

/// The field of a `ChangeNickname`: a map of one entry, the nickname under
/// the name `nick`.
pub open spec fn nickname_fields(nick: Seq<char>) -> Seq<u8> {
    map_head(1) + (text_item("nick"@) + text_item(nick))
}

/// The encoding of `envelope`: a map of one entry, the fields of the
/// envelope under the name of its variant.
pub open spec fn encoding(envelope: EnvelopeView) -> Seq<u8> {
    match envelope {
        EnvelopeView::Message { text, origin_timestamp } => map_head(1) + (text_item("Message"@)
            + message_fields(text, origin_timestamp)),
        EnvelopeView::ChangeNickname { nick } => map_head(1) + (text_item("ChangeNickname"@)
            + nickname_fields(nick)),
    }
}

/// Whether `bytes` are the encoding of `envelope`.
pub open spec fn encodes_to(envelope: EnvelopeView, bytes: Seq<u8>) -> bool {
    valid_envelope(envelope) && encoding(envelope) == bytes
}

/// The envelope of which `bytes` are the encoding, if there is one.
pub open spec fn decoded(bytes: Seq<u8>) -> Option<EnvelopeView> {
    if exists|envelope: EnvelopeView| encodes_to(envelope, bytes) {
        Some(choose|envelope: EnvelopeView| encodes_to(envelope, bytes))
    } else {
        None
    }
}

/// The text item at the front of `bytes`: its text and its length in bytes.
#[verifier::opaque]
spec fn parse_text(bytes: Seq<u8>) -> Option<(Seq<char>, nat)> {
    match parse_head(bytes) {
        Some(found) => {
            let end = found.len + found.arg;
            if found.major == MAJOR_TEXT && end <= bytes.len() && valid_utf8(
                bytes.subrange(found.len as int, end as int),
            ) {
                Some((decode_utf8(bytes.subrange(found.len as int, end as int)), end as nat))
            } else {
                None
            }
        },
        None => None,
    }
}

/// The integer item at the front of `bytes`: its value and its length in bytes.
#[verifier::opaque]
spec fn parse_int(bytes: Seq<u8>) -> Option<(i64, nat)> {
    match parse_head(bytes) {
        Some(found) => {
            if found.arg > i64::MAX {
                None
            } else if found.major == MAJOR_UNSIGNED {
                Some((found.arg as i64, found.len))
            } else if found.major == MAJOR_NEGATIVE {
                Some(((-1 - found.arg) as i64, found.len))
            } else {
                None
            }
        },
        None => None,
    }
}

/// The length of the head at the front of `bytes`, if it is that of a map
/// with `entries` entries.
#[verifier::opaque]
spec fn parse_map(bytes: Seq<u8>, entries: u64) -> Option<nat> {
    match parse_head(bytes) {
        Some(found) => {
            if found.major == MAJOR_MAP && found.arg == entries {
                Some(found.len)
            } else {
                None
            }
        },
        None => None,
    }
}

/// The length of the text item at the front of `bytes`, if its text is `key`.
spec fn parse_key(bytes: Seq<u8>, key: Seq<char>) -> Option<nat> {
    match parse_text(bytes) {
        Some((text, len)) => {
            if text == key {
                Some(len)
            } else {
                None
            }
        },
        None => None,
    }
}

/// The fields of a `Message`, if `bytes` hold them and nothing more.
spec fn parse_message_fields(bytes: Seq<u8>) -> Option<EnvelopeView> {
    match parse_map(bytes, 2) {
        Some(n0) => match parse_key(bytes.skip(n0 as int), "message"@) {
            Some(n1) => match parse_text(bytes.skip((n0 + n1) as int)) {
                Some((text, n2)) => match parse_key(
                    bytes.skip((n0 + n1 + n2) as int),
                    "origin_timestamp"@,
                ) {
                    Some(n3) => match parse_int(bytes.skip((n0 + n1 + n2 + n3) as int)) {
                        Some((origin_timestamp, n4)) => {
                            if n0 + n1 + n2 + n3 + n4 == bytes.len() {
                                Some(EnvelopeView::Message { text, origin_timestamp })
                            } else {
                                None
                            }
                        },
                        None => None,
                    },
                    None => None,
                },
                None => None,
            },
            None => None,
        },
        None => None,
    }
}

/// The fields of a `ChangeNickname`, if `bytes` hold them and nothing more.
spec fn parse_nickname_fields(bytes: Seq<u8>) -> Option<EnvelopeView> {
    match parse_map(bytes, 1) {
        Some(n0) => match parse_key(bytes.skip(n0 as int), "nick"@) {
            Some(n1) => match parse_text(bytes.skip((n0 + n1) as int)) {
                Some((nick, n2)) => {
                    if n0 + n1 + n2 == bytes.len() {
                        Some(EnvelopeView::ChangeNickname { nick })
                    } else {
                        None
                    }
                },
                None => None,
            },
            None => None,
        },
        None => None,
    }
}

/// The envelope that `bytes` hold, read from front to back.
spec fn parse_envelope(bytes: Seq<u8>) -> Option<EnvelopeView> {
    match parse_map(bytes, 1) {
        Some(n0) => match parse_text(bytes.skip(n0 as int)) {
            Some((variant, n1)) => {
                if variant == "Message"@ {
                    parse_message_fields(bytes.skip((n0 + n1) as int))
                } else if variant == "ChangeNickname"@ {
                    parse_nickname_fields(bytes.skip((n0 + n1) as int))
                } else {
                    None
                }
            },
            None => None,
        },
        None => None,
    }
}

/// No character takes more than four bytes.
proof fn lemma_utf8_len_bound(text: Seq<char>)
    ensures
        encode_utf8(text).len() <= 4 * text.len(),
    decreases text.len(),
{
    if text.len() > 0 {
        lemma_utf8_len_bound(text.drop_first());
    }
}

/// The names that stand in every encoding fit, and the two variant names differ.
proof fn lemma_names()
    ensures
        fits("Message"@),
        fits("ChangeNickname"@),
        fits("message"@),
        fits("origin_timestamp"@),
        fits("nick"@),
        "Message"@ != "ChangeNickname"@,
{
    reveal_strlit("Message");
    reveal_strlit("ChangeNickname");
    reveal_strlit("message");
    reveal_strlit("origin_timestamp");
    reveal_strlit("nick");
    lemma_utf8_len_bound("Message"@);
    lemma_utf8_len_bound("ChangeNickname"@);
    lemma_utf8_len_bound("message"@);
    lemma_utf8_len_bound("origin_timestamp"@);
    lemma_utf8_len_bound("nick"@);
}

/// What stays of `bytes` behind `a + b` bytes is what stays behind `b` bytes
/// of what stays behind `a`.
proof fn lemma_skip_twice(bytes: Seq<u8>, a: nat, b: nat)
    requires
        a + b <= bytes.len(),
    ensures
        bytes.skip(a as int).skip(b as int) == bytes.skip((a + b) as int),
{
    assert(bytes.skip(a as int).skip(b as int) =~= bytes.skip((a + b) as int));
}

/// A text item that is followed by anything is read back as it was written.
proof fn lemma_parse_text_of_item(text: Seq<char>, rest: Seq<u8>)
    requires
        fits(text),
    ensures
        parse_text(text_item(text) + rest) == Some((text, text_item(text).len())),
        (text_item(text) + rest).skip(text_item(text).len() as int) == rest,
{
    reveal(parse_text);
    let body = encode_utf8(text);
    let front = head(MAJOR_TEXT, body.len() as u64);
    let bytes = text_item(text) + rest;
    assert(bytes =~= front + (body + rest));
    lemma_parse_head_of_head(MAJOR_TEXT, body.len() as u64, body + rest);
    assert(bytes.subrange(front.len() as int, (front.len() + body.len()) as int) =~= body);
    encode_utf8_valid_utf8(text);
    encode_utf8_decode_utf8(text);
    assert(bytes.skip(text_item(text).len() as int) =~= rest);
}

/// What is read as a text item was written as that item.
proof fn lemma_item_of_parse_text(bytes: Seq<u8>)
    requires
        parse_text(bytes) is Some,
    ensures
        ({
            let (text, len) = parse_text(bytes)->0;
            &&& fits(text)
            &&& 1 <= len <= bytes.len()
            &&& bytes == text_item(text) + bytes.skip(len as int)
        }),
{
    reveal(parse_text);
    let (text, len) = parse_text(bytes)->0;
    let found = parse_head(bytes)->0;
    lemma_head_of_parse_head(bytes);
    let body = bytes.subrange(found.len as int, len as int);
    decode_utf8_encode_utf8(body);
    assert(bytes.skip(found.len as int) =~= body + bytes.skip(len as int));
    assert(bytes =~= text_item(text) + bytes.skip(len as int));
}

/// An integer item that is followed by anything is read back as it was written.
proof fn lemma_parse_int_of_item(value: i64, rest: Seq<u8>)
    ensures
        parse_int(int_item(value) + rest) == Some((value, int_item(value).len())),
        (int_item(value) + rest).skip(int_item(value).len() as int) == rest,
{
    reveal(parse_int);
    if value >= 0 {
        lemma_parse_head_of_head(MAJOR_UNSIGNED, value as u64, rest);
    } else {
        lemma_parse_head_of_head(MAJOR_NEGATIVE, (-1 - value) as u64, rest);
    }
}

/// What is read as an integer item was written as that item.
proof fn lemma_item_of_parse_int(bytes: Seq<u8>)
    requires
        parse_int(bytes) is Some,
    ensures
        ({
            let (value, len) = parse_int(bytes)->0;
            &&& 1 <= len <= bytes.len()
            &&& bytes == int_item(value) + bytes.skip(len as int)
        }),
{
    reveal(parse_int);
    lemma_head_of_parse_head(bytes);
}

/// A map head that is followed by anything is read back as it was written.
proof fn lemma_parse_map_of_head(entries: u64, rest: Seq<u8>)
    ensures
        parse_map(map_head(entries) + rest, entries) == Some(map_head(entries).len()),
        (map_head(entries) + rest).skip(map_head(entries).len() as int) == rest,
{
    reveal(parse_map);
    lemma_parse_head_of_head(MAJOR_MAP, entries, rest);
}

/// What is read as a map head was written as that head.
proof fn lemma_head_of_parse_map(bytes: Seq<u8>, entries: u64)
    requires
        parse_map(bytes, entries) is Some,
    ensures
        ({
            let len = parse_map(bytes, entries)->0;
            &&& 1 <= len <= bytes.len()
            &&& bytes == map_head(entries) + bytes.skip(len as int)
        }),
{
    reveal(parse_map);
    lemma_head_of_parse_head(bytes);
}

/// A name that is followed by anything is read back as that name.
proof fn lemma_parse_key_of_item(key: Seq<char>, rest: Seq<u8>)
    requires
        fits(key),
    ensures
        parse_key(text_item(key) + rest, key) == Some(text_item(key).len()),
        (text_item(key) + rest).skip(text_item(key).len() as int) == rest,
{
    lemma_parse_text_of_item(key, rest);
}

/// What is read as a name was written as that name.
proof fn lemma_item_of_parse_key(bytes: Seq<u8>, key: Seq<char>)
    requires
        parse_key(bytes, key) is Some,
    ensures
        ({
            let len = parse_key(bytes, key)->0;
            &&& 1 <= len <= bytes.len()
            &&& bytes == text_item(key) + bytes.skip(len as int)
        }),
{
    lemma_item_of_parse_text(bytes);
}

/// The fields of a `Message` are read back as they were written.
proof fn lemma_parse_message_fields(text: Seq<char>, origin_timestamp: i64)
    requires
        fits(text),
    ensures
        parse_message_fields(message_fields(text, origin_timestamp)) == Some(
            EnvelopeView::Message { text, origin_timestamp },
        ),
{
    lemma_names();
    let tail4 = int_item(origin_timestamp);
    let tail3 = text_item("origin_timestamp"@) + tail4;
    let tail2 = text_item(text) + tail3;
    let tail1 = text_item("message"@) + tail2;
    let tail0 = map_head(2) + tail1;
    let n0 = map_head(2).len();
    let n1 = text_item("message"@).len();
    let n2 = text_item(text).len();
    let n3 = text_item("origin_timestamp"@).len();
    let n4 = tail4.len();
    lemma_parse_map_of_head(2, tail1);
    lemma_parse_key_of_item("message"@, tail2);
    lemma_parse_text_of_item(text, tail3);
    lemma_parse_key_of_item("origin_timestamp"@, tail4);
    assert(tail4 + Seq::<u8>::empty() =~= tail4);
    lemma_parse_int_of_item(origin_timestamp, Seq::empty());
    assert(tail0.skip(n0 as int) == tail1);
    lemma_skip_twice(tail0, n0, n1);
    assert(tail0.skip((n0 + n1) as int) == tail2);
    lemma_skip_twice(tail0, n0 + n1, n2);
    assert(tail0.skip((n0 + n1 + n2) as int) == tail3);
    lemma_skip_twice(tail0, n0 + n1 + n2, n3);
    assert(tail0.skip((n0 + n1 + n2 + n3) as int) == tail4);
}

/// What is read as the fields of a `Message` was written as those fields.
proof fn lemma_message_fields_of_parse(bytes: Seq<u8>)
    requires
        parse_message_fields(bytes) is Some,
    ensures
        parse_message_fields(bytes)->0 matches EnvelopeView::Message { text, origin_timestamp }
            && fits(text) && bytes == message_fields(text, origin_timestamp),
{
    let n0 = parse_map(bytes, 2)->0;
    lemma_head_of_parse_map(bytes, 2);
    let b1 = bytes.skip(n0 as int);
    let n1 = parse_key(b1, "message"@)->0;
    lemma_item_of_parse_key(b1, "message"@);
    lemma_skip_twice(bytes, n0, n1);
    let b2 = bytes.skip((n0 + n1) as int);
    let (text, n2) = parse_text(b2)->0;
    lemma_item_of_parse_text(b2);
    lemma_skip_twice(bytes, n0 + n1, n2);
    let b3 = bytes.skip((n0 + n1 + n2) as int);
    let n3 = parse_key(b3, "origin_timestamp"@)->0;
    lemma_item_of_parse_key(b3, "origin_timestamp"@);
    lemma_skip_twice(bytes, n0 + n1 + n2, n3);
    let b4 = bytes.skip((n0 + n1 + n2 + n3) as int);
    let (origin_timestamp, n4) = parse_int(b4)->0;
    lemma_item_of_parse_int(b4);
    assert(b4.skip(n4 as int) =~= Seq::<u8>::empty());
    assert(int_item(origin_timestamp) + Seq::<u8>::empty() =~= int_item(origin_timestamp));
}

/// The field of a `ChangeNickname` is read back as it was written.
proof fn lemma_parse_nickname_fields(nick: Seq<char>)
    requires
        fits(nick),
    ensures
        parse_nickname_fields(nickname_fields(nick)) == Some(
            EnvelopeView::ChangeNickname { nick },
        ),
{
    lemma_names();
    let tail2 = text_item(nick);
    let tail1 = text_item("nick"@) + tail2;
    let tail0 = map_head(1) + tail1;
    let n0 = map_head(1).len();
    let n1 = text_item("nick"@).len();
    lemma_parse_map_of_head(1, tail1);
    lemma_parse_key_of_item("nick"@, tail2);
    assert(tail2 + Seq::<u8>::empty() =~= tail2);
    lemma_parse_text_of_item(nick, Seq::empty());
    assert(tail0.skip(n0 as int) == tail1);
    lemma_skip_twice(tail0, n0, n1);
    assert(tail0.skip((n0 + n1) as int) == tail2);
}

/// What is read as the field of a `ChangeNickname` was written as that field.
proof fn lemma_nickname_fields_of_parse(bytes: Seq<u8>)
    requires
        parse_nickname_fields(bytes) is Some,
    ensures
        parse_nickname_fields(bytes)->0 matches EnvelopeView::ChangeNickname { nick } && fits(nick)
            && bytes == nickname_fields(nick),
{
    let n0 = parse_map(bytes, 1)->0;
    lemma_head_of_parse_map(bytes, 1);
    let b1 = bytes.skip(n0 as int);
    let n1 = parse_key(b1, "nick"@)->0;
    lemma_item_of_parse_key(b1, "nick"@);
    lemma_skip_twice(bytes, n0, n1);
    let b2 = bytes.skip((n0 + n1) as int);
    let (nick, n2) = parse_text(b2)->0;
    lemma_item_of_parse_text(b2);
    assert(b2.skip(n2 as int) =~= Seq::<u8>::empty());
    assert(text_item(nick) + Seq::<u8>::empty() =~= text_item(nick));
}

/// Reading the encoding of an envelope from front to back gives the envelope.
proof fn lemma_parse_of_encoding(envelope: EnvelopeView)
    requires
        valid_envelope(envelope),
    ensures
        parse_envelope(encoding(envelope)) == Some(envelope),
{
    lemma_names();
    let bytes = encoding(envelope);
    let n0 = map_head(1).len();
    match envelope {
        EnvelopeView::Message { text, origin_timestamp } => {
            let fields = message_fields(text, origin_timestamp);
            let n1 = text_item("Message"@).len();
            lemma_parse_map_of_head(1, text_item("Message"@) + fields);
            lemma_parse_text_of_item("Message"@, fields);
            lemma_skip_twice(bytes, n0, n1);
            lemma_parse_message_fields(text, origin_timestamp);
        },
        EnvelopeView::ChangeNickname { nick } => {
            let fields = nickname_fields(nick);
            let n1 = text_item("ChangeNickname"@).len();
            lemma_parse_map_of_head(1, text_item("ChangeNickname"@) + fields);
            lemma_parse_text_of_item("ChangeNickname"@, fields);
            lemma_skip_twice(bytes, n0, n1);
            lemma_parse_nickname_fields(nick);
        },
    }
}

/// What is read from front to back as an envelope was written as the
/// encoding of that envelope.
proof fn lemma_encoding_of_parse(bytes: Seq<u8>)
    requires
        parse_envelope(bytes) is Some,
    ensures
        encodes_to(parse_envelope(bytes)->0, bytes),
{
    let n0 = parse_map(bytes, 1)->0;
    lemma_head_of_parse_map(bytes, 1);
    let b1 = bytes.skip(n0 as int);
    let (variant, n1) = parse_text(b1)->0;
    lemma_item_of_parse_text(b1);
    lemma_skip_twice(bytes, n0, n1);
    let b2 = bytes.skip((n0 + n1) as int);
    if variant == "Message"@ {
        lemma_message_fields_of_parse(b2);
    } else {
        lemma_nickname_fields_of_parse(b2);
    }
}

/// Two envelopes with the same encoding are the same envelope.
pub proof fn lemma_encoding_is_injective(first: EnvelopeView, second: EnvelopeView)
    requires
        valid_envelope(first),
        valid_envelope(second),
        encoding(first) == encoding(second),
    ensures
        first == second,
{
    lemma_parse_of_encoding(first);
    lemma_parse_of_encoding(second);
}

/// Reading from front to back finds the envelope of which the bytes are the
/// encoding, and finds none where they are the encoding of none.
proof fn lemma_parse_is_decoded(bytes: Seq<u8>)
    ensures
        parse_envelope(bytes) == decoded(bytes),
{
    if parse_envelope(bytes) is Some {
        let found = parse_envelope(bytes)->0;
        lemma_encoding_of_parse(bytes);
        let chosen = choose|envelope: EnvelopeView| encodes_to(envelope, bytes);
        lemma_encoding_is_injective(found, chosen);
    } else {
        assert forall|envelope: EnvelopeView| !encodes_to(envelope, bytes) by {
            if encodes_to(envelope, bytes) {
                lemma_parse_of_encoding(envelope);
            }
        }
    }
}

/// Decoding what was encoded gives back the envelope: for every envelope
/// that can be encoded, `decoded(encoding(envelope))` is that envelope.
pub proof fn lemma_decode_inverts_encode(envelope: EnvelopeView)
    requires
        valid_envelope(envelope),
    ensures
        decoded(encoding(envelope)) == Some(envelope),
{
    lemma_parse_of_encoding(envelope);
    lemma_parse_is_decoded(encoding(envelope));
}

/// Decoding accepts encodings and nothing else: bytes that decode to an
/// envelope are the encoding of that envelope, and bytes that are the
/// encoding of no envelope decode to none.
pub proof fn lemma_decoded_is_exact(bytes: Seq<u8>)
    ensures
        decoded(bytes) matches Some(envelope) ==> valid_envelope(envelope) && encoding(envelope)
            == bytes,
        decoded(bytes) is None <==> forall|envelope: EnvelopeView|
            valid_envelope(envelope) ==> encoding(envelope) != bytes,
{
    if decoded(bytes) is None {
        assert forall|envelope: EnvelopeView| valid_envelope(envelope) implies encoding(envelope)
            != bytes by {
            assert(!encodes_to(envelope, bytes));
        }
    } else {
        let chosen = choose|envelope: EnvelopeView| encodes_to(envelope, bytes);
        assert(encodes_to(chosen, bytes));
    }
}

/// Trusted: `core::str::from_utf8`, which accepts a slice of bytes exactly
/// when it is well-formed UTF-8 and then gives the text that those bytes
/// spell.
#[verifier::external_body]
fn utf8_text(bytes: &[u8]) -> (text: Option<&str>)
    ensures
        text is Some <==> valid_utf8(bytes@),
        text matches Some(t) ==> encode_utf8(t@) == bytes@,
{
    match core::str::from_utf8(bytes) {
        Ok(text) => Some(text),
        Err(_) => None,
    }
}

/// Appends the text item that holds `text`.
fn write_text(out: &mut Vec<u8>, text: &str)
    ensures
        final(out)@ == old(out)@ + text_item(text@),
        fits(text@),
{
    let raw = text.as_bytes();
    write_head(out, MAJOR_TEXT, raw.len() as u64);
    out.extend_from_slice(raw);
    assert(out@ =~= old(out)@ + text_item(text@));
}

/// Appends the integer item that holds `value`.
fn write_int(out: &mut Vec<u8>, value: i64)
    ensures
        final(out)@ == old(out)@ + int_item(value),
{
    if value >= 0 {
        write_head(out, MAJOR_UNSIGNED, value as u64);
    } else {
        write_head(out, MAJOR_NEGATIVE, (-1 - value) as u64);
    }
}

/// Encodes `envelope`.
pub fn encode(envelope: &ChatEnvelope) -> (bytes: Vec<u8>)
    ensures
        valid_envelope(envelope@),
        bytes@ == encoding(envelope@),
{
    let mut out: Vec<u8> = Vec::new();
    write_head(&mut out, MAJOR_MAP, 1);
    match envelope {
        ChatEnvelope::Message { text, origin_timestamp } => {
            write_text(&mut out, "Message");
            write_head(&mut out, MAJOR_MAP, 2);
            write_text(&mut out, "message");
            write_text(&mut out, text.as_str());
            write_text(&mut out, "origin_timestamp");
            write_int(&mut out, *origin_timestamp);
        },
        ChatEnvelope::ChangeNickname { nick } => {
            write_text(&mut out, "ChangeNickname");
            write_head(&mut out, MAJOR_MAP, 1);
            write_text(&mut out, "nick");
            write_text(&mut out, nick.as_str());
        },
    }
    assert(out@ =~= encoding(envelope@));
    out
}

/// Reads the text item that stands at `start`: its text and the place behind it.
fn read_text(bytes: &[u8], start: usize) -> (found: Option<(String, usize)>)
    requires
        start <= bytes@.len(),
    ensures
        match found {
            Some((text, next)) => {
                &&& start < next <= bytes@.len()
                &&& parse_text(bytes@.skip(start as int)) == Some(
                    (text@, (next - start) as nat),
                )
            },
            None => parse_text(bytes@.skip(start as int)) is None,
        },
{
    proof {
        reveal(parse_text);
    }
    let ghost tail = bytes@.skip(start as int);
    match read_head(bytes, start) {
        None => None,
        Some((major, arg, body)) => {
            if major != MAJOR_TEXT {
                return None;
            }
            let room = bytes.len() - body;
            if arg > room as u64 {
                return None;
            }
            let end = body + arg as usize;
            let raw = &bytes[body..end];
            assert(raw@ =~= tail.subrange(body - start, end - start));
            match utf8_text(raw) {
                None => None,
                Some(text) => {
                    proof {
                        encode_utf8_decode_utf8(text@);
                    }
                    Some((text.to_owned(), end))
                },
            }
        },
    }
}

/// Reads the integer item that stands at `start`: its value and the place
/// behind it.
fn read_int(bytes: &[u8], start: usize) -> (found: Option<(i64, usize)>)
    requires
        start <= bytes@.len(),
    ensures
        match found {
            Some((value, next)) => {
                &&& start < next <= bytes@.len()
                &&& parse_int(bytes@.skip(start as int)) == Some((value, (next - start) as nat))
            },
            None => parse_int(bytes@.skip(start as int)) is None,
        },
{
    proof {
        reveal(parse_int);
    }
    match read_head(bytes, start) {
        None => None,
        Some((major, arg, next)) => {
            if arg > i64::MAX as u64 {
                None
            } else if major == MAJOR_UNSIGNED {
                Some((arg as i64, next))
            } else if major == MAJOR_NEGATIVE {
                Some((-1 - arg as i64, next))
            } else {
                None
            }
        },
    }
}

/// Reads the head of a map with `entries` entries at `start`, and gives the
/// place behind it.
fn read_map(bytes: &[u8], start: usize, entries: u64) -> (found: Option<usize>)
    requires
        start <= bytes@.len(),
    ensures
        match found {
            Some(next) => {
                &&& start < next <= bytes@.len()
                &&& parse_map(bytes@.skip(start as int), entries) == Some((next - start) as nat)
            },
            None => parse_map(bytes@.skip(start as int), entries) is None,
        },
{
    proof {
        reveal(parse_map);
    }
    match read_head(bytes, start) {
        None => None,
        Some((major, arg, next)) => {
            if major == MAJOR_MAP && arg == entries {
                Some(next)
            } else {
                None
            }
        },
    }
}

/// Reads the name `key` at `start`, and gives the place behind it.
fn read_key(bytes: &[u8], start: usize, key: &str) -> (found: Option<usize>)
    requires
        start <= bytes@.len(),
    ensures
        match found {
            Some(next) => {
                &&& start < next <= bytes@.len()
                &&& parse_key(bytes@.skip(start as int), key@) == Some((next - start) as nat)
            },
            None => parse_key(bytes@.skip(start as int), key@) is None,
        },
{
    match read_text(bytes, start) {
        None => None,
        Some((text, next)) => {
            if text == key.to_owned() {
                Some(next)
            } else {
                None
            }
        },
    }
}

/// Reads the fields of a `Message` from `start` to the end of `bytes`.
fn read_message_fields(bytes: &[u8], start: usize) -> (found: Option<ChatEnvelope>)
    requires
        start <= bytes@.len(),
    ensures
        match found {
            Some(envelope) => parse_message_fields(bytes@.skip(start as int)) == Some(envelope@),
            None => parse_message_fields(bytes@.skip(start as int)) is None,
        },
{
    let ghost tail = bytes@.skip(start as int);
    let Some(pos1) = read_map(bytes, start, 2) else {
        return None;
    };
    let ghost n0 = (pos1 - start) as nat;
    proof {
        lemma_skip_twice(bytes@, start as nat, n0);
        assert(tail.skip(n0 as int) == bytes@.skip(pos1 as int));
    }
    let Some(pos2) = read_key(bytes, pos1, "message") else {
        return None;
    };
    let ghost n1 = (pos2 - pos1) as nat;
    proof {
        lemma_skip_twice(bytes@, start as nat, n0 + n1);
        assert(tail.skip((n0 + n1) as int) == bytes@.skip(pos2 as int));
    }
    let Some((text, pos3)) = read_text(bytes, pos2) else {
        return None;
    };
    let ghost n2 = (pos3 - pos2) as nat;
    proof {
        lemma_skip_twice(bytes@, start as nat, n0 + n1 + n2);
        assert(tail.skip((n0 + n1 + n2) as int) == bytes@.skip(pos3 as int));
    }
    let Some(pos4) = read_key(bytes, pos3, "origin_timestamp") else {
        return None;
    };
    let ghost n3 = (pos4 - pos3) as nat;
    proof {
        lemma_skip_twice(bytes@, start as nat, n0 + n1 + n2 + n3);
        assert(tail.skip((n0 + n1 + n2 + n3) as int) == bytes@.skip(pos4 as int));
    }
    let Some((origin_timestamp, pos5)) = read_int(bytes, pos4) else {
        return None;
    };
    if pos5 != bytes.len() {
        return None;
    }
    Some(ChatEnvelope::Message { text, origin_timestamp })
}

/// Reads the field of a `ChangeNickname` from `start` to the end of `bytes`.
fn read_nickname_fields(bytes: &[u8], start: usize) -> (found: Option<ChatEnvelope>)
    requires
        start <= bytes@.len(),
    ensures
        match found {
            Some(envelope) => parse_nickname_fields(bytes@.skip(start as int)) == Some(envelope@),
            None => parse_nickname_fields(bytes@.skip(start as int)) is None,
        },
{
    let ghost tail = bytes@.skip(start as int);
    let Some(pos1) = read_map(bytes, start, 1) else {
        return None;
    };
    let ghost n0 = (pos1 - start) as nat;
    proof {
        lemma_skip_twice(bytes@, start as nat, n0);
        assert(tail.skip(n0 as int) == bytes@.skip(pos1 as int));
    }
    let Some(pos2) = read_key(bytes, pos1, "nick") else {
        return None;
    };
    let ghost n1 = (pos2 - pos1) as nat;
    proof {
        lemma_skip_twice(bytes@, start as nat, n0 + n1);
        assert(tail.skip((n0 + n1) as int) == bytes@.skip(pos2 as int));
    }
    let Some((nick, pos3)) = read_text(bytes, pos2) else {
        return None;
    };
    if pos3 != bytes.len() {
        return None;
    }
    Some(ChatEnvelope::ChangeNickname { nick })
}

/// Decodes `bytes`: gives the envelope of which they are the encoding, and
/// an error where they are the encoding of none.
pub fn decode(bytes: &[u8]) -> (result: Result<ChatEnvelope, DecodeError>)
    ensures
        match result {
            Ok(envelope) => decoded(bytes@) == Some(envelope@),
            Err(_) => decoded(bytes@) is None,
        },
{
    proof {
        lemma_parse_is_decoded(bytes@);
        lemma_names();
        assert(bytes@.skip(0) =~= bytes@);
    }
    let Some(pos1) = read_map(bytes, 0, 1) else {
        return Err(DecodeError);
    };
    let Some((variant, pos2)) = read_text(bytes, pos1) else {
        return Err(DecodeError);
    };
    let ghost n0 = pos1 as nat;
    let ghost n1 = (pos2 - pos1) as nat;
    assert(bytes@.skip((n0 + n1) as int) == bytes@.skip(pos2 as int));
    let fields = if variant == "Message".to_owned() {
        read_message_fields(bytes, pos2)
    } else if variant == "ChangeNickname".to_owned() {
        read_nickname_fields(bytes, pos2)
    } else {
        None
    };
    match fields {
        Some(envelope) => Ok(envelope),
        None => Err(DecodeError),
    }
}

} // verus!
