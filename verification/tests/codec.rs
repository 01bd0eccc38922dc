use peerchat::codec::{decode, encode, DecodeError};
use peerchat::envelope::ChatEnvelope;

fn message(text: &str, origin_timestamp: i64) -> ChatEnvelope {
    ChatEnvelope::Message { text: text.to_string(), origin_timestamp }
}

fn nickname(nick: &str) -> ChatEnvelope {
    ChatEnvelope::ChangeNickname { nick: nick.to_string() }
}

const HELLO: [u8; 50] = [
    0xa1, 0x67, 0x4d, 0x65, 0x73, 0x73, 0x61, 0x67, 0x65, 0xa2, 0x67, 0x6d, 0x65, 0x73, 0x73, 0x61,
    0x67, 0x65, 0x65, 0x68, 0x65, 0x6c, 0x6c, 0x6f, 0x70, 0x6f, 0x72, 0x69, 0x67, 0x69, 0x6e, 0x5f,
    0x74, 0x69, 0x6d, 0x65, 0x73, 0x74, 0x61, 0x6d, 0x70, 0x1b, 0x00, 0x00, 0x01, 0x8b, 0xcf, 0xe5,
    0x68, 0x00,
];

const ALICE: [u8; 28] = [
    0xa1, 0x6e, 0x43, 0x68, 0x61, 0x6e, 0x67, 0x65, 0x4e, 0x69, 0x63, 0x6b, 0x6e, 0x61, 0x6d, 0x65,
    0xa1, 0x64, 0x6e, 0x69, 0x63, 0x6b, 0x65, 0x61, 0x6c, 0x69, 0x63, 0x65,
];

#[test]
fn encodes_a_message_byte_for_byte() {
    assert_eq!(encode(&message("hello", 1_700_000_000_000)), HELLO.to_vec());
}

#[test]
fn encodes_a_nickname_byte_for_byte() {
    assert_eq!(encode(&nickname("alice")), ALICE.to_vec());
}

#[test]
fn encodes_an_empty_message_at_the_epoch() {
    let expected: Vec<u8> = vec![
        0xa1, 0x67, 0x4d, 0x65, 0x73, 0x73, 0x61, 0x67, 0x65, 0xa2, 0x67, 0x6d, 0x65, 0x73, 0x73,
        0x61, 0x67, 0x65, 0x60, 0x70, 0x6f, 0x72, 0x69, 0x67, 0x69, 0x6e, 0x5f, 0x74, 0x69, 0x6d,
        0x65, 0x73, 0x74, 0x61, 0x6d, 0x70, 0x00,
    ];
    assert_eq!(encode(&message("", 0)), expected);
}

#[test]
fn encodes_text_as_utf8_and_a_negative_timestamp() {
    let expected: Vec<u8> = vec![
        0xa1, 0x67, 0x4d, 0x65, 0x73, 0x73, 0x61, 0x67, 0x65, 0xa2, 0x67, 0x6d, 0x65, 0x73, 0x73,
        0x61, 0x67, 0x65, 0x6a, 0x68, 0xc3, 0xa9, 0xe4, 0xb8, 0x96, 0xf0, 0x9f, 0x98, 0x80, 0x70,
        0x6f, 0x72, 0x69, 0x67, 0x69, 0x6e, 0x5f, 0x74, 0x69, 0x6d, 0x65, 0x73, 0x74, 0x61, 0x6d,
        0x70, 0x20,
    ];
    assert_eq!(encode(&message("h\u{e9}\u{4e16}\u{1f600}", -1)), expected);
}

#[test]
fn encodes_the_extreme_timestamps() {
    let least = encode(&message("", i64::MIN));
    assert_eq!(&least[least.len() - 9..], &[0x3b, 0x7f, 0xff, 0xff, 0xff, 0xff, 0xff, 0xff, 0xff]);
    let greatest = encode(&message("", i64::MAX));
    assert_eq!(
        &greatest[greatest.len() - 9..],
        &[0x1b, 0x7f, 0xff, 0xff, 0xff, 0xff, 0xff, 0xff, 0xff]
    );
}

#[test]
fn decodes_a_message() {
    assert_eq!(decode(&HELLO), Ok(message("hello", 1_700_000_000_000)));
}

#[test]
fn decodes_a_nickname() {
    assert_eq!(decode(&ALICE), Ok(nickname("alice")));
}

#[test]
fn decode_inverts_encode_on_messages() {
    let texts = ["", "a", "hello", "h\u{e9}\u{4e16}\u{1f600}", "line\nbreak", "\u{0}"];
    let stamps = [
        i64::MIN,
        -4_294_967_297,
        -4_294_967_296,
        -65_537,
        -65_536,
        -257,
        -256,
        -25,
        -24,
        -1,
        0,
        23,
        24,
        255,
        256,
        65_535,
        65_536,
        4_294_967_295,
        4_294_967_296,
        1_700_000_000_000,
        i64::MAX,
    ];
    for text in texts {
        for stamp in stamps {
            let envelope = message(text, stamp);
            assert_eq!(decode(&encode(&envelope)), Ok(message(text, stamp)));
        }
    }
}

#[test]
fn decode_inverts_encode_on_texts_of_every_head_form() {
    for len in [0usize, 1, 23, 24, 25, 255, 256, 257, 65_535, 65_536, 70_000] {
        let text = "x".repeat(len);
        assert_eq!(decode(&encode(&nickname(&text))), Ok(nickname(&text)));
        assert_eq!(decode(&encode(&message(&text, 7))), Ok(message(&text, 7)));
    }
}

#[test]
fn text_heads_take_the_shortest_form() {
    let short = encode(&nickname(&"x".repeat(23)));
    assert_eq!(short[22], 0x77);
    assert_eq!(short.len(), 22 + 1 + 23);
    let one = encode(&nickname(&"x".repeat(24)));
    assert_eq!(&one[22..24], &[0x78, 24]);
    let two = encode(&nickname(&"x".repeat(256)));
    assert_eq!(&two[22..25], &[0x79, 0x01, 0x00]);
    let four = encode(&nickname(&"x".repeat(65_536)));
    assert_eq!(&four[22..27], &[0x7a, 0x00, 0x01, 0x00, 0x00]);
}

#[test]
fn encodings_of_different_envelopes_differ() {
    let envelopes = [
        message("a", 1),
        message("a", 2),
        message("b", 1),
        message("", -1),
        nickname("a"),
        nickname("b"),
        nickname(""),
    ];
    for (i, first) in envelopes.iter().enumerate() {
        for (j, second) in envelopes.iter().enumerate() {
            assert_eq!(encode(first) == encode(second), i == j);
        }
    }
}

#[test]
fn rejects_empty_input() {
    assert_eq!(decode(&[]), Err(DecodeError));
}

#[test]
fn rejects_garbled_input() {
    assert_eq!(decode(&[0xde, 0xad, 0xbe, 0xef]), Err(DecodeError));
    assert_eq!(decode(&[0xff; 64]), Err(DecodeError));
    assert_eq!(decode(b"hello"), Err(DecodeError));
}

#[test]
fn rejects_every_truncation() {
    for len in 0..HELLO.len() {
        assert_eq!(decode(&HELLO[..len]), Err(DecodeError));
    }
    for len in 0..ALICE.len() {
        assert_eq!(decode(&ALICE[..len]), Err(DecodeError));
    }
}

#[test]
fn rejects_trailing_bytes() {
    let mut bytes = HELLO.to_vec();
    bytes.push(0x00);
    assert_eq!(decode(&bytes), Err(DecodeError));
    let mut bytes = ALICE.to_vec();
    bytes.push(0xa0);
    assert_eq!(decode(&bytes), Err(DecodeError));
}

#[test]
fn rejects_an_unknown_variant() {
    // {"Shout": {"nick": "alice"}}
    let bytes = [
        0xa1, 0x65, 0x53, 0x68, 0x6f, 0x75, 0x74, 0xa1, 0x64, 0x6e, 0x69, 0x63, 0x6b, 0x65, 0x61,
        0x6c, 0x69, 0x63, 0x65,
    ];
    assert_eq!(decode(&bytes), Err(DecodeError));
}

#[test]
fn rejects_a_wrong_field_name() {
    let mut bytes = ALICE.to_vec();
    bytes[21] = 0x6c; // "nicl"
    assert_eq!(decode(&bytes), Err(DecodeError));
}

#[test]
fn rejects_fields_of_the_other_variant() {
    // {"Message": {"nick": "alice"}}
    let mut bytes = vec![0xa1, 0x67, 0x4d, 0x65, 0x73, 0x73, 0x61, 0x67, 0x65];
    bytes.extend_from_slice(&ALICE[16..]);
    assert_eq!(decode(&bytes), Err(DecodeError));
}

#[test]
fn rejects_text_that_is_not_utf8() {
    let mut bytes = ALICE.to_vec();
    let last = bytes.len() - 1;
    bytes[last] = 0xff;
    assert_eq!(decode(&bytes), Err(DecodeError));
    // a lone continuation byte, and a surrogate
    let mut bytes = ALICE[..22].to_vec();
    bytes.extend_from_slice(&[0x61, 0x80]);
    assert_eq!(decode(&bytes), Err(DecodeError));
    let mut bytes = ALICE[..22].to_vec();
    bytes.extend_from_slice(&[0x63, 0xed, 0xa0, 0x80]);
    assert_eq!(decode(&bytes), Err(DecodeError));
}

#[test]
fn rejects_a_head_that_is_longer_than_needed() {
    // the nickname's length 5 written in one argument byte
    let mut bytes = ALICE[..22].to_vec();
    bytes.extend_from_slice(&[0x78, 0x05, 0x61, 0x6c, 0x69, 0x63, 0x65]);
    assert_eq!(decode(&bytes), Err(DecodeError));
    // the timestamp 0 written in eight argument bytes
    let mut bytes = HELLO[..41].to_vec();
    bytes.extend_from_slice(&[0x1b, 0, 0, 0, 0, 0, 0, 0, 0]);
    assert_eq!(decode(&bytes), Err(DecodeError));
}

#[test]
fn rejects_a_timestamp_beyond_sixty_four_bits_signed() {
    let mut bytes = HELLO[..41].to_vec();
    bytes.extend_from_slice(&[0x1b, 0x80, 0, 0, 0, 0, 0, 0, 0]);
    assert_eq!(decode(&bytes), Err(DecodeError));
    let mut bytes = HELLO[..41].to_vec();
    bytes.extend_from_slice(&[0x3b, 0x80, 0, 0, 0, 0, 0, 0, 0]);
    assert_eq!(decode(&bytes), Err(DecodeError));
}

#[test]
fn rejects_a_timestamp_of_another_type() {
    let mut bytes = HELLO[..41].to_vec();
    bytes.extend_from_slice(&[0x61, 0x30]);
    assert_eq!(decode(&bytes), Err(DecodeError));
}

#[test]
fn rejects_items_of_indefinite_length() {
    let mut bytes = vec![0xbf];
    bytes.extend_from_slice(&ALICE[1..]);
    bytes.push(0xff);
    assert_eq!(decode(&bytes), Err(DecodeError));
    assert_eq!(decode(&[0x1c]), Err(DecodeError));
    assert_eq!(decode(&[0xbc, 0x00]), Err(DecodeError));
}

#[test]
fn rejects_a_text_length_that_runs_past_the_end() {
    let mut bytes = ALICE[..22].to_vec();
    bytes.extend_from_slice(&[0x7b, 0xff, 0xff, 0xff, 0xff, 0xff, 0xff, 0xff, 0xff, 0x61]);
    assert_eq!(decode(&bytes), Err(DecodeError));
}

#[test]
fn rejects_every_single_byte_change() {
    for place in 0..ALICE.len() {
        let mut bytes = ALICE.to_vec();
        bytes[place] ^= 0x80;
        match decode(&bytes) {
            Ok(envelope) => assert_eq!(encode(&envelope), bytes),
            Err(error) => assert_eq!(error, DecodeError),
        }
    }
}

#[test]
fn what_decodes_encodes_back_to_the_same_bytes() {
    let mut seed: u64 = 0x2545_f491_4f6c_dd1d;
    for _ in 0..2000 {
        let mut bytes = HELLO.to_vec();
        seed ^= seed << 13;
        seed ^= seed >> 7;
        seed ^= seed << 17;
        let place = (seed % bytes.len() as u64) as usize;
        bytes[place] = (seed >> 32) as u8;
        if let Ok(envelope) = decode(&bytes) {
            assert_eq!(encode(&envelope), bytes);
        }
    }
}
