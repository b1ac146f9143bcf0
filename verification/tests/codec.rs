use wirecodec::decode;
use wirecodec::encode;
use wirecodec::errors::DecodeError;
use wirecodec::messages::{AuthMessage, ClientId, Sequence, ServerId};
use wirecodec::source::Source;

fn enc_uint(v: u128) -> Vec<u8> {
    let mut w: Vec<u8> = Vec::new();
    encode::uint(&mut w, &v);
    w
}

fn dec_uint(bytes: Vec<u8>) -> Result<u128, DecodeError> {
    let mut rd = Source::new(bytes);
    decode::uint(&mut rd)
}

fn enc_string(s: &str) -> Vec<u8> {
    let mut w: Vec<u8> = Vec::new();
    encode::string(&mut w, s);
    w
}

#[test]
fn uint_round_trip_all_widths() {
    let cases: Vec<(u128, usize)> = vec![
        (0, 1),
        (1, 1),
        (250, 1),
        (251, 3),
        (65535, 3),
        (65536, 5),
        (4294967295, 5),
        (4294967296, 9),
        (18446744073709551615, 9),
        (18446744073709551616, 17),
        (340282366920938463463374607431768211455, 17),
    ];
    for (v, width) in cases {
        let bytes = enc_uint(v);
        assert_eq!(bytes.len(), width);
        let mut rd = Source::new(bytes);
        assert_eq!(decode::uint(&mut rd), Ok(v));
        assert_eq!(rd.remaining_len(), 0);
    }
}

#[test]
fn uint_concrete_bytes() {
    assert_eq!(enc_uint(0), vec![0]);
    assert_eq!(enc_uint(250), vec![250]);
    assert_eq!(enc_uint(251), vec![251, 251, 0]);
    assert_eq!(enc_uint(65535), vec![251, 255, 255]);
    assert_eq!(enc_uint(65536), vec![252, 0, 0, 1, 0]);
}

#[test]
fn uint_encoding_is_pure() {
    for v in [0u128, 250, 251, 65536, 4294967296, 18446744073709551616] {
        assert_eq!(enc_uint(v), enc_uint(v));
    }
    assert_ne!(enc_uint(7), enc_uint(8));
    assert_ne!(enc_uint(251), enc_uint(65535));
}

#[test]
fn uint_reserved_tag_rejected() {
    assert_eq!(dec_uint(vec![255]), Err(DecodeError::UnsupportedTag));
    assert_eq!(dec_uint(vec![255, 1, 2, 3]), Err(DecodeError::UnsupportedTag));
}

#[test]
fn uint_truncation_fails() {
    for v in [251u128, 65536, 4294967296, 18446744073709551616] {
        let bytes = enc_uint(v);
        for cut in 0..bytes.len() {
            let mut rd = Source::new(bytes[..cut].to_vec());
            assert_eq!(decode::uint(&mut rd), Err(DecodeError::UnexpectedEndOfStream));
        }
    }
}

#[test]
fn client_identity_round_trip() {
    let payloads: Vec<[u8; 16]> = vec![
        [0; 16],
        [255; 16],
        [1, 2, 3, 4, 5, 6, 7, 8, 9, 10, 11, 12, 13, 14, 15, 16],
        [0xde, 0xad, 0xbe, 0xef, 0, 1, 2, 3, 4, 5, 6, 7, 8, 9, 10, 11],
    ];
    for p in payloads {
        let id = ClientId(p.to_vec());
        let mut w: Vec<u8> = Vec::new();
        encode::clientid(&mut w, &id);
        assert_eq!(w.len(), 17);
        assert_eq!(w[0], 16);
        let mut rd = Source::new(w);
        let back = decode::clientid(&mut rd).unwrap();
        assert_eq!(back.0, p.to_vec());
        assert_eq!(rd.remaining_len(), 0);
    }
}

#[test]
fn server_identity_round_trip() {
    let id = ServerId(vec![9; 16]);
    let mut w: Vec<u8> = Vec::new();
    encode::serverid(&mut w, &id);
    let mut rd = Source::new(w);
    assert_eq!(decode::serverid(&mut rd).unwrap(), id);
}

#[test]
fn identity_wrong_size_byte_rejected() {
    for sz in [0u8, 15, 17, 255] {
        let mut bytes = vec![sz];
        bytes.extend(vec![0u8; 20]);
        let mut rd = Source::new(bytes);
        assert_eq!(decode::clientid(&mut rd), Err(DecodeError::InvalidIdentitySize));
    }
}

#[test]
fn identity_truncation_fails() {
    let id = ClientId(vec![7; 16]);
    let mut w: Vec<u8> = Vec::new();
    encode::clientid(&mut w, &id);
    for cut in 0..w.len() {
        let mut rd = Source::new(w[..cut].to_vec());
        assert_eq!(decode::clientid(&mut rd), Err(DecodeError::UnexpectedEndOfStream));
    }
}

#[test]
fn string_round_trip() {
    let long: String = "x".repeat(1000);
    for s in ["", "a", long.as_str(), "h\u{e9}llo w\u{f6}rld \u{2713}"] {
        let bytes = enc_string(s);
        let mut rd = Source::new(bytes);
        assert_eq!(decode::string(&mut rd).unwrap(), s.to_string());
        assert_eq!(rd.remaining_len(), 0);
    }
}

#[test]
fn string_decode_consumes_exactly_one_length_prefix() {
    // A single length prefix is read; trailing bytes stay on the stream.
    let mut bytes = enc_string("abc");
    let width = bytes.len();
    bytes.extend(vec![0x51, 0x52, 0x53]);
    let mut rd = Source::new(bytes);
    assert_eq!(decode::string(&mut rd).unwrap(), "abc".to_string());
    assert_eq!(rd.remaining_len(), 3);
    // "abc": one length byte plus three payload bytes.
    assert_eq!(width, 1 + 3);
}

#[test]
fn string_invalid_utf8_rejected() {
    let mut bytes = enc_uint(2);
    bytes.extend(vec![0xff, 0xfe]);
    let mut rd = Source::new(bytes);
    assert_eq!(decode::string(&mut rd), Err(DecodeError::InvalidUtf8));
}

#[test]
fn string_length_overflow_rejected() {
    // A declared length just past usize::MAX cannot be represented.
    let too_long = (usize::MAX as u128) + 1;
    let bytes = enc_uint(too_long);
    let mut rd = Source::new(bytes);
    assert_eq!(decode::string(&mut rd), Err(DecodeError::LengthOverflow));
}

#[test]
fn string_truncation_fails() {
    let bytes = enc_string("hello");
    for cut in 0..bytes.len() {
        let mut rd = Source::new(bytes[..cut].to_vec());
        assert_eq!(decode::string(&mut rd), Err(DecodeError::UnexpectedEndOfStream));
    }
}

fn sample_hello() -> AuthMessage {
    AuthMessage::Hello { user: ClientId(vec![3; 16]), nonce: vec![1, 2, 3, 4, 5, 6, 7, 8] }
}

fn sample_nonce() -> AuthMessage {
    AuthMessage::Nonce { server: ServerId(vec![4; 16]), nonce: vec![8, 7, 6, 5, 4, 3, 2, 1] }
}

fn sample_auth() -> AuthMessage {
    AuthMessage::Auth { response: vec![0xab; 16] }
}

#[test]
fn auth_round_trip_all_variants() {
    for (m, tag, len) in [
        (sample_hello(), 0u8, 26usize),
        (sample_nonce(), 1, 26),
        (sample_auth(), 2, 17),
    ] {
        let mut w: Vec<u8> = Vec::new();
        encode::auth(&mut w, &m);
        assert_eq!(w.len(), len);
        assert_eq!(w[0], tag);
        let mut rd = Source::new(w);
        assert_eq!(decode::auth(&mut rd).unwrap(), m);
        assert_eq!(rd.remaining_len(), 0);
    }
}

#[test]
fn auth_unknown_tag_rejected() {
    for tag in [3u8, 4, 100, 254] {
        let mut bytes = vec![tag];
        bytes.extend(vec![0u8; 30]);
        let mut rd = Source::new(bytes);
        assert_eq!(decode::auth(&mut rd), Err(DecodeError::UnknownAuthTag));
    }
}

#[test]
fn auth_truncation_fails() {
    for m in [sample_hello(), sample_nonce(), sample_auth()] {
        let mut w: Vec<u8> = Vec::new();
        encode::auth(&mut w, &m);
        for cut in 0..w.len() {
            let mut rd = Source::new(w[..cut].to_vec());
            assert_eq!(decode::auth(&mut rd), Err(DecodeError::UnexpectedEndOfStream));
        }
    }
}

#[test]
fn sequence_empty_is_single_zero_byte() {
    let items: Sequence<String> = Sequence(Vec::new());
    let mut w: Vec<u8> = Vec::new();
    encode::sequence(&mut w, &items);
    assert_eq!(w, vec![0u8]);
    let mut rd = Source::new(w);
    let back: Sequence<String> = decode::sequence(&mut rd).unwrap();
    assert!(back.0.is_empty());
}

#[test]
fn sequence_of_strings_round_trip() {
    let items = Sequence(vec!["a".to_string(), "bb".to_string(), "ccc".to_string()]);
    let mut w: Vec<u8> = Vec::new();
    encode::sequence(&mut w, &items);
    let mut rd = Source::new(w);
    let back: Sequence<String> = decode::sequence(&mut rd).unwrap();
    assert_eq!(back, items);
    assert_eq!(rd.remaining_len(), 0);
}

#[test]
fn sequence_of_uints_round_trip() {
    let items: Sequence<u128> = Sequence(vec![0, 250, 251, 65536, 340282366920938463463374607431768211455]);
    let mut w: Vec<u8> = Vec::new();
    encode::sequence(&mut w, &items);
    let mut rd = Source::new(w);
    let back: Sequence<u128> = decode::sequence(&mut rd).unwrap();
    assert_eq!(back, items);
}

#[test]
fn sequence_of_auth_messages_round_trip() {
    let items = Sequence(vec![sample_hello(), sample_nonce(), sample_auth()]);
    let mut w: Vec<u8> = Vec::new();
    encode::sequence(&mut w, &items);
    let mut rd = Source::new(w);
    let back: Sequence<AuthMessage> = decode::sequence(&mut rd).unwrap();
    assert_eq!(back, items);
}

#[test]
fn sequence_of_sequences_round_trip() {
    // The combinator composes with itself: a list of lists of strings.
    let items: Sequence<Sequence<String>> = Sequence(vec![
        Sequence(vec!["a".to_string()]),
        Sequence(Vec::new()),
        Sequence(vec!["bb".to_string(), "ccc".to_string()]),
    ]);
    let mut w: Vec<u8> = Vec::new();
    encode::sequence(&mut w, &items);
    let mut rd = Source::new(w);
    let back: Sequence<Sequence<String>> = decode::sequence(&mut rd).unwrap();
    assert_eq!(back, items);
}

#[test]
fn sequence_element_error_is_surfaced() {
    // Count of two, a good first string, then a payload that is not UTF-8:
    // the element's own error comes back and no partial sequence does.
    let mut bytes = enc_uint(2);
    bytes.extend(enc_string("a"));
    bytes.extend(enc_uint(1));
    bytes.push(0xff);
    let mut rd = Source::new(bytes);
    let r: Result<Sequence<String>, DecodeError> = decode::sequence(&mut rd);
    assert_eq!(r, Err(DecodeError::InvalidUtf8));
}

#[test]
fn sequence_missing_elements_fail() {
    // A count of three but only two elements on the stream.
    let mut bytes = enc_uint(3);
    bytes.extend(enc_string("a"));
    bytes.extend(enc_string("bb"));
    let mut rd = Source::new(bytes);
    let r: Result<Sequence<String>, DecodeError> = decode::sequence(&mut rd);
    assert_eq!(r, Err(DecodeError::UnexpectedEndOfStream));
}

#[test]
fn sequence_truncation_fails() {
    let items = Sequence(vec!["a".to_string(), "bb".to_string(), "ccc".to_string()]);
    let mut w: Vec<u8> = Vec::new();
    encode::sequence(&mut w, &items);
    for cut in 0..w.len() {
        let mut rd = Source::new(w[..cut].to_vec());
        let r: Result<Sequence<String>, DecodeError> = decode::sequence(&mut rd);
        assert_eq!(r, Err(DecodeError::UnexpectedEndOfStream));
    }
}

#[test]
fn decode_leaves_trailing_bytes() {
    // Decoding consumes exactly one construct and no more.
    let mut bytes = enc_uint(65535);
    bytes.extend(enc_uint(7));
    let mut rd = Source::new(bytes);
    assert_eq!(decode::uint(&mut rd), Ok(65535));
    assert_eq!(rd.remaining_len(), 1);
    assert_eq!(decode::uint(&mut rd), Ok(7));
    assert_eq!(rd.remaining_len(), 0);
}

#[test]
fn empty_stream_is_end_of_stream() {
    let mut rd = Source::new(Vec::new());
    assert_eq!(decode::uint(&mut rd), Err(DecodeError::UnexpectedEndOfStream));
    let mut rd = Source::new(Vec::new());
    assert_eq!(decode::auth(&mut rd), Err(DecodeError::UnexpectedEndOfStream));
    let mut rd = Source::new(Vec::new());
    assert_eq!(decode::clientid(&mut rd), Err(DecodeError::UnexpectedEndOfStream));
}
