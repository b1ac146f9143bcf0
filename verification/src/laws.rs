//! The laws of the wire grammar: encoding then decoding restores the
//! value, encodings are unambiguous, truncated encodings are rejected as
//! an unexpected end of stream, and each error is reported exactly when
//! its condition holds.

use crate::errors::DecodeError;
use crate::messages::AuthMessageModel;
use crate::wire::{
    auth_dec, auth_enc, auth_inv, decoded_prepend, elems_dec, elems_enc, identity_dec,
    identity_enc, identity_inv, sequence_dec, sequence_enc, sequence_inv, string_dec, string_enc,
    string_inv, uint_dec, uint_dec_val, uint_enc, uint_len, Decoded, Wire,
};
use vstd::utf8::{encode_utf8, encode_utf8_decode_utf8, encode_utf8_valid_utf8};
use vstd::bytes::*;
use vstd::prelude::*;

verus! {

/// The canonical integer encoding starts with a tag byte that is never
/// the reserved byte 255 and announces the encoding's own length.
pub proof fn lemma_uint_enc_shape(v: u128)
    ensures
        uint_enc(v).len() == uint_len(uint_enc(v)[0]),
        uint_enc(v)[0] != 255,
        1 <= uint_enc(v).len() <= 17,
{
    lemma_auto_spec_u16_to_from_le_bytes();
    lemma_auto_spec_u32_to_from_le_bytes();
    lemma_auto_spec_u64_to_from_le_bytes();
    lemma_auto_spec_u128_to_from_le_bytes();
}

/// Decoding an encoded integer, whatever follows it on the stream,
/// yields the value back and consumes exactly the encoding.
pub proof fn lemma_uint_round_trip(v: u128, rest: Seq<u8>)
    ensures
        uint_dec(uint_enc(v) + rest) == Decoded::Found(v, uint_enc(v).len() as int),
{
    lemma_auto_spec_u16_to_from_le_bytes();
    lemma_auto_spec_u32_to_from_le_bytes();
    lemma_auto_spec_u64_to_from_le_bytes();
    lemma_auto_spec_u128_to_from_le_bytes();
    let s = uint_enc(v) + rest;
    lemma_uint_enc_shape(v);
    assert(s[0] == uint_enc(v)[0]);
    if v < 251 {
        assert(uint_dec_val(s) == v);
    } else if v <= u16::MAX as u128 {
        assert(s.subrange(1, 3) =~= spec_u16_to_le_bytes(v as u16));
        assert(uint_dec_val(s) == v);
    } else if v <= u32::MAX as u128 {
        assert(s.subrange(1, 5) =~= spec_u32_to_le_bytes(v as u32));
        assert(uint_dec_val(s) == v);
    } else if v <= u64::MAX as u128 {
        assert(s.subrange(1, 9) =~= spec_u64_to_le_bytes(v as u64));
        assert(uint_dec_val(s) == v);
    } else {
        assert(s.subrange(1, 17) =~= spec_u128_to_le_bytes(v));
        assert(uint_dec_val(s) == v);
    }
}

/// No two values share an encoding: the integer encoder is injective,
/// and since it is a function of the value alone, every value has
/// exactly one canonical encoding.
pub proof fn lemma_uint_enc_injective(v1: u128, v2: u128)
    requires
        uint_enc(v1) == uint_enc(v2),
    ensures
        v1 == v2,
{
    lemma_uint_round_trip(v1, Seq::empty());
    lemma_uint_round_trip(v2, Seq::empty());
    assert(uint_enc(v1) + Seq::<u8>::empty() =~= uint_enc(v1));
    assert(uint_enc(v2) + Seq::<u8>::empty() =~= uint_enc(v2));
}

/// A stream that begins with the reserved tag byte 255 is rejected as an
/// unsupported tag, whatever follows.
pub proof fn lemma_uint_reserved_tag(s: Seq<u8>)
    requires
        s.len() >= 1,
        s[0] == 255,
    ensures
        uint_dec(s) == Decoded::<u128>::Fail(DecodeError::UnsupportedTag),
{
}

/// Cutting an encoded integer anywhere before its final byte makes
/// decoding fail with an unexpected end of stream.
pub proof fn lemma_uint_truncated(v: u128, i: int)
    requires
        0 <= i < uint_enc(v).len(),
    ensures
        uint_dec(uint_enc(v).take(i)) == Decoded::<u128>::Fail(DecodeError::UnexpectedEndOfStream),
{
    lemma_uint_enc_shape(v);
    let t = uint_enc(v).take(i);
    if i > 0 {
        assert(t[0] == uint_enc(v)[0]);
        assert(t.len() < uint_len(t[0]));
    }
}

/// Decoding an encoded identity token, whatever follows it on the
/// stream, yields the original 16 bytes and consumes exactly the
/// encoding. The kind of the token — client or server — is chosen by the
/// entry point and is not derivable from the wire bytes.
pub proof fn lemma_identity_round_trip(b: Seq<u8>, rest: Seq<u8>)
    requires
        identity_inv(b),
    ensures
        identity_dec(identity_enc(b) + rest) == Decoded::Found(b, 17),
{
    let s = identity_enc(b) + rest;
    assert(s[0] == 16);
    assert(s.subrange(1, 17) =~= b);
}

/// A stream whose declared identity size byte is not 16 is rejected,
/// whatever follows.
pub proof fn lemma_identity_size_rejected(s: Seq<u8>)
    requires
        s.len() >= 1,
        s[0] != 16,
    ensures
        identity_dec(s) == Decoded::<Seq<u8>>::Fail(DecodeError::InvalidIdentitySize),
{
}

/// Cutting an encoded identity token anywhere before its final byte
/// makes decoding fail with an unexpected end of stream.
pub proof fn lemma_identity_truncated(b: Seq<u8>, i: int)
    requires
        identity_inv(b),
        0 <= i < identity_enc(b).len(),
    ensures
        identity_dec(identity_enc(b).take(i)) == Decoded::<Seq<u8>>::Fail(
            DecodeError::UnexpectedEndOfStream,
        ),
{
    let t = identity_enc(b).take(i);
    if i > 0 {
        assert(t[0] == 16);
        assert(t.len() < 17);
    }
}

/// Decoding an encoded string, whatever follows it on the stream, yields
/// the original characters and consumes exactly the encoding: one length
/// prefix and then the payload, and nothing more.
pub proof fn lemma_string_round_trip(cs: Seq<char>, rest: Seq<u8>)
    requires
        string_inv(cs),
    ensures
        string_dec(string_enc(cs) + rest) == Decoded::Found(cs, string_enc(cs).len() as int),
{
    let bytes = encode_utf8(cs);
    let lenenc = uint_enc(bytes.len() as u128);
    let s = string_enc(cs) + rest;
    assert(s =~= lenenc + (bytes + rest));
    lemma_uint_round_trip(bytes.len() as u128, bytes + rest);
    let k = lenenc.len() as int;
    let len = bytes.len() as int;
    assert(s.subrange(k, k + len) =~= bytes);
    encode_utf8_valid_utf8(cs);
    encode_utf8_decode_utf8(cs);
}

/// Cutting an encoded string anywhere before its final byte makes
/// decoding fail with an unexpected end of stream.
pub proof fn lemma_string_truncated(cs: Seq<char>, i: int)
    requires
        string_inv(cs),
        0 <= i < string_enc(cs).len(),
    ensures
        string_dec(string_enc(cs).take(i)) == Decoded::<Seq<char>>::Fail(
            DecodeError::UnexpectedEndOfStream,
        ),
{
    let bytes = encode_utf8(cs);
    let lenenc = uint_enc(bytes.len() as u128);
    let t = string_enc(cs).take(i);
    if i < lenenc.len() {
        assert(t =~= lenenc.take(i));
        lemma_uint_truncated(bytes.len() as u128, i);
    } else {
        let cut = bytes.take(i - lenenc.len());
        assert(t =~= lenenc + cut);
        lemma_uint_round_trip(bytes.len() as u128, cut);
        assert(t.len() - lenenc.len() < bytes.len());
    }
}

/// Decoding an encoded handshake message, whatever follows it on the
/// stream, yields an identical message and consumes exactly the
/// encoding.
pub proof fn lemma_auth_round_trip(m: AuthMessageModel, rest: Seq<u8>)
    requires
        auth_inv(m),
    ensures
        auth_dec(auth_enc(m) + rest) == Decoded::Found(m, auth_enc(m).len() as int),
{
    let s = auth_enc(m) + rest;
    match m {
        AuthMessageModel::Hello { user, nonce } => {
            assert(s[0] == 0);
            assert(s.skip(1) =~= identity_enc(user) + (nonce + rest));
            lemma_identity_round_trip(user, nonce + rest);
            assert(s.subrange(18, 26) =~= nonce);
        },
        AuthMessageModel::Nonce { server, nonce } => {
            assert(s[0] == 1);
            assert(s.skip(1) =~= identity_enc(server) + (nonce + rest));
            lemma_identity_round_trip(server, nonce + rest);
            assert(s.subrange(18, 26) =~= nonce);
        },
        AuthMessageModel::Auth { response } => {
            assert(s[0] == 2);
            assert(s.subrange(1, 17) =~= response);
        },
    }
}

/// A stream whose first byte is not one of the three handshake tags is
/// rejected as an unknown tag, whatever follows.
pub proof fn lemma_auth_unknown_tag(s: Seq<u8>)
    requires
        s.len() >= 1,
        s[0] != 0,
        s[0] != 1,
        s[0] != 2,
    ensures
        auth_dec(s) == Decoded::<AuthMessageModel>::Fail(DecodeError::UnknownAuthTag),
{
}

/// Cutting an encoded handshake message anywhere before its final byte
/// makes decoding fail with an unexpected end of stream.
pub proof fn lemma_auth_truncated(m: AuthMessageModel, i: int)
    requires
        auth_inv(m),
        0 <= i < auth_enc(m).len(),
    ensures
        auth_dec(auth_enc(m).take(i)) == Decoded::<AuthMessageModel>::Fail(
            DecodeError::UnexpectedEndOfStream,
        ),
{
    let t = auth_enc(m).take(i);
    match m {
        AuthMessageModel::Hello { user, nonce } => {
            if 1 <= i && i < 18 {
                assert(t.skip(1) =~= identity_enc(user).take(i - 1));
                lemma_identity_truncated(user, i - 1);
            } else if 18 <= i {
                assert(t.skip(1) =~= identity_enc(user) + nonce.take(i - 18));
                lemma_identity_round_trip(user, nonce.take(i - 18));
                assert(t.len() - 1 - 17 < 8);
            }
        },
        AuthMessageModel::Nonce { server, nonce } => {
            if 1 <= i && i < 18 {
                assert(t.skip(1) =~= identity_enc(server).take(i - 1));
                lemma_identity_truncated(server, i - 1);
            } else if 18 <= i {
                assert(t.skip(1) =~= identity_enc(server) + nonce.take(i - 18));
                lemma_identity_round_trip(server, nonce.take(i - 18));
                assert(t.len() - 1 - 17 < 8);
            }
        },
        AuthMessageModel::Auth { response } => {
            if 1 <= i {
                assert(t[0] == 2);
                assert(t.len() < 17);
            }
        },
    }
}

/// Prefixing nothing onto a decode outcome leaves it unchanged.
pub proof fn lemma_decoded_prepend_empty<V>(d: Decoded<Seq<V>>)
    ensures
        decoded_prepend(Seq::empty(), 0, d) == d,
{
    match d {
        Decoded::Found(ys, m) => {
            assert(Seq::<V>::empty() + ys =~= ys);
        },
        Decoded::Fail(_) => {},
    }
}

/// Prefixing twice onto a decode outcome is prefixing the concatenation
/// once.
pub proof fn lemma_decoded_prepend_assoc<V>(
    xs: Seq<V>,
    k: int,
    ys: Seq<V>,
    m: int,
    d: Decoded<Seq<V>>,
)
    ensures
        decoded_prepend(xs, k, decoded_prepend(ys, m, d)) == decoded_prepend(xs + ys, k + m, d),
{
    match d {
        Decoded::Found(zs, n) => {
            assert(xs + (ys + zs) =~= (xs + ys) + zs);
        },
        Decoded::Fail(_) => {},
    }
}

/// A decoded element list has exactly the asked-for length, holds only
/// well-formed models, and consumes no more than the stream holds.
pub proof fn lemma_elems_dec_bounds<X: Wire>(s: Seq<u8>, n: nat)
    ensures
        match elems_dec::<X>(s, n) {
            Decoded::Found(vs, m) => vs.len() == n && 0 <= m <= s.len() && (forall|i: int|
                0 <= i < vs.len() ==> X::inv(#[trigger] vs[i])),
            Decoded::Fail(_) => true,
        },
    decreases n,
{
    if n > 0 {
        X::lemma_dec_bounds(s);
        match X::dec(s) {
            Decoded::Fail(_) => {},
            Decoded::Found(x, k) => {
                lemma_elems_dec_bounds::<X>(s.skip(k), (n - 1) as nat);
            },
        }
    }
}

/// Decoding the concatenated encodings of `n` well-formed element
/// models, whatever follows them, yields those models and consumes
/// exactly the encodings.
pub proof fn lemma_elems_round_trip<X: Wire>(vs: Seq<X::V>, rest: Seq<u8>)
    requires
        forall|i: int| 0 <= i < vs.len() ==> X::inv(#[trigger] vs[i]),
    ensures
        elems_dec::<X>(elems_enc::<X>(vs) + rest, vs.len() as nat) == Decoded::Found(
            vs,
            elems_enc::<X>(vs).len() as int,
        ),
    decreases vs.len(),
{
    let s = elems_enc::<X>(vs) + rest;
    if vs.len() == 0 {
        assert(vs =~= Seq::<X::V>::empty());
    } else {
        let x = vs[0];
        let tail = vs.drop_first();
        assert(s =~= X::enc(x) + (elems_enc::<X>(tail) + rest));
        X::lemma_round_trip(x, elems_enc::<X>(tail) + rest);
        let k = X::enc(x).len() as int;
        assert(s.skip(k) =~= elems_enc::<X>(tail) + rest);
        lemma_elems_round_trip::<X>(tail, rest);
        assert(seq![x] + tail =~= vs);
    }
}

/// Cutting the concatenated encodings of well-formed element models
/// anywhere before their final byte makes decoding that many elements
/// fail with an unexpected end of stream.
pub proof fn lemma_elems_truncated<X: Wire>(vs: Seq<X::V>, i: int)
    requires
        forall|j: int| 0 <= j < vs.len() ==> X::inv(#[trigger] vs[j]),
        0 <= i < elems_enc::<X>(vs).len(),
    ensures
        elems_dec::<X>(elems_enc::<X>(vs).take(i), vs.len() as nat) == Decoded::<Seq<X::V>>::Fail(
            DecodeError::UnexpectedEndOfStream,
        ),
    decreases vs.len(),
{
    if vs.len() > 0 {
        let x = vs[0];
        let tail = vs.drop_first();
        let e0 = X::enc(x);
        let t = elems_enc::<X>(vs).take(i);
        if i < e0.len() {
            assert(t =~= e0.take(i));
            X::lemma_truncated(x, i);
        } else {
            let j = i - e0.len();
            assert(t =~= e0 + elems_enc::<X>(tail).take(j));
            X::lemma_round_trip(x, elems_enc::<X>(tail).take(j));
            assert(t.skip(e0.len() as int) =~= elems_enc::<X>(tail).take(j));
            lemma_elems_truncated::<X>(tail, j);
        }
    }
}

/// An empty sequence encodes to the single byte 0 — the minimal integer
/// encoding of the count zero — and nothing else.
pub proof fn lemma_sequence_empty<X: Wire>()
    ensures
        sequence_enc::<X>(Seq::empty()) == seq![0u8],
{
    assert(sequence_enc::<X>(Seq::empty()) =~= seq![0u8]);
}

/// A decoded sequence is well formed and consumes at least one byte and
/// never more than the stream holds.
pub proof fn lemma_sequence_dec_bounds<X: Wire>(s: Seq<u8>)
    ensures
        match sequence_dec::<X>(s) {
            Decoded::Found(vs, n) => sequence_inv::<X>(vs) && 1 <= n <= s.len(),
            Decoded::Fail(_) => true,
        },
{
    match uint_dec(s) {
        Decoded::Fail(_) => {},
        Decoded::Found(c, k) => {
            lemma_elems_dec_bounds::<X>(s.skip(k), c as nat);
        },
    }
}

/// Decoding an encoded sequence, whatever follows it on the stream,
/// yields the same elements in the same order and consumes exactly the
/// encoding.
pub proof fn lemma_sequence_round_trip<X: Wire>(vs: Seq<X::V>, rest: Seq<u8>)
    requires
        sequence_inv::<X>(vs),
    ensures
        sequence_dec::<X>(sequence_enc::<X>(vs) + rest) == Decoded::Found(
            vs,
            sequence_enc::<X>(vs).len() as int,
        ),
{
    let c = vs.len() as u128;
    let lenenc = uint_enc(c);
    let s = sequence_enc::<X>(vs) + rest;
    assert(s =~= lenenc + (elems_enc::<X>(vs) + rest));
    lemma_uint_round_trip(c, elems_enc::<X>(vs) + rest);
    assert(s.skip(lenenc.len() as int) =~= elems_enc::<X>(vs) + rest);
    lemma_elems_round_trip::<X>(vs, rest);
    assert(Seq::<X::V>::empty() + vs =~= vs);
}

/// Cutting an encoded sequence anywhere before its final byte makes
/// decoding fail with an unexpected end of stream.
pub proof fn lemma_sequence_truncated<X: Wire>(vs: Seq<X::V>, i: int)
    requires
        sequence_inv::<X>(vs),
        0 <= i < sequence_enc::<X>(vs).len(),
    ensures
        sequence_dec::<X>(sequence_enc::<X>(vs).take(i)) == Decoded::<Seq<X::V>>::Fail(
            DecodeError::UnexpectedEndOfStream,
        ),
{
    let c = vs.len() as u128;
    let lenenc = uint_enc(c);
    let t = sequence_enc::<X>(vs).take(i);
    if i < lenenc.len() {
        assert(t =~= lenenc.take(i));
        lemma_uint_truncated(c, i);
    } else {
        let j = i - lenenc.len();
        assert(t =~= lenenc + elems_enc::<X>(vs).take(j));
        lemma_uint_round_trip(c, elems_enc::<X>(vs).take(j));
        assert(t.skip(lenenc.len() as int) =~= elems_enc::<X>(vs).take(j));
        lemma_elems_truncated::<X>(vs, j);
    }
}

/// An error raised by an element codec inside a sequence aborts the
/// sequence and surfaces unchanged: after any run of well-formed
/// elements, a stream on which the element codec fails makes the whole
/// sequence decode fail with that same error, and no partial sequence is
/// produced.
pub proof fn lemma_sequence_error_propagation<X: Wire>(good: Seq<X::V>, bad: Seq<u8>, e: DecodeError)
    requires
        forall|i: int| 0 <= i < good.len() ==> X::inv(#[trigger] good[i]),
        good.len() + 1 <= u128::MAX,
        X::dec(bad) == Decoded::<X::V>::Fail(e),
    ensures
        sequence_dec::<X>(
            uint_enc((good.len() + 1) as u128) + (elems_enc::<X>(good) + bad),
        ) == Decoded::<Seq<X::V>>::Fail(e),
{
    let c = (good.len() + 1) as u128;
    let lenenc = uint_enc(c);
    let s = lenenc + (elems_enc::<X>(good) + bad);
    lemma_uint_round_trip(c, elems_enc::<X>(good) + bad);
    assert(s.skip(lenenc.len() as int) =~= elems_enc::<X>(good) + bad);
    lemma_elems_fail::<X>(good, bad, e, c as nat);
}

/// Decoding more elements than the stream's good prefix holds fails with
/// the element codec's own error on the rest of the stream.
proof fn lemma_elems_fail<X: Wire>(good: Seq<X::V>, bad: Seq<u8>, e: DecodeError, n: nat)
    requires
        forall|i: int| 0 <= i < good.len() ==> X::inv(#[trigger] good[i]),
        X::dec(bad) == Decoded::<X::V>::Fail(e),
        n > good.len(),
    ensures
        elems_dec::<X>(elems_enc::<X>(good) + bad, n) == Decoded::<Seq<X::V>>::Fail(e),
    decreases good.len(),
{
    let s = elems_enc::<X>(good) + bad;
    if good.len() == 0 {
        assert(s =~= bad);
    } else {
        let x = good[0];
        let tail = good.drop_first();
        assert(s =~= X::enc(x) + (elems_enc::<X>(tail) + bad));
        X::lemma_round_trip(x, elems_enc::<X>(tail) + bad);
        assert(s.skip(X::enc(x).len() as int) =~= elems_enc::<X>(tail) + bad);
        lemma_elems_fail::<X>(tail, bad, e, (n - 1) as nat);
    }
}

} // verus!
