use crate::errors::DecodeError;
use crate::messages::AuthMessageModel;
use crate::source::Source;
use vstd::bytes::*;
use vstd::prelude::*;
use vstd::utf8::{decode_utf8, encode_utf8, valid_utf8};

verus! {

/// Outcome of decoding one construct from the front of a byte stream:
/// either the decoded model together with the number of bytes consumed,
/// or the error the decoder reports on that stream.
pub enum Decoded<T> {
    Found(T, int),
    Fail(DecodeError),
}

/// Relates the successful result of an executable decoder to the
/// specification-level outcome `d`: the decoded model is `v` and the
/// cursor moved from `before` to `after` by exactly the consumed length.
pub open spec fn decodes_to<V>(d: Decoded<V>, v: V, before: Seq<u8>, after: Seq<u8>) -> bool {
    match d {
        Decoded::Found(w, n) => w == v && 0 <= n && n <= before.len() && after == before.skip(n),
        Decoded::Fail(_) => false,
    }
}

/// Relates the error of an executable decoder to the specification-level
/// outcome `d`: decoding fails with exactly the error `e`.
pub open spec fn fails_with<V>(d: Decoded<V>, e: DecodeError) -> bool {
    match d {
        Decoded::Found(_, _) => false,
        Decoded::Fail(err) => err == e,
    }
}

/// Number of payload bytes that follow an integer tag byte.
pub open spec fn uint_payload_len(tag: u8) -> int {
    if tag < 251 {
        0
    } else if tag == 251 {
        2
    } else if tag == 252 {
        4
    } else if tag == 253 {
        8
    } else {
        16
    }
}

/// Total wire length of an integer whose first byte is `tag`.
pub open spec fn uint_len(tag: u8) -> int {
    1 + uint_payload_len(tag)
}

/// Canonical minimal-width encoding of an unsigned integer: values up to
/// 250 are a single literal byte; larger values carry a tag byte (251,
/// 252, 253 or 254) followed by 2, 4, 8 or 16 little-endian bytes.
pub open spec fn uint_enc(v: u128) -> Seq<u8> {
    if v < 251 {
        seq![v as u8]
    } else if v <= u16::MAX as u128 {
        seq![251u8] + spec_u16_to_le_bytes(v as u16)
    } else if v <= u32::MAX as u128 {
        seq![252u8] + spec_u32_to_le_bytes(v as u32)
    } else if v <= u64::MAX as u128 {
        seq![253u8] + spec_u64_to_le_bytes(v as u64)
    } else {
        seq![254u8] + spec_u128_to_le_bytes(v)
    }
}

/// The integer encoded at the front of `s`, assuming the tag byte is not
/// reserved and the payload is complete.
pub open spec fn uint_dec_val(s: Seq<u8>) -> u128
    recommends
        s.len() >= 1,
        s[0] != 255,
        s.len() >= uint_len(s[0]),
{
    let tag = s[0];
    if tag < 251 {
        tag as u128
    } else if tag == 251 {
        spec_u16_from_le_bytes(s.subrange(1, 3)) as u128
    } else if tag == 252 {
        spec_u32_from_le_bytes(s.subrange(1, 5)) as u128
    } else if tag == 253 {
        spec_u64_from_le_bytes(s.subrange(1, 9)) as u128
    } else {
        spec_u128_from_le_bytes(s.subrange(1, 17))
    }
}

/// Total decode function for the integer format: the reserved tag byte
/// 255 is rejected, a short stream is an unexpected end of stream, and
/// otherwise the tag byte selects the width of the value that follows.
pub open spec fn uint_dec(s: Seq<u8>) -> Decoded<u128> {
    if s.len() < 1 {
        Decoded::Fail(DecodeError::UnexpectedEndOfStream)
    } else if s[0] == 255 {
        Decoded::Fail(DecodeError::UnsupportedTag)
    } else if s.len() < uint_len(s[0]) {
        Decoded::Fail(DecodeError::UnexpectedEndOfStream)
    } else {
        Decoded::Found(uint_dec_val(s), uint_len(s[0]))
    }
}

/// An identity token is exactly 16 opaque bytes.
pub open spec fn identity_inv(b: Seq<u8>) -> bool {
    b.len() == 16
}

/// Encoding of an identity token: one size byte, always 16, followed by
/// the 16 payload bytes. Client and server identities share this shape;
/// the kind is fixed by the entry point, never by the wire bytes.
pub open spec fn identity_enc(b: Seq<u8>) -> Seq<u8> {
    seq![16u8] + b
}

/// Total decode function for an identity token: the size byte must be
/// 16, then the 16 payload bytes follow.
pub open spec fn identity_dec(s: Seq<u8>) -> Decoded<Seq<u8>> {
    if s.len() < 1 {
        Decoded::Fail(DecodeError::UnexpectedEndOfStream)
    } else if s[0] != 16 {
        Decoded::Fail(DecodeError::InvalidIdentitySize)
    } else if s.len() < 17 {
        Decoded::Fail(DecodeError::UnexpectedEndOfStream)
    } else {
        Decoded::Found(s.subrange(1, 17), 17)
    }
}

/// A handshake message is well formed when its identity is 16 bytes, its
/// nonce 8 bytes, and its response 16 bytes.
pub open spec fn auth_inv(m: AuthMessageModel) -> bool {
    match m {
        AuthMessageModel::Hello { user, nonce } => user.len() == 16 && nonce.len() == 8,
        AuthMessageModel::Nonce { server, nonce } => server.len() == 16 && nonce.len() == 8,
        AuthMessageModel::Auth { response } => response.len() == 16,
    }
}

/// Encoding of a handshake message: one tag byte — 0 for `Hello`, 1 for
/// `Nonce`, 2 for `Auth` — then the variant's fields in declared order,
/// the identity in its own shape and the nonce or response as raw bytes.
pub open spec fn auth_enc(m: AuthMessageModel) -> Seq<u8> {
    match m {
        AuthMessageModel::Hello { user, nonce } => seq![0u8] + identity_enc(user) + nonce,
        AuthMessageModel::Nonce { server, nonce } => seq![1u8] + identity_enc(server) + nonce,
        AuthMessageModel::Auth { response } => seq![2u8] + response,
    }
}

/// Total decode function for a handshake message: the tag byte selects
/// the variant, any tag outside the known set is rejected, and the
/// variant's fields follow.
pub open spec fn auth_dec(s: Seq<u8>) -> Decoded<AuthMessageModel> {
    if s.len() < 1 {
        Decoded::Fail(DecodeError::UnexpectedEndOfStream)
    } else if s[0] == 0 {
        match identity_dec(s.skip(1)) {
            Decoded::Fail(e) => Decoded::Fail(e),
            Decoded::Found(user, k) => if s.len() - 1 - k < 8 {
                Decoded::Fail(DecodeError::UnexpectedEndOfStream)
            } else {
                Decoded::Found(
                    AuthMessageModel::Hello { user, nonce: s.subrange(1 + k, 1 + k + 8) },
                    1 + k + 8,
                )
            },
        }
    } else if s[0] == 1 {
        match identity_dec(s.skip(1)) {
            Decoded::Fail(e) => Decoded::Fail(e),
            Decoded::Found(server, k) => if s.len() - 1 - k < 8 {
                Decoded::Fail(DecodeError::UnexpectedEndOfStream)
            } else {
                Decoded::Found(
                    AuthMessageModel::Nonce { server, nonce: s.subrange(1 + k, 1 + k + 8) },
                    1 + k + 8,
                )
            },
        }
    } else if s[0] == 2 {
        if s.len() < 17 {
            Decoded::Fail(DecodeError::UnexpectedEndOfStream)
        } else {
            Decoded::Found(AuthMessageModel::Auth { response: s.subrange(1, 17) }, 17)
        }
    } else {
        Decoded::Fail(DecodeError::UnknownAuthTag)
    }
}

/// A string is encodable when its UTF-8 byte length fits the platform's
/// indexing type.
pub open spec fn string_inv(cs: Seq<char>) -> bool {
    encode_utf8(cs).len() <= usize::MAX
}

/// Encoding of a string: the byte length of its UTF-8 form as a
/// variable-width integer, then the UTF-8 bytes themselves.
pub open spec fn string_enc(cs: Seq<char>) -> Seq<u8> {
    uint_enc(encode_utf8(cs).len() as u128) + encode_utf8(cs)
}

/// Total decode function for a string: exactly one length prefix is
/// read, then that many payload bytes, which must be valid UTF-8.
pub open spec fn string_dec(s: Seq<u8>) -> Decoded<Seq<char>> {
    match uint_dec(s) {
        Decoded::Fail(e) => Decoded::Fail(e),
        Decoded::Found(len, k) => if len > usize::MAX as u128 {
            Decoded::Fail(DecodeError::LengthOverflow)
        } else if s.len() - k < len {
            Decoded::Fail(DecodeError::UnexpectedEndOfStream)
        } else {
            if valid_utf8(s.subrange(k, k + len)) {
                Decoded::Found(decode_utf8(s.subrange(k, k + len)), k + len)
            } else {
                Decoded::Fail(DecodeError::InvalidUtf8)
            }
        },
    }
}

/// One wire format: a type whose values can be framed on the byte
/// stream, described by a specification-level encoder and a total
/// specification-level decoder over the type's mathematical model.
///
/// The executable methods are proved to match the specification-level
/// functions exactly, and the three law obligations state that a decoded
/// model is well formed and consumes at least one byte, that decoding
/// inverts encoding whatever follows on the stream, and that truncated
/// encodings are rejected as an unexpected end of stream. The sequence
/// combinator is generic over this trait, so any element type — those of
/// this crate or a caller's own — can be framed as an ordered list by
/// supplying these operations.
pub trait Wire: View + Sized {
    /// Well-formedness of a model: exactly the values the format can
    /// carry.
    spec fn inv(v: Self::V) -> bool;

    /// The canonical encoding of a model.
    spec fn enc(v: Self::V) -> Seq<u8>;

    /// The total decode function of the format.
    spec fn dec(s: Seq<u8>) -> Decoded<Self::V>;

    /// A decoded model is well formed, and decoding consumes at least
    /// one byte and never more than the stream holds.
    proof fn lemma_dec_bounds(s: Seq<u8>)
        ensures
            match Self::dec(s) {
                Decoded::Found(v, n) => Self::inv(v) && 1 <= n <= s.len(),
                Decoded::Fail(_) => true,
            },
    ;

    /// Decoding an encoded model, whatever follows it on the stream,
    /// yields the model back and consumes exactly the encoding.
    proof fn lemma_round_trip(v: Self::V, rest: Seq<u8>)
        requires
            Self::inv(v),
        ensures
            Self::dec(Self::enc(v) + rest) == Decoded::Found(v, Self::enc(v).len() as int),
    ;

    /// Cutting an encoded model anywhere before its final byte makes
    /// decoding fail with an unexpected end of stream.
    proof fn lemma_truncated(v: Self::V, i: int)
        requires
            Self::inv(v),
            0 <= i < Self::enc(v).len(),
        ensures
            Self::dec(Self::enc(v).take(i)) == Decoded::<Self::V>::Fail(
                DecodeError::UnexpectedEndOfStream,
            ),
    ;

    /// Append the canonical encoding of `self` to `w`.
    fn encode(&self, w: &mut Vec<u8>)
        requires
            Self::inv(self@),
        ensures
            final(w)@ == old(w)@ + Self::enc(self@),
    ;

    /// Decode one value from the front of `rd`.
    fn decode(rd: &mut Source) -> (r: Result<Self, DecodeError>)
        requires
            old(rd).wf(),
        ensures
            final(rd).wf(),
            match r {
                Ok(x) => Self::inv(x@) && decodes_to(
                    Self::dec(old(rd).remaining()),
                    x@,
                    old(rd).remaining(),
                    final(rd).remaining(),
                ),
                Err(e) => fails_with(Self::dec(old(rd).remaining()), e),
            },
    ;
}

/// Concatenation of the canonical encodings of the given element models,
/// in order.
pub open spec fn elems_enc<X: Wire>(vs: Seq<X::V>) -> Seq<u8>
    decreases vs.len(),
{
    if vs.len() == 0 {
        Seq::empty()
    } else {
        X::enc(vs[0]) + elems_enc::<X>(vs.drop_first())
    }
}

/// A sequence model is well formed when its count can be carried by the
/// integer format and every element model is well formed.
pub open spec fn sequence_inv<X: Wire>(vs: Seq<X::V>) -> bool {
    vs.len() <= u128::MAX && forall|i: int| 0 <= i < vs.len() ==> X::inv(#[trigger] vs[i])
}

/// Encoding of a sequence: the element count as a variable-width
/// integer, then each element's encoding in order. An empty sequence is
/// the single byte 0.
pub open spec fn sequence_enc<X: Wire>(vs: Seq<X::V>) -> Seq<u8> {
    uint_enc(vs.len() as u128) + elems_enc::<X>(vs)
}

/// Prefix `xs` and `k` consumed bytes onto a later decode outcome: a
/// failure further down the stream propagates unchanged.
pub open spec fn decoded_prepend<V>(xs: Seq<V>, k: int, d: Decoded<Seq<V>>) -> Decoded<Seq<V>> {
    match d {
        Decoded::Found(ys, m) => Decoded::Found(xs + ys, k + m),
        Decoded::Fail(e) => Decoded::Fail(e),
    }
}

/// Total decode function for exactly `n` elements from the front of `s`:
/// the first element error, if any, is the outcome, and no partial list
/// is ever produced.
pub open spec fn elems_dec<X: Wire>(s: Seq<u8>, n: nat) -> Decoded<Seq<X::V>>
    decreases n,
{
    if n == 0 {
        Decoded::Found(Seq::empty(), 0)
    } else {
        match X::dec(s) {
            Decoded::Fail(e) => Decoded::Fail(e),
            Decoded::Found(x, k) => decoded_prepend(
                seq![x],
                k,
                elems_dec::<X>(s.skip(k), (n - 1) as nat),
            ),
        }
    }
}

/// Total decode function for a sequence: a count, then exactly that many
/// elements.
pub open spec fn sequence_dec<X: Wire>(s: Seq<u8>) -> Decoded<Seq<X::V>> {
    match uint_dec(s) {
        Decoded::Fail(e) => Decoded::Fail(e),
        Decoded::Found(c, k) => decoded_prepend(
            Seq::empty(),
            k,
            elems_dec::<X>(s.skip(k), c as nat),
        ),
    }
}

} // verus!
