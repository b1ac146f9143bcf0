//! The values carried by the wire formats, and their [`Wire`] instances.

use crate::errors::DecodeError;
use crate::laws;
use crate::source::Source;
use crate::wire::{
    auth_dec, auth_enc, auth_inv, identity_dec, identity_enc, identity_inv, sequence_dec,
    sequence_enc, sequence_inv, string_dec, string_enc, string_inv, uint_dec, uint_enc, Decoded,
    Wire,
};
use vstd::prelude::*;
use vstd::utf8::{decode_utf8_encode_utf8, valid_utf8};

verus! {

/// A 128-bit client identity token: an opaque 16-byte value.
///
/// Client and server identities share one wire shape but are distinct
/// types, so one can never be passed where the other is required.
#[derive(Debug, Clone, PartialEq, Eq)]
pub struct ClientId(pub Vec<u8>);

impl View for ClientId {
    type V = Seq<u8>;

    open spec fn view(&self) -> Seq<u8> {
        self.0@
    }
}

/// A 128-bit server identity token: an opaque 16-byte value.
#[derive(Debug, Clone, PartialEq, Eq)]
pub struct ServerId(pub Vec<u8>);

impl View for ServerId {
    type V = Seq<u8>;

    open spec fn view(&self) -> Seq<u8> {
        self.0@
    }
}

/// An ordered list of elements framed as a count followed by the
/// elements in order. The framing is independent of the element type:
/// it is parameterized entirely by the element's [`Wire`] instance.
#[derive(Debug, Clone, PartialEq, Eq)]
pub struct Sequence<X>(pub Vec<X>);

impl<X: View> View for Sequence<X> {
    type V = Seq<X::V>;

    open spec fn view(&self) -> Seq<X::V> {
        self.0@.map_values(|x: X| x@)
    }
}

/// The three authentication handshake messages.
///
/// A client opens with `Hello`, carrying its identity and a client-chosen
/// nonce; the server answers with `Nonce`, carrying its identity and a
/// server-chosen nonce; the client closes with `Auth`, carrying the
/// derived response. How the response is derived from the nonces is the
/// caller's concern; the codec only frames the bytes.
#[derive(Debug, Clone, PartialEq, Eq)]
pub enum AuthMessage {
    Hello { user: ClientId, nonce: Vec<u8> },
    Nonce { server: ServerId, nonce: Vec<u8> },
    Auth { response: Vec<u8> },
}

/// The mathematical model of an [`AuthMessage`]: the same three shapes
/// over byte sequences.
#[verifier::ext_equal]
pub enum AuthMessageModel {
    Hello { user: Seq<u8>, nonce: Seq<u8> },
    Nonce { server: Seq<u8>, nonce: Seq<u8> },
    Auth { response: Seq<u8> },
}

impl View for AuthMessage {
    type V = AuthMessageModel;

    open spec fn view(&self) -> AuthMessageModel {
        match self {
            AuthMessage::Hello { user, nonce } => AuthMessageModel::Hello {
                user: user@,
                nonce: nonce@,
            },
            AuthMessage::Nonce { server, nonce } => AuthMessageModel::Nonce {
                server: server@,
                nonce: nonce@,
            },
            AuthMessage::Auth { response } => AuthMessageModel::Auth { response: response@ },
        }
    }
}

impl Wire for u128 {
    open spec fn inv(v: u128) -> bool {
        true
    }

    open spec fn enc(v: u128) -> Seq<u8> {
        uint_enc(v)
    }

    open spec fn dec(s: Seq<u8>) -> Decoded<u128> {
        uint_dec(s)
    }

    proof fn lemma_dec_bounds(s: Seq<u8>) {
    }

    proof fn lemma_round_trip(v: u128, rest: Seq<u8>) {
        laws::lemma_uint_round_trip(v, rest);
    }

    proof fn lemma_truncated(v: u128, i: int) {
        laws::lemma_uint_truncated(v, i);
    }

    fn encode(&self, w: &mut Vec<u8>) {
        crate::encode::uint(w, self)
    }

    fn decode(rd: &mut Source) -> (r: Result<Self, DecodeError>) {
        crate::decode::uint(rd)
    }
}

impl Wire for ClientId {
    open spec fn inv(v: Seq<u8>) -> bool {
        identity_inv(v)
    }

    open spec fn enc(v: Seq<u8>) -> Seq<u8> {
        identity_enc(v)
    }

    open spec fn dec(s: Seq<u8>) -> Decoded<Seq<u8>> {
        identity_dec(s)
    }

    proof fn lemma_dec_bounds(s: Seq<u8>) {
    }

    proof fn lemma_round_trip(v: Seq<u8>, rest: Seq<u8>) {
        laws::lemma_identity_round_trip(v, rest);
    }

    proof fn lemma_truncated(v: Seq<u8>, i: int) {
        laws::lemma_identity_truncated(v, i);
    }

    fn encode(&self, w: &mut Vec<u8>) {
        crate::encode::clientid(w, self)
    }

    fn decode(rd: &mut Source) -> (r: Result<Self, DecodeError>) {
        crate::decode::clientid(rd)
    }
}

impl Wire for ServerId {
    open spec fn inv(v: Seq<u8>) -> bool {
        identity_inv(v)
    }

    open spec fn enc(v: Seq<u8>) -> Seq<u8> {
        identity_enc(v)
    }

    open spec fn dec(s: Seq<u8>) -> Decoded<Seq<u8>> {
        identity_dec(s)
    }

    proof fn lemma_dec_bounds(s: Seq<u8>) {
    }

    proof fn lemma_round_trip(v: Seq<u8>, rest: Seq<u8>) {
        laws::lemma_identity_round_trip(v, rest);
    }

    proof fn lemma_truncated(v: Seq<u8>, i: int) {
        laws::lemma_identity_truncated(v, i);
    }

    fn encode(&self, w: &mut Vec<u8>) {
        crate::encode::serverid(w, self)
    }

    fn decode(rd: &mut Source) -> (r: Result<Self, DecodeError>) {
        crate::decode::serverid(rd)
    }
}

impl Wire for String {
    open spec fn inv(v: Seq<char>) -> bool {
        string_inv(v)
    }

    open spec fn enc(v: Seq<char>) -> Seq<u8> {
        string_enc(v)
    }

    open spec fn dec(s: Seq<u8>) -> Decoded<Seq<char>> {
        string_dec(s)
    }

    proof fn lemma_dec_bounds(s: Seq<u8>) {
        match uint_dec(s) {
            Decoded::Found(len, k) => {
                if len <= usize::MAX as u128 && s.len() - k >= len {
                    let payload = s.subrange(k, k + len);
                    if valid_utf8(payload) {
                        decode_utf8_encode_utf8(payload);
                    }
                }
            },
            Decoded::Fail(_) => {},
        }
    }

    proof fn lemma_round_trip(v: Seq<char>, rest: Seq<u8>) {
        laws::lemma_string_round_trip(v, rest);
    }

    proof fn lemma_truncated(v: Seq<char>, i: int) {
        laws::lemma_string_truncated(v, i);
    }

    fn encode(&self, w: &mut Vec<u8>) {
        crate::encode::string(w, self.as_str())
    }

    fn decode(rd: &mut Source) -> (r: Result<Self, DecodeError>) {
        crate::decode::string(rd)
    }
}

impl Wire for AuthMessage {
    open spec fn inv(v: AuthMessageModel) -> bool {
        auth_inv(v)
    }

    open spec fn enc(v: AuthMessageModel) -> Seq<u8> {
        auth_enc(v)
    }

    open spec fn dec(s: Seq<u8>) -> Decoded<AuthMessageModel> {
        auth_dec(s)
    }

    proof fn lemma_dec_bounds(s: Seq<u8>) {
    }

    proof fn lemma_round_trip(v: AuthMessageModel, rest: Seq<u8>) {
        laws::lemma_auth_round_trip(v, rest);
    }

    proof fn lemma_truncated(v: AuthMessageModel, i: int) {
        laws::lemma_auth_truncated(v, i);
    }

    fn encode(&self, w: &mut Vec<u8>) {
        crate::encode::auth(w, self)
    }

    fn decode(rd: &mut Source) -> (r: Result<Self, DecodeError>) {
        crate::decode::auth(rd)
    }
}

impl<X: Wire> Wire for Sequence<X> {
    open spec fn inv(v: Seq<X::V>) -> bool {
        sequence_inv::<X>(v)
    }

    open spec fn enc(v: Seq<X::V>) -> Seq<u8> {
        sequence_enc::<X>(v)
    }

    open spec fn dec(s: Seq<u8>) -> Decoded<Seq<X::V>> {
        sequence_dec::<X>(s)
    }

    proof fn lemma_dec_bounds(s: Seq<u8>) {
        laws::lemma_sequence_dec_bounds::<X>(s);
    }

    proof fn lemma_round_trip(v: Seq<X::V>, rest: Seq<u8>) {
        laws::lemma_sequence_round_trip::<X>(v, rest);
    }

    proof fn lemma_truncated(v: Seq<X::V>, i: int) {
        laws::lemma_sequence_truncated::<X>(v, i);
    }

    fn encode(&self, w: &mut Vec<u8>) {
        crate::encode::sequence::<X>(w, self)
    }

    fn decode(rd: &mut Source) -> (r: Result<Self, DecodeError>) {
        crate::decode::sequence::<X>(rd)
    }
}

} // verus!
