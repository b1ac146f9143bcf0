//! Decoders: each reads one construct from the front of a [`Source`] and
//! is proved to agree exactly with the total specification-level decode
//! function of its wire format.

use crate::errors::DecodeError;
use crate::laws::{lemma_decoded_prepend_assoc, lemma_decoded_prepend_empty};
use crate::messages::{AuthMessage, ClientId, Sequence, ServerId};
use crate::source::Source;
use crate::wire::{
    auth_dec, auth_inv, decoded_prepend, decodes_to, elems_dec, fails_with, identity_dec,
    identity_inv, sequence_dec, sequence_inv, string_dec, string_inv, uint_dec, Decoded, Wire,
};
use vstd::bytes::*;
use vstd::prelude::*;
use vstd::utf8::{decode_utf8, decode_utf8_encode_utf8, valid_utf8};

verus! {

/// Decode a variable-width unsigned integer.
///
/// The first byte selects the width: values up to 250 stand literally in
/// the tag byte, tags 251 to 254 announce a 2, 4, 8 or 16 byte
/// little-endian payload, and the reserved tag 255 is rejected.
pub fn uint(rd: &mut Source) -> (r: Result<u128, DecodeError>)
    requires
        old(rd).wf(),
    ensures
        final(rd).wf(),
        match r {
            Ok(v) => decodes_to(
                uint_dec(old(rd).remaining()),
                v,
                old(rd).remaining(),
                final(rd).remaining(),
            ),
            Err(e) => fails_with(uint_dec(old(rd).remaining()), e),
        },
{
    let ghost s0 = rd.remaining();
    let tag = match rd.read_byte() {
        Ok(b) => b,
        Err(e) => {
            return Err(e);
        },
    };
    if tag < 251 {
        Ok(tag as u128)
    } else if tag == 255 {
        Err(DecodeError::UnsupportedTag)
    } else if tag == 251 {
        let payload = match rd.read_bytes(2) {
            Ok(v) => v,
            Err(e) => {
                return Err(e);
            },
        };
        let x = u16_from_le_bytes(payload.as_slice());
        proof {
            assert(s0.skip(1).take(2) =~= s0.subrange(1, 3));
            assert(s0.skip(1).skip(2) =~= s0.skip(3));
        }
        Ok(x as u128)
    } else if tag == 252 {
        let payload = match rd.read_bytes(4) {
            Ok(v) => v,
            Err(e) => {
                return Err(e);
            },
        };
        let x = u32_from_le_bytes(payload.as_slice());
        proof {
            assert(s0.skip(1).take(4) =~= s0.subrange(1, 5));
            assert(s0.skip(1).skip(4) =~= s0.skip(5));
        }
        Ok(x as u128)
    } else if tag == 253 {
        let payload = match rd.read_bytes(8) {
            Ok(v) => v,
            Err(e) => {
                return Err(e);
            },
        };
        let x = u64_from_le_bytes(payload.as_slice());
        proof {
            assert(s0.skip(1).take(8) =~= s0.subrange(1, 9));
            assert(s0.skip(1).skip(8) =~= s0.skip(9));
        }
        Ok(x as u128)
    } else {
        let payload = match rd.read_bytes(16) {
            Ok(v) => v,
            Err(e) => {
                return Err(e);
            },
        };
        let x = u128_from_le_bytes(payload.as_slice());
        proof {
            assert(s0.skip(1).take(16) =~= s0.subrange(1, 17));
            assert(s0.skip(1).skip(16) =~= s0.skip(17));
        }
        Ok(x)
    }
}

/// Decode the shared identity shape: a size byte that must equal 16,
/// then the 16 payload bytes.
fn identity(rd: &mut Source) -> (r: Result<Vec<u8>, DecodeError>)
    requires
        old(rd).wf(),
    ensures
        final(rd).wf(),
        match r {
            Ok(v) => identity_inv(v@) && decodes_to(
                identity_dec(old(rd).remaining()),
                v@,
                old(rd).remaining(),
                final(rd).remaining(),
            ),
            Err(e) => fails_with(identity_dec(old(rd).remaining()), e),
        },
{
    let ghost s0 = rd.remaining();
    let sz = match rd.read_byte() {
        Ok(b) => b,
        Err(e) => {
            return Err(e);
        },
    };
    if sz != 16 {
        return Err(DecodeError::InvalidIdentitySize);
    }
    let payload = match rd.read_bytes(16) {
        Ok(v) => v,
        Err(e) => {
            return Err(e);
        },
    };
    proof {
        assert(s0.skip(1).take(16) =~= s0.subrange(1, 17));
        assert(s0.skip(1).skip(16) =~= s0.skip(17));
    }
    Ok(payload)
}

/// Decode a client identity token.
pub fn clientid(rd: &mut Source) -> (r: Result<ClientId, DecodeError>)
    requires
        old(rd).wf(),
    ensures
        final(rd).wf(),
        match r {
            Ok(x) => identity_inv(x@) && decodes_to(
                identity_dec(old(rd).remaining()),
                x@,
                old(rd).remaining(),
                final(rd).remaining(),
            ),
            Err(e) => fails_with(identity_dec(old(rd).remaining()), e),
        },
{
    match identity(rd) {
        Ok(v) => Ok(ClientId(v)),
        Err(e) => Err(e),
    }
}

/// Decode a server identity token.
pub fn serverid(rd: &mut Source) -> (r: Result<ServerId, DecodeError>)
    requires
        old(rd).wf(),
    ensures
        final(rd).wf(),
        match r {
            Ok(x) => identity_inv(x@) && decodes_to(
                identity_dec(old(rd).remaining()),
                x@,
                old(rd).remaining(),
                final(rd).remaining(),
            ),
            Err(e) => fails_with(identity_dec(old(rd).remaining()), e),
        },
{
    match identity(rd) {
        Ok(v) => Ok(ServerId(v)),
        Err(e) => Err(e),
    }
}

/// Relies on String::from_utf8: it returns a string exactly when the
/// bytes are valid UTF-8, and the string's characters are the decoding
/// of those bytes.
#[verifier::external_body]
fn bytes_to_string(v: Vec<u8>) -> (r: Option<String>)
    ensures
        match r {
            Some(s) => valid_utf8(v@) && s@ == decode_utf8(v@),
            None => !valid_utf8(v@),
        },
{
    match String::from_utf8(v) {
        Ok(s) => Some(s),
        Err(_) => None,
    }
}

/// Decode a length-prefixed UTF-8 string.
///
/// Exactly one length prefix is consumed, then that many payload bytes.
/// A length beyond the platform's indexing type is a length overflow,
/// and a payload that is not valid UTF-8 is rejected.
pub fn string(rd: &mut Source) -> (r: Result<String, DecodeError>)
    requires
        old(rd).wf(),
    ensures
        final(rd).wf(),
        match r {
            Ok(s) => string_inv(s@) && decodes_to(
                string_dec(old(rd).remaining()),
                s@,
                old(rd).remaining(),
                final(rd).remaining(),
            ),
            Err(e) => fails_with(string_dec(old(rd).remaining()), e),
        },
{
    let ghost s0 = rd.remaining();
    let len = match uint(rd) {
        Ok(v) => v,
        Err(e) => {
            return Err(e);
        },
    };
    let ghost k = s0.len() - rd.remaining().len();
    if len > usize::MAX as u128 {
        return Err(DecodeError::LengthOverflow);
    }
    let n = len as usize;
    let bytes = match rd.read_bytes(n) {
        Ok(v) => v,
        Err(e) => {
            return Err(e);
        },
    };
    let ghost payload = bytes@;
    proof {
        assert(s0.skip(k).take(n as int) =~= s0.subrange(k, k + len));
        assert(s0.skip(k).skip(n as int) =~= s0.skip(k + len));
    }
    match bytes_to_string(bytes) {
        Some(s) => {
            proof {
                decode_utf8_encode_utf8(payload);
            }
            Ok(s)
        },
        None => Err(DecodeError::InvalidUtf8),
    }
}

/// Decode a handshake message: the tag byte selects the variant, any tag
/// outside the known set is rejected, and the variant's fields follow.
pub fn auth(rd: &mut Source) -> (r: Result<AuthMessage, DecodeError>)
    requires
        old(rd).wf(),
    ensures
        final(rd).wf(),
        match r {
            Ok(m) => auth_inv(m@) && decodes_to(
                auth_dec(old(rd).remaining()),
                m@,
                old(rd).remaining(),
                final(rd).remaining(),
            ),
            Err(e) => fails_with(auth_dec(old(rd).remaining()), e),
        },
{
    let ghost s0 = rd.remaining();
    let tag = match rd.read_byte() {
        Ok(b) => b,
        Err(e) => {
            return Err(e);
        },
    };
    if tag == 0 {
        let user = match clientid(rd) {
            Ok(v) => v,
            Err(e) => {
                return Err(e);
            },
        };
        let ghost k = s0.skip(1).len() - rd.remaining().len();
        let nonce = match rd.read_bytes(8) {
            Ok(v) => v,
            Err(e) => {
                return Err(e);
            },
        };
        proof {
            assert(s0.skip(1).skip(k).take(8) =~= s0.subrange(1 + k, 1 + k + 8));
            assert(s0.skip(1).skip(k).skip(8) =~= s0.skip(1 + k + 8));
        }
        Ok(AuthMessage::Hello { user, nonce })
    } else if tag == 1 {
        let server = match serverid(rd) {
            Ok(v) => v,
            Err(e) => {
                return Err(e);
            },
        };
        let ghost k = s0.skip(1).len() - rd.remaining().len();
        let nonce = match rd.read_bytes(8) {
            Ok(v) => v,
            Err(e) => {
                return Err(e);
            },
        };
        proof {
            assert(s0.skip(1).skip(k).take(8) =~= s0.subrange(1 + k, 1 + k + 8));
            assert(s0.skip(1).skip(k).skip(8) =~= s0.skip(1 + k + 8));
        }
        Ok(AuthMessage::Nonce { server, nonce })
    } else if tag == 2 {
        let response = match rd.read_bytes(16) {
            Ok(v) => v,
            Err(e) => {
                return Err(e);
            },
        };
        proof {
            assert(s0.skip(1).take(16) =~= s0.subrange(1, 17));
            assert(s0.skip(1).skip(16) =~= s0.skip(17));
        }
        Ok(AuthMessage::Auth { response })
    } else {
        Err(DecodeError::UnknownAuthTag)
    }
}

/// Decode a sequence: a count, then exactly that many elements in order,
/// using the element type's own codec.
///
/// An error raised while decoding an element aborts the whole operation
/// and propagates unchanged; no partial sequence is returned.
pub fn sequence<X: Wire>(rd: &mut Source) -> (r: Result<Sequence<X>, DecodeError>)
    requires
        old(rd).wf(),
    ensures
        final(rd).wf(),
        match r {
            Ok(x) => sequence_inv::<X>(x@) && decodes_to(
                sequence_dec::<X>(old(rd).remaining()),
                x@,
                old(rd).remaining(),
                final(rd).remaining(),
            ),
            Err(e) => fails_with(sequence_dec::<X>(old(rd).remaining()), e),
        },
{
    let ghost s0 = rd.remaining();
    let count = match uint(rd) {
        Ok(v) => v,
        Err(e) => {
            return Err(e);
        },
    };
    let ghost s1 = rd.remaining();
    let ghost k0 = s0.len() - s1.len();
    let mut items: Vec<X> = Vec::new();
    let ghost mut used: int = 0;
    let mut i: u128 = 0;
    while i < count
        invariant
            rd.wf(),
            i <= count,
            items@.len() == i,
            s0 == old(rd).remaining(),
            decodes_to(uint_dec(s0), count, s0, s1),
            s1 == s0.skip(k0),
            0 <= k0 <= s0.len(),
            0 <= used <= s1.len(),
            rd.remaining() == s1.skip(used),
            forall|j: int| 0 <= j < items@.len() ==> X::inv((#[trigger] items@[j])@),
            elems_dec::<X>(s1, count as nat) == decoded_prepend(
                items@.map_values(|x: X| x@),
                used,
                elems_dec::<X>(rd.remaining(), (count - i) as nat),
            ),
        decreases count - i,
    {
        let ghost rem0 = rd.remaining();
        let ghost items_v = items@.map_values(|x: X| x@);
        let x = match X::decode(rd) {
            Ok(v) => v,
            Err(e) => {
                proof {
                    assert(elems_dec::<X>(rem0, (count - i) as nat) == Decoded::<Seq<X::V>>::Fail(
                        e,
                    ));
                    assert(elems_dec::<X>(s1, count as nat) == Decoded::<Seq<X::V>>::Fail(e));
                    assert(fails_with(sequence_dec::<X>(s0), e));
                }
                return Err(e);
            },
        };
        proof {
            let k = rem0.len() - rd.remaining().len();
            lemma_decoded_prepend_assoc(
                items_v,
                used,
                seq![x@],
                k,
                elems_dec::<X>(rd.remaining(), (count - i - 1) as nat),
            );
            assert(items_v + seq![x@] =~= items@.push(x).map_values(|y: X| y@));
            used = used + k;
        }
        items.push(x);
        i = i + 1;
    }
    proof {
        assert(elems_dec::<X>(rd.remaining(), 0) == Decoded::<Seq<X::V>>::Found(Seq::empty(), 0));
        assert(items@.map_values(|x: X| x@) + Seq::<X::V>::empty() =~= items@.map_values(
            |x: X| x@,
        ));
        lemma_decoded_prepend_empty(elems_dec::<X>(s1, count as nat));
        assert(s1.skip(used) =~= s0.skip(k0 + used));
    }
    Ok(Sequence(items))
}

} // verus!
