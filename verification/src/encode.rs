//! Encoders: each appends the canonical encoding of one construct to a
//! byte vector and is proved to produce exactly the bytes of the
//! specification-level encoder of its wire format.

use crate::messages::{AuthMessage, ClientId, Sequence, ServerId};
use crate::wire::{
    auth_enc, auth_inv, elems_enc, identity_enc, identity_inv, sequence_enc, sequence_inv,
    string_enc, uint_enc, Wire,
};
use vstd::bytes::*;
use vstd::prelude::*;
use vstd::string::StrSliceExecFns;

verus! {

/// Append the minimal-width encoding of `*m`.
///
/// Values up to 250 take a single byte; larger values take a tag byte
/// (251, 252, 253 or 254) followed by the value in 2, 4, 8 or 16
/// little-endian bytes, the narrowest width that holds the value.
pub fn uint(w: &mut Vec<u8>, m: &u128)
    ensures
        final(w)@ == old(w)@ + uint_enc(*m),
{
    let v: u128 = *m;
    if v < 251 {
        w.push(v as u8);
        proof {
            assert(w@ =~= old(w)@ + uint_enc(v));
        }
    } else if v <= u16::MAX as u128 {
        w.push(251);
        let mut b = u16_to_le_bytes(v as u16);
        w.append(&mut b);
        proof {
            assert(w@ =~= old(w)@ + uint_enc(v));
        }
    } else if v <= u32::MAX as u128 {
        w.push(252);
        let mut b = u32_to_le_bytes(v as u32);
        w.append(&mut b);
        proof {
            assert(w@ =~= old(w)@ + uint_enc(v));
        }
    } else if v <= u64::MAX as u128 {
        w.push(253);
        let mut b = u64_to_le_bytes(v as u64);
        w.append(&mut b);
        proof {
            assert(w@ =~= old(w)@ + uint_enc(v));
        }
    } else {
        w.push(254);
        let mut b = u128_to_le_bytes(v);
        w.append(&mut b);
        proof {
            assert(w@ =~= old(w)@ + uint_enc(v));
        }
    }
}

/// Append every byte of `b` to `w`.
fn put_bytes(w: &mut Vec<u8>, b: &Vec<u8>)
    ensures
        final(w)@ == old(w)@ + b@,
{
    let mut i: usize = 0;
    while i < b.len()
        invariant
            i <= b@.len(),
            w@ =~= old(w)@ + b@.take(i as int),
        decreases b@.len() - i,
    {
        w.push(b[i]);
        i = i + 1;
    }
    proof {
        assert(w@ =~= old(w)@ + b@);
    }
}

/// Append the shared identity shape: the size byte 16, then the 16
/// payload bytes.
fn identity(w: &mut Vec<u8>, b: &Vec<u8>)
    requires
        identity_inv(b@),
    ensures
        final(w)@ == old(w)@ + identity_enc(b@),
{
    w.push(16);
    put_bytes(w, b);
    proof {
        assert(w@ =~= old(w)@ + identity_enc(b@));
    }
}

/// Append the encoding of a client identity token.
pub fn clientid(w: &mut Vec<u8>, m: &ClientId)
    requires
        identity_inv(m@),
    ensures
        final(w)@ == old(w)@ + identity_enc(m@),
{
    identity(w, &m.0)
}

/// Append the encoding of a server identity token.
pub fn serverid(w: &mut Vec<u8>, m: &ServerId)
    requires
        identity_inv(m@),
    ensures
        final(w)@ == old(w)@ + identity_enc(m@),
{
    identity(w, &m.0)
}

/// Append the encoding of a string: the byte length of its UTF-8 form as
/// a variable-width integer, then the UTF-8 bytes themselves.
pub fn string(w: &mut Vec<u8>, m: &str)
    ensures
        final(w)@ == old(w)@ + string_enc(m@),
{
    let bts = m.as_bytes_vec();
    let sz: u128 = bts.len() as u128;
    uint(w, &sz);
    put_bytes(w, &bts);
    proof {
        assert(w@ =~= old(w)@ + string_enc(m@));
    }
}

/// Append the encoding of a handshake message: its tag byte, then its
/// fields in declared order.
pub fn auth(w: &mut Vec<u8>, m: &AuthMessage)
    requires
        auth_inv(m@),
    ensures
        final(w)@ == old(w)@ + auth_enc(m@),
{
    match m {
        AuthMessage::Hello { user, nonce } => {
            w.push(0);
            clientid(w, user);
            put_bytes(w, nonce);
            proof {
                assert(w@ =~= old(w)@ + auth_enc(m@));
            }
        },
        AuthMessage::Nonce { server, nonce } => {
            w.push(1);
            serverid(w, server);
            put_bytes(w, nonce);
            proof {
                assert(w@ =~= old(w)@ + auth_enc(m@));
            }
        },
        AuthMessage::Auth { response } => {
            w.push(2);
            put_bytes(w, response);
            proof {
                assert(w@ =~= old(w)@ + auth_enc(m@));
            }
        },
    }
}

/// Append the encoding of a sequence: the element count as a
/// variable-width integer, then each element's encoding in order, using
/// the element type's own codec. An empty sequence is the single byte 0.
pub fn sequence<X: Wire>(w: &mut Vec<u8>, m: &Sequence<X>)
    requires
        sequence_inv::<X>(m@),
    ensures
        final(w)@ == old(w)@ + sequence_enc::<X>(m@),
{
    let count: u128 = m.0.len() as u128;
    uint(w, &count);
    proof {
        assert(m@.skip(0) =~= m@);
        assert(w@ + elems_enc::<X>(m@.skip(0)) =~= old(w)@ + sequence_enc::<X>(m@));
    }
    let mut i: usize = 0;
    while i < m.0.len()
        invariant
            sequence_inv::<X>(m@),
            i <= m.0@.len(),
            m@.len() == m.0@.len(),
            m@ == m.0@.map_values(|x: X| x@),
            w@ + elems_enc::<X>(m@.skip(i as int)) =~= old(w)@ + sequence_enc::<X>(m@),
        decreases m.0@.len() - i,
    {
        let x = &m.0[i];
        proof {
            assert(x@ == m@[i as int]);
            assert(m@.skip(i as int).drop_first() =~= m@.skip(i as int + 1));
            assert(m@.skip(i as int)[0] == m@[i as int]);
        }
        let ghost prev = w@;
        x.encode(w);
        proof {
            assert(elems_enc::<X>(m@.skip(i as int)) == X::enc(m@[i as int]) + elems_enc::<X>(
                m@.skip(i as int + 1),
            ));
            assert(w@ + elems_enc::<X>(m@.skip(i as int + 1)) =~= old(w)@ + sequence_enc::<X>(
                m@,
            ));
        }
        i = i + 1;
    }
    proof {
        assert(m@.skip(m@.len() as int) =~= Seq::<X::V>::empty());
        assert(w@ =~= old(w)@ + sequence_enc::<X>(m@));
    }
}

} // verus!
