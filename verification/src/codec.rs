//! Byte-level primitives of the storage formats: little-endian integers
//! and length-prefixed byte strings, with encoders, parsers, and the
//! round-trip facts the storage layer's proofs rest on.
//!
//! Layout: integers are little-endian; a byte string is its 64-bit
//! length followed by its bytes; a text string is the byte string of its
//! UTF-8 encoding.

use vstd::bytes::{
    lemma_auto_spec_u32_to_from_le_bytes, lemma_auto_spec_u64_to_from_le_bytes,
    spec_u32_from_le_bytes, spec_u32_to_le_bytes, spec_u64_from_le_bytes, spec_u64_to_le_bytes,
    u32_from_le_bytes, u32_to_le_bytes, u64_from_le_bytes, u64_to_le_bytes,
};
use vstd::prelude::*;
use vstd::slice::{slice_subrange, slice_to_vec};
use vstd::utf8::{decode_utf8, encode_utf8, valid_utf8};

verus! {

/// Relies on String::from_utf8: succeeds exactly on valid UTF-8 and
/// returns the string those bytes encode.
#[verifier::external_body]
pub fn bytes_into_string(v: Vec<u8>) -> (r: Option<String>)
    ensures
        r is Some <==> valid_utf8(v@),
        r matches Some(s) ==> encode_utf8(s@) == v@,
{
    match String::from_utf8(v) {
        Ok(s) => Some(s),
        Err(_) => None,
    }
}

pub open spec fn enc_u32(v: u32) -> Seq<u8> {
    spec_u32_to_le_bytes(v)
}

pub open spec fn enc_u64(v: u64) -> Seq<u8> {
    spec_u64_to_le_bytes(v)
}

pub open spec fn enc_bytes(b: Seq<u8>) -> Seq<u8> {
    enc_u64(b.len() as u64) + b
}

pub open spec fn enc_str(s: Seq<char>) -> Seq<u8> {
    enc_bytes(encode_utf8(s))
}

/// Parses one byte.
pub open spec fn sp_u8(b: Seq<u8>, p: int) -> Option<(u8, int)> {
    if 0 <= p && p + 1 <= b.len() {
        Some((b[p], p + 1))
    } else {
        None
    }
}

/// Parses a little-endian u32.
pub open spec fn sp_u32(b: Seq<u8>, p: int) -> Option<(u32, int)> {
    if 0 <= p && p + 4 <= b.len() {
        Some((spec_u32_from_le_bytes(b.subrange(p, p + 4)), p + 4))
    } else {
        None
    }
}

/// Parses a little-endian u64.
pub open spec fn sp_u64(b: Seq<u8>, p: int) -> Option<(u64, int)> {
    if 0 <= p && p + 8 <= b.len() {
        Some((spec_u64_from_le_bytes(b.subrange(p, p + 8)), p + 8))
    } else {
        None
    }
}

/// Parses a length-prefixed byte string.
pub open spec fn sp_bytes(b: Seq<u8>, p: int) -> Option<(Seq<u8>, int)> {
    match sp_u64(b, p) {
        None => None,
        Some((n, q)) => if q + n <= b.len() {
            Some((b.subrange(q, q + n), q + n))
        } else {
            None
        },
    }
}

/// Parses a length-prefixed UTF-8 string.
pub open spec fn sp_str(b: Seq<u8>, p: int) -> Option<(Seq<char>, int)> {
    match sp_bytes(b, p) {
        None => None,
        Some((data, q)) => if valid_utf8(data) {
            Some((decode_utf8(data), q))
        } else {
            None
        },
    }
}

pub proof fn lemma_sp_u64_enc(b: Seq<u8>, p: int, v: u64)
    requires
        0 <= p,
        p + 8 <= b.len(),
        b.subrange(p, p + 8) == enc_u64(v),
    ensures
        sp_u64(b, p) == Some((v, p + 8)),
{
    lemma_auto_spec_u64_to_from_le_bytes();
}

pub proof fn lemma_sp_bytes_enc(b: Seq<u8>, p: int, data: Seq<u8>)
    requires
        0 <= p,
        data.len() <= u64::MAX,
        p + enc_bytes(data).len() <= b.len(),
        b.subrange(p, p + enc_bytes(data).len()) == enc_bytes(data),
    ensures
        sp_bytes(b, p) == Some((data, p + 8 + data.len())),
{
    lemma_auto_spec_u64_to_from_le_bytes();
    let whole = enc_bytes(data);
    assert(whole.len() == 8 + data.len());
    assert(b.subrange(p, p + 8) =~= whole.subrange(0, 8));
    assert(whole.subrange(0, 8) =~= enc_u64(data.len() as u64));
    assert(sp_u64(b, p) == Some((data.len() as u64, p + 8)));
    assert(b.subrange(p + 8, p + 8 + data.len()) =~= whole.subrange(8, whole.len() as int));
    assert(whole.subrange(8, whole.len() as int) =~= data);
}

pub proof fn lemma_sp_str_enc(b: Seq<u8>, p: int, s: Seq<char>)
    requires
        0 <= p,
        encode_utf8(s).len() <= u64::MAX,
        p + enc_str(s).len() <= b.len(),
        b.subrange(p, p + enc_str(s).len()) == enc_str(s),
    ensures
        sp_str(b, p) == Some((s, p + enc_str(s).len())),
{
    broadcast use vstd::utf8::encode_utf8_valid_utf8, vstd::utf8::encode_utf8_decode_utf8;

    lemma_sp_bytes_enc(b, p, encode_utf8(s));
    lemma_auto_spec_u64_to_from_le_bytes();
    assert(enc_str(s).len() == 8 + encode_utf8(s).len());
    assert(valid_utf8(encode_utf8(s)));
    assert(decode_utf8(encode_utf8(s)) == s);
}

/// Appends one byte.
pub fn push_u8(buf: &mut Vec<u8>, v: u8)
    ensures
        final(buf)@ == old(buf)@ + seq![v],
{
    buf.push(v);
    proof {
        assert(buf@ =~= old(buf)@ + seq![v]);
    }
}

/// Appends a little-endian u32.
pub fn push_u32(buf: &mut Vec<u8>, v: u32)
    ensures
        final(buf)@ == old(buf)@ + enc_u32(v),
{
    let mut b = u32_to_le_bytes(v);
    buf.append(&mut b);
}

/// Appends a little-endian u64.
pub fn push_u64(buf: &mut Vec<u8>, v: u64)
    ensures
        final(buf)@ == old(buf)@ + enc_u64(v),
{
    let mut b = u64_to_le_bytes(v);
    buf.append(&mut b);
}

/// Appends a length-prefixed byte string.
pub fn push_bytes(buf: &mut Vec<u8>, data: &[u8])
    ensures
        final(buf)@ == old(buf)@ + enc_bytes(data@),
        data@.len() <= usize::MAX,
{
    push_u64(buf, data.len() as u64);
    buf.extend_from_slice(data);
    proof {
        assert(buf@ =~= old(buf)@ + enc_bytes(data@));
    }
}

/// Appends a length-prefixed string as UTF-8.
pub fn push_str(buf: &mut Vec<u8>, s: &str)
    ensures
        final(buf)@ == old(buf)@ + enc_str(s@),
        encode_utf8(s@).len() <= usize::MAX,
{
    push_bytes(buf, s.as_bytes());
}

/// A reading position inside a byte buffer.
pub struct Cursor<'a> {
    pub data: &'a [u8],
    pub pos: usize,
}

impl<'a> Cursor<'a> {
    pub open spec fn wf(&self) -> bool {
        self.pos <= self.data@.len()
    }

    pub fn new(data: &'a [u8]) -> (c: Cursor<'a>)
        ensures
            c.data@ == data@,
            c.pos == 0,
            c.wf(),
    {
        Cursor { data, pos: 0 }
    }

    /// A cursor standing at `pos`.
    pub fn at(data: &'a [u8], pos: usize) -> (c: Cursor<'a>)
        requires
            pos <= data@.len(),
        ensures
            c.data@ == data@,
            c.pos == pos,
            c.wf(),
    {
        Cursor { data, pos }
    }

    /// How many bytes remain.
    pub fn remaining(&self) -> (n: usize)
        requires
            self.wf(),
        ensures
            n == self.data@.len() - self.pos,
    {
        self.data.len() - self.pos
    }

    pub fn read_u8(&mut self) -> (r: Option<u8>)
        requires
            old(self).wf(),
        ensures
            final(self).data == old(self).data,
            final(self).wf(),
            match r {
                Some(v) => sp_u8(old(self).data@, old(self).pos as int) == Some((
                    v,
                    final(self).pos as int,
                )),
                None => sp_u8(old(self).data@, old(self).pos as int) is None && *final(self)
                    == *old(self),
            },
    {
        if self.pos < self.data.len() {
            let v = self.data[self.pos];
            self.pos = self.pos + 1;
            Some(v)
        } else {
            None
        }
    }

    pub fn read_u32(&mut self) -> (r: Option<u32>)
        requires
            old(self).wf(),
        ensures
            final(self).data == old(self).data,
            final(self).wf(),
            match r {
                Some(v) => sp_u32(old(self).data@, old(self).pos as int) == Some((
                    v,
                    final(self).pos as int,
                )),
                None => sp_u32(old(self).data@, old(self).pos as int) is None && *final(self)
                    == *old(self),
            },
    {
        if self.data.len() - self.pos >= 4 {
            let part = slice_subrange(self.data, self.pos, self.pos + 4);
            let v = u32_from_le_bytes(part);
            self.pos = self.pos + 4;
            Some(v)
        } else {
            None
        }
    }

    pub fn read_u64(&mut self) -> (r: Option<u64>)
        requires
            old(self).wf(),
        ensures
            final(self).data == old(self).data,
            final(self).wf(),
            match r {
                Some(v) => sp_u64(old(self).data@, old(self).pos as int) == Some((
                    v,
                    final(self).pos as int,
                )),
                None => sp_u64(old(self).data@, old(self).pos as int) is None && *final(self)
                    == *old(self),
            },
    {
        if self.data.len() - self.pos >= 8 {
            let part = slice_subrange(self.data, self.pos, self.pos + 8);
            let v = u64_from_le_bytes(part);
            self.pos = self.pos + 8;
            Some(v)
        } else {
            None
        }
    }

    /// Reads exactly `n` raw bytes.
    pub fn read_exact(&mut self, n: usize) -> (r: Option<Vec<u8>>)
        requires
            old(self).wf(),
        ensures
            final(self).data == old(self).data,
            final(self).wf(),
            match r {
                Some(v) => old(self).pos + n <= old(self).data@.len() && v@ == old(
                    self,
                ).data@.subrange(old(self).pos as int, old(self).pos + n) && final(self).pos
                    == old(self).pos + n,
                None => old(self).pos + n > old(self).data@.len() && *final(self) == *old(self),
            },
    {
        if n <= self.data.len() - self.pos {
            let part = slice_subrange(self.data, self.pos, self.pos + n);
            let v = slice_to_vec(part);
            self.pos = self.pos + n;
            Some(v)
        } else {
            None
        }
    }

    pub fn read_bytes(&mut self) -> (r: Option<Vec<u8>>)
        requires
            old(self).wf(),
        ensures
            final(self).data == old(self).data,
            final(self).wf(),
            match r {
                Some(v) => sp_bytes(old(self).data@, old(self).pos as int) == Some((
                    v@,
                    final(self).pos as int,
                )),
                None => sp_bytes(old(self).data@, old(self).pos as int) is None,
            },
    {
        let n_opt = self.read_u64();
        match n_opt {
            None => None,
            Some(n) => {
                let rem = self.data.len() - self.pos;
                if n > rem as u64 {
                    return None;
                }
                let n_usize = n as usize;
                let part = slice_subrange(self.data, self.pos, self.pos + n_usize);
                let v = slice_to_vec(part);
                self.pos = self.pos + n_usize;
                Some(v)
            }
        }
    }

    pub fn read_string(&mut self) -> (r: Option<String>)
        requires
            old(self).wf(),
        ensures
            final(self).data == old(self).data,
            final(self).wf(),
            match r {
                Some(s) => sp_str(old(self).data@, old(self).pos as int) == Some((
                    s@,
                    final(self).pos as int,
                )),
                None => sp_str(old(self).data@, old(self).pos as int) is None,
            },
    {
        let b_opt = self.read_bytes();
        match b_opt {
            None => None,
            Some(b) => {
                let ghost bytes = b@;
                let s_opt = bytes_into_string(b);
                match s_opt {
                    None => None,
                    Some(s) => {
                        proof {
                            broadcast use vstd::utf8::encode_utf8_decode_utf8,
                                vstd::utf8::decode_utf8_encode_utf8;

                            assert(decode_utf8(bytes) == s@);
                        }
                        Some(s)
                    }
                }
            }
        }
    }
}

} // verus!
