//! Decoding of lowercase hexadecimal strings into raw bytes. Digest
//! strings are hex-encoded by the hashing primitive; checksums are stored
//! as the 32 raw digest bytes, so the library decodes the hex form itself.

use crate::crypto::{all_hex_chars, is_hex_char, sha256_hex};
use vstd::prelude::*;

verus! {

/// The numeric value of one lowercase hexadecimal character.
pub open spec fn hex_char_val(c: char) -> nat
    recommends
        is_hex_char(c),
{
    if '0' <= c && c <= '9' {
        (c as nat - 48) as nat
    } else {
        (c as nat - 87) as nat
    }
}

/// The bytes encoded by a sequence of hexadecimal characters, two
/// characters to a byte; a trailing odd character is ignored.
pub open spec fn hex_pair_bytes(s: Seq<char>) -> Seq<u8>
    decreases s.len(),
{
    if s.len() < 2 {
        seq![]
    } else {
        seq![((hex_char_val(s[0]) * 16 + hex_char_val(s[1])) as u8)] + hex_pair_bytes(
            s.skip(2),
        )
    }
}

/// The raw 32-byte SHA-256 digest of a byte sequence.
pub open spec fn sha256_raw(data: Seq<u8>) -> Seq<u8> {
    hex_pair_bytes(sha256_hex(data))
}

pub proof fn lemma_hex_pair_bytes_len(s: Seq<char>)
    ensures
        hex_pair_bytes(s).len() == s.len() / 2,
    decreases s.len(),
{
    if s.len() >= 2 {
        lemma_hex_pair_bytes_len(s.skip(2));
    }
}

proof fn lemma_hex_pair_bytes_push(s: Seq<char>, c1: char, c2: char)
    requires
        s.len() % 2 == 0,
    ensures
        hex_pair_bytes(s + seq![c1, c2]) == hex_pair_bytes(s) + seq![
            ((hex_char_val(c1) * 16 + hex_char_val(c2)) as u8),
        ],
    decreases s.len(),
{
    let whole = s + seq![c1, c2];
    if s.len() == 0 {
        assert(whole[0] == c1);
        assert(whole[1] == c2);
        assert(whole.skip(2) =~= Seq::<char>::empty());
        assert(hex_pair_bytes(whole.skip(2)) =~= Seq::<u8>::empty());
        assert(hex_pair_bytes(whole) =~= seq![
            ((hex_char_val(c1) * 16 + hex_char_val(c2)) as u8),
        ]);
        assert(hex_pair_bytes(s) =~= Seq::<u8>::empty());
        assert(hex_pair_bytes(whole) =~= hex_pair_bytes(s) + seq![
            ((hex_char_val(c1) * 16 + hex_char_val(c2)) as u8),
        ]);
    } else {
        assert(whole[0] == s[0]);
        assert(whole[1] == s[1]);
        lemma_hex_pair_bytes_push(s.skip(2), c1, c2);
        assert(whole.skip(2) =~= s.skip(2) + seq![c1, c2]);
        assert(hex_pair_bytes(whole) =~= hex_pair_bytes(s) + seq![
            ((hex_char_val(c1) * 16 + hex_char_val(c2)) as u8),
        ]);
    }
}

/// The numeric value of one lowercase hexadecimal character.
fn hex_char_value(c: char) -> (v: u8)
    requires
        is_hex_char(c),
    ensures
        v == hex_char_val(c),
        v < 16,
{
    let u = c as u8;
    if u >= 97 {
        u - 87
    } else {
        u - 48
    }
}

/// Decodes an even-length lowercase hexadecimal string into its bytes.
pub fn hex_decode(s: &str) -> (v: Vec<u8>)
    requires
        all_hex_chars(s@),
        s@.len() % 2 == 0,
    ensures
        v@ == hex_pair_bytes(s@),
{
    let n = s.unicode_len();
    let mut v: Vec<u8> = Vec::new();
    let mut i: usize = 0;
    proof {
        assert(s@.take(0) =~= Seq::<char>::empty());
    }
    while i + 1 < n
        invariant
            all_hex_chars(s@),
            s@.len() % 2 == 0,
            n == s@.len(),
            i % 2 == 0,
            i <= n,
            v@ == hex_pair_bytes(s@.take(i as int)),
        decreases n - i,
    {
        let c1 = s.get_char(i);
        let c2 = s.get_char(i + 1);
        let b = hex_char_value(c1) * 16 + hex_char_value(c2);
        v.push(b);
        proof {
            lemma_hex_pair_bytes_push(s@.take(i as int), c1, c2);
            assert(s@.take(i as int) + seq![c1, c2] =~= s@.take(i + 2));
        }
        i = i + 2;
    }
    proof {
        assert(s@.take(n as int) =~= s@);
    }
    v
}

} // verus!
