//! Records: a payload, its hash, the link to the predecessor record, and
//! one detached signature per signer over the record hash.
//!
//! The record hash is SHA-256 of the canonical material string: the
//! space-separated concatenation of index, previous hash, payload hash,
//! timestamp, nonce, and the comma-joined signer list.

use crate::crypto::{all_hex_chars, ed25519_signature, ed25519_verifies, now_secs, random_u64,
    sha256_hex, sha256_hex_of};
use crate::decimal::{dec_str, u64_to_dec_string};
use crate::user::User;
use vstd::prelude::*;
use vstd::utf8::encode_utf8;

verus! {

#[derive(Debug)]
pub struct Record {
    pub index: usize,
    pub payload: String,
    pub payload_hash: String,
    pub signer_ids: Vec<String>,
    pub signatures: Vec<(String, Vec<u8>)>,
    pub prev_hash: String,
    pub record_hash: String,
    pub timestamp: u64,
    pub nonce: u64,
}

/// The comma-joined form of a list of strings.
pub open spec fn comma_join(ids: Seq<Seq<char>>) -> Seq<char>
    decreases ids.len(),
{
    if ids.len() == 0 {
        Seq::<char>::empty()
    } else if ids.len() == 1 {
        ids[0]
    } else {
        comma_join(ids.drop_last()) + seq![','] + ids.last()
    }
}

/// The canonical material string whose SHA-256 digest is the record hash.
pub open spec fn canonical_material(
    index: nat,
    prev_hash: Seq<char>,
    payload_hash: Seq<char>,
    timestamp: nat,
    nonce: nat,
    signer_ids: Seq<Seq<char>>,
) -> Seq<char> {
    dec_str(index) + seq![' '] + prev_hash + seq![' '] + payload_hash + seq![' '] + dec_str(
        timestamp,
    ) + seq![' '] + dec_str(nonce) + seq![' '] + comma_join(signer_ids)
}

/// The hex digest of a payload string: SHA-256 over its UTF-8 bytes.
pub open spec fn spec_payload_hash(payload: Seq<char>) -> Seq<char> {
    sha256_hex(encode_utf8(payload))
}

/// The record hash a record's own fields call for.
pub open spec fn spec_record_hash_of(r: Record) -> Seq<char> {
    sha256_hex(
        encode_utf8(
            canonical_material(
                r.index as nat,
                r.prev_hash@,
                r.payload_hash@,
                r.timestamp as nat,
                r.nonce as nat,
                r.signer_ids.deep_view(),
            ),
        ),
    )
}

impl Record {
    /// The stored hashes agree with the stored fields.
    pub open spec fn hashes_ok(&self) -> bool {
        &&& self.payload_hash@ == spec_payload_hash(self.payload@)
        &&& self.record_hash@ == spec_record_hash_of(*self)
    }

    /// One 64-byte signature per signer, keyed in signer order.
    pub open spec fn sig_shape_ok(&self) -> bool {
        &&& self.signatures@.len() == self.signer_ids@.len()
        &&& forall|i: int|
            0 <= i < self.signatures@.len() ==> (#[trigger] self.signatures@[i]).0@
                == self.signer_ids@[i]@ && self.signatures@[i].1@.len() == 64
    }

    /// Constructs a record: hashes the payload, stamps time and a random
    /// nonce, hashes the canonical material, and signs the hex record
    /// hash with every signer's key.
    pub fn new(index: usize, payload: &str, prev_hash: &str, signers: Vec<User>) -> (r: Record)
        requires
            forall|i: int| 0 <= i < signers@.len() ==> (#[trigger] signers@[i]).wf(),
        ensures
            r.index == index,
            r.payload@ == payload@,
            r.prev_hash@ == prev_hash@,
            r.payload_hash@ == spec_payload_hash(payload@),
            r.payload_hash@.len() == 64,
            all_hex_chars(r.payload_hash@),
            r.record_hash@.len() == 64,
            all_hex_chars(r.record_hash@),
            r.signer_ids@.len() == signers@.len(),
            forall|i: int|
                0 <= i < signers@.len() ==> (#[trigger] r.signer_ids@[i])@
                    == signers@[i].user_id@,
            r.hashes_ok(),
            r.sig_shape_ok(),
            forall|i: int|
                0 <= i < signers@.len() ==> (#[trigger] r.signatures@[i]).1@
                    == ed25519_signature(signers@[i].sk(), encode_utf8(r.record_hash@)),
            forall|i: int|
                0 <= i < signers@.len() && (#[trigger] signers@[i]).owns_key()
                    ==> ed25519_verifies(
                    signers@[i].verifying_key@,
                    encode_utf8(r.record_hash@),
                    r.signatures@[i].1@,
                ),
    {
        let timestamp = now_secs();
        let nonce = random_u64();
        let payload_hash = sha256_hex_of(payload.as_bytes());

        let mut signer_ids: Vec<String> = Vec::new();
        let mut i: usize = 0;
        let n = signers.len();
        while i < n
            invariant
                i <= n,
                n == signers@.len(),
                signer_ids@.len() == i,
                forall|k: int|
                    0 <= k < i ==> (#[trigger] signer_ids@[k])@ == signers@[k].user_id@,
            decreases n - i,
        {
            signer_ids.push(signers[i].user_id.clone());
            i = i + 1;
        }

        let material = build_material(
            index as u64,
            prev_hash,
            payload_hash.as_str(),
            timestamp,
            nonce,
            &signer_ids,
        );
        let record_hash = sha256_hex_of(material.as_str().as_bytes());

        let mut signatures: Vec<(String, Vec<u8>)> = Vec::new();
        let mut j: usize = 0;
        while j < n
            invariant
                j <= n,
                n == signers@.len(),
                forall|k: int| 0 <= k < n ==> (#[trigger] signers@[k]).wf(),
                signer_ids@.len() == n,
                forall|k: int|
                    0 <= k < n ==> (#[trigger] signer_ids@[k])@ == signers@[k].user_id@,
                signatures@.len() == j,
                forall|k: int|
                    0 <= k < j ==> (#[trigger] signatures@[k]).0@ == signers@[k].user_id@,
                forall|k: int|
                    0 <= k < j ==> (#[trigger] signatures@[k]).1@ == ed25519_signature(
                        signers@[k].sk(),
                        encode_utf8(record_hash@),
                    ) && signatures@[k].1@.len() == 64,
                forall|k: int|
                    0 <= k < j && (#[trigger] signers@[k]).owns_key() ==> ed25519_verifies(
                        signers@[k].verifying_key@,
                        encode_utf8(record_hash@),
                        signatures@[k].1@,
                    ),
            decreases n - j,
        {
            let sig = signers[j].sign(record_hash.as_str().as_bytes());
            let id = signers[j].user_id.clone();
            signatures.push((id, sig));
            j = j + 1;
        }

        let r = Record {
            index,
            payload: String::from_str(payload),
            payload_hash,
            signer_ids,
            signatures,
            prev_hash: String::from_str(prev_hash),
            record_hash,
            timestamp,
            nonce,
        };
        proof {
            assert(r.signer_ids.deep_view() =~= Seq::new(
                signers@.len(),
                |k: int| signers@[k].user_id@,
            ));
        }
        r
    }
}

/// Builds the canonical material string from a record's fields.
pub fn build_material(
    index: u64,
    prev_hash: &str,
    payload_hash: &str,
    timestamp: u64,
    nonce: u64,
    signer_ids: &Vec<String>,
) -> (m: String)
    ensures
        m@ == canonical_material(
            index as nat,
            prev_hash@,
            payload_hash@,
            timestamp as nat,
            nonce as nat,
            signer_ids.deep_view(),
        ),
{
    proof {
        reveal_strlit(" ");
    }
    let mut m = u64_to_dec_string(index);
    m.append(" ");
    m.append(prev_hash);
    m.append(" ");
    m.append(payload_hash);
    m.append(" ");
    let ts = u64_to_dec_string(timestamp);
    m.append(ts.as_str());
    m.append(" ");
    let nc = u64_to_dec_string(nonce);
    m.append(nc.as_str());
    m.append(" ");
    let joined = comma_join_strings(signer_ids);
    m.append(joined.as_str());
    proof {
        assert(" "@ =~= seq![' ']);
        assert(m@ =~= canonical_material(
            index as nat,
            prev_hash@,
            payload_hash@,
            timestamp as nat,
            nonce as nat,
            signer_ids.deep_view(),
        ));
    }
    m
}

/// Joins strings with commas, in order.
pub fn comma_join_strings(ids: &Vec<String>) -> (s: String)
    ensures
        s@ == comma_join(ids.deep_view()),
{
    proof {
        reveal_strlit(",");
    }
    let mut s = String::new();
    let n = ids.len();
    let mut i: usize = 0;
    while i < n
        invariant
            i <= n,
            n == ids@.len(),
            s@ == comma_join(ids.deep_view().take(i as int)),
        decreases n - i,
    {
        if i > 0 {
            s.append(",");
        }
        s.append(ids[i].as_str());
        proof {
            reveal_strlit(",");
            let dv = ids.deep_view();
            assert(","@ =~= seq![',']);
            assert(dv.take(i + 1).drop_last() =~= dv.take(i as int));
            assert(dv.take(i + 1).last() == dv[i as int]);
            assert(dv[i as int] == ids@[i as int]@);
            if i == 0 {
                assert(comma_join(dv.take(0)) =~= Seq::<char>::empty());
                assert(s@ =~= comma_join(dv.take(1)));
            } else {
                assert(dv.take(i + 1).len() >= 2);
                assert(comma_join(dv.take(i + 1)) == comma_join(dv.take(i as int)) + seq![',']
                    + dv[i as int]);
                assert(s@ =~= comma_join(dv.take(i + 1)));
            }
        }
        i = i + 1;
    }
    proof {
        assert(ids.deep_view().take(n as int) =~= ids.deep_view());
    }
    s
}

} // verus!
