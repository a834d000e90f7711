//! The snapshot writer: serializes a ledger into the self-describing
//! snapshot byte image (header region, body, footer). The surrounding
//! program truncates the snapshot file and writes the image out.

use crate::codec::push_u64;
use crate::crypto::{sha256_hex, sha256_hex_of};
use crate::database::{
    enc_body, enc_footer, enc_header, snapshot_magic, BodyModel, DatabaseHeader, HeaderModel,
    HEADER_SIZE,
};
use crate::error::StorageError;
use crate::hexcode::{hex_decode, lemma_hex_pair_bytes_len, sha256_raw};
use crate::ledger::Ledger;
use crate::persistence::{push_record, push_user, record_model, user_model};
use vstd::prelude::*;

verus! {

/// The stored view of a whole ledger: its records and its users.
pub open spec fn ledger_body_model(l: Ledger) -> BodyModel {
    BodyModel {
        records: Seq::new(l.records@.len(), |i: int| record_model(l.records@[i])),
        users: Seq::new(l.users@.len(), |i: int| user_model(l.users@[i])),
    }
}

/// The full snapshot image of a body, written at the given times.
pub open spec fn spec_snapshot_bytes(m: BodyModel, created: u64, modified: u64) -> Seq<u8> {
    let body = enc_body(m);
    let header = HeaderModel {
        magic: snapshot_magic(),
        version_major: 1,
        version_minor: 0,
        record_count: m.records.len() as u64,
        created_timestamp: created,
        last_modified: modified,
        body_offset: 128,
        footer_offset: (128 + body.len()) as u64,
        checksum: sha256_raw(body),
    };
    let hb = enc_header(header);
    hb + body + enc_footer(sha256_raw(hb + body), (128 + body.len() + 40) as u64)
}

/// The snapshot writer over its output buffer.
pub struct DatabaseWriter {
    pub buffer: Vec<u8>,
}

impl DatabaseWriter {
    /// A writer with an empty output buffer.
    pub fn new() -> (w: DatabaseWriter)
        ensures
            w.buffer@.len() == 0,
    {
        DatabaseWriter { buffer: Vec::new() }
    }

    /// Serializes the whole ledger: body, then the header carrying the
    /// body's checksum, then the footer's integrity hash; the buffer is
    /// truncated first.
    pub fn write_ledger(&mut self, ledger: &Ledger) -> (r: Result<(), StorageError>)
        ensures
            r is Ok <==> enc_body(ledger_body_model(*ledger)).len() + 168 <= u64::MAX,
            match r {
                Ok(()) => {
                    &&& crate::database::body_model_encodable(ledger_body_model(*ledger))
                    &&& crate::database::body_model_repr(ledger_body_model(*ledger))
                    &&& enc_body(ledger_body_model(*ledger)).len() + 168 <= u64::MAX
                    &&& sha256_hex(enc_body(ledger_body_model(*ledger))).len() == 64
                    &&& exists|created: u64, modified: u64|
                        final(self).buffer@ == spec_snapshot_bytes(
                            ledger_body_model(*ledger),
                            created,
                            modified,
                        )
                },
                Err(e) => e is Serialization,
            },
    {
        let ghost m = ledger_body_model(*ledger);
        let mut body: Vec<u8> = Vec::new();
        push_u64(&mut body, ledger.records.len() as u64);
        let n = ledger.records.len();
        let mut i: usize = 0;
        proof {
            assert(m.records.take(0) =~= Seq::<crate::persistence::RecordModel>::empty());
        }
        while i < n
            invariant
                i <= n,
                n == ledger.records@.len(),
                m == ledger_body_model(*ledger),
                body@ == crate::codec::enc_u64(n as u64) + crate::database::enc_record_seq(
                    m.records.take(i as int),
                ),
                forall|k: int|
                    0 <= k < i ==> crate::persistence::record_model_encodable(
                        #[trigger] m.records[k],
                    ) && crate::persistence::record_model_repr(m.records[k]),
            decreases n - i,
        {
            push_record(&mut body, &ledger.records[i]);
            proof {
                assert(m.records[i as int] == record_model(ledger.records@[i as int]));
                assert(m.records.take(i + 1) =~= m.records.take(i as int).push(
                    m.records[i as int],
                ));
                crate::database::lemma_enc_record_seq_push(
                    m.records.take(i as int),
                    m.records[i as int],
                );
                assert(body@ =~= crate::codec::enc_u64(n as u64)
                    + crate::database::enc_record_seq(m.records.take(i + 1)));
            }
            i = i + 1;
        }
        proof {
            assert(m.records.take(n as int) =~= m.records);
        }
        push_u64(&mut body, ledger.users.len() as u64);
        let ghost mid = body@;
        let un = ledger.users.len();
        let mut j: usize = 0;
        proof {
            assert(m.users.take(0) =~= Seq::<crate::persistence::UserModel>::empty());
        }
        while j < un
            invariant
                j <= un,
                un == ledger.users@.len(),
                m == ledger_body_model(*ledger),
                body@ == mid + crate::database::enc_user_seq(m.users.take(j as int)),
                forall|k: int|
                    0 <= k < j ==> crate::persistence::user_model_encodable(
                        #[trigger] m.users[k],
                    ),
            decreases un - j,
        {
            push_user(&mut body, &ledger.users[j]);
            proof {
                assert(m.users[j as int] == user_model(ledger.users@[j as int]));
                assert(m.users.take(j + 1) =~= m.users.take(j as int).push(m.users[j as int]));
                crate::database::lemma_enc_user_seq_push(m.users.take(j as int), m.users[j as int]);
                assert(body@ =~= mid + crate::database::enc_user_seq(m.users.take(j + 1)));
            }
            j = j + 1;
        }
        proof {
            assert(m.users.take(un as int) =~= m.users);
            assert(body@ =~= enc_body(m));
        }

        if body.len() as u64 > u64::MAX - 168 {
            return Err(
                StorageError::Serialization(String::from_str("Snapshot body is too large")),
            );
        }
        let body_checksum_hex = sha256_hex_of(body.as_slice());
        let body_checksum = hex_decode(body_checksum_hex.as_str());
        proof {
            lemma_hex_pair_bytes_len(sha256_hex(body@));
        }
        let body_offset = HEADER_SIZE as u64;
        let body_len = body.len();
        let footer_offset = body_offset + body_len as u64;
        let mut header = DatabaseHeader::new(
            ledger.records.len() as u64,
            body_offset,
            footer_offset,
        );
        header.checksum = body_checksum;
        let mut region = header.region_bytes();

        self.buffer.clear();
        self.buffer.append(&mut region);
        let ghost body_snapshot = body@;
        let mut body_vec = body;
        self.buffer.append(&mut body_vec);
        proof {
            assert(self.buffer@ =~= enc_header(header.model()) + body_snapshot);
        }
        let integrity_hex = sha256_hex_of(self.buffer.as_slice());
        let integrity = hex_decode(integrity_hex.as_str());
        proof {
            lemma_hex_pair_bytes_len(sha256_hex(self.buffer@));
        }
        let total_file_size = HEADER_SIZE as u64 + body_len as u64 + 40;
        let ghost pre_footer = self.buffer@;
        let mut integrity_vec = integrity;
        let ghost integrity_snapshot = integrity_vec@;
        self.buffer.append(&mut integrity_vec);
        push_u64(&mut self.buffer, total_file_size);
        proof {
            let hm = header.model();
            assert(hm.magic == snapshot_magic());
            assert(hm.checksum == sha256_raw(body_snapshot));
            assert(self.buffer@ =~= pre_footer + enc_footer(
                integrity_snapshot,
                total_file_size,
            ));
            assert(self.buffer@ =~= spec_snapshot_bytes(
                m,
                hm.created_timestamp,
                hm.last_modified,
            ));
        }
        Ok(())
    }
}

} // verus!
