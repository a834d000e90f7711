//! The write-ahead log: an append-only sequence of entries, each a
//! fixed 49-byte header (magic, entry type, timestamp, payload size,
//! payload checksum) followed by the payload bytes.
//!
//! The log is modelled over its byte buffer; the surrounding program
//! appends the produced bytes to the log file and hands the file's
//! contents back for reading. Reading stops cleanly at a malformed or
//! truncated tail and fails only on a checksum mismatch.

use crate::codec::{enc_u32, enc_u64, push_u32, push_u64, push_u8, Cursor};
use crate::crypto::{now_secs, sha256_hex, sha256_hex_of};
use crate::error::StorageError;
use crate::hexcode::{hex_decode, lemma_hex_pair_bytes_len, sha256_raw};
use crate::persistence::{
    enc_record_model, enc_user_model, push_record, push_user, record_model, user_model,
};
use crate::record::Record;
use crate::user::User;
use vstd::bytes::{spec_u32_from_le_bytes, spec_u64_from_le_bytes};
use vstd::prelude::*;

verus! {

/// The per-entry magic, the ASCII bytes of APND.
pub open spec fn wal_magic() -> Seq<u8> {
    seq![0x41u8, 0x50u8, 0x4Eu8, 0x44u8]
}

pub const ENTRY_HEADER_SIZE: usize = 49;

/// The specification-level contents of one entry header, magic aside.
#[verifier::ext_equal]
pub ghost struct EntryModel {
    pub entry_type: u8,
    pub timestamp: u64,
    pub data_size: u32,
    pub checksum: Seq<u8>,
}

/// The entry header an append writes for a payload, at a timestamp.
pub open spec fn entry_of(entry_type: u8, ts: u64, data: Seq<u8>) -> EntryModel {
    EntryModel {
        entry_type,
        timestamp: ts,
        data_size: data.len() as u32,
        checksum: sha256_raw(data),
    }
}

/// The encoding of an entry header carrying the log's magic.
pub open spec fn enc_entry(e: EntryModel) -> Seq<u8> {
    wal_magic() + seq![e.entry_type] + enc_u64(e.timestamp) + enc_u32(e.data_size) + e.checksum
}

/// The header fields found at position `p`.
pub open spec fn hdr_at(b: Seq<u8>, p: int) -> EntryModel {
    EntryModel {
        entry_type: b[p + 4],
        timestamp: spec_u64_from_le_bytes(b.subrange(p + 5, p + 13)),
        data_size: spec_u32_from_le_bytes(b.subrange(p + 13, p + 17)),
        checksum: b.subrange(p + 17, p + 49),
    }
}

/// The entries encoded in the log from position `p` on: parsing stops
/// cleanly at a truncated or alien tail, and fails on a payload whose
/// checksum does not match. The second component is where parsing
/// stopped.
pub open spec fn sp_wal(b: Seq<u8>, p: int) -> Result<(Seq<(EntryModel, Seq<u8>)>, int), int>
    decreases b.len() - p,
{
    if p < 0 || p + 49 > b.len() {
        Ok((Seq::empty(), p))
    } else if b.subrange(p, p + 4) != wal_magic() {
        Ok((Seq::empty(), p))
    } else {
        let e = hdr_at(b, p);
        if p + 49 + e.data_size > b.len() {
            Ok((Seq::empty(), p))
        } else {
            let data = b.subrange(p + 49, p + 49 + e.data_size);
            if e.checksum != sha256_raw(data) {
                Err(p)
            } else {
                match sp_wal(b, p + 49 + e.data_size) {
                    Err(q) => Err(q),
                    Ok((rest, end)) => Ok((seq![(e, data)] + rest, end)),
                }
            }
        }
    }
}

/// A log whose bytes parse without error and leave no tail behind.
pub open spec fn wal_clean(b: Seq<u8>) -> bool {
    sp_wal(b, 0) matches Ok((es, end)) && end == b.len()
}

/// The entries of a log that parses without error.
pub open spec fn wal_entry_seq(b: Seq<u8>) -> Seq<(EntryModel, Seq<u8>)>
    recommends
        sp_wal(b, 0) is Ok,
{
    sp_wal(b, 0)->Ok_0.0
}

/// One entry header of the log.
#[derive(Debug)]
pub struct AppendEntry {
    pub magic: Vec<u8>,
    pub entry_type: u8,
    pub timestamp: u64,
    pub data_size: u32,
    pub checksum: Vec<u8>,
}

impl AppendEntry {
    /// The header carries the log's magic and a 32-byte checksum.
    pub open spec fn wf(&self) -> bool {
        self.magic@ == wal_magic() && self.checksum@.len() == 32
    }

    /// The header's contents, magic aside.
    pub open spec fn model(&self) -> EntryModel {
        EntryModel {
            entry_type: self.entry_type,
            timestamp: self.timestamp,
            data_size: self.data_size,
            checksum: self.checksum@,
        }
    }

    /// A fresh header stamped with the present time.
    pub fn new(entry_type: u8, data_size: u32, checksum: Vec<u8>) -> (e: AppendEntry)
        requires
            checksum@.len() == 32,
        ensures
            e.wf(),
            e.entry_type == entry_type,
            e.data_size == data_size,
            e.checksum@ == checksum@,
    {
        let mut magic: Vec<u8> = Vec::new();
        magic.push(0x41);
        magic.push(0x50);
        magic.push(0x4E);
        magic.push(0x44);
        proof {
            assert(magic@ =~= wal_magic());
        }
        AppendEntry { magic, entry_type, timestamp: now_secs(), data_size, checksum }
    }

    /// The 49-byte wire form of the header.
    pub fn to_bytes(&self) -> (v: Vec<u8>)
        requires
            self.wf(),
        ensures
            v@ == enc_entry(self.model()),
            v@.len() == 49,
    {
        let mut v: Vec<u8> = Vec::new();
        v.extend_from_slice(self.magic.as_slice());
        push_u8(&mut v, self.entry_type);
        push_u64(&mut v, self.timestamp);
        push_u32(&mut v, self.data_size);
        v.extend_from_slice(self.checksum.as_slice());
        proof {
            vstd::bytes::lemma_auto_spec_u64_to_from_le_bytes();
            vstd::bytes::lemma_auto_spec_u32_to_from_le_bytes();
            assert(v@ =~= enc_entry(self.model()));
        }
        v
    }

    /// Reads a header back from its wire form; the bytes must hold at
    /// least one full header.
    pub fn from_bytes(bytes: &[u8]) -> (r: Result<AppendEntry, StorageError>)
        ensures
            r is Ok <==> bytes@.len() >= 49,
            r matches Ok(e) ==> e.magic@ == bytes@.subrange(0, 4) && e.model() == hdr_at(
                bytes@,
                0,
            ) && e.checksum@.len() == 32,
            r is Err ==> r->Err_0 is Deserialization,
    {
        let mut c = Cursor::new(bytes);
        let magic = match c.read_exact(4) {
            None => {
                return Err(
                    StorageError::Deserialization(
                        String::from_str("Entry header is truncated"),
                    ),
                );
            },
            Some(v) => v,
        };
        let entry_type = match c.read_u8() {
            None => {
                return Err(
                    StorageError::Deserialization(
                        String::from_str("Entry header is truncated"),
                    ),
                );
            },
            Some(v) => v,
        };
        let timestamp = match c.read_u64() {
            None => {
                return Err(
                    StorageError::Deserialization(
                        String::from_str("Entry header is truncated"),
                    ),
                );
            },
            Some(v) => v,
        };
        let data_size = match c.read_u32() {
            None => {
                return Err(
                    StorageError::Deserialization(
                        String::from_str("Entry header is truncated"),
                    ),
                );
            },
            Some(v) => v,
        };
        let checksum = match c.read_exact(32) {
            None => {
                return Err(
                    StorageError::Deserialization(
                        String::from_str("Entry header is truncated"),
                    ),
                );
            },
            Some(v) => v,
        };
        let e = AppendEntry { magic, entry_type, timestamp, data_size, checksum };
        proof {
            assert(e.model() =~= hdr_at(bytes@, 0));
        }
        Ok(e)
    }
}

/// The write-ahead log over its byte buffer.
pub struct AppendLog {
    pub buf: Vec<u8>,
}

impl AppendLog {
    /// An empty log.
    pub fn new() -> (log: AppendLog)
        ensures
            log.buf@.len() == 0,
            wal_clean(log.buf@),
            wal_entry_seq(log.buf@) =~= Seq::<(EntryModel, Seq<u8>)>::empty(),
    {
        AppendLog { buf: Vec::new() }
    }

    /// A log over bytes read back from storage.
    pub fn from_bytes(buf: Vec<u8>) -> (log: AppendLog)
        ensures
            log.buf@ == buf@,
    {
        AppendLog { buf }
    }

    /// Appends one entry made of a typed payload.
    fn append_payload(&mut self, entry_type: u8, payload: Vec<u8>) -> (r: Result<
        (),
        StorageError,
    >)
        ensures
            match r {
                Ok(()) => {
                    &&& payload@.len() <= u32::MAX
                    &&& exists|ts: u64|
                        final(self).buf@ == old(self).buf@ + enc_entry(
                            #[trigger] entry_of(entry_type, ts, payload@),
                        ) + payload@
                    &&& (wal_clean(old(self).buf@) && sp_wal(old(self).buf@, 0) is Ok ==> {
                        &&& wal_clean(final(self).buf@)
                        &&& sp_wal(final(self).buf@, 0) is Ok
                        &&& exists|ts: u64|
                            wal_entry_seq(final(self).buf@) == wal_entry_seq(
                                old(self).buf@,
                            ).push(((#[trigger] entry_of(entry_type, ts, payload@)), payload@))
                    })
                },
                Err(e) => {
                    &&& e is Serialization
                    &&& payload@.len() > u32::MAX
                    &&& final(self).buf == old(self).buf
                },
            },
    {
        if payload.len() > u32::MAX as usize {
            return Err(
                StorageError::Serialization(String::from_str("Entry payload is too large")),
            );
        }
        let checksum_hex = sha256_hex_of(payload.as_slice());
        let checksum = hex_decode(checksum_hex.as_str());
        proof {
            lemma_hex_pair_bytes_len(sha256_hex(payload@));
        }
        let entry = AppendEntry::new(entry_type, payload.len() as u32, checksum);
        let mut header = entry.to_bytes();
        let ghost em = entry.model();
        let ghost old_buf = self.buf@;
        self.buf.append(&mut header);
        let ghost data = payload@;
        let mut payload_vec = payload;
        self.buf.append(&mut payload_vec);
        proof {
            assert(em =~= entry_of(entry_type, entry.timestamp, data));
            assert(self.buf@ =~= old_buf + enc_entry(em) + data);
            assert(self.buf@ == old_buf + enc_entry(
                entry_of(entry_type, entry.timestamp, data),
            ) + data);
            if wal_clean(old_buf) && sp_wal(old_buf, 0) is Ok {
                lemma_sp_wal_append(old_buf, em, data, 0);
                assert(wal_entry_seq(self.buf@) == wal_entry_seq(old_buf).push((
                    entry_of(entry_type, entry.timestamp, data),
                    data,
                )));
            }
        }
        Ok(())
    }

    /// Appends a record entry.
    pub fn append_record(&mut self, record: &Record) -> (r: Result<(), StorageError>)
        ensures
            match r {
                Ok(()) => {
                    let data = enc_record_model(record_model(*record));
                    &&& data.len() <= u32::MAX
                    &&& (wal_clean(old(self).buf@) && sp_wal(old(self).buf@, 0) is Ok ==> {
                        &&& wal_clean(final(self).buf@)
                        &&& sp_wal(final(self).buf@, 0) is Ok
                        &&& exists|ts: u64|
                            wal_entry_seq(final(self).buf@) == wal_entry_seq(
                                old(self).buf@,
                            ).push(((#[trigger] entry_of(1u8, ts, data)), data))
                    })
                },
                Err(e) => {
                    &&& e is Serialization
                    &&& enc_record_model(record_model(*record)).len() > u32::MAX
                    &&& final(self).buf == old(self).buf
                },
            },
    {
        let mut payload: Vec<u8> = Vec::new();
        push_record(&mut payload, record);
        self.append_payload(1, payload)
    }

    /// Appends a user-registration entry.
    pub fn append_user(&mut self, user: &User) -> (r: Result<(), StorageError>)
        ensures
            match r {
                Ok(()) => {
                    let data = enc_user_model(user_model(*user));
                    &&& data.len() <= u32::MAX
                    &&& (wal_clean(old(self).buf@) && sp_wal(old(self).buf@, 0) is Ok ==> {
                        &&& wal_clean(final(self).buf@)
                        &&& sp_wal(final(self).buf@, 0) is Ok
                        &&& exists|ts: u64|
                            wal_entry_seq(final(self).buf@) == wal_entry_seq(
                                old(self).buf@,
                            ).push(((#[trigger] entry_of(2u8, ts, data)), data))
                    })
                },
                Err(e) => {
                    &&& e is Serialization
                    &&& enc_user_model(user_model(*user)).len() > u32::MAX
                    &&& final(self).buf == old(self).buf
                },
            },
    {
        let mut payload: Vec<u8> = Vec::new();
        push_user(&mut payload, user);
        self.append_payload(2, payload)
    }

    /// Reads every entry from the start of the log; trailing garbage or
    /// a truncated tail ends the walk cleanly, and a payload whose
    /// checksum does not match fails the whole read.
    pub fn read_all_entries(&mut self) -> (r: Result<Vec<(AppendEntry, Vec<u8>)>, StorageError>)
        ensures
            match r {
                Ok(v) => sp_wal(old(self).buf@, 0) is Ok && v@.len() == wal_entry_seq(
                    old(self).buf@,
                ).len() && forall|k: int|
                    0 <= k < v@.len() ==> (#[trigger] v@[k]).0.model() == wal_entry_seq(
                        old(self).buf@,
                    )[k].0 && v@[k].1@ == wal_entry_seq(old(self).buf@)[k].1 && v@[k].0.wf(),
                Err(e) => sp_wal(old(self).buf@, 0) is Err && e
                    == StorageError::ChecksumMismatch,
            },
            final(self).buf == old(self).buf,
    {
        let mut out: Vec<(AppendEntry, Vec<u8>)> = Vec::new();
        let mut pos: usize = 0;
        let ghost b = self.buf@;
        loop
            invariant
                self.buf@ == b,
                pos <= b.len(),
                sp_wal(b, 0) == (match sp_wal(b, pos as int) {
                    Err(q) => Err::<(Seq<(EntryModel, Seq<u8>)>, int), int>(q),
                    Ok((rest, end)) => Ok((
                        Seq::new(out@.len(), |k: int| ((out@[k].0).model(), out@[k].1@)) + rest,
                        end,
                    )),
                }),
                forall|k: int| 0 <= k < out@.len() ==> (#[trigger] out@[k]).0.wf(),
            ensures
                self.buf@ == b,
                pos <= b.len(),
                sp_wal(b, pos as int) == Ok::<(Seq<(EntryModel, Seq<u8>)>, int), int>((
                    Seq::empty(),
                    pos as int,
                )),
                sp_wal(b, 0) == Ok::<(Seq<(EntryModel, Seq<u8>)>, int), int>((
                    Seq::new(out@.len(), |k: int| ((out@[k].0).model(), out@[k].1@)) + Seq::<
                        (EntryModel, Seq<u8>),
                    >::empty(),
                    pos as int,
                )),
                forall|k: int| 0 <= k < out@.len() ==> (#[trigger] out@[k]).0.wf(),
            decreases b.len() - pos,
        {
            let ghost pos0 = pos as int;
            if self.buf.len() - pos < ENTRY_HEADER_SIZE {
                proof {
                    assert(sp_wal(b, pos0) == Ok::<(Seq<(EntryModel, Seq<u8>)>, int), int>((
                        Seq::empty(),
                        pos0,
                    )));
                }
                break;
            }
            let mut c = Cursor::at(self.buf.as_slice(), pos);
            let magic = c.read_exact(4).unwrap();
            let is_magic = magic_matches(&magic);
            if !is_magic {
                proof {
                    assert(b.subrange(pos0, pos0 + 4) != wal_magic());
                    assert(sp_wal(b, pos0) == Ok::<(Seq<(EntryModel, Seq<u8>)>, int), int>((
                        Seq::empty(),
                        pos0,
                    )));
                }
                break;
            }
            let entry_type = c.read_u8().unwrap();
            let timestamp = c.read_u64().unwrap();
            let data_size = c.read_u32().unwrap();
            let checksum = c.read_exact(32).unwrap();
            proof {
                assert(b.subrange(pos0, pos0 + 4) =~= magic@);
            }
            let rem = self.buf.len() - (pos + ENTRY_HEADER_SIZE);
            if data_size as usize > rem {
                proof {
                    assert(hdr_at(b, pos0).data_size == data_size);
                    assert(sp_wal(b, pos0) == Ok::<(Seq<(EntryModel, Seq<u8>)>, int), int>((
                        Seq::empty(),
                        pos0,
                    )));
                }
                break;
            }
            let data = c.read_exact(data_size as usize).unwrap();
            let computed_hex = sha256_hex_of(data.as_slice());
            let computed = hex_decode(computed_hex.as_str());
            let ghost em = hdr_at(b, pos0);
            proof {
                assert(em.entry_type == entry_type);
                assert(em.timestamp == timestamp);
                assert(em.data_size == data_size);
                assert(em.checksum =~= checksum@);
                assert(data@ =~= b.subrange(pos0 + 49, pos0 + 49 + em.data_size));
            }
            if !crate::ledger::bytes_eq(&computed, &checksum) {
                proof {
                    assert(em.checksum != sha256_raw(b.subrange(
                        pos0 + 49,
                        pos0 + 49 + em.data_size,
                    )));
                    assert(sp_wal(b, pos0) is Err);
                }
                return Err(StorageError::ChecksumMismatch);
            }
            let entry = AppendEntry { magic, entry_type, timestamp, data_size, checksum };
            let ghost prev = Seq::new(out@.len(), |k: int| ((out@[k].0).model(), out@[k].1@));
            proof {
                assert(entry.model() =~= em);
                assert(entry.wf());
                assert(em.checksum == sha256_raw(b.subrange(pos0 + 49, pos0 + 49 + em.data_size)));
                assert(sp_wal(b, pos0) == (match sp_wal(b, pos0 + 49 + em.data_size) {
                    Err(q) => Err::<(Seq<(EntryModel, Seq<u8>)>, int), int>(q),
                    Ok((rest, end)) => Ok((seq![(em, data@)] + rest, end)),
                }));
            }
            let ghost d = b.subrange(pos0 + 49, pos0 + 49 + em.data_size);
            out.push((entry, data));
            pos = pos + ENTRY_HEADER_SIZE + data_size as usize;
            proof {
                assert(Seq::new(out@.len(), |k: int| ((out@[k].0).model(), out@[k].1@)) =~= prev.push(
                    (em, d),
                ));
                if sp_wal(b, pos as int) is Ok {
                    let rest = sp_wal(b, pos as int)->Ok_0.0;
                    assert(prev + (seq![(em, d)] + rest) =~= prev.push((em, d)) + rest);
                }
            }
        }
        proof {
            if sp_wal(b, 0) is Ok {
                assert(wal_entry_seq(b) =~= Seq::new(
                    out@.len(),
                    |k: int| ((out@[k].0).model(), out@[k].1@),
                ));
            }
        }
        Ok(out)
    }

    /// Empties the log.
    pub fn truncate(&mut self) -> (r: Result<(), StorageError>)
        ensures
            r is Ok,
            final(self).buf@.len() == 0,
            wal_clean(final(self).buf@),
    {
        self.buf.clear();
        Ok(())
    }
}

/// Whether four bytes are the log's magic.
fn magic_matches(m: &Vec<u8>) -> (r: bool)
    ensures
        r == (m@ == wal_magic()),
{
    if m.len() != 4 {
        proof {
            assert(m@ != wal_magic());
        }
        return false;
    }
    let r = m[0] == 0x41 && m[1] == 0x50 && m[2] == 0x4E && m[3] == 0x44;
    proof {
        if r {
            assert(m@ =~= wal_magic());
        } else {
            assert(m@ != wal_magic());
        }
    }
    r
}

/// Appending a fully checksummed entry to a clean log extends its entry
/// list by exactly that entry.
pub proof fn lemma_sp_wal_append(b: Seq<u8>, e: EntryModel, data: Seq<u8>, p: int)
    requires
        0 <= p <= b.len(),
        sp_wal(b, p) is Ok,
        sp_wal(b, p)->Ok_0.1 == b.len(),
        e.data_size == data.len(),
        data.len() <= u32::MAX,
        e.checksum == sha256_raw(data),
        e.checksum.len() == 32,
    ensures
        sp_wal(b + enc_entry(e) + data, p) == Ok::<(Seq<(EntryModel, Seq<u8>)>, int), int>((
            sp_wal(b, p)->Ok_0.0.push((e, data)),
            (b + enc_entry(e) + data).len() as int,
        )),
    decreases b.len() - p,
{
    vstd::bytes::lemma_auto_spec_u64_to_from_le_bytes();
    vstd::bytes::lemma_auto_spec_u32_to_from_le_bytes();
    let b2 = b + enc_entry(e) + data;
    assert(enc_entry(e).len() == 49);
    if p + 49 > b.len() {
        // a clean log stops exactly at its end
        assert(sp_wal(b, p)->Ok_0.1 == p);
        assert(p == b.len());
        assert(b2.subrange(p, p + 4) =~= wal_magic());
        let parsed = hdr_at(b2, p);
        assert(b2.subrange(p + 5, p + 13) =~= enc_u64(e.timestamp));
        assert(b2.subrange(p + 13, p + 17) =~= enc_u32(e.data_size));
        assert(b2.subrange(p + 17, p + 49) =~= e.checksum);
        assert(parsed.entry_type == e.entry_type);
        assert(parsed =~= e);
        assert(p + 49 + e.data_size == b2.len());
        assert(b2.subrange(p + 49, p + 49 + e.data_size) =~= data);
        assert(sp_wal(b2, p + 49 + e.data_size) == Ok::<(Seq<(EntryModel, Seq<u8>)>, int), int>((
            Seq::empty(),
            b2.len() as int,
        )));
        assert(sp_wal(b, p)->Ok_0.0 =~= Seq::<(EntryModel, Seq<u8>)>::empty());
        assert(seq![(e, data)] + Seq::<(EntryModel, Seq<u8>)>::empty() =~= sp_wal(b, p)->Ok_0.0.push((e, data)));
    } else {
        assert(b2.subrange(p, p + 4) =~= b.subrange(p, p + 4));
        if b.subrange(p, p + 4) != wal_magic() {
            assert(sp_wal(b, p)->Ok_0.1 == p);
            assert(p == b.len());
            assert(false);
        } else {
            let eh = hdr_at(b, p);
            let eh2 = hdr_at(b2, p);
            assert(b2.subrange(p + 5, p + 13) =~= b.subrange(p + 5, p + 13));
            assert(b2.subrange(p + 13, p + 17) =~= b.subrange(p + 13, p + 17));
            assert(b2.subrange(p + 17, p + 49) =~= b.subrange(p + 17, p + 49));
            assert(eh2 =~= eh);
            if p + 49 + eh.data_size > b.len() {
                assert(sp_wal(b, p)->Ok_0.1 == p);
                assert(false);
            } else {
                let d = b.subrange(p + 49, p + 49 + eh.data_size);
                let d2 = b2.subrange(p + 49, p + 49 + eh.data_size);
                assert(d2 =~= d);
                if eh.checksum != sha256_raw(d) {
                    assert(sp_wal(b, p) is Err);
                    assert(false);
                } else {
                    let q = p + 49 + eh.data_size;
                    assert(sp_wal(b, q) is Ok);
                    assert(sp_wal(b, q)->Ok_0.1 == b.len());
                    lemma_sp_wal_append(b, e, data, q);
                    let rest = sp_wal(b, q)->Ok_0.0;
                    assert(seq![(eh, d)] + rest.push((e, data)) =~= (seq![(eh, d)]
                        + rest).push((e, data)));
                }
            }
        }
    }
}

} // verus!
