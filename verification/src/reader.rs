//! The snapshot reader: checks magic, major version and body checksum
//! over an in-memory copy of the file, then deserializes the body. The
//! round-trip law at the end says that reading a written snapshot gives
//! back exactly the written contents.

use crate::codec::Cursor;
use crate::crypto::{sha256_hex, sha256_hex_of};
use crate::database::{
    body_model_encodable, body_model_repr, enc_body, enc_header, lemma_sp_body_enc,
    lemma_sp_header_enc, snapshot_magic, sp_body, sp_header, sp_record_seq, sp_user_seq,
    BodyModel, DatabaseBody, DatabaseHeader, HeaderModel, HEADER_SIZE,
};
use crate::error::StorageError;
use crate::hexcode::{hex_decode, lemma_hex_pair_bytes_len, sha256_raw};
use crate::persistence::{
    read_record, read_user, record_model, record_model_repr, sp_record, su_model, RecordModel,
    SerializableUser, UserModel,
};
use crate::record::Record;
use crate::writer::spec_snapshot_bytes;
use vstd::prelude::*;
use vstd::slice::slice_subrange;

verus! {

/// Whether the header's offsets carve a body out of the file.
pub open spec fn snap_offsets_ok(b: Seq<u8>) -> bool {
    let h = sp_header(b);
    &&& h.body_offset <= h.footer_offset
    &&& h.footer_offset <= b.len()
}

/// The body bytes the header points at.
pub open spec fn snap_body_bytes(b: Seq<u8>) -> Seq<u8> {
    b.subrange(sp_header(b).body_offset as int, sp_header(b).footer_offset as int)
}

/// Whether the stored body checksum matches the body bytes.
pub open spec fn snap_checksum_ok(b: Seq<u8>) -> bool {
    sp_header(b).checksum == sha256_raw(snap_body_bytes(b))
}

/// The body contents, when the body bytes parse completely and every
/// record index fits this machine.
pub open spec fn snap_body_parse(b: Seq<u8>) -> Option<BodyModel> {
    match sp_body(snap_body_bytes(b), 0) {
        None => None,
        Some((m, e)) => if e == snap_body_bytes(b).len() && body_model_repr(m) {
            Some(m)
        } else {
            None
        },
    }
}

/// The snapshot reader over an in-memory copy of the file.
pub struct DatabaseReader {
    pub buffer: Vec<u8>,
}

impl DatabaseReader {
    /// A reader over the file's bytes.
    pub fn new(buffer: Vec<u8>) -> (r: DatabaseReader)
        ensures
            r.buffer@ == buffer@,
    {
        DatabaseReader { buffer }
    }

    /// Parses the header, rejects a wrong magic, a wrong major version
    /// and a checksum mismatch, and deserializes the body.
    pub fn read_and_verify(&self) -> (r: Result<(DatabaseHeader, DatabaseBody), StorageError>)
        ensures
            self.buffer@.len() < 128 ==> (r matches Err(e) && e is Deserialization),
            self.buffer@.len() >= 128 ==> {
                let h = sp_header(self.buffer@);
                &&& (h.magic != snapshot_magic() ==> r == Err::<
                    (DatabaseHeader, DatabaseBody),
                    StorageError,
                >(StorageError::InvalidMagic))
                &&& (h.magic == snapshot_magic() && h.version_major != 1 ==> r == Err::<
                    (DatabaseHeader, DatabaseBody),
                    StorageError,
                >(StorageError::UnsupportedVersion(h.version_major, h.version_minor)))
                &&& (h.magic == snapshot_magic() && h.version_major == 1 && !snap_offsets_ok(
                    self.buffer@,
                ) ==> (r matches Err(e) && e is Deserialization))
                &&& (h.magic == snapshot_magic() && h.version_major == 1 && snap_offsets_ok(
                    self.buffer@,
                ) && !snap_checksum_ok(self.buffer@) ==> r == Err::<
                    (DatabaseHeader, DatabaseBody),
                    StorageError,
                >(StorageError::ChecksumMismatch))
                &&& (h.magic == snapshot_magic() && h.version_major == 1 && snap_offsets_ok(
                    self.buffer@,
                ) && snap_checksum_ok(self.buffer@) && snap_body_parse(self.buffer@) is None
                    ==> (r matches Err(e) && e is Deserialization))
                &&& (h.magic == snapshot_magic() && h.version_major == 1 && snap_offsets_ok(
                    self.buffer@,
                ) && snap_checksum_ok(self.buffer@) && snap_body_parse(self.buffer@) is Some
                    ==> (r matches Ok(out) && {
                    let m = snap_body_parse(self.buffer@).unwrap();
                    &&& out.0.model() == h
                    &&& out.1.records@.len() == m.records.len()
                    &&& (forall|k: int|
                        0 <= k < m.records.len() ==> record_model(
                            #[trigger] out.1.records@[k],
                        ) == m.records[k])
                    &&& out.1.users@.len() == m.users.len()
                    &&& (forall|k: int|
                        0 <= k < m.users.len() ==> su_model(#[trigger] out.1.users@[k])
                            == m.users[k])
                }))
            },
    {
        if self.buffer.len() < HEADER_SIZE {
            return Err(
                StorageError::Deserialization(
                    String::from_str("File is truncated: missing header"),
                ),
            );
        }
        let ghost b = self.buffer@;
        let mut c = Cursor::new(self.buffer.as_slice());
        let magic = c.read_exact(4).unwrap();
        let version_major = c.read_u8().unwrap();
        let version_minor = c.read_u8().unwrap();
        let record_count = c.read_u64().unwrap();
        let created_timestamp = c.read_u64().unwrap();
        let last_modified = c.read_u64().unwrap();
        let body_offset = c.read_u64().unwrap();
        let footer_offset = c.read_u64().unwrap();
        let checksum = c.read_exact(32).unwrap();
        let ghost h = sp_header(b);
        proof {
            assert(magic@ =~= h.magic);
            assert(checksum@ =~= h.checksum);
            assert(version_major == h.version_major);
            assert(version_minor == h.version_minor);
            assert(record_count == h.record_count);
            assert(created_timestamp == h.created_timestamp);
            assert(last_modified == h.last_modified);
            assert(body_offset == h.body_offset);
            assert(footer_offset == h.footer_offset);
        }
        if !snapshot_magic_matches(&magic) {
            return Err(StorageError::InvalidMagic);
        }
        if version_major != 1 {
            return Err(StorageError::UnsupportedVersion(version_major, version_minor));
        }
        if !(body_offset <= footer_offset && footer_offset <= self.buffer.len() as u64) {
            proof {
                assert(!snap_offsets_ok(b));
            }
            return Err(
                StorageError::Deserialization(
                    String::from_str("Header offsets point outside the file"),
                ),
            );
        }
        let body_start = body_offset as usize;
        let body_end = footer_offset as usize;
        let body_slice = slice_subrange(self.buffer.as_slice(), body_start, body_end);
        proof {
            assert(body_slice@ == snap_body_bytes(b));
        }
        let computed_hex = sha256_hex_of(body_slice);
        let computed = hex_decode(computed_hex.as_str());
        proof {
            lemma_hex_pair_bytes_len(sha256_hex(body_slice@));
        }
        if !crate::ledger::bytes_eq(&computed, &checksum) {
            proof {
                assert(!snap_checksum_ok(b));
            }
            return Err(StorageError::ChecksumMismatch);
        }
        let body = match read_body(body_slice) {
            None => {
                return Err(
                    StorageError::Deserialization(String::from_str("Body corruption")),
                );
            },
            Some(v) => v,
        };
        let header = DatabaseHeader {
            magic,
            version_major,
            version_minor,
            record_count,
            created_timestamp,
            last_modified,
            body_offset,
            footer_offset,
            checksum,
            reserved: crate::database::zero_bytes(40),
        };
        proof {
            assert(header.model() =~= h);
        }
        Ok((header, body))
    }
}

/// Reads a whole body image; the bytes must parse completely.
fn read_body(data: &[u8]) -> (r: Option<DatabaseBody>)
    ensures
        match r {
            Some(body) => snap_body_parse_of(data@) matches Some(m) && body.records@.len()
                == m.records.len() && (forall|k: int|
                0 <= k < m.records.len() ==> record_model(#[trigger] body.records@[k])
                    == m.records[k]) && body.users@.len() == m.users.len() && (forall|k: int|
                0 <= k < m.users.len() ==> su_model(#[trigger] body.users@[k]) == m.users[k]),
            None => snap_body_parse_of(data@) is None,
        },
{
    let mut c = Cursor::new(data);
    let n_rec = match c.read_u64() {
        None => {
            proof {
                assert(sp_body(data@, 0) is None);
            }
            return None;
        },
        Some(v) => v,
    };
    let ghost p1 = c.pos as int;
    let records = match read_record_list(&mut c, n_rec) {
        None => {
            proof {
                if sp_record_seq(data@, p1, n_rec) is None {
                    assert(sp_body(data@, 0) is None);
                } else {
                    let ms = sp_record_seq(data@, p1, n_rec)->Some_0.0;
                    let bad = choose|bm: RecordModel|
                        !record_model_repr(bm) && #[trigger] in_record_seq(bm, ms);
                    if sp_body(data@, 0) is Some {
                        let m = sp_body(data@, 0).unwrap().0;
                        assert(m.records == ms);
                        let k = choose|k: int| 0 <= k < ms.len() && ms[k] == bad;
                        assert(!record_model_repr(m.records[k]));
                        assert(!body_model_repr(m));
                    }
                }
            }
            return None;
        },
        Some(v) => v,
    };
    let n_users = match c.read_u64() {
        None => {
            proof {
                assert(sp_body(data@, 0) is None);
            }
            return None;
        },
        Some(v) => v,
    };
    let users = match read_user_list(&mut c, n_users) {
        None => {
            proof {
                assert(sp_body(data@, 0) is None);
            }
            return None;
        },
        Some(v) => v,
    };
    if c.remaining() != 0 {
        proof {
            assert(sp_body(data@, 0).unwrap().1 != data@.len());
        }
        return None;
    }
    let body = DatabaseBody { records, users };
    proof {
        let m = snap_body_parse_of(data@).unwrap();
        assert(m.records =~= Seq::new(body.records@.len(), |k: int| record_model(
            body.records@[k],
        )));
    }
    Some(body)
}

/// The contents of a standalone body image, parsed completely.
pub open spec fn snap_body_parse_of(data: Seq<u8>) -> Option<BodyModel> {
    match sp_body(data, 0) {
        None => None,
        Some((m, e)) => if e == data.len() && body_model_repr(m) {
            Some(m)
        } else {
            None
        },
    }
}

/// Reads `n` records.
fn read_record_list(c: &mut Cursor, n: u64) -> (r: Option<Vec<Record>>)
    requires
        old(c).wf(),
    ensures
        final(c).data == old(c).data,
        final(c).wf(),
        match r {
            Some(v) => sp_record_seq(old(c).data@, old(c).pos as int, n) == Some((
                Seq::new(v@.len(), |k: int| record_model(v@[k])),
                final(c).pos as int,
            )) && (forall|k: int|
                0 <= k < v@.len() ==> record_model_repr(record_model(#[trigger] v@[k]))),
            None => sp_record_seq(old(c).data@, old(c).pos as int, n) is None || exists|
                m: RecordModel,
            |
                !record_model_repr(m) && sp_record_seq(old(c).data@, old(c).pos as int, n)
                    is None == false && #[trigger] in_record_seq(
                    m,
                    sp_record_seq(old(c).data@, old(c).pos as int, n)->Some_0.0,
                ),
        },
{
    let mut acc: Vec<Record> = Vec::new();
    let mut i: u64 = 0;
    while i < n
        invariant
            old(c).wf(),
            c.wf(),
            c.data == old(c).data,
            i <= n,
            acc@.len() == i,
            forall|k: int|
                0 <= k < acc@.len() ==> record_model_repr(record_model(#[trigger] acc@[k])),
            sp_record_seq(old(c).data@, old(c).pos as int, n) == (match sp_record_seq(
                c.data@,
                c.pos as int,
                (n - i) as u64,
            ) {
                None => None::<(Seq<RecordModel>, int)>,
                Some((rest, e)) => Some((
                    Seq::new(acc@.len(), |k: int| record_model(acc@[k])) + rest,
                    e,
                )),
            }),
        decreases n - i,
    {
        let ghost pre_pos = c.pos as int;
        let rec_opt = read_record(c);
        match rec_opt {
            None => {
                proof {
                    if sp_record(c.data@, pre_pos) is Some {
                        let m = sp_record(c.data@, pre_pos).unwrap().0;
                        assert(!record_model_repr(m));
                        if sp_record_seq(c.data@, pre_pos, (n - i) as u64) is Some {
                            let whole = sp_record_seq(
                                old(c).data@,
                                old(c).pos as int,
                                n,
                            )->Some_0.0;
                            assert(sp_record_seq(c.data@, pre_pos, (n - i) as u64)->Some_0.0[0]
                                == m);
                            assert(in_record_seq(m, whole)) by {
                                let rest = sp_record_seq(
                                    c.data@,
                                    pre_pos,
                                    (n - i) as u64,
                                )->Some_0.0;
                                let prefix = Seq::new(
                                    acc@.len(),
                                    |k: int| record_model(acc@[k]),
                                );
                                assert(whole == prefix + rest);
                                assert(whole[prefix.len() as int] == m);
                            }
                        }
                    }
                }
                return None;
            }
            Some(rec) => {
                let ghost prev = Seq::new(acc@.len(), |k: int| record_model(acc@[k]));
                let ghost rm = record_model(rec);
                acc.push(rec);
                proof {
                    assert(Seq::new(acc@.len(), |k: int| record_model(acc@[k])) =~= prev.push(
                        rm,
                    ));
                    if sp_record_seq(c.data@, c.pos as int, (n - i - 1) as u64) is Some {
                        let rest = sp_record_seq(
                            c.data@,
                            c.pos as int,
                            (n - i - 1) as u64,
                        )->Some_0.0;
                        assert(prev + (seq![rm] + rest) =~= prev.push(rm) + rest);
                    }
                }
                i = i + 1;
            }
        }
    }
    proof {
        assert(sp_record_seq(c.data@, c.pos as int, 0) == Some((
            Seq::<RecordModel>::empty(),
            c.pos as int,
        )));
        assert(Seq::new(acc@.len(), |k: int| record_model(acc@[k])) + Seq::<
            RecordModel,
        >::empty() =~= Seq::new(acc@.len(), |k: int| record_model(acc@[k])));
    }
    Some(acc)
}

/// Whether a record model occurs in a parsed list.
pub open spec fn in_record_seq(m: RecordModel, ms: Seq<RecordModel>) -> bool {
    exists|k: int| 0 <= k < ms.len() && ms[k] == m
}

/// Reads `n` users.
fn read_user_list(c: &mut Cursor, n: u64) -> (r: Option<Vec<SerializableUser>>)
    requires
        old(c).wf(),
    ensures
        final(c).data == old(c).data,
        final(c).wf(),
        match r {
            Some(v) => sp_user_seq(old(c).data@, old(c).pos as int, n) == Some((
                Seq::new(v@.len(), |k: int| su_model(v@[k])),
                final(c).pos as int,
            )),
            None => sp_user_seq(old(c).data@, old(c).pos as int, n) is None,
        },
{
    let mut acc: Vec<SerializableUser> = Vec::new();
    let mut i: u64 = 0;
    while i < n
        invariant
            old(c).wf(),
            c.wf(),
            c.data == old(c).data,
            i <= n,
            acc@.len() == i,
            sp_user_seq(old(c).data@, old(c).pos as int, n) == (match sp_user_seq(
                c.data@,
                c.pos as int,
                (n - i) as u64,
            ) {
                None => None::<(Seq<UserModel>, int)>,
                Some((rest, e)) => Some((
                    Seq::new(acc@.len(), |k: int| su_model(acc@[k])) + rest,
                    e,
                )),
            }),
        decreases n - i,
    {
        let ghost pre_pos = c.pos as int;
        let u_opt = read_user(c);
        match u_opt {
            None => {
                proof {
                    assert(sp_user_seq(c.data@, pre_pos, (n - i) as u64) is None);
                }
                return None;
            }
            Some(u) => {
                let ghost prev = Seq::new(acc@.len(), |k: int| su_model(acc@[k]));
                let ghost um = su_model(u);
                acc.push(u);
                proof {
                    assert(Seq::new(acc@.len(), |k: int| su_model(acc@[k])) =~= prev.push(um));
                    if sp_user_seq(c.data@, c.pos as int, (n - i - 1) as u64) is Some {
                        let rest = sp_user_seq(
                            c.data@,
                            c.pos as int,
                            (n - i - 1) as u64,
                        )->Some_0.0;
                        assert(prev + (seq![um] + rest) =~= prev.push(um) + rest);
                    }
                }
                i = i + 1;
            }
        }
    }
    proof {
        assert(sp_user_seq(c.data@, c.pos as int, 0) == Some((
            Seq::<UserModel>::empty(),
            c.pos as int,
        )));
        assert(Seq::new(acc@.len(), |k: int| su_model(acc@[k])) + Seq::<UserModel>::empty()
            =~= Seq::new(acc@.len(), |k: int| su_model(acc@[k])));
    }
    Some(acc)
}

/// Whether four bytes are the snapshot magic.
fn snapshot_magic_matches(m: &Vec<u8>) -> (r: bool)
    ensures
        r == (m@ == snapshot_magic()),
{
    if m.len() != 4 {
        proof {
            assert(m@ != snapshot_magic());
        }
        return false;
    }
    let r = m[0] == 0x55 && m[1] == 0x4B && m[2] == 0x57 && m[3] == 0x4C;
    proof {
        if r {
            assert(m@ =~= snapshot_magic());
        } else {
            assert(m@ != snapshot_magic());
        }
    }
    r
}

/// Round trip: a snapshot image written from a body reads back as that
/// body, passing the magic, version and checksum checks.
pub proof fn lemma_snapshot_round_trip(m: BodyModel, created: u64, modified: u64)
    requires
        body_model_encodable(m),
        body_model_repr(m),
        enc_body(m).len() + 168 <= u64::MAX,
        sha256_hex(enc_body(m)).len() == 64,
    ensures
        ({
            let b = spec_snapshot_bytes(m, created, modified);
            &&& b.len() >= 128
            &&& sp_header(b).magic == snapshot_magic()
            &&& sp_header(b).version_major == 1
            &&& snap_offsets_ok(b)
            &&& snap_checksum_ok(b)
            &&& snap_body_parse(b) == Some(m)
        }),
{
    vstd::bytes::lemma_auto_spec_u64_to_from_le_bytes();
    let body = enc_body(m);
    let header = HeaderModel {
        magic: snapshot_magic(),
        version_major: 1,
        version_minor: 0,
        record_count: m.records.len() as u64,
        created_timestamp: created,
        last_modified: modified,
        body_offset: 128,
        footer_offset: (128 + body.len()) as u64,
        checksum: sha256_raw(body),
    };
    lemma_hex_pair_bytes_len(sha256_hex(body));
    assert(sha256_raw(body).len() == 32);
    let hb = enc_header(header);
    assert(hb.len() == 128);
    let b = spec_snapshot_bytes(m, created, modified);
    assert(b.len() >= 128 + body.len());
    assert(b.subrange(0, 128) =~= hb);
    lemma_sp_header_enc(b, header);
    assert(snap_offsets_ok(b));
    assert(snap_body_bytes(b) =~= body);
    assert(snap_checksum_ok(b));
    assert(body.subrange(0, enc_body(m).len() as int) =~= body);
    lemma_sp_body_enc(body, 0, m);
    assert(sp_body(snap_body_bytes(b), 0) == Some((m, body.len() as int)));
    assert(snap_body_parse(b) == Some(m));
}

} // verus!
