//! The snapshot file layout: a fixed 128-byte header region, a body
//! holding the serialized records and users, and a footer with an
//! integrity hash over header and body.

use crate::codec::{enc_u64, push_u64, push_u8, sp_u64};
use crate::crypto::now_secs;
use crate::persistence::{
    enc_record_model, enc_user_model, lemma_sp_record_enc, lemma_sp_user_enc,
    record_model_encodable, record_model_repr, sp_record, sp_user, user_model_encodable,
    RecordModel, UserModel,
};
use crate::record::Record;
use vstd::bytes::spec_u64_from_le_bytes;
use vstd::prelude::*;

verus! {

/// The snapshot magic, the ASCII bytes of UKWL.
pub open spec fn snapshot_magic() -> Seq<u8> {
    seq![0x55u8, 0x4Bu8, 0x57u8, 0x4Cu8]
}

pub const MAGIC_NUMBER: [u8; 4] = [0x55, 0x4B, 0x57, 0x4C];

pub const HEADER_SIZE: usize = 128;

pub const VERSION_MAJOR: u8 = 1;

pub const VERSION_MINOR: u8 = 0;

/// The specification-level contents of a snapshot header.
#[verifier::ext_equal]
pub ghost struct HeaderModel {
    pub magic: Seq<u8>,
    pub version_major: u8,
    pub version_minor: u8,
    pub record_count: u64,
    pub created_timestamp: u64,
    pub last_modified: u64,
    pub body_offset: u64,
    pub footer_offset: u64,
    pub checksum: Seq<u8>,
}

/// The 128-byte header region: the fields at fixed offsets, then the
/// 40 reserved bytes and 10 bytes of padding, all zero.
pub open spec fn enc_header(h: HeaderModel) -> Seq<u8> {
    h.magic + seq![h.version_major] + seq![h.version_minor] + enc_u64(h.record_count) + enc_u64(
        h.created_timestamp,
    ) + enc_u64(h.last_modified) + enc_u64(h.body_offset) + enc_u64(h.footer_offset) + h.checksum
        + Seq::new(50, |i: int| 0u8)
}

/// The header fields read back from the first 128 bytes.
pub open spec fn sp_header(b: Seq<u8>) -> HeaderModel
    recommends
        b.len() >= 128,
{
    HeaderModel {
        magic: b.subrange(0, 4),
        version_major: b[4],
        version_minor: b[5],
        record_count: spec_u64_from_le_bytes(b.subrange(6, 14)),
        created_timestamp: spec_u64_from_le_bytes(b.subrange(14, 22)),
        last_modified: spec_u64_from_le_bytes(b.subrange(22, 30)),
        body_offset: spec_u64_from_le_bytes(b.subrange(30, 38)),
        footer_offset: spec_u64_from_le_bytes(b.subrange(38, 46)),
        checksum: b.subrange(46, 78),
    }
}

pub proof fn lemma_sp_header_enc(b: Seq<u8>, h: HeaderModel)
    requires
        h.magic.len() == 4,
        h.checksum.len() == 32,
        b.len() >= 128,
        b.subrange(0, 128) == enc_header(h),
    ensures
        sp_header(b) == h,
{
    vstd::bytes::lemma_auto_spec_u64_to_from_le_bytes();
    let e = enc_header(h);
    assert(e.len() == 128);
    assert forall|i: int| 0 <= i < 128 implies b[i] == e[i] by {
        assert(b.subrange(0, 128)[i] == b[i]);
    }
    assert(b.subrange(0, 4) =~= h.magic);
    assert(b[4] == e[4]);
    assert(e[4] == h.version_major);
    assert(b[5] == e[5]);
    assert(e[5] == h.version_minor);
    assert(b.subrange(6, 14) =~= enc_u64(h.record_count));
    assert(b.subrange(14, 22) =~= enc_u64(h.created_timestamp));
    assert(b.subrange(22, 30) =~= enc_u64(h.last_modified));
    assert(b.subrange(30, 38) =~= enc_u64(h.body_offset));
    assert(b.subrange(38, 46) =~= enc_u64(h.footer_offset));
    assert(b.subrange(46, 78) =~= h.checksum);
    assert(sp_header(b) =~= h);
}

/// One snapshot header, with its zeroed reserved area.
#[derive(Debug)]
pub struct DatabaseHeader {
    pub magic: Vec<u8>,
    pub version_major: u8,
    pub version_minor: u8,
    pub record_count: u64,
    pub created_timestamp: u64,
    pub last_modified: u64,
    pub body_offset: u64,
    pub footer_offset: u64,
    pub checksum: Vec<u8>,
    pub reserved: Vec<u8>,
}

impl DatabaseHeader {
    pub open spec fn wf(&self) -> bool {
        &&& self.magic@ == snapshot_magic()
        &&& self.checksum@.len() == 32
        &&& self.reserved@.len() == 40
    }

    pub open spec fn model(&self) -> HeaderModel {
        HeaderModel {
            magic: self.magic@,
            version_major: self.version_major,
            version_minor: self.version_minor,
            record_count: self.record_count,
            created_timestamp: self.created_timestamp,
            last_modified: self.last_modified,
            body_offset: self.body_offset,
            footer_offset: self.footer_offset,
            checksum: self.checksum@,
        }
    }

    /// A fresh header for the current version, timestamped now, with a
    /// zeroed checksum to be filled in by the writer.
    pub fn new(record_count: u64, body_offset: u64, footer_offset: u64) -> (h: DatabaseHeader)
        ensures
            h.wf(),
            h.magic@ == snapshot_magic(),
            h.version_major == 1,
            h.version_minor == 0,
            h.record_count == record_count,
            h.body_offset == body_offset,
            h.footer_offset == footer_offset,
            h.reserved@ =~= Seq::new(40, |i: int| 0u8),
            h.checksum@ =~= Seq::new(32, |i: int| 0u8),
    {
        let mut magic: Vec<u8> = Vec::new();
        magic.push(0x55);
        magic.push(0x4B);
        magic.push(0x57);
        magic.push(0x4C);
        proof {
            assert(magic@ =~= snapshot_magic());
        }
        let now = now_secs();
        let checksum = zero_bytes(32);
        let reserved = zero_bytes(40);
        DatabaseHeader {
            magic,
            version_major: VERSION_MAJOR,
            version_minor: VERSION_MINOR,
            record_count,
            created_timestamp: now,
            last_modified: now,
            body_offset,
            footer_offset,
            checksum,
            reserved,
        }
    }

    /// The 128-byte wire form of the header region.
    pub fn region_bytes(&self) -> (v: Vec<u8>)
        requires
            self.wf(),
        ensures
            v@ == enc_header(self.model()),
            v@.len() == 128,
    {
        let mut v: Vec<u8> = Vec::new();
        v.extend_from_slice(self.magic.as_slice());
        push_u8(&mut v, self.version_major);
        push_u8(&mut v, self.version_minor);
        push_u64(&mut v, self.record_count);
        push_u64(&mut v, self.created_timestamp);
        push_u64(&mut v, self.last_modified);
        push_u64(&mut v, self.body_offset);
        push_u64(&mut v, self.footer_offset);
        v.extend_from_slice(self.checksum.as_slice());
        let mut pad = zero_bytes(50);
        v.append(&mut pad);
        proof {
            vstd::bytes::lemma_auto_spec_u64_to_from_le_bytes();
            assert(v@ =~= enc_header(self.model()));
        }
        v
    }
}

/// The snapshot footer: the integrity hash over header and body, and
/// the total file size.
#[derive(Debug)]
pub struct DatabaseFooter {
    pub integrity_hash: Vec<u8>,
    pub total_file_size: u64,
}

/// The footer's wire form.
pub open spec fn enc_footer(integrity: Seq<u8>, total: u64) -> Seq<u8> {
    integrity + enc_u64(total)
}

/// The deserialized snapshot body: the records and the stored users.
#[derive(Debug)]
pub struct DatabaseBody {
    pub records: Vec<Record>,
    pub users: Vec<crate::persistence::SerializableUser>,
}

/// The specification-level contents of a snapshot body.
#[verifier::ext_equal]
pub ghost struct BodyModel {
    pub records: Seq<RecordModel>,
    pub users: Seq<UserModel>,
}

pub open spec fn body_model_encodable(m: BodyModel) -> bool {
    &&& m.records.len() <= u64::MAX
    &&& forall|i: int| 0 <= i < m.records.len() ==> record_model_encodable(#[trigger] m.records[i])
    &&& m.users.len() <= u64::MAX
    &&& forall|i: int| 0 <= i < m.users.len() ==> user_model_encodable(#[trigger] m.users[i])
}

pub open spec fn body_model_repr(m: BodyModel) -> bool {
    forall|i: int| 0 <= i < m.records.len() ==> record_model_repr(#[trigger] m.records[i])
}

/// The encoding of a list of records, in order.
pub open spec fn enc_record_seq(ms: Seq<RecordModel>) -> Seq<u8>
    decreases ms.len(),
{
    if ms.len() == 0 {
        Seq::empty()
    } else {
        enc_record_model(ms[0]) + enc_record_seq(ms.drop_first())
    }
}

/// The encoding of a list of users, in order.
pub open spec fn enc_user_seq(ms: Seq<UserModel>) -> Seq<u8>
    decreases ms.len(),
{
    if ms.len() == 0 {
        Seq::empty()
    } else {
        enc_user_model(ms[0]) + enc_user_seq(ms.drop_first())
    }
}

/// The encoding of a snapshot body.
pub open spec fn enc_body(m: BodyModel) -> Seq<u8> {
    enc_u64(m.records.len() as u64) + enc_record_seq(m.records) + enc_u64(m.users.len() as u64)
        + enc_user_seq(m.users)
}

pub proof fn lemma_enc_record_seq_push(ms: Seq<RecordModel>, x: RecordModel)
    ensures
        enc_record_seq(ms.push(x)) == enc_record_seq(ms) + enc_record_model(x),
    decreases ms.len(),
{
    if ms.len() == 0 {
        assert(ms.push(x)[0] == x);
        assert(ms.push(x).drop_first() =~= ms);
        assert(enc_record_seq(ms.push(x)) =~= enc_record_seq(ms) + enc_record_model(x));
    } else {
        assert(ms.push(x)[0] == ms[0]);
        assert(ms.push(x).drop_first() =~= ms.drop_first().push(x));
        lemma_enc_record_seq_push(ms.drop_first(), x);
        assert(enc_record_seq(ms.push(x)) =~= enc_record_seq(ms) + enc_record_model(x));
    }
}

pub proof fn lemma_enc_user_seq_push(ms: Seq<UserModel>, x: UserModel)
    ensures
        enc_user_seq(ms.push(x)) == enc_user_seq(ms) + enc_user_model(x),
    decreases ms.len(),
{
    if ms.len() == 0 {
        assert(ms.push(x)[0] == x);
        assert(ms.push(x).drop_first() =~= ms);
        assert(enc_user_seq(ms.push(x)) =~= enc_user_seq(ms) + enc_user_model(x));
    } else {
        assert(ms.push(x)[0] == ms[0]);
        assert(ms.push(x).drop_first() =~= ms.drop_first().push(x));
        lemma_enc_user_seq_push(ms.drop_first(), x);
        assert(enc_user_seq(ms.push(x)) =~= enc_user_seq(ms) + enc_user_model(x));
    }
}

/// Parses `n` records.
pub open spec fn sp_record_seq(b: Seq<u8>, p: int, n: u64) -> Option<(Seq<RecordModel>, int)>
    decreases n,
{
    if n == 0 {
        Some((Seq::empty(), p))
    } else {
        match sp_record(b, p) {
            None => None,
            Some((m, q)) => match sp_record_seq(b, q, (n - 1) as u64) {
                None => None,
                Some((rest, e)) => Some((seq![m] + rest, e)),
            },
        }
    }
}

/// Parses `n` users.
pub open spec fn sp_user_seq(b: Seq<u8>, p: int, n: u64) -> Option<(Seq<UserModel>, int)>
    decreases n,
{
    if n == 0 {
        Some((Seq::empty(), p))
    } else {
        match sp_user(b, p) {
            None => None,
            Some((m, q)) => match sp_user_seq(b, q, (n - 1) as u64) {
                None => None,
                Some((rest, e)) => Some((seq![m] + rest, e)),
            },
        }
    }
}

/// Parses a snapshot body.
pub open spec fn sp_body(b: Seq<u8>, p: int) -> Option<(BodyModel, int)> {
    match sp_u64(b, p) {
        None => None,
        Some((n_rec, p1)) => match sp_record_seq(b, p1, n_rec) {
            None => None,
            Some((records, p2)) => match sp_u64(b, p2) {
                None => None,
                Some((n_users, p3)) => match sp_user_seq(b, p3, n_users) {
                    None => None,
                    Some((users, p4)) => Some((BodyModel { records, users }, p4)),
                },
            },
        },
    }
}

pub proof fn lemma_sp_record_seq_enc(b: Seq<u8>, p: int, ms: Seq<RecordModel>)
    requires
        0 <= p,
        ms.len() <= u64::MAX,
        forall|i: int| 0 <= i < ms.len() ==> record_model_encodable(#[trigger] ms[i]),
        p + enc_record_seq(ms).len() <= b.len(),
        b.subrange(p, p + enc_record_seq(ms).len()) == enc_record_seq(ms),
    ensures
        sp_record_seq(b, p, ms.len() as u64) == Some((ms, p + enc_record_seq(ms).len())),
    decreases ms.len(),
{
    if ms.len() == 0 {
    } else {
        let head = enc_record_model(ms[0]);
        let tail = enc_record_seq(ms.drop_first());
        assert(enc_record_seq(ms) == head + tail);
        assert(b.subrange(p, p + head.len() as int) =~= head) by {
            assert(enc_record_seq(ms).subrange(0, head.len() as int) =~= head);
        }
        lemma_sp_record_enc(b, p, ms[0]);
        let q = p + head.len();
        assert(b.subrange(q, q + tail.len() as int) =~= tail) by {
            assert(enc_record_seq(ms).subrange(head.len() as int, enc_record_seq(ms).len() as int)
                =~= tail);
        }
        lemma_sp_record_seq_enc(b, q, ms.drop_first());
        assert(seq![ms[0]] + ms.drop_first() =~= ms);
    }
}

pub proof fn lemma_sp_user_seq_enc(b: Seq<u8>, p: int, ms: Seq<UserModel>)
    requires
        0 <= p,
        ms.len() <= u64::MAX,
        forall|i: int| 0 <= i < ms.len() ==> user_model_encodable(#[trigger] ms[i]),
        p + enc_user_seq(ms).len() <= b.len(),
        b.subrange(p, p + enc_user_seq(ms).len()) == enc_user_seq(ms),
    ensures
        sp_user_seq(b, p, ms.len() as u64) == Some((ms, p + enc_user_seq(ms).len())),
    decreases ms.len(),
{
    if ms.len() == 0 {
    } else {
        let head = enc_user_model(ms[0]);
        let tail = enc_user_seq(ms.drop_first());
        assert(enc_user_seq(ms) == head + tail);
        assert(b.subrange(p, p + head.len() as int) =~= head) by {
            assert(enc_user_seq(ms).subrange(0, head.len() as int) =~= head);
        }
        lemma_sp_user_enc(b, p, ms[0]);
        let q = p + head.len();
        assert(b.subrange(q, q + tail.len() as int) =~= tail) by {
            assert(enc_user_seq(ms).subrange(head.len() as int, enc_user_seq(ms).len() as int)
                =~= tail);
        }
        lemma_sp_user_seq_enc(b, q, ms.drop_first());
        assert(seq![ms[0]] + ms.drop_first() =~= ms);
    }
}

pub proof fn lemma_sp_body_enc(b: Seq<u8>, p: int, m: BodyModel)
    requires
        0 <= p,
        body_model_encodable(m),
        p + enc_body(m).len() <= b.len(),
        b.subrange(p, p + enc_body(m).len()) == enc_body(m),
    ensures
        sp_body(b, p) == Some((m, p + enc_body(m).len())),
{
    vstd::bytes::lemma_auto_spec_u64_to_from_le_bytes();
    let e1 = enc_u64(m.records.len() as u64);
    let e2 = enc_record_seq(m.records);
    let e3 = enc_u64(m.users.len() as u64);
    let e4 = enc_user_seq(m.users);
    let r4 = e4;
    let r3 = e3 + r4;
    let r2 = e2 + r3;
    assert(enc_body(m) =~= e1 + r2);
    crate::persistence::lemma_split_front(b, p, e1, r2);
    crate::codec::lemma_sp_u64_enc(b, p, m.records.len() as u64);
    let p1 = p + e1.len();
    assert(r2 =~= e2 + r3);
    crate::persistence::lemma_split_front(b, p1, e2, r3);
    lemma_sp_record_seq_enc(b, p1, m.records);
    let p2 = p1 + e2.len();
    assert(r3 =~= e3 + r4);
    crate::persistence::lemma_split_front(b, p2, e3, r4);
    crate::codec::lemma_sp_u64_enc(b, p2, m.users.len() as u64);
    let p3 = p2 + e3.len();
    lemma_sp_user_seq_enc(b, p3, m.users);
    let p4 = p3 + e4.len();
    assert(p4 == p + enc_body(m).len());
    let parsed = sp_body(b, p).unwrap().0;
    assert(parsed =~= m);
}

/// A vector of `n` zero bytes.
pub fn zero_bytes(n: usize) -> (v: Vec<u8>)
    ensures
        v@ =~= Seq::new(n as nat, |i: int| 0u8),
{
    let mut v: Vec<u8> = Vec::new();
    let mut i: usize = 0;
    while i < n
        invariant
            i <= n,
            v@ =~= Seq::new(i as nat, |k: int| 0u8),
        decreases n - i,
    {
        v.push(0);
        proof {
            assert(v@ =~= Seq::new((i + 1) as nat, |k: int| 0u8));
        }
        i = i + 1;
    }
    v
}

} // verus!
