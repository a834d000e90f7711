//! Serialization of records and users: the byte layout shared by the
//! snapshot body and the write-ahead log, its parser, and the proof that
//! parsing inverts encoding.

use crate::codec::{
    enc_bytes, enc_str, enc_u64, lemma_sp_bytes_enc, lemma_sp_str_enc, lemma_sp_u64_enc,
    push_bytes, push_str, push_u64, sp_bytes, sp_str, sp_u64, Cursor,
};
use crate::record::Record;
use crate::user::User;
use vstd::prelude::*;
use vstd::utf8::encode_utf8;

verus! {

/// The specification-level contents of a stored record.
#[verifier::ext_equal]
pub ghost struct RecordModel {
    pub index: u64,
    pub payload: Seq<char>,
    pub payload_hash: Seq<char>,
    pub signer_ids: Seq<Seq<char>>,
    pub signatures: Seq<(Seq<char>, Seq<u8>)>,
    pub prev_hash: Seq<char>,
    pub record_hash: Seq<char>,
    pub timestamp: u64,
    pub nonce: u64,
}

/// The specification-level contents of a stored user: the verifying key
/// only, never the signing key.
#[verifier::ext_equal]
pub ghost struct UserModel {
    pub user_id: Seq<char>,
    pub verifying_key: Seq<u8>,
    pub roles: Seq<Seq<char>>,
}

/// The stored view of a record.
pub open spec fn record_model(r: Record) -> RecordModel {
    RecordModel {
        index: r.index as u64,
        payload: r.payload@,
        payload_hash: r.payload_hash@,
        signer_ids: r.signer_ids.deep_view(),
        signatures: Seq::new(r.signatures@.len(), |i: int| (r.signatures@[i].0@, r.signatures@[i].1@)),
        prev_hash: r.prev_hash@,
        record_hash: r.record_hash@,
        timestamp: r.timestamp,
        nonce: r.nonce,
    }
}

/// The stored view of a user.
pub open spec fn user_model(u: User) -> UserModel {
    UserModel { user_id: u.user_id@, verifying_key: u.verifying_key@, roles: u.roles.deep_view() }
}

/// A string whose UTF-8 encoding fits a 64-bit length field.
pub open spec fn str_ok(s: Seq<char>) -> bool {
    encode_utf8(s).len() <= u64::MAX
}

pub open spec fn record_model_encodable(m: RecordModel) -> bool {
    &&& str_ok(m.payload)
    &&& str_ok(m.payload_hash)
    &&& str_ok(m.prev_hash)
    &&& str_ok(m.record_hash)
    &&& m.signer_ids.len() <= u64::MAX
    &&& forall|i: int| 0 <= i < m.signer_ids.len() ==> str_ok(#[trigger] m.signer_ids[i])
    &&& m.signatures.len() <= u64::MAX
    &&& forall|i: int|
        0 <= i < m.signatures.len() ==> str_ok((#[trigger] m.signatures[i]).0)
            && m.signatures[i].1.len() <= u64::MAX
}

pub open spec fn user_model_encodable(m: UserModel) -> bool {
    &&& str_ok(m.user_id)
    &&& m.verifying_key.len() <= u64::MAX
    &&& m.roles.len() <= u64::MAX
    &&& forall|i: int| 0 <= i < m.roles.len() ==> str_ok(#[trigger] m.roles[i])
}

/// The encoding of a list of strings, in order.
pub open spec fn enc_str_seq(ss: Seq<Seq<char>>) -> Seq<u8>
    decreases ss.len(),
{
    if ss.len() == 0 {
        Seq::empty()
    } else {
        enc_str(ss[0]) + enc_str_seq(ss.drop_first())
    }
}

/// The encoding of one (id, bytes) signature pair.
pub open spec fn enc_sig(sig: (Seq<char>, Seq<u8>)) -> Seq<u8> {
    enc_str(sig.0) + enc_bytes(sig.1)
}

/// The encoding of a list of signature pairs, in order.
pub open spec fn enc_sig_seq(sigs: Seq<(Seq<char>, Seq<u8>)>) -> Seq<u8>
    decreases sigs.len(),
{
    if sigs.len() == 0 {
        Seq::empty()
    } else {
        enc_sig(sigs[0]) + enc_sig_seq(sigs.drop_first())
    }
}

/// The encoding of a stored record.
pub open spec fn enc_record_model(m: RecordModel) -> Seq<u8> {
    enc_u64(m.index) + enc_str(m.payload) + enc_str(m.payload_hash) + enc_u64(
        m.signer_ids.len() as u64,
    ) + enc_str_seq(m.signer_ids) + enc_u64(m.signatures.len() as u64) + enc_sig_seq(m.signatures)
        + enc_str(m.prev_hash) + enc_str(m.record_hash) + enc_u64(m.timestamp) + enc_u64(m.nonce)
}

/// The encoding of a stored user.
pub open spec fn enc_user_model(m: UserModel) -> Seq<u8> {
    enc_str(m.user_id) + enc_bytes(m.verifying_key) + enc_u64(m.roles.len() as u64) + enc_str_seq(
        m.roles,
    )
}

pub proof fn lemma_enc_str_seq_push(ss: Seq<Seq<char>>, x: Seq<char>)
    ensures
        enc_str_seq(ss.push(x)) == enc_str_seq(ss) + enc_str(x),
    decreases ss.len(),
{
    if ss.len() == 0 {
        assert(ss.push(x)[0] == x);
        assert(ss.push(x).drop_first() =~= ss);
        assert(enc_str_seq(ss.push(x)) =~= enc_str_seq(ss) + enc_str(x));
    } else {
        assert(ss.push(x)[0] == ss[0]);
        assert(ss.push(x).drop_first() =~= ss.drop_first().push(x));
        lemma_enc_str_seq_push(ss.drop_first(), x);
        assert(enc_str_seq(ss.push(x)) =~= enc_str_seq(ss) + enc_str(x));
    }
}

pub proof fn lemma_enc_sig_seq_push(sigs: Seq<(Seq<char>, Seq<u8>)>, x: (Seq<char>, Seq<u8>))
    ensures
        enc_sig_seq(sigs.push(x)) == enc_sig_seq(sigs) + enc_sig(x),
    decreases sigs.len(),
{
    if sigs.len() == 0 {
        assert(sigs.push(x)[0] == x);
        assert(sigs.push(x).drop_first() =~= sigs);
        assert(enc_sig_seq(sigs.push(x)) =~= enc_sig_seq(sigs) + enc_sig(x));
    } else {
        assert(sigs.push(x)[0] == sigs[0]);
        assert(sigs.push(x).drop_first() =~= sigs.drop_first().push(x));
        lemma_enc_sig_seq_push(sigs.drop_first(), x);
        assert(enc_sig_seq(sigs.push(x)) =~= enc_sig_seq(sigs) + enc_sig(x));
    }
}

/// Parses `n` strings.
pub open spec fn sp_str_seq(b: Seq<u8>, p: int, n: u64) -> Option<(Seq<Seq<char>>, int)>
    decreases n,
{
    if n == 0 {
        Some((Seq::empty(), p))
    } else {
        match sp_str(b, p) {
            None => None,
            Some((s, q)) => match sp_str_seq(b, q, (n - 1) as u64) {
                None => None,
                Some((rest, e)) => Some((seq![s] + rest, e)),
            },
        }
    }
}

/// Parses one signature pair.
pub open spec fn sp_sig(b: Seq<u8>, p: int) -> Option<((Seq<char>, Seq<u8>), int)> {
    match sp_str(b, p) {
        None => None,
        Some((id, q)) => match sp_bytes(b, q) {
            None => None,
            Some((data, e)) => Some(((id, data), e)),
        },
    }
}

/// Parses `n` signature pairs.
pub open spec fn sp_sig_seq(b: Seq<u8>, p: int, n: u64) -> Option<(Seq<(Seq<char>, Seq<u8>)>, int)>
    decreases n,
{
    if n == 0 {
        Some((Seq::empty(), p))
    } else {
        match sp_sig(b, p) {
            None => None,
            Some((sig, q)) => match sp_sig_seq(b, q, (n - 1) as u64) {
                None => None,
                Some((rest, e)) => Some((seq![sig] + rest, e)),
            },
        }
    }
}

/// Parses a stored record.
pub open spec fn sp_record(b: Seq<u8>, p: int) -> Option<(RecordModel, int)> {
    match sp_u64(b, p) {
        None => None,
        Some((index, p1)) => match sp_str(b, p1) {
            None => None,
            Some((payload, p2)) => match sp_str(b, p2) {
                None => None,
                Some((payload_hash, p3)) => match sp_u64(b, p3) {
                    None => None,
                    Some((n_ids, p4)) => match sp_str_seq(b, p4, n_ids) {
                        None => None,
                        Some((signer_ids, p5)) => match sp_u64(b, p5) {
                            None => None,
                            Some((n_sigs, p6)) => match sp_sig_seq(b, p6, n_sigs) {
                                None => None,
                                Some((signatures, p7)) => match sp_str(b, p7) {
                                    None => None,
                                    Some((prev_hash, p8)) => match sp_str(b, p8) {
                                        None => None,
                                        Some((record_hash, p9)) => match sp_u64(b, p9) {
                                            None => None,
                                            Some((timestamp, p10)) => match sp_u64(b, p10) {
                                                None => None,
                                                Some((nonce, p11)) => Some(
                                                    (
                                                        RecordModel {
                                                            index,
                                                            payload,
                                                            payload_hash,
                                                            signer_ids,
                                                            signatures,
                                                            prev_hash,
                                                            record_hash,
                                                            timestamp,
                                                            nonce,
                                                        },
                                                        p11,
                                                    ),
                                                ),
                                            },
                                        },
                                    },
                                },
                            },
                        },
                    },
                },
            },
        },
    }
}

/// Parses a stored user.
pub open spec fn sp_user(b: Seq<u8>, p: int) -> Option<(UserModel, int)> {
    match sp_str(b, p) {
        None => None,
        Some((user_id, p1)) => match sp_bytes(b, p1) {
            None => None,
            Some((verifying_key, p2)) => match sp_u64(b, p2) {
                None => None,
                Some((n_roles, p3)) => match sp_str_seq(b, p3, n_roles) {
                    None => None,
                    Some((roles, p4)) => Some(
                        (UserModel { user_id, verifying_key, roles }, p4),
                    ),
                },
            },
        },
    }
}

pub proof fn lemma_sp_str_seq_enc(b: Seq<u8>, p: int, ss: Seq<Seq<char>>)
    requires
        0 <= p,
        ss.len() <= u64::MAX,
        forall|i: int| 0 <= i < ss.len() ==> str_ok(#[trigger] ss[i]),
        p + enc_str_seq(ss).len() <= b.len(),
        b.subrange(p, p + enc_str_seq(ss).len()) == enc_str_seq(ss),
    ensures
        sp_str_seq(b, p, ss.len() as u64) == Some((ss, p + enc_str_seq(ss).len())),
    decreases ss.len(),
{
    vstd::bytes::lemma_auto_spec_u64_to_from_le_bytes();
    if ss.len() == 0 {
    } else {
        let head = enc_str(ss[0]);
        let tail = enc_str_seq(ss.drop_first());
        assert(enc_str_seq(ss) == head + tail);
        assert(b.subrange(p, p + head.len() as int) =~= head) by {
            assert(enc_str_seq(ss).subrange(0, head.len() as int) =~= head);
        }
        lemma_sp_str_enc(b, p, ss[0]);
        let q = p + head.len();
        assert(b.subrange(q, q + tail.len() as int) =~= tail) by {
            assert(enc_str_seq(ss).subrange(head.len() as int, enc_str_seq(ss).len() as int)
                =~= tail);
        }
        assert(forall|i: int|
            0 <= i < ss.drop_first().len() ==> str_ok(#[trigger] ss.drop_first()[i]));
        lemma_sp_str_seq_enc(b, q, ss.drop_first());
        assert(seq![ss[0]] + ss.drop_first() =~= ss);
    }
}

pub proof fn lemma_sp_sig_seq_enc(b: Seq<u8>, p: int, sigs: Seq<(Seq<char>, Seq<u8>)>)
    requires
        0 <= p,
        sigs.len() <= u64::MAX,
        forall|i: int|
            0 <= i < sigs.len() ==> str_ok((#[trigger] sigs[i]).0) && sigs[i].1.len()
                <= u64::MAX,
        p + enc_sig_seq(sigs).len() <= b.len(),
        b.subrange(p, p + enc_sig_seq(sigs).len()) == enc_sig_seq(sigs),
    ensures
        sp_sig_seq(b, p, sigs.len() as u64) == Some((sigs, p + enc_sig_seq(sigs).len())),
    decreases sigs.len(),
{
    vstd::bytes::lemma_auto_spec_u64_to_from_le_bytes();
    if sigs.len() == 0 {
    } else {
        let head = enc_sig(sigs[0]);
        let tail = enc_sig_seq(sigs.drop_first());
        assert(enc_sig_seq(sigs) == head + tail);
        assert(b.subrange(p, p + head.len() as int) =~= head) by {
            assert(enc_sig_seq(sigs).subrange(0, head.len() as int) =~= head);
        }
        let id_part = enc_str(sigs[0].0);
        let data_part = enc_bytes(sigs[0].1);
        assert(head == id_part + data_part);
        assert(b.subrange(p, p + id_part.len() as int) =~= id_part) by {
            assert(head.subrange(0, id_part.len() as int) =~= id_part);
        }
        lemma_sp_str_enc(b, p, sigs[0].0);
        let mid = p + id_part.len();
        assert(b.subrange(mid, mid + data_part.len() as int) =~= data_part) by {
            assert(head.subrange(id_part.len() as int, head.len() as int) =~= data_part);
        }
        lemma_sp_bytes_enc(b, mid, sigs[0].1);
        let q = p + head.len();
        assert((sigs[0].0, sigs[0].1) =~= sigs[0]);
        assert(sp_sig(b, p) == Some((sigs[0], q)));
        assert(b.subrange(q, q + tail.len() as int) =~= tail) by {
            assert(enc_sig_seq(sigs).subrange(head.len() as int, enc_sig_seq(sigs).len() as int)
                =~= tail);
        }
        lemma_sp_sig_seq_enc(b, q, sigs.drop_first());
        assert(seq![sigs[0]] + sigs.drop_first() =~= sigs);
    }
}

/// Splitting a known concatenation at its seam.
pub proof fn lemma_split_front(b: Seq<u8>, p: int, x: Seq<u8>, y: Seq<u8>)
    requires
        0 <= p,
        p + x.len() + y.len() <= b.len(),
        b.subrange(p, p + x.len() + y.len()) == x + y,
    ensures
        b.subrange(p, p + x.len()) == x,
        b.subrange(p + x.len(), p + x.len() + y.len()) == y,
{
    let total = x.len() + y.len();
    let w = b.subrange(p, p + total);
    assert(b.subrange(p, p + x.len() as int) =~= w.subrange(0, x.len() as int));
    assert(w.subrange(0, x.len() as int) =~= x);
    assert(b.subrange(p + x.len(), p + total) =~= w.subrange(x.len() as int, total as int));
    assert(w.subrange(x.len() as int, total as int) =~= y);
}

#[verifier::rlimit(60)]
pub proof fn lemma_sp_record_enc(b: Seq<u8>, p: int, m: RecordModel)
    requires
        0 <= p,
        record_model_encodable(m),
        p + enc_record_model(m).len() <= b.len(),
        b.subrange(p, p + enc_record_model(m).len()) == enc_record_model(m),
    ensures
        sp_record(b, p) == Some((m, p + enc_record_model(m).len())),
{
    vstd::bytes::lemma_auto_spec_u64_to_from_le_bytes();
    let e1 = enc_u64(m.index);
    let e2 = enc_str(m.payload);
    let e3 = enc_str(m.payload_hash);
    let e4 = enc_u64(m.signer_ids.len() as u64);
    let e5 = enc_str_seq(m.signer_ids);
    let e6 = enc_u64(m.signatures.len() as u64);
    let e7 = enc_sig_seq(m.signatures);
    let e8 = enc_str(m.prev_hash);
    let e9 = enc_str(m.record_hash);
    let e10 = enc_u64(m.timestamp);
    let e11 = enc_u64(m.nonce);
    let r11 = e11;
    let r10 = e10 + r11;
    let r9 = e9 + r10;
    let r8 = e8 + r9;
    let r7 = e7 + r8;
    let r6 = e6 + r7;
    let r5 = e5 + r6;
    let r4 = e4 + r5;
    let r3 = e3 + r4;
    let r2 = e2 + r3;
    assert(enc_record_model(m) =~= e1 + r2);

    lemma_split_front(b, p, e1, r2);
    lemma_sp_u64_enc(b, p, m.index);
    let p1 = p + e1.len();
    assert(r2 =~= e2 + r3);
    lemma_split_front(b, p1, e2, r3);
    lemma_sp_str_enc(b, p1, m.payload);
    let p2 = p1 + e2.len();
    assert(r3 =~= e3 + r4);
    lemma_split_front(b, p2, e3, r4);
    lemma_sp_str_enc(b, p2, m.payload_hash);
    let p3 = p2 + e3.len();
    assert(r4 =~= e4 + r5);
    lemma_split_front(b, p3, e4, r5);
    lemma_sp_u64_enc(b, p3, m.signer_ids.len() as u64);
    let p4 = p3 + e4.len();
    assert(r5 =~= e5 + r6);
    lemma_split_front(b, p4, e5, r6);
    lemma_sp_str_seq_enc(b, p4, m.signer_ids);
    let p5 = p4 + e5.len();
    assert(r6 =~= e6 + r7);
    lemma_split_front(b, p5, e6, r7);
    lemma_sp_u64_enc(b, p5, m.signatures.len() as u64);
    let p6 = p5 + e6.len();
    assert(r7 =~= e7 + r8);
    lemma_split_front(b, p6, e7, r8);
    lemma_sp_sig_seq_enc(b, p6, m.signatures);
    let p7 = p6 + e7.len();
    assert(r8 =~= e8 + r9);
    lemma_split_front(b, p7, e8, r9);
    lemma_sp_str_enc(b, p7, m.prev_hash);
    let p8 = p7 + e8.len();
    assert(r9 =~= e9 + r10);
    lemma_split_front(b, p8, e9, r10);
    lemma_sp_str_enc(b, p8, m.record_hash);
    let p9 = p8 + e9.len();
    assert(r10 =~= e10 + r11);
    lemma_split_front(b, p9, e10, r11);
    lemma_sp_u64_enc(b, p9, m.timestamp);
    let p10 = p9 + e10.len();
    lemma_sp_u64_enc(b, p10, m.nonce);
    let p11 = p10 + e11.len();
    assert(p11 == p + enc_record_model(m).len());
    let parsed = sp_record(b, p).unwrap().0;
    assert(parsed =~= m);
}

pub proof fn lemma_sp_user_enc(b: Seq<u8>, p: int, m: UserModel)
    requires
        0 <= p,
        user_model_encodable(m),
        p + enc_user_model(m).len() <= b.len(),
        b.subrange(p, p + enc_user_model(m).len()) == enc_user_model(m),
    ensures
        sp_user(b, p) == Some((m, p + enc_user_model(m).len())),
{
    vstd::bytes::lemma_auto_spec_u64_to_from_le_bytes();
    let e1 = enc_str(m.user_id);
    let e2 = enc_bytes(m.verifying_key);
    let e3 = enc_u64(m.roles.len() as u64);
    let e4 = enc_str_seq(m.roles);
    let r4 = e4;
    let r3 = e3 + r4;
    let r2 = e2 + r3;
    assert(enc_user_model(m) =~= e1 + r2);
    lemma_split_front(b, p, e1, r2);
    lemma_sp_str_enc(b, p, m.user_id);
    let p1 = p + e1.len();
    assert(r2 =~= e2 + r3);
    lemma_split_front(b, p1, e2, r3);
    lemma_sp_bytes_enc(b, p1, m.verifying_key);
    let p2 = p1 + e2.len();
    assert(r3 =~= e3 + r4);
    lemma_split_front(b, p2, e3, r4);
    lemma_sp_u64_enc(b, p2, m.roles.len() as u64);
    let p3 = p2 + e3.len();
    lemma_sp_str_seq_enc(b, p3, m.roles);
    let p4 = p3 + e4.len();
    assert(p4 == p + enc_user_model(m).len());
    let parsed = sp_user(b, p).unwrap().0;
    assert(parsed =~= m);
}

/// Appends the encoding of a record.
#[verifier::rlimit(100)]
pub fn push_record(buf: &mut Vec<u8>, r: &Record)
    ensures
        final(buf)@ == old(buf)@ + enc_record_model(record_model(*r)),
        record_model_encodable(record_model(*r)),
{
    let ghost m = record_model(*r);
    push_u64(buf, r.index as u64);
    push_str(buf, r.payload.as_str());
    push_str(buf, r.payload_hash.as_str());
    push_u64(buf, r.signer_ids.len() as u64);
    let ghost before_ids = buf@;
    let n = r.signer_ids.len();
    let mut i: usize = 0;
    proof {
        assert(m.signer_ids.take(0) =~= Seq::<Seq<char>>::empty());
    }
    while i < n
        invariant
            i <= n,
            n == r.signer_ids@.len(),
            m == record_model(*r),
            buf@ == before_ids + enc_str_seq(m.signer_ids.take(i as int)),
            forall|k: int| 0 <= k < i ==> str_ok(#[trigger] m.signer_ids[k]),
        decreases n - i,
    {
        push_str(buf, r.signer_ids[i].as_str());
        proof {
            assert(m.signer_ids.take(i + 1) =~= m.signer_ids.take(i as int).push(
                m.signer_ids[i as int],
            ));
            lemma_enc_str_seq_push(m.signer_ids.take(i as int), m.signer_ids[i as int]);
            assert(buf@ =~= before_ids + enc_str_seq(m.signer_ids.take(i + 1)));
        }
        i = i + 1;
    }
    proof {
        assert(m.signer_ids.take(n as int) =~= m.signer_ids);
    }
    push_u64(buf, r.signatures.len() as u64);
    let ghost before_sigs = buf@;
    let sn = r.signatures.len();
    let mut j: usize = 0;
    proof {
        assert(m.signatures.take(0) =~= Seq::<(Seq<char>, Seq<u8>)>::empty());
    }
    while j < sn
        invariant
            j <= sn,
            sn == r.signatures@.len(),
            m == record_model(*r),
            buf@ == before_sigs + enc_sig_seq(m.signatures.take(j as int)),
            forall|k: int|
                0 <= k < j ==> str_ok((#[trigger] m.signatures[k]).0) && m.signatures[k].1.len()
                    <= u64::MAX,
        decreases sn - j,
    {
        push_str(buf, r.signatures[j].0.as_str());
        push_bytes(buf, r.signatures[j].1.as_slice());
        proof {
            assert(m.signatures[j as int] == (r.signatures@[j as int].0@, r.signatures@[j as int].1@));
            assert(m.signatures.take(j + 1) =~= m.signatures.take(j as int).push(
                m.signatures[j as int],
            ));
            lemma_enc_sig_seq_push(m.signatures.take(j as int), m.signatures[j as int]);
            assert(buf@ =~= before_sigs + enc_sig_seq(m.signatures.take(j + 1)));
        }
        j = j + 1;
    }
    proof {
        assert(m.signatures.take(sn as int) =~= m.signatures);
    }
    push_str(buf, r.prev_hash.as_str());
    push_str(buf, r.record_hash.as_str());
    push_u64(buf, r.timestamp);
    push_u64(buf, r.nonce);
    proof {
        assert(buf@ =~= old(buf)@ + enc_record_model(m));
    }
}

/// Appends the encoding of a user.
pub fn push_user(buf: &mut Vec<u8>, u: &User)
    ensures
        final(buf)@ == old(buf)@ + enc_user_model(user_model(*u)),
        user_model_encodable(user_model(*u)),
{
    let ghost m = user_model(*u);
    push_str(buf, u.user_id.as_str());
    push_bytes(buf, u.verifying_key.as_slice());
    push_u64(buf, u.roles.len() as u64);
    let ghost before_roles = buf@;
    let n = u.roles.len();
    let mut i: usize = 0;
    proof {
        assert(m.roles.take(0) =~= Seq::<Seq<char>>::empty());
    }
    while i < n
        invariant
            i <= n,
            n == u.roles@.len(),
            m == user_model(*u),
            buf@ == before_roles + enc_str_seq(m.roles.take(i as int)),
            forall|k: int| 0 <= k < i ==> str_ok(#[trigger] m.roles[k]),
        decreases n - i,
    {
        push_str(buf, u.roles[i].as_str());
        proof {
            assert(m.roles.take(i + 1) =~= m.roles.take(i as int).push(m.roles[i as int]));
            lemma_enc_str_seq_push(m.roles.take(i as int), m.roles[i as int]);
            assert(buf@ =~= before_roles + enc_str_seq(m.roles.take(i + 1)));
        }
        i = i + 1;
    }
    proof {
        assert(m.roles.take(n as int) =~= m.roles);
        assert(buf@ =~= old(buf)@ + enc_user_model(m));
    }
}

/// Reads `n` length-prefixed strings.
pub fn read_str_list(c: &mut Cursor, n: u64) -> (r: Option<Vec<String>>)
    requires
        old(c).wf(),
    ensures
        final(c).data == old(c).data,
        final(c).wf(),
        match r {
            Some(v) => sp_str_seq(old(c).data@, old(c).pos as int, n) == Some((
                v.deep_view(),
                final(c).pos as int,
            )),
            None => sp_str_seq(old(c).data@, old(c).pos as int, n) is None,
        },
{
    let mut acc: Vec<String> = Vec::new();
    let mut i: u64 = 0;
    while i < n
        invariant
            old(c).wf(),
            c.wf(),
            c.data == old(c).data,
            i <= n,
            acc.deep_view().len() == i,
            sp_str_seq(old(c).data@, old(c).pos as int, n) == (match sp_str_seq(
                c.data@,
                c.pos as int,
                (n - i) as u64,
            ) {
                None => None::<(Seq<Seq<char>>, int)>,
                Some((rest, e)) => Some((acc.deep_view() + rest, e)),
            }),
        decreases n - i,
    {
        let ghost pre_pos = c.pos as int;
        let s_opt = c.read_string();
        match s_opt {
            None => {
                proof {
                    assert(sp_str_seq(c.data@, pre_pos, (n - i) as u64) is None);
                }
                return None;
            }
            Some(s) => {
                let ghost prev_acc = acc.deep_view();
                acc.push(s);
                proof {
                    assert(acc.deep_view() =~= prev_acc.push(s@));
                    assert forall|rest: Seq<Seq<char>>|
                        true implies prev_acc + (seq![s@] + rest) =~= acc.deep_view() + rest by {}
                }
                i = i + 1;
            }
        }
    }
    proof {
        assert(sp_str_seq(c.data@, c.pos as int, 0) == Some((
            Seq::<Seq<char>>::empty(),
            c.pos as int,
        )));
        assert(acc.deep_view() + Seq::<Seq<char>>::empty() =~= acc.deep_view());
    }
    Some(acc)
}

/// Reads `n` signature pairs.
pub fn read_sig_list(c: &mut Cursor, n: u64) -> (r: Option<Vec<(String, Vec<u8>)>>)
    requires
        old(c).wf(),
    ensures
        final(c).data == old(c).data,
        final(c).wf(),
        match r {
            Some(v) => sp_sig_seq(old(c).data@, old(c).pos as int, n) == Some((
                Seq::new(v@.len(), |i: int| (v@[i].0@, v@[i].1@)),
                final(c).pos as int,
            )),
            None => sp_sig_seq(old(c).data@, old(c).pos as int, n) is None,
        },
{
    let mut acc: Vec<(String, Vec<u8>)> = Vec::new();
    let mut i: u64 = 0;
    while i < n
        invariant
            old(c).wf(),
            c.wf(),
            c.data == old(c).data,
            i <= n,
            acc@.len() == i,
            sp_sig_seq(old(c).data@, old(c).pos as int, n) == (match sp_sig_seq(
                c.data@,
                c.pos as int,
                (n - i) as u64,
            ) {
                None => None::<(Seq<(Seq<char>, Seq<u8>)>, int)>,
                Some((rest, e)) => Some((
                    Seq::new(acc@.len(), |k: int| (acc@[k].0@, acc@[k].1@)) + rest,
                    e,
                )),
            }),
        decreases n - i,
    {
        let ghost pre_pos = c.pos as int;
        let id_opt = c.read_string();
        match id_opt {
            None => {
                proof {
                    assert(sp_sig(c.data@, pre_pos) is None);
                    assert(sp_sig_seq(c.data@, pre_pos, (n - i) as u64) is None);
                }
                return None;
            }
            Some(id) => {
                let data_opt = c.read_bytes();
                match data_opt {
                    None => {
                        proof {
                            assert(sp_sig(c.data@, pre_pos) is None);
                            assert(sp_sig_seq(c.data@, pre_pos, (n - i) as u64) is None);
                        }
                        return None;
                    }
                    Some(data) => {
                        let ghost prev = Seq::new(acc@.len(), |k: int| (acc@[k].0@, acc@[k].1@));
                        let ghost sig_m = (id@, data@);
                        proof {
                            assert(sp_sig(c.data@, pre_pos) == Some((sig_m, c.pos as int)));
                        }
                        acc.push((id, data));
                        proof {
                            assert(Seq::new(acc@.len(), |k: int| (acc@[k].0@, acc@[k].1@))
                                =~= prev.push(sig_m));
                            assert forall|rest: Seq<(Seq<char>, Seq<u8>)>|
                                true implies prev + (seq![sig_m] + rest) =~= prev.push(sig_m)
                                + rest by {}
                        }
                        i = i + 1;
                    }
                }
            }
        }
    }
    proof {
        assert(sp_sig_seq(c.data@, c.pos as int, 0) == Some((
            Seq::<(Seq<char>, Seq<u8>)>::empty(),
            c.pos as int,
        )));
        assert(Seq::new(acc@.len(), |k: int| (acc@[k].0@, acc@[k].1@))
            + Seq::<(Seq<char>, Seq<u8>)>::empty() =~= Seq::new(
            acc@.len(),
            |k: int| (acc@[k].0@, acc@[k].1@),
        ));
    }
    Some(acc)
}

/// Whether a stored record's index fits the machine's record positions.
pub open spec fn record_model_repr(m: RecordModel) -> bool {
    m.index <= usize::MAX
}

/// Reads one stored record.
pub fn read_record(c: &mut Cursor) -> (r: Option<Record>)
    requires
        old(c).wf(),
    ensures
        final(c).data == old(c).data,
        final(c).wf(),
        match r {
            Some(rec) => sp_record(old(c).data@, old(c).pos as int) == Some((
                record_model(rec),
                final(c).pos as int,
            )) && record_model_repr(record_model(rec)),
            None => sp_record(old(c).data@, old(c).pos as int) is None || !record_model_repr(
                sp_record(old(c).data@, old(c).pos as int).unwrap().0,
            ),
        },
{
    let index_opt = c.read_u64();
    let index = match index_opt {
        None => {
            return None;
        },
        Some(v) => v,
    };
    let payload = match c.read_string() {
        None => {
            return None;
        },
        Some(v) => v,
    };
    let payload_hash = match c.read_string() {
        None => {
            return None;
        },
        Some(v) => v,
    };
    let n_ids = match c.read_u64() {
        None => {
            return None;
        },
        Some(v) => v,
    };
    let signer_ids = match read_str_list(c, n_ids) {
        None => {
            return None;
        },
        Some(v) => v,
    };
    let n_sigs = match c.read_u64() {
        None => {
            return None;
        },
        Some(v) => v,
    };
    let signatures = match read_sig_list(c, n_sigs) {
        None => {
            return None;
        },
        Some(v) => v,
    };
    let prev_hash = match c.read_string() {
        None => {
            return None;
        },
        Some(v) => v,
    };
    let record_hash = match c.read_string() {
        None => {
            return None;
        },
        Some(v) => v,
    };
    let timestamp = match c.read_u64() {
        None => {
            return None;
        },
        Some(v) => v,
    };
    let nonce = match c.read_u64() {
        None => {
            return None;
        },
        Some(v) => v,
    };
    if index > usize::MAX as u64 {
        return None;
    }
    let rec = Record {
        index: index as usize,
        payload,
        payload_hash,
        signer_ids,
        signatures,
        prev_hash,
        record_hash,
        timestamp,
        nonce,
    };
    proof {
        let m = sp_record(old(c).data@, old(c).pos as int).unwrap().0;
        assert(record_model(rec) =~= m);
    }
    Some(rec)
}

/// Reads one stored user.
pub fn read_user(c: &mut Cursor) -> (r: Option<SerializableUser>)
    requires
        old(c).wf(),
    ensures
        final(c).data == old(c).data,
        final(c).wf(),
        match r {
            Some(u) => sp_user(old(c).data@, old(c).pos as int) == Some((
                su_model(u),
                final(c).pos as int,
            )),
            None => sp_user(old(c).data@, old(c).pos as int) is None,
        },
{
    let user_id = match c.read_string() {
        None => {
            return None;
        },
        Some(v) => v,
    };
    let verifying_key = match c.read_bytes() {
        None => {
            return None;
        },
        Some(v) => v,
    };
    let n_roles = match c.read_u64() {
        None => {
            return None;
        },
        Some(v) => v,
    };
    let roles = match read_str_list(c, n_roles) {
        None => {
            return None;
        },
        Some(v) => v,
    };
    let su = SerializableUser { user_id, verifying_key_bytes: verifying_key, roles };
    proof {
        let m = sp_user(old(c).data@, old(c).pos as int).unwrap().0;
        assert(su_model(su) =~= m);
    }
    Some(su)
}

/// The stored form of a record: exactly the fields the codec writes.
#[derive(Debug)]
pub struct SerializableRecord {
    pub index: usize,
    pub payload: String,
    pub payload_hash: String,
    pub signer_ids: Vec<String>,
    pub signatures: Vec<(String, Vec<u8>)>,
    pub prev_hash: String,
    pub record_hash: String,
    pub timestamp: u64,
    pub nonce: u64,
}

/// The stored form of a user: id, verifying key bytes, roles.
#[derive(Debug)]
pub struct SerializableUser {
    pub user_id: String,
    pub verifying_key_bytes: Vec<u8>,
    pub roles: Vec<String>,
}

/// The stored view of a serialized user.
pub open spec fn su_model(u: SerializableUser) -> UserModel {
    UserModel {
        user_id: u.user_id@,
        verifying_key: u.verifying_key_bytes@,
        roles: u.roles.deep_view(),
    }
}

impl From<&Record> for SerializableRecord {
    /// The stored form of a record, field for field.
    fn from(r: &Record) -> SerializableRecord {
        let mut signer_ids: Vec<String> = Vec::new();
        let n = r.signer_ids.len();
        let mut i: usize = 0;
        while i < n
            invariant
                i <= n,
                n == r.signer_ids@.len(),
            decreases n - i,
        {
            signer_ids.push(r.signer_ids[i].clone());
            i = i + 1;
        }
        let mut signatures: Vec<(String, Vec<u8>)> = Vec::new();
        let sn = r.signatures.len();
        let mut j: usize = 0;
        while j < sn
            invariant
                j <= sn,
                sn == r.signatures@.len(),
            decreases sn - j,
        {
            signatures.push((r.signatures[j].0.clone(), r.signatures[j].1.clone()));
            j = j + 1;
        }
        SerializableRecord {
            index: r.index,
            payload: r.payload.clone(),
            payload_hash: r.payload_hash.clone(),
            signer_ids,
            signatures,
            prev_hash: r.prev_hash.clone(),
            record_hash: r.record_hash.clone(),
            timestamp: r.timestamp,
            nonce: r.nonce,
        }
    }
}

impl vstd::std_specs::convert::FromSpecImpl<&Record> for SerializableRecord {
    open spec fn obeys_from_spec() -> bool {
        false
    }

    open spec fn from_spec(r: &Record) -> Self {
        SerializableRecord {
            index: r.index,
            payload: r.payload,
            payload_hash: r.payload_hash,
            signer_ids: r.signer_ids,
            signatures: r.signatures,
            prev_hash: r.prev_hash,
            record_hash: r.record_hash,
            timestamp: r.timestamp,
            nonce: r.nonce,
        }
    }
}

impl From<&User> for SerializableUser {
    /// The stored form of a user: id, verifying key and roles only.
    fn from(u: &User) -> SerializableUser {
        let mut roles: Vec<String> = Vec::new();
        let n = u.roles.len();
        let mut i: usize = 0;
        while i < n
            invariant
                i <= n,
                n == u.roles@.len(),
            decreases n - i,
        {
            roles.push(u.roles[i].clone());
            i = i + 1;
        }
        SerializableUser {
            user_id: u.user_id.clone(),
            verifying_key_bytes: u.verifying_key.clone(),
            roles,
        }
    }
}

impl vstd::std_specs::convert::FromSpecImpl<&User> for SerializableUser {
    open spec fn obeys_from_spec() -> bool {
        false
    }

    open spec fn from_spec(u: &User) -> Self {
        SerializableUser {
            user_id: u.user_id,
            verifying_key_bytes: u.verifying_key,
            roles: u.roles,
        }
    }
}

} // verus!
