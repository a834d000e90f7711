//! Recovery and compaction: rebuild the in-memory ledger from a
//! snapshot image, replay the write-ahead log over it, re-verify the
//! chain, and produce the compacted snapshot image. The surrounding
//! program supplies the file bytes and writes the results back.

use crate::append::AppendLog;
use crate::codec::Cursor;
use crate::database::DatabaseBody;
use crate::error::{LedgerError, StorageError};
use crate::ledger::{chain_valid, Ledger};
use crate::append::EntryModel;
use crate::persistence::{
    read_record, record_model, record_model_repr, sp_record, sp_user, su_model, RecordModel,
    UserModel,
};
use crate::reader::{
    snap_body_parse, snap_checksum_ok, snap_offsets_ok, DatabaseReader,
};
use crate::record::Record;
use crate::user::User;
use crate::writer::DatabaseWriter;
use vstd::multiset::Multiset;
use vstd::prelude::*;

verus! {

/// Whether `id` is the id of some stored user.
pub open spec fn user_id_stored(
    users: Seq<crate::persistence::SerializableUser>,
    id: Seq<char>,
) -> bool {
    exists|u: int| 0 <= u < users.len() && (#[trigger] users[u]).user_id@ == id
}

/// Every signature of the record is 64 bytes.
pub open spec fn record_sig_lens_ok(r: Record) -> bool {
    forall|s: int| 0 <= s < r.signatures@.len() ==> (#[trigger] r.signatures@[s]).1@.len() == 64
}

/// Every signer id of the record is the id of some stored user.
pub open spec fn record_signers_stored(
    r: Record,
    users: Seq<crate::persistence::SerializableUser>,
) -> bool {
    forall|t: int|
        0 <= t < r.signer_ids@.len() ==> user_id_stored(users, (#[trigger] r.signer_ids@[t])@)
}

/// Whether a snapshot body can be rebuilt into a ledger: every stored
/// key is 32 bytes, every signature 64 bytes, and every signer id of
/// every record is among the stored users.
pub open spec fn body_reconstructible(body: DatabaseBody) -> bool {
    &&& forall|u: int|
        0 <= u < body.users@.len() ==> (#[trigger] body.users@[u]).verifying_key_bytes@.len()
            == 32
    &&& forall|k: int|
        0 <= k < body.records@.len() ==> record_sig_lens_ok(#[trigger] body.records@[k])
            && record_signers_stored(body.records@[k], body.users@)
}

/// The stored views of a serialized user list.
pub open spec fn su_models(users: Seq<crate::persistence::SerializableUser>) -> Seq<UserModel> {
    Seq::new(users.len(), |k: int| su_model(users[k]))
}

/// No two user views carry the same id.
pub open spec fn unique_model_ids(ms: Seq<UserModel>) -> bool {
    forall|i: int, j: int|
        0 <= i < j < ms.len() ==> (#[trigger] ms[i]).user_id != (#[trigger] ms[j]).user_id
}

/// No two stored users carry the same id.
pub open spec fn unique_user_ids(users: Seq<crate::persistence::SerializableUser>) -> bool {
    forall|i: int, j: int|
        0 <= i < j < users.len() ==> (#[trigger] users[i]).user_id@ != (
        #[trigger] users[j]).user_id@
}

/// The stored views of a ledger's records and users during replay.
#[verifier::ext_equal]
pub ghost struct ReplayModel {
    pub records: Seq<RecordModel>,
    pub users: Seq<UserModel>,
}

/// The stored views of a record list.
pub open spec fn records_view(records: Seq<Record>) -> Seq<RecordModel> {
    Seq::new(records.len(), |i: int| record_model(records[i]))
}

/// The stored views of a user list.
pub open spec fn users_view(users: Seq<User>) -> Seq<crate::persistence::UserModel> {
    Seq::new(users.len(), |i: int| crate::persistence::user_model(users[i]))
}

/// A ledger reduced to its replay state.
pub open spec fn ledger_replay_model(l: Ledger) -> ReplayModel {
    ReplayModel { records: records_view(l.records@), users: users_view(l.users@) }
}

/// Whether some user in the state carries the id.
pub open spec fn model_has_user(users: Seq<UserModel>, id: Seq<char>) -> bool {
    exists|u: int| 0 <= u < users.len() && (#[trigger] users[u]).user_id == id
}

/// Whether some record in the state carries the index.
pub open spec fn model_has_index(records: Seq<RecordModel>, idx: u64) -> bool {
    exists|p: int| 0 <= p < records.len() && (#[trigger] records[p]).index == idx
}

/// Whether a record entry is applied: it has signers, all of them
/// known, and its index is fresh.
pub open spec fn record_entry_applies(s: ReplayModel, m: RecordModel) -> bool {
    &&& m.signer_ids.len() > 0
    &&& forall|t: int|
        0 <= t < m.signer_ids.len() ==> model_has_user(s.users, #[trigger] m.signer_ids[t])
    &&& !model_has_index(s.records, m.index)
}

/// The effect of one log entry on the replay state: a record entry is
/// appended when it applies, a registration entry registers an absent
/// id; everything else leaves the state as it is.
pub open spec fn replay_step(s: ReplayModel, entry: (EntryModel, Seq<u8>)) -> ReplayModel {
    if entry.0.entry_type == 1 {
        let m = sp_record(entry.1, 0)->Some_0.0;
        if sp_record(entry.1, 0) is Some && record_entry_applies(s, m) {
            ReplayModel { records: s.records.push(m), users: s.users }
        } else {
            s
        }
    } else if entry.0.entry_type == 2 {
        let u = sp_user(entry.1, 0)->Some_0.0;
        if sp_user(entry.1, 0) is Some && !model_has_user(s.users, u.user_id) {
            ReplayModel { records: s.records, users: s.users.push(u) }
        } else {
            s
        }
    } else {
        s
    }
}

/// The state after replaying the entries in order.
pub open spec fn replay_fold(s: ReplayModel, entries: Seq<(EntryModel, Seq<u8>)>) -> ReplayModel
    decreases entries.len(),
{
    if entries.len() == 0 {
        s
    } else {
        replay_fold(replay_step(s, entries[0]), entries.drop_first())
    }
}

pub proof fn lemma_replay_fold_push(
    s: ReplayModel,
    entries: Seq<(EntryModel, Seq<u8>)>,
    e: (EntryModel, Seq<u8>),
)
    ensures
        replay_fold(s, entries.push(e)) == replay_step(replay_fold(s, entries), e),
    decreases entries.len(),
{
    if entries.len() == 0 {
        assert(entries.push(e)[0] == e);
        assert(entries.push(e).drop_first() =~= entries);
        assert(replay_fold(replay_step(s, e), entries) == replay_step(s, e));
        assert(replay_fold(s, entries) == s);
    } else {
        assert(entries.push(e)[0] == entries[0]);
        assert(entries.push(e).drop_first() =~= entries.drop_first().push(e));
        lemma_replay_fold_push(replay_step(s, entries[0]), entries.drop_first(), e);
        assert(replay_fold(s, entries.push(e)) == replay_fold(
            replay_step(s, entries[0]),
            entries.drop_first().push(e),
        ));
        assert(replay_fold(s, entries) == replay_fold(
            replay_step(s, entries[0]),
            entries.drop_first(),
        ));
    }
}

/// Whether one entry leaves a replay state unchanged: a record entry
/// whose index is already present, or a registration whose id is
/// already known.
pub open spec fn model_entry_applied(s: ReplayModel, entry: (EntryModel, Seq<u8>)) -> bool {
    if entry.0.entry_type == 1 && sp_record(entry.1, 0) is Some {
        model_has_index(s.records, sp_record(entry.1, 0)->Some_0.0.index)
    } else if entry.0.entry_type == 2 && sp_user(entry.1, 0) is Some {
        model_has_user(s.users, sp_user(entry.1, 0)->Some_0.0.user_id)
    } else {
        true
    }
}

/// Replay is idempotent: entries that are all reflected in the state
/// already fold to the state itself.
pub proof fn lemma_replay_fold_noop(s: ReplayModel, entries: Seq<(EntryModel, Seq<u8>)>)
    requires
        forall|k: int| 0 <= k < entries.len() ==> model_entry_applied(s, #[trigger] entries[k]),
    ensures
        replay_fold(s, entries) == s,
    decreases entries.len(),
{
    if entries.len() > 0 {
        assert(model_entry_applied(s, entries[0]));
        assert(replay_step(s, entries[0]) == s);
        assert(forall|k: int|
            0 <= k < entries.drop_first().len() ==> (#[trigger] entries.drop_first()[k])
                == entries[k + 1]);
        lemma_replay_fold_noop(s, entries.drop_first());
    }
}

/// A structurally well-formed log entry: a record entry that parses
/// with a machine-representable index, or a registration entry that
/// parses with a 32-byte key.
pub open spec fn entry_wf(entry: (EntryModel, Seq<u8>)) -> bool {
    ||| (entry.0.entry_type == 1 && sp_record(entry.1, 0) is Some && record_model_repr(
        sp_record(entry.1, 0)->Some_0.0,
    ))
    ||| (entry.0.entry_type == 2 && sp_user(entry.1, 0) is Some && sp_user(
        entry.1,
        0,
    )->Some_0.0.verifying_key.len() == 32)
}

pub open spec fn entries_wf(entries: Seq<(EntryModel, Seq<u8>)>) -> bool {
    forall|k: int| 0 <= k < entries.len() ==> entry_wf(#[trigger] entries[k])
}

/// The models of a list of read log entries.
pub open spec fn entry_models(entries: Seq<(crate::append::AppendEntry, Vec<u8>)>) -> Seq<
    (EntryModel, Seq<u8>),
> {
    Seq::new(entries.len(), |k: int| ((entries[k].0).model(), entries[k].1@))
}

/// In a well-formed ledger a registry lookup succeeds exactly when
/// some stored user carries the id.
proof fn lemma_lookup_users_correspondence(l: Ledger, id: Seq<char>)
    requires
        l.reg_wf(),
    ensures
        crate::ledger::pairs_lookup(l.verify_registry@, id) is Some <==> model_has_user(
            users_view(l.users@),
            id,
        ),
{
    if crate::ledger::pairs_lookup(l.verify_registry@, id) is Some {
        crate::ledger::lemma_pairs_lookup_found(l.verify_registry@, id);
        let k = choose|k: int|
            0 <= k < l.verify_registry@.len() && (#[trigger] l.verify_registry@[k]).0@ == id;
        assert(users_view(l.users@)[k].user_id == id);
    }
    if model_has_user(users_view(l.users@), id) {
        let u = choose|u: int|
            0 <= u < users_view(l.users@).len() && (#[trigger] users_view(l.users@)[u]).user_id
                == id;
        assert(l.verify_registry@[u].0@ == id);
        crate::ledger::lemma_pairs_lookup_some_of_member(l.verify_registry@, u);
    }
}

/// A record index occurs among the records exactly when it occurs
/// among their stored views.
proof fn lemma_index_correspondence(records: Seq<Record>, idx: usize)
    ensures
        (exists|p: int| 0 <= p < records.len() && (#[trigger] records[p]).index == idx)
            <==> model_has_index(records_view(records), idx as u64),
{
    if exists|p: int| 0 <= p < records.len() && (#[trigger] records[p]).index == idx {
        let p = choose|p: int| 0 <= p < records.len() && (#[trigger] records[p]).index == idx;
        assert(records_view(records)[p].index == idx as u64);
    }
    if model_has_index(records_view(records), idx as u64) {
        let p = choose|p: int|
            0 <= p < records_view(records).len() && (#[trigger] records_view(records)[p]).index
                == idx as u64;
        assert(records[p].index == idx);
    }
}

/// Every signature 64 bytes and every signer known, at the level of
/// stored views.
pub open spec fn model_record_reconstructible(mr: RecordModel, users: Seq<UserModel>) -> bool {
    &&& forall|s: int|
        0 <= s < mr.signatures.len() ==> (#[trigger] mr.signatures[s]).1.len() == 64
    &&& forall|t: int|
        0 <= t < mr.signer_ids.len() ==> model_has_user(users, #[trigger] mr.signer_ids[t])
}

/// `body_reconstructible`, over the parsed views of a snapshot body.
pub open spec fn model_reconstructible(m: crate::database::BodyModel) -> bool {
    &&& forall|u: int|
        0 <= u < m.users.len() ==> (#[trigger] m.users[u]).verifying_key.len() == 32
    &&& forall|k: int|
        0 <= k < m.records.len() ==> model_record_reconstructible(
            #[trigger] m.records[k],
            m.users,
        )
}

/// The snapshot bytes pass every check of the reader.
pub open spec fn snapshot_readable(b: Seq<u8>) -> bool {
    &&& b.len() >= 128
    &&& crate::database::sp_header(b).magic == crate::database::snapshot_magic()
    &&& crate::database::sp_header(b).version_major == 1
    &&& snap_offsets_ok(b)
    &&& snap_checksum_ok(b)
    &&& snap_body_parse(b) is Some
}

/// The snapshot bytes fail exactly at the body checksum, which makes
/// recovery fall back to the log alone.
pub open spec fn snapshot_checksum_failed(b: Seq<u8>) -> bool {
    &&& b.len() >= 128
    &&& crate::database::sp_header(b).magic == crate::database::snapshot_magic()
    &&& crate::database::sp_header(b).version_major == 1
    &&& snap_offsets_ok(b)
    &&& !snap_checksum_ok(b)
}

/// The replay state of a fresh ledger whose records were cleared: no
/// records, and the single synthetic GENESIS user under some key.
pub open spec fn genesis_seed_model(g: Seq<u8>) -> ReplayModel {
    ReplayModel {
        records: Seq::empty(),
        users: seq![
            UserModel { user_id: "GENESIS"@, verifying_key: g, roles: Seq::empty() },
        ],
    }
}

/// Records in ascending index order.
pub open spec fn sorted_by_index(records: Seq<Record>) -> bool {
    forall|a: int, b: int|
        0 <= a < b < records.len() ==> (#[trigger] records[a]).index <= (
        #[trigger] records[b]).index
}

/// Sorts records by ascending index, keeping exactly the same records.
fn sort_records_by_index(records: Vec<Record>) -> (out: Vec<Record>)
    ensures
        out@.len() == records@.len(),
        records_view(out@).to_multiset() == records_view(records@).to_multiset(),
        sorted_by_index(out@),
{
    broadcast use vstd::seq_lib::group_to_multiset_ensures;

    let mut src = records;
    let mut out: Vec<Record> = Vec::new();
    proof {
        assert(records_view(out@) =~= Seq::<RecordModel>::empty());
        assert(records_view(out@).to_multiset().add(records_view(src@).to_multiset())
            =~= records_view(records@).to_multiset());
    }
    while src.len() > 0
        invariant
            out@.len() + src@.len() == records@.len(),
            records_view(out@).to_multiset().add(records_view(src@).to_multiset())
                == records_view(records@).to_multiset(),
            sorted_by_index(out@),
            forall|a: int, b: int|
                0 <= a < out@.len() && 0 <= b < src@.len() ==> (#[trigger] out@[a]).index <= (
                #[trigger] src@[b]).index,
        decreases src@.len(),
    {
        broadcast use vstd::seq_lib::group_to_multiset_ensures;

        let mut min_pos: usize = 0;
        let mut k: usize = 1;
        while k < src.len()
            invariant
                src@.len() > 0,
                min_pos < src@.len(),
                k <= src@.len(),
                forall|x: int|
                    0 <= x < k ==> src@[min_pos as int].index <= (#[trigger] src@[x]).index,
            decreases src@.len() - k,
        {
            if src[k].index < src[min_pos].index {
                min_pos = k;
            }
            k = k + 1;
        }
        let ghost pre_src = src@;
        let ghost pre_out = out@;
        let m = src.remove(min_pos);
        out.push(m);
        proof {
            assert(records_view(out@) =~= records_view(pre_out).push(record_model(m)));
            assert(records_view(src@) =~= records_view(pre_src).remove(min_pos as int));
            assert(records_view(pre_src)[min_pos as int] == record_model(m));
            assert(records_view(pre_src).contains(record_model(m))) by {
                assert(records_view(pre_src)[min_pos as int] == record_model(m));
            }
            let a = records_view(pre_out).to_multiset();
            let b = records_view(pre_src).to_multiset();
            let x = record_model(m);
            assert(records_view(out@).to_multiset() =~= a.insert(x));
            assert(records_view(src@).to_multiset() =~= b.remove(x));
            assert(b.count(x) > 0);
            assert(a.insert(x).add(b.remove(x)) =~= a.add(b));
            assert forall|aa: int, bb: int|
                0 <= aa < out@.len() && 0 <= bb < src@.len() implies (
            #[trigger] out@[aa]).index <= (#[trigger] src@[bb]).index by {
                assert(src@[bb] == pre_src[if bb < min_pos {
                    bb
                } else {
                    bb + 1
                }]);
                if aa < pre_out.len() {
                    assert(out@[aa] == pre_out[aa]);
                } else {
                    assert(out@[aa] == m);
                    assert(pre_src[min_pos as int].index <= pre_src[if bb < min_pos {
                        bb
                    } else {
                        bb + 1
                    }].index);
                }
            }
        }
    }
    proof {
        assert(records_view(src@) =~= Seq::<RecordModel>::empty());
        assert(records_view(src@).to_multiset() =~= Multiset::<RecordModel>::empty());
        assert(records_view(out@).to_multiset().add(Multiset::<RecordModel>::empty())
            =~= records_view(out@).to_multiset());
    }
    out
}

/// Whether one log entry is already reflected in the ledger: a record
/// entry whose index is present, or a registration whose id is known.
pub open spec fn entry_already_applied(l: Ledger, entry: (crate::append::AppendEntry, Vec<u8>)) -> bool {
    ||| (entry.0.entry_type == 1 && sp_record(entry.1@, 0) is Some && record_model_repr(
        sp_record(entry.1@, 0)->Some_0.0,
    ) && exists|p: int|
        0 <= p < l.records@.len() && (#[trigger] l.records@[p]).index as int == sp_record(
            entry.1@,
            0,
        )->Some_0.0.index as int)
    ||| (entry.0.entry_type == 2 && sp_user(entry.1@, 0) is Some && sp_user(
        entry.1@,
        0,
    )->Some_0.0.verifying_key.len() == 32 && crate::ledger::pairs_lookup(
        l.verify_registry@,
        sp_user(entry.1@, 0)->Some_0.0.user_id,
    ) is Some)
}

/// Whether every log entry is already reflected in the ledger, so a
/// replay changes nothing.
pub open spec fn replay_is_noop(l: Ledger, entries: Seq<(crate::append::AppendEntry, Vec<u8>)>) -> bool {
    forall|k: int| 0 <= k < entries.len() ==> entry_already_applied(l, #[trigger] entries[k])
}

/// No two records carry the same index.
pub open spec fn unique_indices(records: Seq<Record>) -> bool {
    forall|i: int, j: int|
        0 <= i < j < records.len() ==> (#[trigger] records[i]).index != (
        #[trigger] records[j]).index
}

pub struct RecoveryManager {
}

impl RecoveryManager {
    /// Rebuilds a ledger from a deserialized snapshot body: users first,
    /// so the verify-registry is populated, then the records in stored
    /// order. Malformed keys or signatures are fatal.
    pub fn reconstruct_from_body(body: DatabaseBody) -> (r: Result<Ledger, StorageError>)
        ensures
            r is Ok <==> body_reconstructible(body),
            match r {
                Ok(l) => {
                    &&& l.reg_wf()
                    &&& l.records@.len() == body.records@.len()
                    &&& forall|k: int|
                        0 <= k < body.records@.len() ==> l.records@[k] == body.records@[k]
                    &&& forall|k: int|
                        0 <= k < l.verify_registry@.len() ==> user_id_stored(
                            body.users@,
                            (#[trigger] l.verify_registry@[k]).0@,
                        )
                    &&& forall|u: int|
                        0 <= u < body.users@.len() ==> crate::ledger::pairs_lookup(
                            l.verify_registry@,
                            (#[trigger] body.users@[u]).user_id@,
                        ) is Some
                    &&& (unique_user_ids(body.users@) ==> {
                        &&& l.users@.len() == body.users@.len()
                        &&& l.verify_registry@.len() == body.users@.len()
                        &&& users_view(l.users@) == su_models(body.users@)
                        &&& forall|k: int|
                            0 <= k < body.users@.len() ==> (
                            #[trigger] l.verify_registry@[k]).0@ == body.users@[k].user_id@
                                && l.verify_registry@[k].1@
                                == body.users@[k].verifying_key_bytes@
                    })
                },
                Err(e) => e is Deserialization,
            },
    {
        let mut ledger = Ledger {
            records: Vec::new(),
            users: Vec::new(),
            verify_registry: Vec::new(),
        };
        let body_users = body.users;
        let un = body_users.len();
        let mut i: usize = 0;
        while i < un
            invariant
                i <= un,
                un == body_users@.len(),
                body_users == body.users,
                ledger.reg_wf(),
                ledger.records@.len() == 0,
                forall|u: int|
                    0 <= u < i ==> (#[trigger] body_users@[u]).verifying_key_bytes@.len() == 32,
                forall|k: int|
                    0 <= k < ledger.verify_registry@.len() ==> user_id_stored(
                        body_users@,
                        (#[trigger] ledger.verify_registry@[k]).0@,
                    ),
                forall|u: int|
                    0 <= u < i ==> crate::ledger::pairs_lookup(
                        ledger.verify_registry@,
                        (#[trigger] body_users@[u]).user_id@,
                    ) is Some,
                unique_user_ids(body_users@) ==> ledger.users@.len() == i
                    && ledger.verify_registry@.len() == i && users_view(ledger.users@)
                    =~= su_models(body_users@).take(i as int) && forall|k: int|
                    0 <= k < i ==> (#[trigger] ledger.verify_registry@[k]).0@
                        == body_users@[k].user_id@ && ledger.verify_registry@[k].1@
                        == body_users@[k].verifying_key_bytes@,
            decreases un - i,
        {
            let su = &body_users[i];
            if su.verifying_key_bytes.len() != 32 {
                proof {
                    assert(body.users@[i as int].verifying_key_bytes@.len() != 32);
                    assert(!body_reconstructible(body));
                }
                return Err(
                    StorageError::Deserialization(
                        String::from_str("Invalid verifying key length"),
                    ),
                );
            }
            let present = crate::ledger::pairs_get(&ledger.verify_registry, &su.user_id);
            proof {
                if unique_user_ids(body_users@) && present is Some {
                    crate::ledger::lemma_pairs_lookup_found(
                        ledger.verify_registry@,
                        su.user_id@,
                    );
                    let k = choose|k: int|
                        0 <= k < ledger.verify_registry@.len() && (
                        #[trigger] ledger.verify_registry@[k]).0@ == su.user_id@
                            && ledger.verify_registry@[k].1@ == crate::ledger::pairs_lookup(
                            ledger.verify_registry@,
                            su.user_id@,
                        ).unwrap();
                    assert(body_users@[k].user_id@ == body_users@[i as int].user_id@);
                    assert(false);
                }
            }
            if present.is_none() {
                let mut roles: Vec<String> = Vec::new();
                let rn = su.roles.len();
                let mut k: usize = 0;
                while k < rn
                    invariant
                        k <= rn,
                        rn == su.roles@.len(),
                        roles@ =~= su.roles@.take(k as int),
                    decreases rn - k,
                {
                    roles.push(su.roles[k].clone());
                    proof {
                        assert(roles@ =~= su.roles@.take(k + 1));
                    }
                    k = k + 1;
                }
                proof {
                    assert(su.roles@.take(rn as int) =~= su.roles@);
                    assert(roles.deep_view() =~= su.roles.deep_view());
                }
                let user = User::from_verifying_key(
                    su.user_id.as_str(),
                    su.verifying_key_bytes.as_slice(),
                    roles,
                );
                let ghost old_reg = ledger.verify_registry@;
                let ghost old_users = ledger.users@;
                let res = ledger.register_user(user);
                proof {
                    assert(res is Ok);
                    let new_reg = ledger.verify_registry@;
                    assert(new_reg =~= old_reg.push(new_reg.last()));
                    assert(new_reg.last().0@ == body_users@[i as int].user_id@);
                    assert forall|u: int|
                        0 <= u < i + 1 implies crate::ledger::pairs_lookup(
                        new_reg,
                        (#[trigger] body_users@[u]).user_id@,
                    ) is Some by {
                        crate::ledger::lemma_pairs_lookup_push(
                            old_reg,
                            new_reg.last(),
                            body_users@[u].user_id@,
                        );
                    }
                    if unique_user_ids(body_users@) {
                        assert(crate::persistence::user_model(ledger.users@.last())
                            =~= su_model(body_users@[i as int]));
                        assert(users_view(ledger.users@) =~= users_view(old_users).push(
                            crate::persistence::user_model(ledger.users@.last()),
                        ));
                        assert(su_models(body_users@).take(i + 1) =~= su_models(
                            body_users@,
                        ).take(i as int).push(su_model(body_users@[i as int])));
                        assert(users_view(ledger.users@) =~= su_models(body_users@).take(
                            i + 1,
                        ));
                    }
                }
            }
            i = i + 1;
        }
        let ghost users_done = ledger;
        let records = body.records;
        let rn = records.len();
        let mut j: usize = 0;
        while j < rn
            invariant
                j <= rn,
                rn == records@.len(),
                records == body.records,
                body_users == body.users,
                un == body_users@.len(),
                ledger.reg_wf(),
                ledger.records@.len() == 0,
                ledger == users_done,
                forall|u: int|
                    0 <= u < un ==> (#[trigger] body_users@[u]).verifying_key_bytes@.len() == 32,
                forall|k: int|
                    0 <= k < ledger.verify_registry@.len() ==> user_id_stored(
                        body_users@,
                        (#[trigger] ledger.verify_registry@[k]).0@,
                    ),
                forall|u: int|
                    0 <= u < un ==> crate::ledger::pairs_lookup(
                        ledger.verify_registry@,
                        (#[trigger] body_users@[u]).user_id@,
                    ) is Some,
                forall|k: int|
                    0 <= k < j ==> record_sig_lens_ok(#[trigger] records@[k])
                        && record_signers_stored(records@[k], body_users@),
                unique_user_ids(body_users@) ==> ledger.users@.len() == un
                    && ledger.verify_registry@.len() == un && users_view(ledger.users@)
                    =~= su_models(body_users@) && forall|k: int|
                    0 <= k < un ==> (#[trigger] ledger.verify_registry@[k]).0@
                        == body_users@[k].user_id@ && ledger.verify_registry@[k].1@
                        == body_users@[k].verifying_key_bytes@,
            decreases rn - j,
        {
            let rec = &records[j];
            let sn = rec.signatures.len();
            let mut s: usize = 0;
            while s < sn
                invariant
                    s <= sn,
                    sn == rec.signatures@.len(),
                    records == body.records,
                    j < records@.len(),
                    *rec == records@[j as int],
                    forall|x: int|
                        0 <= x < s ==> (#[trigger] rec.signatures@[x]).1@.len() == 64,
                decreases sn - s,
            {
                if rec.signatures[s].1.len() != 64 {
                    proof {
                        assert(!record_sig_lens_ok(body.records@[j as int]));
                        assert(!body_reconstructible(body));
                    }
                    return Err(
                        StorageError::Deserialization(
                            String::from_str("Invalid signatures for record"),
                        ),
                    );
                }
                s = s + 1;
            }
            let idn = rec.signer_ids.len();
            let mut t: usize = 0;
            while t < idn
                invariant
                    t <= idn,
                    idn == rec.signer_ids@.len(),
                    records == body.records,
                    body_users == body.users,
                    un == body_users@.len(),
                    j < records@.len(),
                    *rec == records@[j as int],
                    ledger.reg_wf(),
                    ledger.records@.len() == 0,
                    ledger == users_done,
                    forall|u: int|
                        0 <= u < un ==> crate::ledger::pairs_lookup(
                            ledger.verify_registry@,
                            (#[trigger] body_users@[u]).user_id@,
                        ) is Some,
                    forall|x: int|
                        0 <= x < t ==> crate::ledger::pairs_lookup(
                            ledger.verify_registry@,
                            (#[trigger] rec.signer_ids@[x])@,
                        ) is Some,
                decreases idn - t,
            {
                let known = crate::ledger::pairs_get(&ledger.verify_registry, &rec.signer_ids[t]);
                if known.is_none() {
                    proof {
                        let id = rec.signer_ids@[t as int]@;
                        if user_id_stored(body.users@, id) {
                            let u = choose|u: int|
                                0 <= u < body.users@.len() && (#[trigger] body.users@[u]).user_id@
                                    == id;
                            assert(crate::ledger::pairs_lookup(
                                ledger.verify_registry@,
                                body_users@[u].user_id@,
                            ) is Some);
                        }
                        assert(!record_signers_stored(body.records@[j as int], body.users@));
                        assert(!body_reconstructible(body));
                    }
                    return Err(
                        StorageError::Deserialization(
                            String::from_str("Missing signers for record"),
                        ),
                    );
                }
                t = t + 1;
            }
            proof {
                assert(record_sig_lens_ok(records@[j as int]));
                assert forall|tt: int|
                    0 <= tt < records@[j as int].signer_ids@.len() implies user_id_stored(
                    body_users@,
                    (#[trigger] records@[j as int].signer_ids@[tt])@,
                ) by {
                    crate::ledger::lemma_pairs_lookup_found(
                        ledger.verify_registry@,
                        records@[j as int].signer_ids@[tt]@,
                    );
                }
                assert(record_signers_stored(records@[j as int], body_users@));
            }
            j = j + 1;
        }
        ledger.records = records;
        proof {
            assert(body_reconstructible(body));
            if unique_user_ids(body_users@) {
                assert(ledger.verify_registry@.len() == un);
                assert(users_view(ledger.users@) =~= su_models(body_users@));
            }
        }
        Ok(ledger)
    }

    /// Replays write-ahead entries over a ledger: user registrations
    /// register unknown ids; record entries are applied unless a signer
    /// is unknown or the index is already present. A structurally
    /// malformed entry payload is fatal.
    pub fn replay_wal(ledger: &mut Ledger, entries: &Vec<(crate::append::AppendEntry, Vec<u8>)>)
        -> (r: Result<(), StorageError>)
        requires
            old(ledger).reg_wf(),
        ensures
            final(ledger).reg_wf(),
            unique_indices(old(ledger).records@) ==> unique_indices(final(ledger).records@),
            r is Err ==> r->Err_0 is Deserialization,
            r is Ok <==> entries_wf(entry_models(entries@)),
            r is Ok ==> ledger_replay_model(*final(ledger)) == replay_fold(
                ledger_replay_model(*old(ledger)),
                entry_models(entries@),
            ),
            replay_is_noop(*old(ledger), entries@) ==> r is Ok && *final(ledger) == *old(
                ledger,
            ),
    {
        let n = entries.len();
        let mut i: usize = 0;
        proof {
            assert(entry_models(entries@).take(0) =~= Seq::<(EntryModel, Seq<u8>)>::empty());
        }
        while i < n
            invariant
                i <= n,
                n == entries@.len(),
                ledger.reg_wf(),
                unique_indices(old(ledger).records@) ==> unique_indices(ledger.records@),
                replay_is_noop(*old(ledger), entries@) ==> *ledger == *old(ledger),
                forall|k: int| 0 <= k < i ==> entry_wf(#[trigger] entry_models(entries@)[k]),
                ledger_replay_model(*ledger) == replay_fold(
                    ledger_replay_model(*old(ledger)),
                    entry_models(entries@).take(i as int),
                ),
            decreases n - i,
        {
            let ghost em = entry_models(entries@)[i as int];
            let ghost pre_model = ledger_replay_model(*ledger);
            proof {
                if replay_is_noop(*old(ledger), entries@) {
                    assert(entry_already_applied(*old(ledger), entries@[i as int]));
                }
                assert(entry_models(entries@).take(i + 1) =~= entry_models(entries@).take(
                    i as int,
                ).push(em));
                lemma_replay_fold_push(
                    ledger_replay_model(*old(ledger)),
                    entry_models(entries@).take(i as int),
                    em,
                );
            }
            let entry_type = entries[i].0.entry_type;
            if entry_type == 1 {
                let mut c = Cursor::new(entries[i].1.as_slice());
                let rec = match read_record(&mut c) {
                    None => {
                        proof {
                            assert(!entry_already_applied(*old(ledger), entries@[i as int]));
                            assert(!entry_wf(em));
                        }
                        return Err(
                            StorageError::Deserialization(
                                String::from_str("Malformed record entry"),
                            ),
                        );
                    },
                    Some(v) => v,
                };
                let ghost m = sp_record(em.1, 0)->Some_0.0;
                proof {
                    assert(record_model(rec) == m);
                    assert(entry_wf(em));
                }
                let mut all_known = true;
                let idn = rec.signer_ids.len();
                let mut t: usize = 0;
                while t < idn
                    invariant
                        t <= idn,
                        idn == rec.signer_ids@.len(),
                        ledger.reg_wf(),
                        all_known <==> forall|x: int|
                            0 <= x < t ==> crate::ledger::pairs_lookup(
                                ledger.verify_registry@,
                                (#[trigger] rec.signer_ids@[x])@,
                            ) is Some,
                    decreases idn - t,
                {
                    let known = crate::ledger::pairs_get(
                        &ledger.verify_registry,
                        &rec.signer_ids[t],
                    );
                    if known.is_none() {
                        all_known = false;
                    }
                    t = t + 1;
                }
                proof {
                    if replay_is_noop(*old(ledger), entries@) {
                        assert(rec.index as int == m.index as int);
                    }
                    assert(m.signer_ids =~= rec.signer_ids.deep_view());
                    assert forall|x: int| 0 <= x < m.signer_ids.len() implies (
                    crate::ledger::pairs_lookup(
                        ledger.verify_registry@,
                        (#[trigger] rec.signer_ids@[x])@,
                    ) is Some <==> model_has_user(pre_model.users, m.signer_ids[x])) by {
                        lemma_lookup_users_correspondence(*ledger, rec.signer_ids@[x]@);
                    }
                }
                if all_known && rec.signer_ids.len() > 0 {
                    let already = contains_index(&ledger.records, rec.index);
                    proof {
                        lemma_index_correspondence(ledger.records@, rec.index);
                    }
                    if !already {
                        proof {
                            assert(!replay_is_noop(*old(ledger), entries@));
                            assert(record_entry_applies(pre_model, m));
                        }
                        let ghost pre = ledger.records@;
                        ledger.records.push(rec);
                        proof {
                            assert(records_view(ledger.records@) =~= pre_model.records.push(m));
                            assert(users_view(ledger.users@) =~= pre_model.users);
                            assert(ledger_replay_model(*ledger) =~= replay_step(pre_model, em));
                            if unique_indices(old(ledger).records@) {
                                assert forall|a: int, b: int|
                                    0 <= a < b < ledger.records@.len() implies (
                                #[trigger] ledger.records@[a]).index != (
                                #[trigger] ledger.records@[b]).index by {
                                    if b < pre.len() {
                                        assert(pre[a].index != pre[b].index);
                                    } else {
                                        assert(ledger.records@[b] == ledger.records@.last());
                                        assert(!(exists|k: int|
                                            0 <= k < pre.len() && (#[trigger] pre[k]).index
                                                == ledger.records@.last().index));
                                        assert(pre[a] == ledger.records@[a]);
                                    }
                                }
                            }
                        }
                    } else {
                        proof {
                            assert(model_has_index(pre_model.records, m.index));
                            assert(!record_entry_applies(pre_model, m));
                            assert(ledger_replay_model(*ledger) =~= replay_step(pre_model, em));
                        }
                    }
                } else {
                    proof {
                        if rec.signer_ids.len() == 0 {
                            assert(!record_entry_applies(pre_model, m));
                        } else {
                            let x = choose|x: int|
                                0 <= x < rec.signer_ids@.len() && crate::ledger::pairs_lookup(
                                    ledger.verify_registry@,
                                    (#[trigger] rec.signer_ids@[x])@,
                                ) is None;
                            assert(!model_has_user(pre_model.users, m.signer_ids[x]));
                            assert(!record_entry_applies(pre_model, m));
                        }
                        assert(ledger_replay_model(*ledger) =~= replay_step(pre_model, em));
                    }
                }
            } else if entry_type == 2 {
                let mut c = Cursor::new(entries[i].1.as_slice());
                let su = match crate::persistence::read_user(&mut c) {
                    None => {
                        proof {
                            assert(!entry_already_applied(*old(ledger), entries@[i as int]));
                            assert(!entry_wf(em));
                        }
                        return Err(
                            StorageError::Deserialization(
                                String::from_str("Malformed user entry"),
                            ),
                        );
                    },
                    Some(v) => v,
                };
                let ghost u = sp_user(em.1, 0)->Some_0.0;
                proof {
                    assert(crate::persistence::su_model(su) == u);
                }
                if su.verifying_key_bytes.len() != 32 {
                    proof {
                        assert(!entry_already_applied(*old(ledger), entries@[i as int]));
                        assert(!entry_wf(em));
                    }
                    return Err(
                        StorageError::Deserialization(
                            String::from_str("Invalid verifying key length"),
                        ),
                    );
                }
                proof {
                    assert(entry_wf(em));
                }
                let present = crate::ledger::pairs_get(&ledger.verify_registry, &su.user_id);
                proof {
                    lemma_lookup_users_correspondence(*ledger, su.user_id@);
                }
                if present.is_none() {
                    let user = User::from_verifying_key(
                        su.user_id.as_str(),
                        su.verifying_key_bytes.as_slice(),
                        su.roles,
                    );
                    let res = ledger.register_user(user);
                    proof {
                        assert(res is Ok);
                        assert(!model_has_user(pre_model.users, u.user_id));
                        assert(users_view(ledger.users@) =~= pre_model.users.push(u));
                        assert(records_view(ledger.records@) =~= pre_model.records);
                        assert(ledger_replay_model(*ledger) =~= replay_step(pre_model, em));
                    }
                } else {
                    proof {
                        assert(model_has_user(pre_model.users, u.user_id));
                        assert(ledger_replay_model(*ledger) =~= replay_step(pre_model, em));
                    }
                }
            } else {
                proof {
                    assert(!entry_already_applied(*old(ledger), entries@[i as int]));
                    assert(!entry_wf(em));
                }
                return Err(
                    StorageError::Deserialization(String::from_str("Unknown entry type")),
                );
            }
            i = i + 1;
        }
        proof {
            assert(entry_models(entries@).take(n as int) =~= entry_models(entries@));
        }
        Ok(())
    }

    /// Opens a ledger from the snapshot and write-ahead log bytes:
    /// read and verify the snapshot, rebuild, replay the log, sort the
    /// records by index, and re-verify the whole chain. A snapshot whose
    /// body checksum fails falls back to replaying the log over a fresh
    /// ledger, which is then verified the same way.
    pub fn recover_ledger(snapshot_bytes: Vec<u8>, wal_bytes: Vec<u8>) -> (r: Result<
        Ledger,
        StorageError,
    >)
        ensures
            r matches Ok(l) ==> l.wf() && chain_valid(l.records@, l.verify_registry@),
            (snapshot_readable(snapshot_bytes@) && crate::append::sp_wal(wal_bytes@, 0) is Ok
                && unique_model_ids(snap_body_parse(snapshot_bytes@).unwrap().users)
                && r is Ok) ==> (r matches Ok(l) && {
                let m = snap_body_parse(snapshot_bytes@).unwrap();
                let folded = replay_fold(
                    ReplayModel { records: m.records, users: m.users },
                    crate::append::wal_entry_seq(wal_bytes@),
                );
                &&& records_view(l.records@).to_multiset() == folded.records.to_multiset()
                &&& users_view(l.users@) == folded.users
            }),
            (snapshot_readable(snapshot_bytes@) && model_reconstructible(
                snap_body_parse(snapshot_bytes@).unwrap(),
            ) && crate::append::sp_wal(wal_bytes@, 0) is Err) ==> r == Err::<
                Ledger,
                StorageError,
            >(StorageError::ChecksumMismatch),
            snapshot_bytes@.len() < 128 ==> (r matches Err(e) && e is Deserialization),
            snapshot_bytes@.len() >= 128 ==> {
                let h = crate::database::sp_header(snapshot_bytes@);
                &&& (h.magic != crate::database::snapshot_magic() ==> r == Err::<
                    Ledger,
                    StorageError,
                >(StorageError::InvalidMagic))
                &&& (h.magic == crate::database::snapshot_magic() && h.version_major != 1
                    ==> r == Err::<Ledger, StorageError>(
                    StorageError::UnsupportedVersion(h.version_major, h.version_minor),
                ))
                &&& (h.magic == crate::database::snapshot_magic() && h.version_major == 1
                    && !snap_offsets_ok(snapshot_bytes@) ==> (r matches Err(e)
                    && e is Deserialization))
                &&& (h.magic == crate::database::snapshot_magic() && h.version_major == 1
                    && snap_offsets_ok(snapshot_bytes@) && snap_checksum_ok(snapshot_bytes@)
                    && snap_body_parse(snapshot_bytes@) is None ==> (r matches Err(e)
                    && e is Deserialization))
            },
            (snapshot_checksum_failed(snapshot_bytes@) && crate::append::sp_wal(
                wal_bytes@,
                0,
            ) is Err) ==> r == Err::<Ledger, StorageError>(StorageError::ChecksumMismatch),
            (snapshot_checksum_failed(snapshot_bytes@) && crate::append::sp_wal(
                wal_bytes@,
                0,
            ) is Ok && crate::append::wal_entry_seq(wal_bytes@).len() == 0) ==> (r matches Err(
                e,
            ) && e is ValidationFailed),
            (snapshot_checksum_failed(snapshot_bytes@) && crate::append::sp_wal(
                wal_bytes@,
                0,
            ) is Ok && r is Ok) ==> (r matches Ok(l) && exists|g: Seq<u8>|
                {
                    let folded = replay_fold(
                        #[trigger] genesis_seed_model(g),
                        crate::append::wal_entry_seq(wal_bytes@),
                    );
                    &&& records_view(l.records@).to_multiset() == folded.records.to_multiset()
                    &&& users_view(l.users@) == folded.users
                }),
    {
        let ghost sb = snapshot_bytes@;
        let ghost wb = wal_bytes@;
        let reader = DatabaseReader::new(snapshot_bytes);
        let parsed = reader.read_and_verify();
        match parsed {
            Ok((_header, body)) => {
                let ghost m = snap_body_parse(sb).unwrap();
                let ghost body_ghost = body;
                let mut ledger = match Self::reconstruct_from_body(body) {
                    Err(e) => {
                        proof {
                            if model_reconstructible(m) {
                                assert forall|u: int|
                                    0 <= u < body_ghost.users@.len() implies (
                                #[trigger] body_ghost.users@[u]).verifying_key_bytes@.len()
                                    == 32 by {
                                    assert(su_model(body_ghost.users@[u]) == m.users[u]);
                                }
                                assert forall|k: int|
                                    0 <= k < body_ghost.records@.len() implies record_sig_lens_ok(
                                    #[trigger] body_ghost.records@[k],
                                ) && record_signers_stored(
                                    body_ghost.records@[k],
                                    body_ghost.users@,
                                ) by {
                                    let mr = m.records[k];
                                    assert(record_model(body_ghost.records@[k]) == mr);
                                    assert forall|si: int|
                                        0 <= si < body_ghost.records@[k].signatures@.len() implies (
                                    #[trigger] body_ghost.records@[k].signatures@[si]).1@.len()
                                        == 64 by {
                                        assert(mr.signatures[si].1
                                            == body_ghost.records@[k].signatures@[si].1@);
                                        assert(mr.signatures[si].1.len() == 64);
                                    }
                                    assert forall|t: int|
                                        0 <= t < body_ghost.records@[k].signer_ids@.len() implies user_id_stored(
                                        body_ghost.users@,
                                        (#[trigger] body_ghost.records@[k].signer_ids@[t])@,
                                    ) by {
                                        assert(mr.signer_ids[t]
                                            == body_ghost.records@[k].signer_ids@[t]@);
                                        assert(model_has_user(m.users, mr.signer_ids[t]));
                                        let u = choose|u: int|
                                            0 <= u < m.users.len() && (#[trigger] m.users[u]).user_id
                                                == mr.signer_ids[t];
                                        assert(su_model(body_ghost.users@[u]) == m.users[u]);
                                        assert(body_ghost.users@[u].user_id@ == mr.signer_ids[t]);
                                    }
                                }
                                assert(body_reconstructible(body_ghost));
                                assert(false);
                            }
                        }
                        return Err(e);
                    },
                    Ok(l) => l,
                };
                proof {
                    if unique_model_ids(m.users) {
                        assert forall|a: int, b: int|
                            0 <= a < b < body_ghost.users@.len() implies (
                        #[trigger] body_ghost.users@[a]).user_id@ != (
                        #[trigger] body_ghost.users@[b]).user_id@ by {
                            assert(su_model(body_ghost.users@[a]) == m.users[a]);
                            assert(su_model(body_ghost.users@[b]) == m.users[b]);
                        }
                        assert(unique_user_ids(body_ghost.users@));
                        assert(su_models(body_ghost.users@) =~= m.users);
                        assert(users_view(ledger.users@) == su_models(body_ghost.users@));
                    }
                    assert(records_view(ledger.records@) =~= m.records);
                }
                let ghost recon_model = ledger_replay_model(ledger);
                let mut log = AppendLog::from_bytes(wal_bytes);
                let entries = match log.read_all_entries() {
                    Err(_) => {
                        return Err(StorageError::ChecksumMismatch);
                    },
                    Ok(v) => v,
                };
                proof {
                    assert(entry_models(entries@) =~= crate::append::wal_entry_seq(wb));
                }
                if entries.len() > 0 {
                    match Self::replay_wal(&mut ledger, &entries) {
                        Err(e) => {
                            return Err(e);
                        },
                        Ok(()) => {},
                    }
                } else {
                    proof {
                        assert(crate::append::wal_entry_seq(wb).len() == 0);
                        assert(replay_fold(recon_model, crate::append::wal_entry_seq(wb))
                            == recon_model);
                    }
                }
                let ghost replayed_model = ledger_replay_model(ledger);
                proof {
                    assert(replayed_model == replay_fold(
                        recon_model,
                        crate::append::wal_entry_seq(wb),
                    ));
                }
                let sorted = sort_records_by_index(ledger.records);
                ledger.records = sorted;
                proof {
                    assert(records_view(ledger.records@).to_multiset()
                        == replayed_model.records.to_multiset());
                    assert(users_view(ledger.users@) == replayed_model.users);
                }
                match ledger.verify_chain() {
                    Err(e) => {
                        let msg = match e {
                            LedgerError::ChainValidation(m_) => m_,
                            _ => String::from_str("Ledger error"),
                        };
                        Err(StorageError::ValidationFailed(msg))
                    }
                    Ok(_) => {
                        proof {
                            assert(chain_valid(ledger.records@, ledger.verify_registry@));
                            assert forall|k: int|
                                0 <= k < ledger.records@.len() implies (
                            #[trigger] ledger.records@[k]).index == k by {
                                assert(crate::ledger::record_ok(
                                    ledger.records@,
                                    ledger.verify_registry@,
                                    k,
                                ));
                            }
                            assert(ledger.dense());
                            if unique_model_ids(m.users) {
                                assert(recon_model =~= ReplayModel {
                                    records: m.records,
                                    users: m.users,
                                });
                            }
                        }
                        Ok(ledger)
                    }
                }
            }
            Err(StorageError::ChecksumMismatch) => Self::recover_from_wal(wal_bytes),
            Err(e) => Err(e),
        }
    }

    /// Replays the write-ahead log over a fresh ledger whose records
    /// are cleared, sorts, and re-verifies the chain; used when the
    /// snapshot body fails its checksum.
    fn recover_from_wal(wal_bytes: Vec<u8>) -> (r: Result<Ledger, StorageError>)
        ensures
            r matches Ok(l) ==> l.wf() && chain_valid(l.records@, l.verify_registry@),
            crate::append::sp_wal(wal_bytes@, 0) is Err ==> r == Err::<Ledger, StorageError>(
                StorageError::ChecksumMismatch,
            ),
            (crate::append::sp_wal(wal_bytes@, 0) is Ok && crate::append::wal_entry_seq(
                wal_bytes@,
            ).len() == 0) ==> (r matches Err(e) && e is ValidationFailed),
            (crate::append::sp_wal(wal_bytes@, 0) is Ok && r is Ok) ==> (r matches Ok(l)
                && exists|g: Seq<u8>|
                {
                    let folded = replay_fold(
                        #[trigger] genesis_seed_model(g),
                        crate::append::wal_entry_seq(wal_bytes@),
                    );
                    &&& records_view(l.records@).to_multiset() == folded.records.to_multiset()
                    &&& users_view(l.users@) == folded.users
                }),
    {
        let ghost wb = wal_bytes@;
        let mut log = AppendLog::from_bytes(wal_bytes);
        let entries = match log.read_all_entries() {
            Err(_) => {
                return Err(StorageError::ChecksumMismatch);
            },
            Ok(v) => v,
        };
        proof {
            assert(entry_models(entries@) =~= crate::append::wal_entry_seq(wb));
        }
        if entries.len() == 0 {
            return Err(
                StorageError::ValidationFailed(
                    String::from_str("Cannot recover: both snapshot and log are unusable"),
                ),
            );
        }
        let mut ledger = Ledger::new();
        ledger.records = Vec::new();
        let ghost gkey = ledger.users@[0].verifying_key@;
        let ghost init_model = ledger_replay_model(ledger);
        proof {
            assert(unique_indices(ledger.records@));
            assert(init_model.records =~= Seq::<RecordModel>::empty());
            assert(init_model.users =~= genesis_seed_model(gkey).users);
            assert(init_model =~= genesis_seed_model(gkey));
        }
        match Self::replay_wal(&mut ledger, &entries) {
            Err(e) => Err(e),
            Ok(()) => {
                let ghost replayed = ledger_replay_model(ledger);
                proof {
                    assert(replayed == replay_fold(
                        genesis_seed_model(gkey),
                        crate::append::wal_entry_seq(wb),
                    ));
                }
                let sorted = sort_records_by_index(ledger.records);
                ledger.records = sorted;
                proof {
                    assert(records_view(ledger.records@).to_multiset()
                        == replay_fold(
                        genesis_seed_model(gkey),
                        crate::append::wal_entry_seq(wb),
                    ).records.to_multiset());
                    assert(users_view(ledger.users@) == replay_fold(
                        genesis_seed_model(gkey),
                        crate::append::wal_entry_seq(wb),
                    ).users);
                }
                match ledger.verify_chain() {
                    Err(e) => {
                        let msg = match e {
                            LedgerError::ChainValidation(m_) => m_,
                            _ => String::from_str("Ledger error"),
                        };
                        Err(StorageError::ValidationFailed(msg))
                    }
                    Ok(_) => {
                        proof {
                            assert forall|k: int|
                                0 <= k < ledger.records@.len() implies (
                            #[trigger] ledger.records@[k]).index == k by {
                                assert(crate::ledger::record_ok(
                                    ledger.records@,
                                    ledger.verify_registry@,
                                    k,
                                ));
                            }
                            assert(ledger.dense());
                        }
                        Ok(ledger)
                    }
                }
            }
        }
    }

    /// The compacted snapshot image of a ledger; the caller writes it
    /// over the snapshot file and truncates the write-ahead log.
    pub fn compact(ledger: &Ledger) -> (r: Result<Vec<u8>, StorageError>)
        ensures
            r is Ok <==> crate::database::enc_body(crate::writer::ledger_body_model(*ledger)).len()
                + 168 <= u64::MAX,
            match r {
                Ok(v) => exists|created: u64, modified: u64|
                    v@ == crate::writer::spec_snapshot_bytes(
                        crate::writer::ledger_body_model(*ledger),
                        created,
                        modified,
                    ),
                Err(e) => e is Serialization,
            },
    {
        let mut writer = DatabaseWriter::new();
        match writer.write_ledger(ledger) {
            Err(e) => Err(e),
            Ok(()) => Ok(writer.buffer),
        }
    }

    /// A side snapshot of a ledger, with no write-ahead log interaction.
    pub fn create_snapshot(ledger: &Ledger) -> (r: Result<Vec<u8>, StorageError>)
        ensures
            r is Ok <==> crate::database::enc_body(crate::writer::ledger_body_model(*ledger)).len()
                + 168 <= u64::MAX,
            match r {
                Ok(v) => exists|created: u64, modified: u64|
                    v@ == crate::writer::spec_snapshot_bytes(
                        crate::writer::ledger_body_model(*ledger),
                        created,
                        modified,
                    ),
                Err(e) => e is Serialization,
            },
    {
        Self::compact(ledger)
    }

    /// Whether the given snapshot bytes pass every check of the reader;
    /// on failure the reader's own error is returned unchanged.
    pub fn verify_file(file_bytes: Vec<u8>) -> (r: Result<bool, StorageError>)
        ensures
            r is Ok <==> file_bytes@.len() >= 128 && {
                let h = crate::database::sp_header(file_bytes@);
                &&& h.magic == crate::database::snapshot_magic()
                &&& h.version_major == 1
                &&& snap_offsets_ok(file_bytes@)
                &&& snap_checksum_ok(file_bytes@)
                &&& snap_body_parse(file_bytes@) is Some
            },
            r is Ok ==> r == Ok::<bool, StorageError>(true),
            file_bytes@.len() < 128 ==> (r matches Err(e) && e is Deserialization),
            file_bytes@.len() >= 128 ==> {
                let h = crate::database::sp_header(file_bytes@);
                &&& (h.magic != crate::database::snapshot_magic() ==> r == Err::<
                    bool,
                    StorageError,
                >(StorageError::InvalidMagic))
                &&& (h.magic == crate::database::snapshot_magic() && h.version_major != 1
                    ==> r == Err::<bool, StorageError>(
                    StorageError::UnsupportedVersion(h.version_major, h.version_minor),
                ))
                &&& (h.magic == crate::database::snapshot_magic() && h.version_major == 1
                    && !snap_offsets_ok(file_bytes@) ==> (r matches Err(e)
                    && e is Deserialization))
                &&& (h.magic == crate::database::snapshot_magic() && h.version_major == 1
                    && snap_offsets_ok(file_bytes@) && !snap_checksum_ok(file_bytes@) ==> r
                    == Err::<bool, StorageError>(StorageError::ChecksumMismatch))
                &&& (h.magic == crate::database::snapshot_magic() && h.version_major == 1
                    && snap_offsets_ok(file_bytes@) && snap_checksum_ok(file_bytes@)
                    && snap_body_parse(file_bytes@) is None ==> (r matches Err(e)
                    && e is Deserialization))
            },
    {
        let reader = DatabaseReader::new(file_bytes);
        match reader.read_and_verify() {
            Ok(_) => Ok(true),
            Err(e) => Err(e),
        }
    }
}

/// Whether some record carries the given index.
fn contains_index(records: &Vec<Record>, idx: usize) -> (r: bool)
    ensures
        r == exists|k: int| 0 <= k < records@.len() && (#[trigger] records@[k]).index == idx,
{
    let n = records.len();
    let mut i: usize = 0;
    while i < n
        invariant
            i <= n,
            n == records@.len(),
            forall|k: int| 0 <= k < i ==> (#[trigger] records@[k]).index != idx,
        decreases n - i,
    {
        if records[i].index == idx {
            return true;
        }
        i = i + 1;
    }
    false
}

} // verus!
