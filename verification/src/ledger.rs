//! The in-memory ledger: an index-dense chain of records, a user
//! registry, and a verify-registry from user id to verifying key.
//!
//! `chain_valid` is the integrity statement: dense indices, genesis
//! sentinel, hash links, payload and record hashes that match the stored
//! fields, and one verifying signature per signer under the registered
//! key. Construction operations preserve it; `verify_chain` decides it.

use crate::crypto::{ed25519_verifies, sha256_hex_of};
use crate::decimal::u64_to_dec_string;
use crate::error::LedgerError;
use crate::decimal::dec_str;
use crate::record::{build_material, spec_payload_hash, spec_record_hash_of, Record};
use crate::user::User;
use vstd::prelude::*;
use vstd::utf8::encode_utf8;

verus! {

pub const GENESIS_PREV_HASH: &'static str = "00000000";

/// The genesis sentinel as a character sequence.
pub open spec fn genesis_prev_hash() -> Seq<char> {
    "00000000"@
}

/// First-match lookup in a list of (id, bytes) pairs.
pub open spec fn pairs_lookup(entries: Seq<(String, Vec<u8>)>, id: Seq<char>) -> Option<Seq<u8>>
    decreases entries.len(),
{
    if entries.len() == 0 {
        None
    } else if entries[0].0@ == id {
        Some(entries[0].1@)
    } else {
        pairs_lookup(entries.drop_first(), id)
    }
}

pub proof fn lemma_pairs_lookup_push(
    entries: Seq<(String, Vec<u8>)>,
    e: (String, Vec<u8>),
    id: Seq<char>,
)
    ensures
        pairs_lookup(entries.push(e), id) == if pairs_lookup(entries, id) is Some {
            pairs_lookup(entries, id)
        } else if id == e.0@ {
            Some(e.1@)
        } else {
            None
        },
    decreases entries.len(),
{
    if entries.len() == 0 {
        assert(entries.push(e)[0] == e);
        assert(entries.push(e).drop_first() =~= entries);
        assert(pairs_lookup(entries, id) is None);
    } else {
        assert(entries.push(e)[0] == entries[0]);
        assert(entries.push(e).drop_first() =~= entries.drop_first().push(e));
        lemma_pairs_lookup_push(entries.drop_first(), e, id);
    }
}

pub proof fn lemma_pairs_lookup_first_match(entries: Seq<(String, Vec<u8>)>, id: Seq<char>, i: int)
    requires
        0 <= i < entries.len(),
        forall|k: int| 0 <= k < i ==> (#[trigger] entries[k]).0@ != id,
        entries[i].0@ == id,
    ensures
        pairs_lookup(entries, id) == Some(entries[i].1@),
    decreases i,
{
    if i > 0 {
        assert(entries.drop_first()[i - 1] == entries[i]);
        assert(forall|k: int|
            0 <= k < i - 1 ==> (#[trigger] entries.drop_first()[k]) == entries[k + 1]);
        lemma_pairs_lookup_first_match(entries.drop_first(), id, i - 1);
    }
}

pub proof fn lemma_pairs_lookup_none(entries: Seq<(String, Vec<u8>)>, id: Seq<char>)
    requires
        forall|k: int| 0 <= k < entries.len() ==> (#[trigger] entries[k]).0@ != id,
    ensures
        pairs_lookup(entries, id) is None,
    decreases entries.len(),
{
    if entries.len() > 0 {
        assert(forall|k: int|
            0 <= k < entries.drop_first().len() ==> (#[trigger] entries.drop_first()[k])
                == entries[k + 1]);
        lemma_pairs_lookup_none(entries.drop_first(), id);
    }
}

pub proof fn lemma_pairs_lookup_found(entries: Seq<(String, Vec<u8>)>, id: Seq<char>)
    requires
        pairs_lookup(entries, id) is Some,
    ensures
        exists|k: int|
            0 <= k < entries.len() && (#[trigger] entries[k]).0@ == id && entries[k].1@
                == pairs_lookup(entries, id).unwrap(),
    decreases entries.len(),
{
    if entries.len() > 0 && entries[0].0@ != id {
        lemma_pairs_lookup_found(entries.drop_first(), id);
        let k = choose|k: int|
            0 <= k < entries.drop_first().len() && (#[trigger] entries.drop_first()[k]).0@ == id
                && entries.drop_first()[k].1@ == pairs_lookup(entries.drop_first(), id).unwrap();
        assert(entries[k + 1] == entries.drop_first()[k]);
    }
}

/// First-match lookup over (id, bytes) pairs.
pub fn pairs_get<'a>(entries: &'a Vec<(String, Vec<u8>)>, id: &String) -> (r: Option<&'a Vec<u8>>)
    ensures
        match r {
            Some(v) => pairs_lookup(entries@, id@) == Some(v@),
            None => pairs_lookup(entries@, id@) is None,
        },
{
    let n = entries.len();
    let mut i: usize = 0;
    while i < n
        invariant
            i <= n,
            n == entries@.len(),
            forall|k: int| 0 <= k < i ==> (#[trigger] entries@[k]).0@ != id@,
        decreases n - i,
    {
        if entries[i].0.eq(id) {
            proof {
                lemma_pairs_lookup_first_match(entries@, id@, i as int);
            }
            return Some(&entries[i].1);
        }
        i = i + 1;
    }
    proof {
        lemma_pairs_lookup_none(entries@, id@);
    }
    None
}

/// The link condition at position `i`: the genesis sentinel at 0, the
/// predecessor's record hash after that.
pub open spec fn link_ok(records: Seq<Record>, i: int) -> bool {
    if i == 0 {
        records[0].prev_hash@ == genesis_prev_hash()
    } else {
        records[i].prev_hash@ == records[i - 1].record_hash@
    }
}

/// One signer's signature on `r` verifies under the registered key.
pub open spec fn signer_sig_valid(r: Record, reg: Seq<(String, Vec<u8>)>, j: int) -> bool {
    let id = r.signer_ids@[j]@;
    &&& pairs_lookup(reg, id) is Some
    &&& pairs_lookup(r.signatures@, id) is Some
    &&& pairs_lookup(r.signatures@, id).unwrap().len() == 64
    &&& ed25519_verifies(
        pairs_lookup(reg, id).unwrap(),
        encode_utf8(r.record_hash@),
        pairs_lookup(r.signatures@, id).unwrap(),
    )
}

/// Every signer of `r` has a verifying signature.
pub open spec fn record_sigs_valid(r: Record, reg: Seq<(String, Vec<u8>)>) -> bool {
    forall|j: int| 0 <= j < r.signer_ids@.len() ==> signer_sig_valid(r, reg, j)
}

/// Everything `verify_chain` checks of the record at position `i`.
pub open spec fn record_ok(records: Seq<Record>, reg: Seq<(String, Vec<u8>)>, i: int) -> bool {
    &&& records[i].index == i
    &&& link_ok(records, i)
    &&& records[i].hashes_ok()
    &&& record_sigs_valid(records[i], reg)
}

/// Integrity of the whole chain against a verify-registry.
pub open spec fn chain_valid(records: Seq<Record>, reg: Seq<(String, Vec<u8>)>) -> bool {
    forall|i: int| 0 <= i < records.len() ==> record_ok(records, reg, i)
}

/// The diagnostic carried by the validation error for the first check
/// that fails on the record at position `i`.
pub open spec fn chain_error_msg(records: Seq<Record>, i: int) -> Seq<char> {
    if records[i].index != i {
        "Index mismatch at "@ + dec_str(i as nat)
    } else if !link_ok(records, i) {
        if i == 0 {
            "Invalid genesis"@
        } else {
            "Broken chain at "@ + dec_str(i as nat)
        }
    } else if records[i].payload_hash@ != spec_payload_hash(records[i].payload@) {
        "Payload tampered at "@ + dec_str(i as nat)
    } else if records[i].record_hash@ != spec_record_hash_of(records[i]) {
        "Record hash mismatch at "@ + dec_str(i as nat)
    } else {
        "Signature validation failed at "@ + dec_str(i as nat)
    }
}

/// Registering one more id that was absent before changes no existing
/// lookup, so chain validity is kept.
pub proof fn lemma_chain_valid_register(
    records: Seq<Record>,
    reg: Seq<(String, Vec<u8>)>,
    e: (String, Vec<u8>),
)
    requires
        chain_valid(records, reg),
        pairs_lookup(reg, e.0@) is None,
    ensures
        chain_valid(records, reg.push(e)),
{
    let reg2 = reg.push(e);
    assert forall|i: int| 0 <= i < records.len() implies record_ok(records, reg2, i) by {
        assert(record_ok(records, reg, i));
        assert forall|j: int|
            0 <= j < records[i].signer_ids@.len() implies signer_sig_valid(records[i], reg2, j) by {
            assert(signer_sig_valid(records[i], reg, j));
            let id = records[i].signer_ids@[j]@;
            lemma_pairs_lookup_push(reg, e, id);
        }
    }
}

#[derive(Debug)]
pub struct Ledger {
    pub records: Vec<Record>,
    pub users: Vec<User>,
    pub verify_registry: Vec<(String, Vec<u8>)>,
}

impl Ledger {
    /// The registry is sound: one entry per user, in step with `users`,
    /// unique ids, 32-byte verifying keys.
    pub open spec fn reg_wf(&self) -> bool {
        &&& self.verify_registry@.len() == self.users@.len()
        &&& forall|i: int|
            0 <= i < self.users@.len() ==> (#[trigger] self.verify_registry@[i]).0@
                == self.users@[i].user_id@ && self.verify_registry@[i].1@
                == self.users@[i].verifying_key@ && self.verify_registry@[i].1@.len() == 32
        &&& forall|i: int, j: int|
            0 <= i < j < self.verify_registry@.len() ==> (#[trigger] self.verify_registry@[i]).0@
                != (#[trigger] self.verify_registry@[j]).0@
    }

    /// Record indices are dense from 0.
    pub open spec fn dense(&self) -> bool {
        forall|i: int| 0 <= i < self.records@.len() ==> (#[trigger] self.records@[i]).index == i
    }

    pub open spec fn wf(&self) -> bool {
        self.reg_wf() && self.dense()
    }

    /// Whether `id` is registered.
    pub open spec fn spec_registered(&self, id: Seq<char>) -> bool {
        pairs_lookup(self.verify_registry@, id) is Some
    }

    /// The signers that `add_record` relies on: sound users registered
    /// under their own verifying keys.
    pub open spec fn signers_registered(&self, signers: Seq<User>) -> bool {
        forall|i: int|
            0 <= i < signers.len() ==> (#[trigger] signers[i]).owns_key() && pairs_lookup(
                self.verify_registry@,
                signers[i].user_id@,
            ) == Some(signers[i].verifying_key@)
    }

    /// Creates a ledger holding only the genesis record, signed by a
    /// fresh synthetic GENESIS user that is placed in the registry.
    pub fn new() -> (l: Ledger)
        ensures
            l.wf(),
            l.records@.len() == 1,
            l.records@[0].index == 0,
            l.records@[0].payload@ == "Genesis"@,
            l.records@[0].prev_hash@ == genesis_prev_hash(),
            l.users@.len() == 1,
            l.users@[0].user_id@ == "GENESIS"@,
            l.users@[0].roles.deep_view() =~= Seq::<Seq<char>>::empty(),
            l.users@[0].verifying_key@.len() == 32,
            l.verify_registry@.len() == 1,
            l.verify_registry@[0].0@ == "GENESIS"@,
            chain_valid(l.records@, l.verify_registry@),
    {
        let genesis_user = User::new("GENESIS");
        let stored_user = genesis_user.clone();
        let user_id = genesis_user.user_id.clone();
        let verifying_key = genesis_user.verifying_key.clone();
        let ghost gvk = genesis_user.verifying_key@;

        let mut signers: Vec<User> = Vec::new();
        signers.push(genesis_user);
        let genesis_record = Record::new(0, "Genesis", "00000000", signers);

        let mut users: Vec<User> = Vec::new();
        let mut verify_registry: Vec<(String, Vec<u8>)> = Vec::new();
        let mut records: Vec<Record> = Vec::new();

        users.push(stored_user);
        verify_registry.push((user_id, verifying_key));
        records.push(genesis_record);

        let l = Ledger { records, users, verify_registry };
        proof {
            assert(l.verify_registry@[0].1@ =~= gvk);
            assert(l.verify_registry@[0].1@.len() == 32);
            let r = l.records@[0];
            let id = r.signer_ids@[0]@;
            assert(pairs_lookup(l.verify_registry@, id) == Some(gvk));
            assert(pairs_lookup(r.signatures@, id) == Some(r.signatures@[0].1@));
            assert(record_ok(l.records@, l.verify_registry@, 0));
        }
        l
    }

    /// Registers a user: inserts id and verifying key. Registering an
    /// id already present under the same key is a no-op; under another
    /// key it is rejected.
    pub fn register_user(&mut self, user: User) -> (r: Result<(), LedgerError>)
        requires
            old(self).reg_wf(),
            user.verifying_key@.len() == 32,
        ensures
            final(self).records == old(self).records,
            final(self).reg_wf(),
            old(self).dense() ==> final(self).dense(),
            match r {
                Ok(()) => {
                    &&& final(self).spec_registered(user.user_id@)
                    &&& pairs_lookup(final(self).verify_registry@, user.user_id@) == Some(
                        user.verifying_key@,
                    )
                    &&& (if old(self).spec_registered(user.user_id@) {
                        final(self).verify_registry == old(self).verify_registry
                            && final(self).users == old(self).users
                    } else {
                        &&& final(self).verify_registry@.len() == old(
                            self,
                        ).verify_registry@.len() + 1
                        &&& forall|i: int|
                            0 <= i < old(self).verify_registry@.len()
                                ==> final(self).verify_registry@[i] == old(
                                self,
                            ).verify_registry@[i]
                        &&& final(self).verify_registry@.last().0@ == user.user_id@
                        &&& final(self).verify_registry@.last().1@ == user.verifying_key@
                        &&& final(self).users@.len() == old(self).users@.len() + 1
                        &&& forall|i: int|
                            0 <= i < old(self).users@.len() ==> final(self).users@[i] == old(
                                self,
                            ).users@[i]
                        &&& final(self).users@.last().user_id@ == user.user_id@
                        &&& final(self).users@.last().verifying_key@ == user.verifying_key@
                        &&& final(self).users@.last().roles.deep_view()
                            == user.roles.deep_view()
                        &&& final(self).users@.last().role_set() == user.role_set()
                    })
                    &&& (chain_valid(old(self).records@, old(self).verify_registry@)
                        ==> chain_valid(final(self).records@, final(self).verify_registry@))
                    &&& (forall|id: Seq<char>|
                        old(self).spec_registered(id) ==> pairs_lookup(
                            final(self).verify_registry@,
                            id,
                        ) == pairs_lookup(old(self).verify_registry@, id))
                },
                Err(e) => {
                    &&& e == LedgerError::AlreadyRegistered
                    &&& old(self).spec_registered(user.user_id@)
                    &&& pairs_lookup(old(self).verify_registry@, user.user_id@) != Some(
                        user.verifying_key@,
                    )
                    &&& final(self).verify_registry == old(self).verify_registry
                    &&& final(self).users == old(self).users
                },
            },
    {
        let existing = pairs_get(&self.verify_registry, &user.user_id);
        match existing {
            Some(vk) => {
                if bytes_eq(vk, &user.verifying_key) {
                    Ok(())
                } else {
                    Err(LedgerError::AlreadyRegistered)
                }
            }
            None => {
                let ghost old_reg = self.verify_registry@;
                let stored = user.clone();
                let entry = (user.user_id, user.verifying_key);
                self.users.push(stored);
                self.verify_registry.push(entry);
                proof {
                    assert(self.verify_registry@ =~= old_reg.push(entry));
                    lemma_pairs_lookup_push(old_reg, entry, entry.0@);
                    assert forall|i: int, j: int|
                        0 <= i < j < self.verify_registry@.len() implies (
                    #[trigger] self.verify_registry@[i]).0@ != (
                    #[trigger] self.verify_registry@[j]).0@ by {
                        if j == old_reg.len() as int {
                            if self.verify_registry@[i].0@ == entry.0@ {
                                assert(old_reg[i] == self.verify_registry@[i]);
                                lemma_pairs_lookup_some_of_member(old_reg, i);
                            }
                        }
                    }
                    if chain_valid(old(self).records@, old_reg) {
                        lemma_chain_valid_register(old(self).records@, old_reg, entry);
                    }
                    assert forall|id: Seq<char>|
                        old(self).spec_registered(id) implies pairs_lookup(
                        self.verify_registry@,
                        id,
                    ) == pairs_lookup(old_reg, id) by {
                        lemma_pairs_lookup_push(old_reg, entry, id);
                    }
                }
                Ok(())
            }
        }
    }

    /// Appends a record carrying `payload`, signed by every user in
    /// `signers`. Empty payloads, empty signer lists and unregistered
    /// signers are rejected, in that order of checks.
    pub fn add_record(&mut self, payload: &str, signers: Vec<User>) -> (r: Result<
        usize,
        LedgerError,
    >)
        requires
            old(self).wf(),
            old(self).records@.len() < usize::MAX,
            forall|i: int| 0 <= i < signers@.len() ==> (#[trigger] signers@[i]).wf(),
        ensures
            final(self).users == old(self).users,
            final(self).verify_registry == old(self).verify_registry,
            final(self).wf(),
            match r {
                Ok(idx) => {
                    &&& payload@.len() > 0
                    &&& signers@.len() > 0
                    &&& forall|i: int|
                        0 <= i < signers@.len() ==> old(self).spec_registered(
                            (#[trigger] signers@[i]).user_id@,
                        )
                    &&& old(self).records@.len() > 0
                    &&& idx == old(self).records@.len()
                    &&& final(self).records@.len() == old(self).records@.len() + 1
                    &&& forall|i: int|
                        0 <= i < old(self).records@.len()
                            ==> final(self).records@[i] == old(self).records@[i]
                    &&& {
                        let rec = final(self).records@.last();
                        &&& rec.payload@ == payload@
                        &&& rec.index == idx
                        &&& rec.prev_hash@ == old(self).records@.last().record_hash@
                        &&& rec.hashes_ok()
                        &&& rec.signer_ids@.len() == signers@.len()
                        &&& forall|i: int|
                            0 <= i < signers@.len() ==> (#[trigger] rec.signer_ids@[i])@
                                == signers@[i].user_id@
                    }
                    &&& (chain_valid(old(self).records@, old(self).verify_registry@)
                        && old(self).signers_registered(signers@) ==> chain_valid(
                        final(self).records@,
                        final(self).verify_registry@,
                    ))
                },
                Err(e) => {
                    &&& (e is EmptyPayload || e is NoSigners || e is UnregisteredUser
                        || e is RecordAccessFailed)
                    &&& final(self).records == old(self).records
                    &&& (e == LedgerError::EmptyPayload <==> payload@.len() == 0)
                    &&& (e == LedgerError::NoSigners <==> payload@.len() > 0 && signers@.len()
                        == 0)
                    &&& (e == LedgerError::UnregisteredUser <==> payload@.len() > 0
                        && signers@.len() > 0 && exists|i: int|
                        0 <= i < signers@.len() && !old(self).spec_registered(
                            (#[trigger] signers@[i]).user_id@,
                        ))
                    &&& (e == LedgerError::RecordAccessFailed <==> payload@.len() > 0
                        && signers@.len() > 0 && (forall|i: int|
                        0 <= i < signers@.len() ==> old(self).spec_registered(
                            (#[trigger] signers@[i]).user_id@,
                        )) && old(self).records@.len() == 0)
                },
            },
    {
        if payload.unicode_len() == 0 {
            return Err(LedgerError::EmptyPayload);
        }
        if signers.len() == 0 {
            return Err(LedgerError::NoSigners);
        }
        let n = signers.len();
        let mut i: usize = 0;
        while i < n
            invariant
                *self == *old(self),
                old(self).wf(),
                payload@.len() > 0,
                n > 0,
                i <= n,
                n == signers@.len(),
                forall|k: int|
                    0 <= k < i ==> self.spec_registered((#[trigger] signers@[k]).user_id@),
            decreases n - i,
        {
            let found = pairs_get(&self.verify_registry, &signers[i].user_id);
            if found.is_none() {
                proof {
                    assert(!self.spec_registered(signers@[i as int].user_id@));
                }
                return Err(LedgerError::UnregisteredUser);
            }
            i = i + 1;
        }
        if self.records.len() == 0 {
            return Err(LedgerError::RecordAccessFailed);
        }
        let last_pos = self.records.len() - 1;
        let last_index = self.records[last_pos].index;
        proof {
            assert(last_index == last_pos);
        }
        let new_index = last_index + 1;
        let prev_hash_owned = self.records[last_pos].record_hash.clone();
        let rec = Record::new(new_index, payload, prev_hash_owned.as_str(), signers);
        let ghost old_records = self.records@;
        self.records.push(rec);
        proof {
            let reg = self.verify_registry@;
            let new_records = self.records@;
            let r = new_records.last();
            assert(new_records =~= old_records.push(r));
            if chain_valid(old_records, reg) && old(self).signers_registered(signers@) {
                lemma_chain_valid_append(old_records, reg, r, signers@);
            }
        }
        Ok(new_index)
    }

    /// The number of records, the genesis record included.
    pub fn length(&self) -> (n: usize)
        ensures
            n == self.records@.len(),
    {
        self.records.len()
    }

    /// The record at `index`, while indices are dense.
    pub fn get_record(&self, index: usize) -> (r: Option<&Record>)
        ensures
            match r {
                Some(rec) => index < self.records@.len() && rec == self.records@[index as int],
                None => index >= self.records@.len(),
            },
    {
        if index < self.records.len() {
            Some(&self.records[index])
        } else {
            None
        }
    }

    /// Checks every signer's signature on `record` against the
    /// verify-registry.
    fn verify_signatures(&self, record: &Record) -> (r: bool)
        requires
            self.reg_wf(),
        ensures
            r == record_sigs_valid(*record, self.verify_registry@),
    {
        let n = record.signer_ids.len();
        let mut j: usize = 0;
        while j < n
            invariant
                self.reg_wf(),
                j <= n,
                n == record.signer_ids@.len(),
                forall|k: int|
                    0 <= k < j ==> signer_sig_valid(*record, self.verify_registry@, k),
            decreases n - j,
        {
            let id = &record.signer_ids[j];
            let vk_opt = pairs_get(&self.verify_registry, id);
            match vk_opt {
                None => {
                    proof {
                        assert(!signer_sig_valid(*record, self.verify_registry@, j as int));
                    }
                    return false;
                }
                Some(vk) => {
                    let sig_opt = pairs_get(&record.signatures, id);
                    match sig_opt {
                        None => {
                            proof {
                                assert(!signer_sig_valid(
                                    *record,
                                    self.verify_registry@,
                                    j as int,
                                ));
                            }
                            return false;
                        }
                        Some(sig) => {
                            if sig.len() != 64 {
                                proof {
                                    assert(!signer_sig_valid(
                                        *record,
                                        self.verify_registry@,
                                        j as int,
                                    ));
                                }
                                return false;
                            }
                            proof {
                                lemma_pairs_lookup_found(self.verify_registry@, id@);
                            }
                            let ok = crate::crypto::verify_signature(
                                vk.as_slice(),
                                record.record_hash.as_str().as_bytes(),
                                sig.as_slice(),
                            );
                            if !ok {
                                proof {
                                    assert(!signer_sig_valid(
                                        *record,
                                        self.verify_registry@,
                                        j as int,
                                    ));
                                }
                                return false;
                            }
                        }
                    }
                }
            }
            j = j + 1;
        }
        true
    }

    /// Walks the chain and re-derives every hash and signature check;
    /// succeeds exactly when the chain is valid against the registry.
    pub fn verify_chain(&self) -> (r: Result<bool, LedgerError>)
        requires
            self.reg_wf(),
        ensures
            r is Ok <==> chain_valid(self.records@, self.verify_registry@),
            r is Ok ==> r == Ok::<bool, LedgerError>(true),
            r is Err ==> exists|i: int|
                {
                    &&& 0 <= i < self.records@.len()
                    &&& !(#[trigger] record_ok(self.records@, self.verify_registry@, i))
                    &&& (forall|k: int|
                        0 <= k < i ==> record_ok(self.records@, self.verify_registry@, k))
                    &&& (r->Err_0 matches LedgerError::ChainValidation(m) && m@
                        == chain_error_msg(self.records@, i))
                },
    {
        let n = self.records.len();
        let mut i: usize = 0;
        while i < n
            invariant
                self.reg_wf(),
                i <= n,
                n == self.records@.len(),
                forall|k: int| 0 <= k < i ==> record_ok(self.records@, self.verify_registry@, k),
            decreases n - i,
        {
            let record = &self.records[i];
            if record.index != i {
                proof {
                    assert(!record_ok(self.records@, self.verify_registry@, i as int));
                }
                return Err(
                    LedgerError::ChainValidation(
                        concat_msg("Index mismatch at ", i as u64),
                    ),
                );
            }
            if i == 0 {
                if !str_eq_owned(GENESIS_PREV_HASH, &record.prev_hash) {
                    proof {
                        reveal_strlit("00000000");
                        assert(!link_ok(self.records@, 0));
                        assert(!record_ok(self.records@, self.verify_registry@, 0));
                    }
                    return Err(
                        LedgerError::ChainValidation(String::from_str("Invalid genesis")),
                    );
                }
                proof {
                    reveal_strlit("00000000");
                }
            } else {
                if !record.prev_hash.eq(&self.records[i - 1].record_hash) {
                    proof {
                        assert(!link_ok(self.records@, i as int));
                        assert(!record_ok(self.records@, self.verify_registry@, i as int));
                    }
                    return Err(
                        LedgerError::ChainValidation(concat_msg("Broken chain at ", i as u64)),
                    );
                }
            }
            let computed_payload_hash = sha256_hex_of(record.payload.as_str().as_bytes());
            if !computed_payload_hash.eq(&record.payload_hash) {
                proof {
                    assert(!self.records@[i as int].hashes_ok());
                    assert(!record_ok(self.records@, self.verify_registry@, i as int));
                }
                return Err(
                    LedgerError::ChainValidation(concat_msg("Payload tampered at ", i as u64)),
                );
            }
            let material = build_material(
                record.index as u64,
                record.prev_hash.as_str(),
                record.payload_hash.as_str(),
                record.timestamp,
                record.nonce,
                &record.signer_ids,
            );
            let computed_record_hash = sha256_hex_of(material.as_str().as_bytes());
            if !computed_record_hash.eq(&record.record_hash) {
                proof {
                    assert(!self.records@[i as int].hashes_ok());
                    assert(!record_ok(self.records@, self.verify_registry@, i as int));
                }
                return Err(
                    LedgerError::ChainValidation(
                        concat_msg("Record hash mismatch at ", i as u64),
                    ),
                );
            }
            if !self.verify_signatures(record) {
                proof {
                    assert(!record_ok(self.records@, self.verify_registry@, i as int));
                }
                return Err(
                    LedgerError::ChainValidation(
                        concat_msg("Signature validation failed at ", i as u64),
                    ),
                );
            }
            i = i + 1;
        }
        Ok(true)
    }
}

/// An id carried by some entry is always found by the lookup.
pub proof fn lemma_pairs_lookup_some_of_member(entries: Seq<(String, Vec<u8>)>, i: int)
    requires
        0 <= i < entries.len(),
    ensures
        pairs_lookup(entries, entries[i].0@) is Some,
    decreases entries.len(),
{
    if i > 0 && entries[0].0@ != entries[i].0@ {
        assert(entries.drop_first()[i - 1] == entries[i]);
        lemma_pairs_lookup_some_of_member(entries.drop_first(), i - 1);
    }
}

/// Appending a freshly constructed, correctly signed record keeps the
/// chain valid.
proof fn lemma_chain_valid_append(
    records: Seq<Record>,
    reg: Seq<(String, Vec<u8>)>,
    r: Record,
    signers: Seq<User>,
)
    requires
        chain_valid(records, reg),
        records.len() > 0,
        forall|i: int| 0 <= i < records.len() ==> (#[trigger] records[i]).index == i,
        r.index == records.len(),
        r.prev_hash@ == records.last().record_hash@,
        r.hashes_ok(),
        r.sig_shape_ok(),
        r.signer_ids@.len() == signers.len(),
        forall|i: int|
            0 <= i < signers.len() ==> (#[trigger] r.signer_ids@[i])@ == signers[i].user_id@,
        forall|i: int|
            0 <= i < signers.len() ==> pairs_lookup(reg, (#[trigger] signers[i]).user_id@)
                == Some(signers[i].verifying_key@),
        forall|i: int|
            0 <= i < signers.len() ==> ed25519_verifies(
                (#[trigger] signers[i]).verifying_key@,
                encode_utf8(r.record_hash@),
                r.signatures@[i].1@,
            ),
    ensures
        chain_valid(records.push(r), reg),
{
    let new_records = records.push(r);
    assert forall|i: int| 0 <= i < new_records.len() implies record_ok(new_records, reg, i) by {
        if i < records.len() {
            assert(record_ok(records, reg, i));
            assert(new_records[i] == records[i]);
            if i > 0 {
                assert(new_records[i - 1] == records[i - 1]);
            }
            assert(link_ok(new_records, i));
        } else {
            assert(new_records[i] == r);
            assert(new_records[i - 1] == records[i - 1]);
            assert(records.last() == records[i - 1]);
            assert(link_ok(new_records, i));
            assert forall|j: int|
                0 <= j < r.signer_ids@.len() implies signer_sig_valid(r, reg, j) by {
                lemma_sig_lookup_parallel(r, signers, reg, j);
            }
        }
    }
}

/// In a record whose signatures run parallel to its signers, the lookup
/// for signer `j`'s id lands on some entry `k` signed by signer `k` with
/// the same id, whose signature verifies; so signer `j`'s check passes.
proof fn lemma_sig_lookup_parallel(
    r: Record,
    signers: Seq<User>,
    reg: Seq<(String, Vec<u8>)>,
    j: int,
)
    requires
        r.sig_shape_ok(),
        r.signer_ids@.len() == signers.len(),
        0 <= j < signers.len(),
        forall|i: int|
            0 <= i < signers.len() ==> (#[trigger] r.signer_ids@[i])@ == signers[i].user_id@,
        forall|i: int|
            0 <= i < signers.len() ==> pairs_lookup(reg, (#[trigger] signers[i]).user_id@)
                == Some(signers[i].verifying_key@),
        forall|i: int|
            0 <= i < signers.len() ==> ed25519_verifies(
                (#[trigger] signers[i]).verifying_key@,
                encode_utf8(r.record_hash@),
                r.signatures@[i].1@,
            ),
    ensures
        signer_sig_valid(r, reg, j),
{
    let id = r.signer_ids@[j]@;
    assert(pairs_lookup(reg, id) == Some(signers[j].verifying_key@));
    assert(r.signatures@[j].0@ == id);
    lemma_pairs_lookup_some_match(r.signatures@, id);
    let k = choose|k: int|
        0 <= k < r.signatures@.len() && (forall|m: int|
            0 <= m < k ==> (#[trigger] r.signatures@[m]).0@ != id) && r.signatures@[k].0@ == id
            && pairs_lookup(r.signatures@, id) == Some(r.signatures@[k].1@);
    assert(r.signer_ids@[k]@ == id);
    assert(signers[k].user_id@ == id);
    assert(pairs_lookup(reg, id) == Some(signers[k].verifying_key@));
    assert(ed25519_verifies(
        signers[k].verifying_key@,
        encode_utf8(r.record_hash@),
        r.signatures@[k].1@,
    ));
}

/// A lookup that can find an entry finds the first one carrying the id.
proof fn lemma_pairs_lookup_some_match(entries: Seq<(String, Vec<u8>)>, id: Seq<char>)
    requires
        exists|i: int| 0 <= i < entries.len() && (#[trigger] entries[i]).0@ == id,
    ensures
        exists|k: int|
            0 <= k < entries.len() && (forall|m: int|
                0 <= m < k ==> (#[trigger] entries[m]).0@ != id) && (#[trigger] entries[k]).0@
                == id && pairs_lookup(entries, id) == Some(entries[k].1@),
    decreases entries.len(),
{
    if entries[0].0@ == id {
        assert(pairs_lookup(entries, id) == Some(entries[0].1@));
    } else {
        let i = choose|i: int| 0 <= i < entries.len() && (#[trigger] entries[i]).0@ == id;
        assert(entries.drop_first()[i - 1] == entries[i]);
        lemma_pairs_lookup_some_match(entries.drop_first(), id);
        let k = choose|k: int|
            0 <= k < entries.drop_first().len() && (forall|m: int|
                0 <= m < k ==> (#[trigger] entries.drop_first()[m]).0@ != id) && (
            #[trigger] entries.drop_first()[k]).0@ == id && pairs_lookup(
                entries.drop_first(),
                id,
            ) == Some(entries.drop_first()[k].1@);
        assert(entries.drop_first()[k] == entries[k + 1]);
        assert forall|m: int| 0 <= m < k + 1 implies (#[trigger] entries[m]).0@ != id by {
            if m > 0 {
                assert(entries.drop_first()[m - 1] == entries[m]);
            }
        }
    }
}

/// Byte-for-byte equality of two byte vectors.
pub fn bytes_eq(a: &Vec<u8>, b: &Vec<u8>) -> (r: bool)
    ensures
        r == (a@ == b@),
{
    if a.len() != b.len() {
        return false;
    }
    let n = a.len();
    let mut i: usize = 0;
    while i < n
        invariant
            i <= n,
            n == a@.len(),
            n == b@.len(),
            forall|k: int| 0 <= k < i ==> a@[k] == b@[k],
        decreases n - i,
    {
        if a[i] != b[i] {
            return false;
        }
        i = i + 1;
    }
    proof {
        assert(a@ =~= b@);
    }
    true
}

/// Equality of a string slice against an owned string.
fn str_eq_owned(a: &str, b: &String) -> (r: bool)
    ensures
        r == (a@ == b@),
{
    let a_owned = String::from_str(a);
    a_owned.eq(b)
}

/// A diagnostic message: a fixed prefix followed by a decimal index.
fn concat_msg(prefix: &str, i: u64) -> (s: String)
    ensures
        s@ == prefix@ + crate::decimal::dec_str(i as nat),
{
    let mut s = String::from_str(prefix);
    let num = u64_to_dec_string(i);
    s.append(num.as_str());
    s
}

} // verus!
