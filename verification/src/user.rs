//! Users: an identifier, an Ed25519 keypair held as plain bytes, and a
//! set of role strings. The ledger's registry stores verifying keys only;
//! signing keys stay inside `User` values held by their owners.

use crate::crypto::{
    ed25519_signature, ed25519_verifies, ed25519_verifying_key, fresh_secret_key, sign_message,
    verifying_key_of,
};
use vstd::prelude::*;
use vstd::slice::slice_to_vec;

verus! {

broadcast use vstd::seq_lib::lemma_seq_contains_after_push;

#[derive(Debug)]
pub struct User {
    pub user_id: String,
    pub signing_key: Vec<u8>,
    pub verifying_key: Vec<u8>,
    pub roles: Vec<String>,
}

impl Clone for User {
    /// A clone carries the same id, keys and roles.
    fn clone(&self) -> (u: User)
        ensures
            u.user_id@ == self.user_id@,
            u.sk() == self.sk(),
            u.verifying_key@ == self.verifying_key@,
            u.roles.deep_view() == self.roles.deep_view(),
            u.wf() == self.wf(),
            u.owns_key() == self.owns_key(),
            u.role_set() == self.role_set(),
    {
        let u = User {
            user_id: self.user_id.clone(),
            signing_key: self.signing_key.clone(),
            verifying_key: self.verifying_key.clone(),
            roles: self.roles.clone(),
        };
        proof {
            assert(u.signing_key@ =~= self.signing_key@);
            assert(u.verifying_key@ =~= self.verifying_key@);
            assert(u.roles.deep_view() =~= self.roles.deep_view());
        }
        u
    }
}

impl User {
    /// The signing key bytes as a specification value.
    pub open spec fn sk(&self) -> Seq<u8> {
        self.signing_key@
    }

    /// Both keys have the length Ed25519 gives them.
    pub open spec fn wf(&self) -> bool {
        self.sk().len() == 32 && self.verifying_key@.len() == 32
    }

    /// The stored verifying key is the one derived from the stored
    /// signing key, so signatures this user produces verify under it.
    pub open spec fn owns_key(&self) -> bool {
        self.verifying_key@ == ed25519_verifying_key(self.sk())
    }

    /// The set of roles this user holds.
    pub open spec fn role_set(&self) -> Set<Seq<char>> {
        self.roles.deep_view().to_set()
    }

    /// Mints a user with a fresh random keypair and no roles.
    pub fn new(user_id: &str) -> (u: User)
        ensures
            u.user_id@ == user_id@,
            u.roles@ =~= Seq::<String>::empty(),
            u.wf(),
            u.owns_key(),
    {
        let signing_key = fresh_secret_key();
        let verifying_key = verifying_key_of(signing_key.as_slice());
        User {
            user_id: String::from_str(user_id),
            signing_key,
            verifying_key,
            roles: Vec::new(),
        }
    }

    /// Signs raw bytes with this user's signing key.
    pub fn sign(&self, data: &[u8]) -> (sig: Vec<u8>)
        requires
            self.wf(),
        ensures
            sig@ == ed25519_signature(self.sk(), data@),
            sig@.len() == 64,
            self.owns_key() ==> ed25519_verifies(self.verifying_key@, data@, sig@),
    {
        sign_message(self.signing_key.as_slice(), data)
    }

    /// Grants a role; granting a role already held changes nothing.
    pub fn add_role(&mut self, role: &str)
        ensures
            final(self).user_id == old(self).user_id,
            final(self).sk() == old(self).sk(),
            final(self).verifying_key == old(self).verifying_key,
            final(self).role_set() =~= old(self).role_set().insert(role@),
    {
        let role_string = String::from_str(role);
        if !self.has_role_string(&role_string) {
            self.roles.push(role_string);
            proof {
                let new_view = self.roles.deep_view();
                let old_view = old(self).roles.deep_view();
                assert(new_view =~= old_view.push(role@));
                assert forall|x: Seq<char>| #[trigger]
                    new_view.contains(x) implies old_view.contains(x) || x == role@ by {
                    let j = choose|j: int| 0 <= j < new_view.len() && new_view[j] == x;
                    if j < old_view.len() {
                        assert(old_view[j] == x);
                    }
                }
                assert(new_view.contains(role@)) by {
                    assert(new_view[old_view.len() as int] == role@);
                }
                assert forall|x: Seq<char>| #[trigger]
                    old_view.contains(x) implies new_view.contains(x) by {
                    let j = choose|j: int| 0 <= j < old_view.len() && old_view[j] == x;
                    assert(new_view[j] == x);
                }
                assert(self.role_set() =~= old(self).role_set().insert(role@));
            }
        } else {
            proof {
                assert(old(self).role_set().contains(role@));
                assert(self.role_set() =~= old(self).role_set().insert(role@));
            }
        }
    }

    /// Whether this user holds the given role.
    pub fn has_role(&self, role: &str) -> (r: bool)
        ensures
            r == self.role_set().contains(role@),
    {
        let role_string = String::from_str(role);
        self.has_role_string(&role_string)
    }

    /// Whether this user holds the given role.
    pub fn has_role_string(&self, role: &String) -> (r: bool)
        ensures
            r == self.role_set().contains(role@),
    {
        let n = self.roles.len();
        let mut i: usize = 0;
        while i < n
            invariant
                i <= n,
                n == self.roles@.len(),
                forall|k: int| 0 <= k < i ==> self.roles.deep_view()[k] != role@,
            decreases n - i,
        {
            if self.roles[i].eq(role) {
                proof {
                    assert(self.roles.deep_view()[i as int] == role@);
                }
                return true;
            }
            i = i + 1;
        }
        proof {
            if self.role_set().contains(role@) {
                let j = choose|j: int|
                    0 <= j < self.roles.deep_view().len() && self.roles.deep_view()[j] == role@;
                assert(false);
            }
        }
        false
    }

    /// Revokes a role; revoking one not held changes nothing.
    pub fn remove_role(&mut self, role: &str)
        ensures
            final(self).user_id == old(self).user_id,
            final(self).sk() == old(self).sk(),
            final(self).verifying_key == old(self).verifying_key,
            final(self).role_set() =~= old(self).role_set().remove(role@),
    {
        let role_string = String::from_str(role);
        let n = self.roles.len();
        let mut out: Vec<String> = Vec::new();
        let mut i: usize = 0;
        while i < n
            invariant
                i <= n,
                n == self.roles@.len(),
                role_string@ == role@,
                out.deep_view().to_set() =~= self.roles.deep_view().take(i as int).to_set().remove(
                    role@,
                ),
            decreases n - i,
        {
            let ghost prev_take = self.roles.deep_view().take(i as int);
            let ghost next_take = self.roles.deep_view().take(i + 1);
            let ghost elem = self.roles.deep_view()[i as int];
            let ghost prev_out = out.deep_view();
            proof {
                assert(next_take =~= prev_take.push(elem));
            }
            if !self.roles[i].eq(&role_string) {
                proof {
                    assert(elem != role@);
                }
                let kept = self.roles[i].clone();
                proof {
                    assert(kept@ == elem);
                }
                out.push(kept);
                proof {
                    assert(out.deep_view() =~= prev_out.push(elem));
                    assert forall|x: Seq<char>| #[trigger]
                        out.deep_view().contains(x) implies next_take.to_set().remove(
                        role@,
                    ).contains(x) by {
                        let j = choose|j: int|
                            0 <= j < out.deep_view().len() && out.deep_view()[j] == x;
                        if j < prev_out.len() {
                            assert(prev_out[j] == x);
                            assert(prev_out.contains(x));
                            assert(prev_out.to_set().contains(x));
                            assert(prev_take.to_set().remove(role@).contains(x));
                            let k = choose|k: int|
                                0 <= k < prev_take.len() && prev_take[k] == x;
                            assert(next_take[k] == x);
                            assert(next_take.contains(x));
                        } else {
                            assert(x == elem);
                            assert(next_take[i as int] == elem);
                            assert(next_take.contains(x));
                        }
                    }
                    assert forall|x: Seq<char>|
                        next_take.to_set().remove(role@).contains(x) implies #[trigger]
                        out.deep_view().contains(x) by {
                        let j = choose|j: int| 0 <= j < next_take.len() && next_take[j] == x;
                        if j < i {
                            assert(prev_take[j] == x);
                            assert(prev_take.contains(x));
                            assert(prev_take.to_set().remove(role@).contains(x));
                            assert(prev_out.to_set().contains(x));
                            assert(prev_out.contains(x));
                            let k = choose|k: int|
                                0 <= k < prev_out.len() && prev_out[k] == x;
                            assert(out.deep_view()[k] == x);
                        } else {
                            assert(x == elem);
                            assert(out.deep_view()[prev_out.len() as int] == elem);
                        }
                    }
                    assert(out.deep_view().to_set() =~= next_take.to_set().remove(role@));
                }
            } else {
                proof {
                    assert(elem == role@);
                    assert forall|x: Seq<char>|
                        next_take.to_set().remove(role@).contains(x) implies prev_take.to_set()
                        .remove(role@).contains(x) by {
                        let j = choose|j: int| 0 <= j < next_take.len() && next_take[j] == x;
                        if j < i {
                            assert(prev_take[j] == x);
                        }
                    }
                    assert forall|x: Seq<char>|
                        prev_take.to_set().remove(role@).contains(x) implies next_take.to_set()
                        .remove(role@).contains(x) by {
                        let j = choose|j: int| 0 <= j < prev_take.len() && prev_take[j] == x;
                        assert(next_take[j] == x);
                    }
                    assert(out.deep_view().to_set() =~= next_take.to_set().remove(role@));
                }
            }
            i = i + 1;
        }
        proof {
            assert(self.roles.deep_view().take(n as int) =~= self.roles.deep_view());
        }
        self.roles = out;
    }

    /// Exports the signing key bytes, for storage by the key's owner.
    pub fn signing_key_bytes(&self) -> (r: Vec<u8>)
        ensures
            r@ == self.sk(),
    {
        self.signing_key.clone()
    }

    /// Rebuilds a user from stored signing-key bytes and roles.
    pub fn from_key_bytes(user_id: &str, signing_key_bytes: &[u8], roles: Vec<String>) -> (u: User)
        requires
            signing_key_bytes@.len() == 32,
        ensures
            u.user_id@ == user_id@,
            u.sk() == signing_key_bytes@,
            u.roles == roles,
            u.wf(),
            u.owns_key(),
    {
        let signing_key = slice_to_vec(signing_key_bytes);
        let verifying_key = verifying_key_of(signing_key.as_slice());
        User {
            user_id: String::from_str(user_id),
            signing_key,
            verifying_key,
            roles,
        }
    }

    /// Builds a verify-only user around a stored verifying key; its
    /// zeroed signing key cannot author signatures that verify under it.
    pub fn from_verifying_key(user_id: &str, verifying_key_bytes: &[u8], roles: Vec<String>) -> (u:
        User)
        requires
            verifying_key_bytes@.len() == 32,
        ensures
            u.user_id@ == user_id@,
            u.verifying_key@ == verifying_key_bytes@,
            u.roles == roles,
            u.wf(),
    {
        let mut signing_key: Vec<u8> = Vec::new();
        let mut i: usize = 0;
        while i < 32
            invariant
                i <= 32,
                signing_key@.len() == i,
            decreases 32 - i,
        {
            signing_key.push(0);
            i = i + 1;
        }
        User {
            user_id: String::from_str(user_id),
            signing_key,
            verifying_key: slice_to_vec(verifying_key_bytes),
            roles,
        }
    }
}

} // verus!
