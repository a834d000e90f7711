//! The workflow engine: a catalog of workflow definitions and a
//! stateless validator that checks state-machine transitions against the
//! roles held by the signing users.

use crate::error::WorkflowError;
use crate::user::User;
use vstd::prelude::*;

verus! {

#[derive(Debug)]
pub struct WorkflowState {
    pub id: String,
    pub label: String,
}

#[derive(Debug)]
pub struct Transition {
    pub from_state: String,
    pub to_state: String,
    pub name: String,
    pub required_roles: Vec<String>,
}

#[derive(Debug)]
pub struct Workflow {
    pub id: String,
    pub name: String,
    pub description: String,
    pub states: Vec<WorkflowState>,
    pub transitions: Vec<Transition>,
    pub initial_state: String,
}

/// Whether a state id is among the defined states.
pub open spec fn state_defined(states: Seq<WorkflowState>, id: Seq<char>) -> bool {
    exists|i: int| 0 <= i < states.len() && (#[trigger] states[i]).id@ == id
}

/// Whether every transition references defined states only.
pub open spec fn transitions_closed(w: Workflow) -> bool {
    forall|i: int|
        0 <= i < w.transitions@.len() ==> state_defined(
            w.states@,
            (#[trigger] w.transitions@[i]).from_state@,
        ) && state_defined(w.states@, w.transitions@[i].to_state@)
}

impl Workflow {
    /// Builds a workflow; the states list must be non-empty and the
    /// initial state must be one of the defined states.
    pub fn new(
        id: &str,
        name: &str,
        description: &str,
        states: Vec<WorkflowState>,
        transitions: Vec<Transition>,
        initial_state: &str,
    ) -> (r: Result<Workflow, WorkflowError>)
        ensures
            r is Ok <==> states@.len() > 0 && state_defined(states@, initial_state@),
            r matches Ok(w) ==> w.id@ == id@ && w.name@ == name@ && w.description@
                == description@ && w.states == states && w.transitions == transitions
                && w.initial_state@ == initial_state@,
            r is Err ==> r->Err_0 is Definition,
    {
        if states.len() == 0 {
            return Err(
                WorkflowError::Definition(
                    String::from_str("Workflow must have at least one state"),
                ),
            );
        }
        let initial = String::from_str(initial_state);
        let mut found = false;
        let n = states.len();
        let mut i: usize = 0;
        while i < n
            invariant
                i <= n,
                n == states@.len(),
                initial@ == initial_state@,
                found <==> exists|k: int|
                    0 <= k < i && (#[trigger] states@[k]).id@ == initial_state@,
            decreases n - i,
        {
            if states[i].id.eq(&initial) {
                found = true;
            }
            i = i + 1;
        }
        if !found {
            return Err(
                WorkflowError::Definition(
                    String::from_str("Initial state must be one of the defined states"),
                ),
            );
        }
        Ok(
            Workflow {
                id: String::from_str(id),
                name: String::from_str(name),
                description: String::from_str(description),
                states,
                transitions,
                initial_state: initial,
            },
        )
    }
}

/// A transition reduced to the character-level view of its fields.
pub open spec fn transition_view(t: Transition) -> (Seq<char>, Seq<char>, Seq<char>, Seq<
    Seq<char>,
>) {
    (t.from_state@, t.to_state@, t.name@, t.required_roles.deep_view())
}

/// The views of the transitions leaving `cur`, in definition order.
pub open spec fn transitions_from(ts: Seq<Transition>, cur: Seq<char>) -> Seq<
    (Seq<char>, Seq<char>, Seq<char>, Seq<Seq<char>>),
>
    decreases ts.len(),
{
    if ts.len() == 0 {
        Seq::empty()
    } else {
        let rest = transitions_from(ts.drop_last(), cur);
        if ts.last().from_state@ == cur {
            rest.push(transition_view(ts.last()))
        } else {
            rest
        }
    }
}

/// First workflow in the catalog carrying the given id.
pub open spec fn catalog_lookup(ws: Seq<Workflow>, id: Seq<char>) -> Option<Workflow>
    decreases ws.len(),
{
    if ws.len() == 0 {
        None
    } else if ws[0].id@ == id {
        Some(ws[0])
    } else {
        catalog_lookup(ws.drop_first(), id)
    }
}

proof fn lemma_catalog_lookup_first_match(ws: Seq<Workflow>, id: Seq<char>, i: int)
    requires
        0 <= i < ws.len(),
        forall|k: int| 0 <= k < i ==> (#[trigger] ws[k]).id@ != id,
        ws[i].id@ == id,
    ensures
        catalog_lookup(ws, id) == Some(ws[i]),
    decreases i,
{
    if i > 0 {
        assert(ws.drop_first()[i - 1] == ws[i]);
        assert(forall|k: int| 0 <= k < i - 1 ==> (#[trigger] ws.drop_first()[k]) == ws[k + 1]);
        lemma_catalog_lookup_first_match(ws.drop_first(), id, i - 1);
    }
}

proof fn lemma_catalog_lookup_none(ws: Seq<Workflow>, id: Seq<char>)
    requires
        forall|k: int| 0 <= k < ws.len() ==> (#[trigger] ws[k]).id@ != id,
    ensures
        catalog_lookup(ws, id) is None,
    decreases ws.len(),
{
    if ws.len() > 0 {
        assert(forall|k: int|
            0 <= k < ws.drop_first().len() ==> (#[trigger] ws.drop_first()[k]) == ws[k + 1]);
        lemma_catalog_lookup_none(ws.drop_first(), id);
    }
}

/// First transition matching a (from, to) pair.
pub open spec fn find_transition(ts: Seq<Transition>, from: Seq<char>, to: Seq<char>) -> Option<
    Transition,
>
    decreases ts.len(),
{
    if ts.len() == 0 {
        None
    } else if ts[0].from_state@ == from && ts[0].to_state@ == to {
        Some(ts[0])
    } else {
        find_transition(ts.drop_first(), from, to)
    }
}

proof fn lemma_find_transition_first_match(ts: Seq<Transition>, from: Seq<char>, to: Seq<char>, i: int)
    requires
        0 <= i < ts.len(),
        forall|k: int|
            0 <= k < i ==> !((#[trigger] ts[k]).from_state@ == from && ts[k].to_state@ == to),
        ts[i].from_state@ == from && ts[i].to_state@ == to,
    ensures
        find_transition(ts, from, to) == Some(ts[i]),
    decreases i,
{
    if i > 0 {
        assert(ts.drop_first()[i - 1] == ts[i]);
        assert(forall|k: int| 0 <= k < i - 1 ==> (#[trigger] ts.drop_first()[k]) == ts[k + 1]);
        lemma_find_transition_first_match(ts.drop_first(), from, to, i - 1);
    }
}

proof fn lemma_find_transition_none(ts: Seq<Transition>, from: Seq<char>, to: Seq<char>)
    requires
        forall|k: int|
            0 <= k < ts.len() ==> !((#[trigger] ts[k]).from_state@ == from && ts[k].to_state@
                == to),
    ensures
        find_transition(ts, from, to) is None,
    decreases ts.len(),
{
    if ts.len() > 0 {
        assert(forall|k: int|
            0 <= k < ts.drop_first().len() ==> (#[trigger] ts.drop_first()[k]) == ts[k + 1]);
        lemma_find_transition_none(ts.drop_first(), from, to);
    }
}

/// Whether some signer in the list holds the role.
pub open spec fn some_signer_has(signers: Seq<User>, role: Seq<char>) -> bool {
    exists|i: int| 0 <= i < signers.len() && (#[trigger] signers[i]).role_set().contains(role)
}

/// Whether the signers jointly cover every required role.
pub open spec fn roles_covered(required: Seq<String>, signers: Seq<User>) -> bool {
    forall|i: int| 0 <= i < required.len() ==> some_signer_has(signers, (#[trigger] required[i])@)
}

/// The required roles no signer holds, in requirement order.
pub open spec fn missing_roles(required: Seq<String>, signers: Seq<User>) -> Seq<Seq<char>>
    decreases required.len(),
{
    if required.len() == 0 {
        Seq::empty()
    } else {
        let rest = missing_roles(required.drop_last(), signers);
        if some_signer_has(signers, required.last()@) {
            rest
        } else {
            rest.push(required.last()@)
        }
    }
}

/// The missing list is empty exactly when the signers cover every
/// required role.
pub proof fn lemma_missing_roles_empty(required: Seq<String>, signers: Seq<User>)
    ensures
        missing_roles(required, signers).len() == 0 <==> roles_covered(required, signers),
    decreases required.len(),
{
    if required.len() > 0 {
        lemma_missing_roles_empty(required.drop_last(), signers);
        assert(forall|i: int|
            0 <= i < required.len() - 1 ==> (#[trigger] required.drop_last()[i]) == required[i]);
        if missing_roles(required, signers).len() == 0 {
            assert(roles_covered(required.drop_last(), signers));
            assert(some_signer_has(signers, required.last()@));
            assert forall|i: int| 0 <= i < required.len() implies some_signer_has(
                signers,
                (#[trigger] required[i])@,
            ) by {
                if i < required.len() - 1 {
                    assert(required.drop_last()[i] == required[i]);
                }
            }
        }
        if roles_covered(required, signers) {
            assert(some_signer_has(signers, required.last()@));
        }
    }
}

/// Collects the required roles no signer holds, in order.
fn collect_missing_roles(required: &Vec<String>, signers: &Vec<User>) -> (v: Vec<String>)
    ensures
        v.deep_view() == missing_roles(required@, signers@),
{
    let n = required.len();
    let mut out: Vec<String> = Vec::new();
    let mut i: usize = 0;
    proof {
        assert(required@.take(0) =~= Seq::<String>::empty());
        assert(out.deep_view() =~= missing_roles(required@.take(0), signers@));
    }
    while i < n
        invariant
            i <= n,
            n == required@.len(),
            out.deep_view() =~= missing_roles(required@.take(i as int), signers@),
        decreases n - i,
    {
        let ghost prev = out.deep_view();
        proof {
            assert(required@.take(i + 1).drop_last() =~= required@.take(i as int));
            assert(required@.take(i + 1).last() == required@[i as int]);
        }
        if !signers_hold(signers, &required[i]) {
            let kept = required[i].clone();
            out.push(kept);
            proof {
                assert(out.deep_view() =~= prev.push(required@[i as int]@));
            }
        }
        i = i + 1;
    }
    proof {
        assert(required@.take(n as int) =~= required@);
    }
    out
}

/// Whether some signer in the given list holds the role.
fn signers_hold(signers: &Vec<User>, role: &String) -> (r: bool)
    ensures
        r == some_signer_has(signers@, role@),
{
    let n = signers.len();
    let mut i: usize = 0;
    while i < n
        invariant
            i <= n,
            n == signers@.len(),
            forall|k: int| 0 <= k < i ==> !(#[trigger] signers@[k]).role_set().contains(role@),
        decreases n - i,
    {
        if signers[i].has_role_string(role) {
            return true;
        }
        i = i + 1;
    }
    false
}

pub struct Engine {
    pub workflows: Vec<Workflow>,
}

impl Engine {
    /// The catalog holds at most one workflow per id.
    pub open spec fn wf(&self) -> bool {
        forall|i: int, j: int|
            0 <= i < j < self.workflows@.len() ==> (#[trigger] self.workflows@[i]).id@ != (
            #[trigger] self.workflows@[j]).id@
    }

    /// An empty catalog.
    pub fn new() -> (e: Engine)
        ensures
            e.wf(),
            e.workflows@.len() == 0,
    {
        Engine { workflows: Vec::new() }
    }

    /// Validates a workflow definition and stores it; a later load under
    /// the same id overwrites the earlier one. The states list must be
    /// non-empty, the initial state defined, and every transition must
    /// reference defined states.
    pub fn load_workflow(&mut self, workflow: Workflow) -> (r: Result<(), WorkflowError>)
        requires
            old(self).wf(),
        ensures
            final(self).wf(),
            r is Ok <==> workflow.states@.len() > 0 && state_defined(
                workflow.states@,
                workflow.initial_state@,
            ) && transitions_closed(workflow),
            r is Ok ==> catalog_lookup(final(self).workflows@, workflow.id@) == Some(workflow),
            r is Ok ==> forall|id: Seq<char>|
                id != workflow.id@ ==> catalog_lookup(final(self).workflows@, id)
                    == catalog_lookup(old(self).workflows@, id),
            r is Err ==> r->Err_0 is Definition && *final(self) == *old(self),
    {
        if workflow.states.len() == 0 {
            return Err(
                WorkflowError::Definition(
                    String::from_str("Workflow must have at least one state"),
                ),
            );
        }
        if !state_is_defined(&workflow.states, &workflow.initial_state) {
            return Err(
                WorkflowError::Definition(
                    String::from_str("Start state not found in workflow states"),
                ),
            );
        }
        let tn = workflow.transitions.len();
        let mut t: usize = 0;
        while t < tn
            invariant
                *self == *old(self),
                old(self).wf(),
                t <= tn,
                tn == workflow.transitions@.len(),
                forall|k: int|
                    0 <= k < t ==> state_defined(
                        workflow.states@,
                        (#[trigger] workflow.transitions@[k]).from_state@,
                    ) && state_defined(workflow.states@, workflow.transitions@[k].to_state@),
            decreases tn - t,
        {
            if !state_is_defined(&workflow.states, &workflow.transitions[t].from_state)
                || !state_is_defined(&workflow.states, &workflow.transitions[t].to_state) {
                proof {
                    assert(!transitions_closed(workflow));
                }
                return Err(
                    WorkflowError::Definition(
                        String::from_str("Transition references an undefined state"),
                    ),
                );
            }
            t = t + 1;
        }

        let n = self.workflows.len();
        let mut i: usize = 0;
        while i < n
            invariant
                *self == *old(self),
                old(self).wf(),
                workflow.states@.len() > 0,
                state_defined(workflow.states@, workflow.initial_state@),
                transitions_closed(workflow),
                i <= n,
                n == self.workflows@.len(),
                forall|k: int| 0 <= k < i ==> (#[trigger] self.workflows@[k]).id@ != workflow.id@,
            decreases n - i,
        {
            if self.workflows[i].id.eq(&workflow.id) {
                let ghost pre = self.workflows@;
                self.workflows.remove(i);
                self.workflows.insert(i, workflow);
                proof {
                    let post = self.workflows@;
                    assert(post.len() == pre.len());
                    assert(forall|k: int| 0 <= k < post.len() && k != i ==> post[k] == pre[k]);
                    assert(post[i as int] == workflow);
                    lemma_catalog_lookup_first_match(post, workflow.id@, i as int);
                    assert forall|id: Seq<char>| id != workflow.id@ implies catalog_lookup(
                        post,
                        id,
                    ) == catalog_lookup(pre, id) by {
                        lemma_catalog_lookup_agree(pre, post, id);
                    }
                }
                return Ok(());
            }
            i = i + 1;
        }
        let ghost pre = self.workflows@;
        self.workflows.push(workflow);
        proof {
            let post = self.workflows@;
            assert(post[n as int] == workflow);
            lemma_catalog_lookup_first_match(post, workflow.id@, n as int);
            assert forall|id: Seq<char>| id != workflow.id@ implies catalog_lookup(post, id)
                == catalog_lookup(pre, id) by {
                lemma_catalog_lookup_agree(pre, post, id);
            }
        }
        Ok(())
    }

    /// The transitions leaving `current_state`, in definition order.
    pub fn get_valid_transitions(&self, workflow_id: &str, current_state: &str) -> (r: Result<
        Vec<Transition>,
        WorkflowError,
    >)
        ensures
            r is Ok <==> catalog_lookup(self.workflows@, workflow_id@) is Some,
            r matches Ok(v) ==> {
                let expected = transitions_from(
                    catalog_lookup(self.workflows@, workflow_id@).unwrap().transitions@,
                    current_state@,
                );
                &&& v@.len() == expected.len()
                &&& forall|k: int|
                    0 <= k < v@.len() ==> transition_view(#[trigger] v@[k]) == expected[k]
            },
            r is Err ==> r->Err_0 is Parsing,
    {
        let wid = String::from_str(workflow_id);
        let w_opt = self.find_workflow(&wid);
        match w_opt {
            None => Err(WorkflowError::Parsing(String::from_str("Unknown workflow"))),
            Some(w) => {
                let cur = String::from_str(current_state);
                let mut out: Vec<Transition> = Vec::new();
                let tn = w.transitions.len();
                let mut t: usize = 0;
                while t < tn
                    invariant
                        t <= tn,
                        tn == w.transitions@.len(),
                        cur@ == current_state@,
                        out@.len() == transitions_from(
                            w.transitions@.take(t as int),
                            current_state@,
                        ).len(),
                        forall|k: int|
                            0 <= k < out@.len() ==> transition_view(#[trigger] out@[k])
                                == transitions_from(
                                w.transitions@.take(t as int),
                                current_state@,
                            )[k],
                    decreases tn - t,
                {
                    let ghost prefix = w.transitions@.take(t as int);
                    let ghost cur_tr = w.transitions@[t as int];
                    proof {
                        assert(w.transitions@.take(t + 1).drop_last() =~= prefix);
                        assert(w.transitions@.take(t + 1).last() == cur_tr);
                    }
                    if w.transitions[t].from_state.eq(&cur) {
                        let item = clone_transition(&w.transitions[t]);
                        out.push(item);
                    }
                    t = t + 1;
                }
                proof {
                    assert(w.transitions@.take(tn as int) =~= w.transitions@);
                }
                Ok(out)
            }
        }
    }

    /// Finds the unique transition for (from, to) in the workflow and
    /// checks that the signers jointly hold every required role.
    pub fn validate_transition(
        &self,
        workflow_id: &str,
        from_state: &str,
        to_state: &str,
        signers: Vec<User>,
        payload: &str,
    ) -> (r: Result<bool, WorkflowError>)
        ensures
            r is Ok <==> catalog_lookup(self.workflows@, workflow_id@) is Some && {
                let w = catalog_lookup(self.workflows@, workflow_id@).unwrap();
                &&& find_transition(w.transitions@, from_state@, to_state@) is Some
                &&& roles_covered(
                    find_transition(
                        w.transitions@,
                        from_state@,
                        to_state@,
                    ).unwrap().required_roles@,
                    signers@,
                )
            },
            r is Ok ==> r == Ok::<bool, WorkflowError>(true),
            r is Err ==> (r->Err_0 is Parsing <==> catalog_lookup(
                self.workflows@,
                workflow_id@,
            ) is None),
            r is Err ==> (r->Err_0 is Validation <==> catalog_lookup(
                self.workflows@,
                workflow_id@,
            ) is Some),
            (catalog_lookup(self.workflows@, workflow_id@) is Some && find_transition(
                catalog_lookup(self.workflows@, workflow_id@).unwrap().transitions@,
                from_state@,
                to_state@,
            ) is Some && !roles_covered(
                find_transition(
                    catalog_lookup(self.workflows@, workflow_id@).unwrap().transitions@,
                    from_state@,
                    to_state@,
                ).unwrap().required_roles@,
                signers@,
            )) ==> (r matches Err(e) && e matches WorkflowError::Validation(m) && m@
                == "Missing required roles: "@ + crate::record::comma_join(
                missing_roles(
                    find_transition(
                        catalog_lookup(self.workflows@, workflow_id@).unwrap().transitions@,
                        from_state@,
                        to_state@,
                    ).unwrap().required_roles@,
                    signers@,
                ),
            )),
    {
        let wid = String::from_str(workflow_id);
        let w_opt = self.find_workflow(&wid);
        match w_opt {
            None => Err(WorkflowError::Parsing(String::from_str("Unknown workflow"))),
            Some(w) => {
                let from = String::from_str(from_state);
                let to = String::from_str(to_state);
                let tn = w.transitions.len();
                let mut t: usize = 0;
                let mut found: Option<&Transition> = None;
                let ghost mut found_at: int = 0;
                while t < tn
                    invariant
                        t <= tn,
                        tn == w.transitions@.len(),
                        from@ == from_state@,
                        to@ == to_state@,
                        match found {
                            Some(tr) => {
                                &&& 0 <= found_at < t
                                &&& w.transitions@[found_at] == *tr
                                &&& tr.from_state@ == from_state@ && tr.to_state@ == to_state@
                                &&& forall|k: int|
                                    0 <= k < found_at ==> !((
                                    #[trigger] w.transitions@[k]).from_state@ == from_state@
                                        && w.transitions@[k].to_state@ == to_state@)
                            },
                            None => forall|k: int|
                                0 <= k < t ==> !((#[trigger] w.transitions@[k]).from_state@
                                    == from_state@ && w.transitions@[k].to_state@ == to_state@),
                        },
                    decreases tn - t,
                {
                    if found.is_none() && w.transitions[t].from_state.eq(&from)
                        && w.transitions[t].to_state.eq(&to) {
                        found = Some(&w.transitions[t]);
                        proof {
                            found_at = t as int;
                        }
                    }
                    t = t + 1;
                }
                match found {
                    None => {
                        proof {
                            lemma_find_transition_none(w.transitions@, from_state@, to_state@);
                        }
                        let mut msg = String::from_str("No valid transition from ");
                        msg.append(from.as_str());
                        msg.append(" to ");
                        msg.append(to.as_str());
                        Err(WorkflowError::Validation(msg))
                    }
                    Some(tr) => {
                        proof {
                            lemma_find_transition_first_match(
                                w.transitions@,
                                from_state@,
                                to_state@,
                                found_at,
                            );
                        }
                        let missing = collect_missing_roles(&tr.required_roles, &signers);
                        proof {
                            lemma_missing_roles_empty(tr.required_roles@, signers@);
                        }
                        if missing.len() == 0 {
                            Ok(true)
                        } else {
                            let mut msg = String::from_str("Missing required roles: ");
                            let joined = crate::record::comma_join_strings(&missing);
                            msg.append(joined.as_str());
                            Err(WorkflowError::Validation(msg))
                        }
                    }
                }
            }
        }
    }

    /// First-match search of the catalog.
    fn find_workflow<'a>(&'a self, id: &String) -> (r: Option<&'a Workflow>)
        ensures
            match r {
                Some(w) => catalog_lookup(self.workflows@, id@) == Some(*w),
                None => catalog_lookup(self.workflows@, id@) is None,
            },
    {
        let n = self.workflows.len();
        let mut i: usize = 0;
        while i < n
            invariant
                i <= n,
                n == self.workflows@.len(),
                forall|k: int| 0 <= k < i ==> (#[trigger] self.workflows@[k]).id@ != id@,
            decreases n - i,
        {
            if self.workflows[i].id.eq(id) {
                proof {
                    lemma_catalog_lookup_first_match(self.workflows@, id@, i as int);
                }
                return Some(&self.workflows[i]);
            }
            i = i + 1;
        }
        proof {
            lemma_catalog_lookup_none(self.workflows@, id@);
        }
        None
    }
}

/// Two catalogs that agree on every position where either carries `id`
/// in a prefix agree on the lookup; specialised to equal-length catalogs
/// differing in at most entries that do not carry `id`.
proof fn lemma_catalog_lookup_agree(pre: Seq<Workflow>, post: Seq<Workflow>, id: Seq<char>)
    requires
        forall|k: int|
            0 <= k < pre.len() ==> ((#[trigger] pre[k]).id@ == id <==> post.len() > k
                && (#[trigger] post[k]).id@ == id),
        forall|k: int|
            0 <= k < pre.len() && (#[trigger] pre[k]).id@ == id ==> post[k] == pre[k],
        post.len() >= pre.len(),
        forall|k: int| pre.len() <= k < post.len() ==> (#[trigger] post[k]).id@ != id,
    ensures
        catalog_lookup(post, id) == catalog_lookup(pre, id),
{
    if catalog_lookup(pre, id) is Some {
        lemma_catalog_lookup_found_index(pre, id);
        let i = choose|i: int|
            0 <= i < pre.len() && (forall|m: int| 0 <= m < i ==> (#[trigger] pre[m]).id@ != id)
                && (#[trigger] pre[i]).id@ == id && catalog_lookup(pre, id) == Some(pre[i]);
        assert forall|m: int| 0 <= m < i implies (#[trigger] post[m]).id@ != id by {
            assert(pre[m].id@ != id);
        }
        lemma_catalog_lookup_first_match(post, id, i);
    } else {
        assert forall|k: int| 0 <= k < post.len() implies (#[trigger] post[k]).id@ != id by {
            if k < pre.len() {
                if pre[k].id@ == id {
                    lemma_catalog_lookup_some_of_member(pre, k);
                }
            }
        }
        lemma_catalog_lookup_none(post, id);
    }
}

proof fn lemma_catalog_lookup_some_of_member(ws: Seq<Workflow>, i: int)
    requires
        0 <= i < ws.len(),
    ensures
        catalog_lookup(ws, ws[i].id@) is Some,
    decreases ws.len(),
{
    if i > 0 && ws[0].id@ != ws[i].id@ {
        assert(ws.drop_first()[i - 1] == ws[i]);
        lemma_catalog_lookup_some_of_member(ws.drop_first(), i - 1);
    }
}

proof fn lemma_catalog_lookup_found_index(ws: Seq<Workflow>, id: Seq<char>)
    requires
        catalog_lookup(ws, id) is Some,
    ensures
        exists|i: int|
            0 <= i < ws.len() && (forall|m: int| 0 <= m < i ==> (#[trigger] ws[m]).id@ != id) && (
            #[trigger] ws[i]).id@ == id && catalog_lookup(ws, id) == Some(ws[i]),
    decreases ws.len(),
{
    if ws[0].id@ == id {
        assert(catalog_lookup(ws, id) == Some(ws[0]));
    } else {
        lemma_catalog_lookup_found_index(ws.drop_first(), id);
        let i = choose|i: int|
            0 <= i < ws.drop_first().len() && (forall|m: int|
                0 <= m < i ==> (#[trigger] ws.drop_first()[m]).id@ != id) && (
            #[trigger] ws.drop_first()[i]).id@ == id && catalog_lookup(ws.drop_first(), id)
                == Some(ws.drop_first()[i]);
        assert(ws.drop_first()[i] == ws[i + 1]);
        assert forall|m: int| 0 <= m < i + 1 implies (#[trigger] ws[m]).id@ != id by {
            if m > 0 {
                assert(ws.drop_first()[m - 1] == ws[m]);
            }
        }
    }
}

/// Whether the given state id is among the defined states.
fn state_is_defined(states: &Vec<WorkflowState>, id: &String) -> (r: bool)
    ensures
        r == state_defined(states@, id@),
{
    let n = states.len();
    let mut i: usize = 0;
    while i < n
        invariant
            i <= n,
            n == states@.len(),
            forall|k: int| 0 <= k < i ==> (#[trigger] states@[k]).id@ != id@,
        decreases n - i,
    {
        if states[i].id.eq(id) {
            return true;
        }
        i = i + 1;
    }
    false
}

/// A field-for-field copy of a transition.
fn clone_transition(t: &Transition) -> (r: Transition)
    ensures
        transition_view(r) == transition_view(*t),
{
    let roles = t.required_roles.clone();
    proof {
        assert(roles@ =~= t.required_roles@);
        assert(roles.deep_view() =~= t.required_roles.deep_view());
    }
    Transition {
        from_state: t.from_state.clone(),
        to_state: t.to_state.clone(),
        name: t.name.clone(),
        required_roles: roles,
    }
}

/// The transition validator vocabulary: always allow, or require roles.
pub enum Validator {
    AlwaysTrue,
    HasRole { required_roles: Vec<String> },
}

impl Validator {
    /// Accepts when every required role is held by some signer.
    pub fn validate(&self, payload: &str, signers: Vec<User>) -> (r: Result<bool, WorkflowError>)
        ensures
            r is Ok <==> match *self {
                Validator::AlwaysTrue => true,
                Validator::HasRole { required_roles } => roles_covered(
                    required_roles@,
                    signers@,
                ),
            },
            r is Ok ==> r == Ok::<bool, WorkflowError>(true),
            r is Err ==> r->Err_0 is Validation,
            (self matches Validator::HasRole { required_roles } && !roles_covered(
                required_roles@,
                signers@,
            )) ==> (r matches Err(e) && e matches WorkflowError::Validation(m) && m@
                == "Missing required roles: "@ + crate::record::comma_join(
                missing_roles(self->HasRole_required_roles@, signers@),
            )),
    {
        match self {
            Validator::AlwaysTrue => Ok(true),
            Validator::HasRole { required_roles } => {
                let missing = collect_missing_roles(required_roles, &signers);
                proof {
                    lemma_missing_roles_empty(required_roles@, signers@);
                }
                if missing.len() == 0 {
                    Ok(true)
                } else {
                    let mut msg = String::from_str("Missing required roles: ");
                    let joined = crate::record::comma_join_strings(&missing);
                    msg.append(joined.as_str());
                    Err(WorkflowError::Validation(msg))
                }
            }
        }
    }
}

} // verus!
