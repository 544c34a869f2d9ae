//! One synchronisation pass over a workspace: which targets already exist,
//! which are created or updated, and the ordered, rate-limited application
//! of those calls.
use vstd::prelude::*;
use crate::client::{
    get_variables, list_request, list_outcome,
    create_request, interpret_create_response, interpret_update_response, opt_text,
    registration_outcome, remote_models, update_request, var_path, vars_path,
    payload_of, ApiError, ApiRequest, HttpMethod, PropModel, RegistrationModel, RemoteModel,
    RemoteVariable, TerraformVariableProperty, TerraformVariableRegistrationResult,
};
use crate::codec::{classify, is_string};
use crate::export::{
    char_strings, find_repeat, first_repeat, target_models, ExportValue, InputError, InputFault, TargetModel,
};
use crate::json::render;
use crate::limiter::{Acquire, RateLimiter};

verus! {

broadcast use {vstd::std_specs::vec::group_vec_axioms, vstd::seq::group_seq_axioms};

/// The id of the first remote variable named `name`.
pub open spec fn remote_id(remote: Seq<RemoteModel>, name: Seq<char>) -> Option<Seq<char>>
    decreases remote.len(),
{
    if remote.len() == 0 {
        None
    } else if remote[0].name == name {
        Some(remote[0].id)
    } else {
        remote_id(remote.drop_first(), name)
    }
}

/// The id of the remote variable named `name`, if there is one.
fn find_remote<'a>(remote: &'a Vec<RemoteVariable>, name: &str) -> (r: Option<&'a String>)
    ensures
        match r {
            Some(id) => remote_id(remote_models(remote@), name@) == Some(id@),
            None => remote_id(remote_models(remote@), name@) is None,
        },
{
    let ghost rs = remote_models(remote@);
    assert(rs.subrange(0, rs.len() as int) =~= rs);
    let mut k: usize = 0;
    while k < remote.len()
        invariant
            k <= remote@.len(),
            rs == remote_models(remote@),
            remote_id(rs, name@) == remote_id(rs.subrange(k as int, rs.len() as int), name@),
        decreases remote@.len() - k,
    {
        let ghost rest = rs.subrange(k as int, rs.len() as int);
        assert(rest.drop_first() =~= rs.subrange(k + 1, rs.len() as int));
        assert(rest[0] == remote@[k as int].model());
        if crate::text::same_text(remote[k].name.as_str(), name) {
            return Some(&remote[k].id);
        }
        k = k + 1;
    }
    None
}

/// Whether a target exists remotely, and under which id.
#[derive(Debug, PartialEq, Eq)]
pub struct TerraformVariableStatus {
    variable_name: String,
    variable_id: Option<String>,
}

pub struct StatusModel {
    pub name: Seq<char>,
    pub id: Option<Seq<char>>,
}

impl TerraformVariableStatus {
    pub closed spec fn model(&self) -> StatusModel {
        StatusModel { name: self.variable_name@, id: opt_text(self.variable_id) }
    }

    pub fn get_variable_name(&self) -> (r: &str)
        ensures
            r@ == self.model().name,
    {
        self.variable_name.as_str()
    }

    pub fn get_variable_id(&self) -> (r: &Option<String>)
        ensures
            opt_text(*r) == self.model().id,
    {
        &self.variable_id
    }
}

/// The status of each target name against the listed remote variables, in
/// the order of the names.
pub fn check_variable_status(remote: &Vec<RemoteVariable>, target_variable_names: &Vec<String>) -> (r: Vec<
    TerraformVariableStatus,
>)
    ensures
        r@.len() == target_variable_names@.len(),
        forall|k: int|
            0 <= k < r@.len() ==> #[trigger] r@[k].model() == (StatusModel {
                name: target_variable_names@[k]@,
                id: remote_id(remote_models(remote@), target_variable_names@[k]@),
            }),
{
    let mut r: Vec<TerraformVariableStatus> = Vec::new();
    let mut k: usize = 0;
    while k < target_variable_names.len()
        invariant
            k <= target_variable_names@.len(),
            r@.len() == k,
            forall|m: int|
                0 <= m < k ==> #[trigger] r@[m].model() == (StatusModel {
                    name: target_variable_names@[m]@,
                    id: remote_id(remote_models(remote@), target_variable_names@[m]@),
                }),
        decreases target_variable_names@.len() - k,
    {
        let name = &target_variable_names[k];
        let id = match find_remote(remote, name.as_str()) {
            Some(i) => Some(i.clone()),
            None => None,
        };
        r.push(TerraformVariableStatus { variable_name: name.clone(), variable_id: id });
        k = k + 1;
    }
    r
}

// ---------------------------------------------------------------- partition

pub open spec fn prop_of(t: TargetModel, id: Option<Seq<char>>) -> PropModel {
    PropModel { id, name: t.name, description: t.description, value: t.value }
}

/// The targets that do not exist remotely, to be created.
pub open spec fn creates_of(ts: Seq<TargetModel>, remote: Seq<RemoteModel>) -> Seq<PropModel>
    decreases ts.len(),
{
    if ts.len() == 0 {
        Seq::empty()
    } else {
        let prev = creates_of(ts.drop_last(), remote);
        if remote_id(remote, ts.last().name) is None {
            prev.push(prop_of(ts.last(), None))
        } else {
            prev
        }
    }
}

/// The targets that exist remotely, with their remote ids.
pub open spec fn existing_of(ts: Seq<TargetModel>, remote: Seq<RemoteModel>) -> Seq<PropModel>
    decreases ts.len(),
{
    if ts.len() == 0 {
        Seq::empty()
    } else {
        let prev = existing_of(ts.drop_last(), remote);
        match remote_id(remote, ts.last().name) {
            Some(id) => prev.push(prop_of(ts.last(), Some(id))),
            None => prev,
        }
    }
}

pub open spec fn prop_names(ps: Seq<PropModel>) -> Seq<Seq<char>> {
    Seq::new(ps.len(), |k: int| ps[k].name)
}

pub open spec fn target_names(ts: Seq<TargetModel>) -> Seq<Seq<char>> {
    Seq::new(ts.len(), |k: int| ts[k].name)
}

/// The updates a pass makes: the existing targets, when updating is allowed.
pub open spec fn updates_of(ts: Seq<TargetModel>, remote: Seq<RemoteModel>, allow_update: bool) -> Seq<PropModel> {
    if allow_update {
        existing_of(ts, remote)
    } else {
        Seq::empty()
    }
}

/// The existing targets left alone, when updating is not allowed.
pub open spec fn ignored_of(ts: Seq<TargetModel>, remote: Seq<RemoteModel>, allow_update: bool) -> Seq<Seq<char>> {
    if allow_update {
        Seq::empty()
    } else {
        prop_names(existing_of(ts, remote))
    }
}

pub open spec fn prop_models(ps: Seq<TerraformVariableProperty>) -> Seq<PropModel> {
    Seq::new(ps.len(), |k: int| ps[k].model())
}

/// What one pass will do.
#[derive(Debug, PartialEq, Eq)]
pub struct SyncPlan {
    pub to_create: Vec<TerraformVariableProperty>,
    pub to_update: Vec<TerraformVariableProperty>,
    pub ignored_existing: Vec<String>,
}

/// Splits the targets by whether a remote variable of the same name exists.
pub fn plan_sync(targets: &Vec<ExportValue>, remote: &Vec<RemoteVariable>, allow_update: bool) -> (r: SyncPlan)
    ensures
        prop_models(r.to_create@) == creates_of(target_models(targets@), remote_models(remote@)),
        prop_models(r.to_update@) == updates_of(target_models(targets@), remote_models(remote@), allow_update),
        char_strings(r.ignored_existing@) == ignored_of(target_models(targets@), remote_models(remote@), allow_update),
{
    let ghost ts = target_models(targets@);
    let ghost rs = remote_models(remote@);
    let mut creates: Vec<TerraformVariableProperty> = Vec::new();
    let mut existing: Vec<TerraformVariableProperty> = Vec::new();
    let mut ignored: Vec<String> = Vec::new();
    assert(prop_models(creates@) =~= Seq::empty());
    assert(prop_models(existing@) =~= Seq::empty());
    assert(char_strings(ignored@) =~= Seq::empty());
    assert(ts.take(0) =~= Seq::<TargetModel>::empty());
    let mut k: usize = 0;
    while k < targets.len()
        invariant
            k <= targets@.len(),
            ts == target_models(targets@),
            rs == remote_models(remote@),
            prop_models(creates@) == creates_of(ts.take(k as int), rs),
            prop_models(existing@) == existing_of(ts.take(k as int), rs),
            char_strings(ignored@) == prop_names(existing_of(ts.take(k as int), rs)),
        decreases targets@.len() - k,
    {
        let t = &targets[k];
        proof {
            assert(ts.take(k + 1).drop_last() =~= ts.take(k as int));
            assert(ts.take(k + 1).last() == t.model());
        }
        let name = t.get_variable_name();
        let description = match t.get_variable_description() {
            Some(d) => Some(d.clone()),
            None => None,
        };
        match find_remote(remote, name) {
            Some(id) => {
                let p = TerraformVariableProperty::new(
                    Some(id.clone()),
                    String::from_str(name),
                    description,
                    t.get_value().deep_clone(),
                );
                let ghost (eb, ib) = (existing@, ignored@);
                let n = String::from_str(name);
                existing.push(p);
                ignored.push(n);
                assert(existing@ == eb.push(p) && ignored@ == ib.push(n));
                assert(prop_models(existing@) =~= prop_models(eb).push(p.model()));
                assert(char_strings(ignored@) =~= char_strings(ib).push(n@));
                assert(prop_names(existing_of(ts.take(k + 1), rs)) =~= prop_names(existing_of(ts.take(k as int), rs)).push(n@));
            },
            None => {
                let p = TerraformVariableProperty::new(
                    None,
                    String::from_str(name),
                    description,
                    t.get_value().deep_clone(),
                );
                let ghost cb = creates@;
                creates.push(p);
                assert(creates@ == cb.push(p));
                assert(prop_models(creates@) =~= prop_models(cb).push(p.model()));
            },
        }
        k = k + 1;
    }
    assert(ts.take(k as int) =~= ts);
    if allow_update {
        SyncPlan { to_create: creates, to_update: existing, ignored_existing: Vec::new() }
    } else {
        let none: Vec<TerraformVariableProperty> = Vec::new();
        assert(prop_models(none@) =~= Seq::empty());
        SyncPlan { to_create: creates, to_update: none, ignored_existing: ignored }
    }
}

/// Every target is either to be created or found existing, never both, and
/// which of the two depends only on whether a remote variable has its name.
pub proof fn lemma_partition(ts: Seq<TargetModel>, remote: Seq<RemoteModel>)
    ensures
        creates_of(ts, remote).len() + existing_of(ts, remote).len() == ts.len(),
        prop_names(creates_of(ts, remote)).to_set() + prop_names(existing_of(ts, remote)).to_set()
            == target_names(ts).to_set(),
        prop_names(creates_of(ts, remote)).to_set().disjoint(prop_names(existing_of(ts, remote)).to_set()),
        forall|n: Seq<char>| #[trigger] prop_names(creates_of(ts, remote)).contains(n) ==> remote_id(remote, n) is None,
        forall|n: Seq<char>| #[trigger] prop_names(existing_of(ts, remote)).contains(n) ==> remote_id(remote, n) is Some,
    decreases ts.len(),
{
    let c = creates_of(ts, remote);
    let e = existing_of(ts, remote);
    if ts.len() == 0 {
        assert(prop_names(c) =~= Seq::empty());
        assert(prop_names(e) =~= Seq::empty());
        assert(target_names(ts) =~= Seq::empty());
        assert(prop_names(c).to_set() + prop_names(e).to_set() =~= target_names(ts).to_set());
    } else {
        let prev = ts.drop_last();
        let t = ts.last();
        lemma_partition(prev, remote);
        let pc = creates_of(prev, remote);
        let pe = existing_of(prev, remote);
        assert(target_names(ts) =~= target_names(prev).push(t.name));
        target_names(prev).lemma_push_to_set_commute(t.name);
        if remote_id(remote, t.name) is None {
            assert(e == pe);
            assert(prop_names(c) =~= prop_names(pc).push(t.name));
            prop_names(pc).lemma_push_to_set_commute(t.name);
            assert forall|n: Seq<char>| #[trigger] prop_names(c).contains(n) implies remote_id(remote, n) is None by {
                if n != t.name {
                    let k = choose|k: int| 0 <= k < prop_names(c).len() && prop_names(c)[k] == n;
                    assert(prop_names(pc)[k] == n);
                    assert(prop_names(pc).contains(n));
                }
            }
        } else {
            assert(c == pc);
            assert(prop_names(e) =~= prop_names(pe).push(t.name));
            prop_names(pe).lemma_push_to_set_commute(t.name);
            assert forall|n: Seq<char>| #[trigger] prop_names(e).contains(n) implies remote_id(remote, n) is Some by {
                if n != t.name {
                    let k = choose|k: int| 0 <= k < prop_names(e).len() && prop_names(e)[k] == n;
                    assert(prop_names(pe)[k] == n);
                    assert(prop_names(pe).contains(n));
                }
            }
        }
        assert(prop_names(c).to_set() + prop_names(e).to_set() =~= target_names(ts).to_set());
        assert(prop_names(c).to_set().disjoint(prop_names(e).to_set()));
    }
}

/// Without permission to update, nothing is updated and every existing
/// target is reported as ignored.
pub proof fn lemma_no_update_without_permission(ts: Seq<TargetModel>, remote: Seq<RemoteModel>)
    ensures
        updates_of(ts, remote, false).len() == 0,
        ignored_of(ts, remote, false) == prop_names(existing_of(ts, remote)),
{
}

// ---------------------------------------------------------------- applying a batch

#[derive(Clone, Copy, Debug, PartialEq, Eq)]
pub enum Operation {
    Create,
    Update,
}

/// What the caller has to do next for a batch.
#[derive(Debug, PartialEq, Eq)]
pub enum BatchStep {
    /// Wait this long, then ask again: the same variable is tried again.
    Wait { nanos: u64 },
    /// Send this request and hand its answer to `record_response`.
    Send { request: ApiRequest },
    /// Nothing is left to send.
    Finished,
}

/// The variable on which a batch stopped, and why.
#[derive(Debug, PartialEq, Eq)]
pub struct ItemFailure {
    pub variable_name: String,
    pub operation: Operation,
    pub error: ApiError,
}

/// The request that creates or updates the variable `item` of workspace `ws`.
pub open spec fn request_for(op: Operation, ws: Seq<char>, item: PropModel, req: ApiRequest) -> bool {
    match op {
        Operation::Create => {
            &&& req.method == HttpMethod::Post
            &&& req.path@ == vars_path(ws)
            &&& req.body matches Some(b) && b@ == render(payload_of(None, item.name, item.description, item.value))
        },
        Operation::Update => {
            &&& item.id is Some
            &&& req.method == HttpMethod::Patch
            &&& req.path@ == var_path(ws, item.id->0)
            &&& req.body matches Some(b) && b@ == render(payload_of(item.id, item.name, item.description, item.value))
        },
    }
}

/// The status that a successful call of `op` answers with.
pub open spec fn expected_status(op: Operation) -> u16 {
    match op {
        Operation::Create => 201,
        Operation::Update => 200,
    }
}

pub open spec fn registration_models(rs: Seq<TerraformVariableRegistrationResult>) -> Seq<RegistrationModel> {
    Seq::new(rs.len(), |k: int| rs[k].model())
}

/// Creates or updates variables one after another, in their order, asking
/// the rate limiter before each call. A call that the limiter holds back is
/// tried again after the wait; the first call that fails stops the batch,
/// and what was applied before it stays applied.
pub struct BatchApply {
    operation: Operation,
    workspace_id: String,
    items: Vec<TerraformVariableProperty>,
    cursor: usize,
    awaiting: bool,
    results: Vec<TerraformVariableRegistrationResult>,
    failure: Option<ItemFailure>,
}

impl BatchApply {
    pub closed spec fn operation(&self) -> Operation {
        self.operation
    }

    pub closed spec fn workspace(&self) -> Seq<char> {
        self.workspace_id@
    }

    pub closed spec fn items(&self) -> Seq<PropModel> {
        prop_models(self.items@)
    }

    /// How many variables have been applied.
    pub closed spec fn done(&self) -> int {
        self.cursor as int
    }

    /// A request has been handed out and its answer not yet recorded.
    pub closed spec fn awaiting(&self) -> bool {
        self.awaiting
    }

    pub closed spec fn result_models(&self) -> Seq<RegistrationModel> {
        registration_models(self.results@)
    }

    pub closed spec fn failed(&self) -> bool {
        self.failure is Some
    }

    pub closed spec fn wf(&self) -> bool {
        &&& self.cursor <= self.items@.len()
        &&& self.results@.len() == self.cursor
        &&& self.awaiting ==> self.cursor < self.items@.len() && self.failure is None
        &&& self.operation == Operation::Update ==> forall|k: int|
            0 <= k < self.items@.len() ==> (#[trigger] self.items@[k]).variable_id is Some
    }

    /// A batch of `operation` over `items`, on workspace `workspace_id`.
    /// Every variable to update carries its remote id.
    pub fn new(operation: Operation, workspace_id: String, items: Vec<TerraformVariableProperty>) -> (r: Self)
        requires
            operation == Operation::Update ==> forall|k: int|
                0 <= k < items@.len() ==> (#[trigger] items@[k]).variable_id is Some,
        ensures
            r.wf(),
            r.operation() == operation,
            r.workspace() == workspace_id@,
            r.items() == prop_models(items@),
            r.done() == 0,
            !r.awaiting(),
            !r.failed(),
            r.result_models() == Seq::<RegistrationModel>::empty(),
    {
        let r = BatchApply {
            operation,
            workspace_id,
            items,
            cursor: 0,
            awaiting: false,
            results: Vec::new(),
            failure: None,
        };
        assert(registration_models(r.results@) =~= Seq::empty());
        r
    }

    /// Whether the batch has nothing left to send.
    pub fn is_finished(&self) -> (r: bool)
        requires
            self.wf(),
        ensures
            r == (self.failed() || self.done() == self.items().len()),
    {
        self.failure.is_some() || self.cursor == self.items.len()
    }

    /// What follows from the limiter's answer `grant`: nothing left gives
    /// `Finished`; otherwise a granted token hands out the request of the
    /// current variable, and a refusal tells the caller to wait the limiter's
    /// retry time, after which the same variable is tried again.
    pub fn step_with(&mut self, grant: Acquire) -> (r: BatchStep)
        requires
            old(self).wf(),
            !old(self).awaiting(),
        ensures
            final(self).wf(),
            final(self).operation() == old(self).operation(),
            final(self).workspace() == old(self).workspace(),
            final(self).items() == old(self).items(),
            final(self).done() == old(self).done(),
            final(self).result_models() == old(self).result_models(),
            final(self).failed() == old(self).failed(),
            (old(self).failed() || old(self).done() == old(self).items().len()) ==> {
                &&& r is Finished
                &&& !final(self).awaiting()
            },
            !(old(self).failed() || old(self).done() == old(self).items().len()) ==> match grant {
                Acquire::Granted => {
                    &&& r matches BatchStep::Send { request } && request_for(
                        old(self).operation(),
                        old(self).workspace(),
                        old(self).items()[old(self).done()],
                        request,
                    )
                    &&& final(self).awaiting()
                },
                Acquire::Backoff { wait_nanos } => {
                    &&& r == BatchStep::Wait { nanos: wait_nanos }
                    &&& !final(self).awaiting()
                },
            },
    {
        if self.failure.is_some() || self.cursor == self.items.len() {
            return BatchStep::Finished;
        }
        match grant {
            Acquire::Backoff { wait_nanos } => BatchStep::Wait { nanos: wait_nanos },
            Acquire::Granted => {
                let item = &self.items[self.cursor];
                let request = match self.operation {
                    Operation::Create => create_request(self.workspace_id.as_str(), item),
                    Operation::Update => {
                        let id = item.variable_id.as_ref().unwrap();
                        update_request(self.workspace_id.as_str(), id, item)
                    },
                };
                self.awaiting = true;
                BatchStep::Send { request }
            },
        }
    }

    /// The next thing to do: when a variable is left, asks `limiter` for a
    /// token and goes on as `step_with` says for its answer.
    pub fn next_step(&mut self, limiter: &RateLimiter) -> (r: BatchStep)
        requires
            old(self).wf(),
            !old(self).awaiting(),
        ensures
            final(self).wf(),
            final(self).operation() == old(self).operation(),
            final(self).workspace() == old(self).workspace(),
            final(self).items() == old(self).items(),
            final(self).done() == old(self).done(),
            final(self).result_models() == old(self).result_models(),
            final(self).failed() == old(self).failed(),
            match r {
                BatchStep::Finished => {
                    &&& old(self).failed() || old(self).done() == old(self).items().len()
                    &&& !final(self).awaiting()
                },
                BatchStep::Wait { nanos } => {
                    &&& nanos > 0
                    &&& !old(self).failed() && old(self).done() < old(self).items().len()
                    &&& !final(self).awaiting()
                },
                BatchStep::Send { request } => {
                    &&& !old(self).failed() && old(self).done() < old(self).items().len()
                    &&& final(self).awaiting()
                    &&& request_for(
                        old(self).operation(),
                        old(self).workspace(),
                        old(self).items()[old(self).done()],
                        request,
                    )
                },
            },
    {
        if self.failure.is_some() || self.cursor == self.items.len() {
            return BatchStep::Finished;
        }
        let grant = limiter.acquire();
        self.step_with(grant)
    }

    /// Records the answer (`status`, `body`) to the request last handed out.
    /// A success moves on to the next variable; a failure stops the batch.
    pub fn record_response(&mut self, status: u16, body: &str)
        requires
            old(self).wf(),
            old(self).awaiting(),
        ensures
            final(self).wf(),
            !final(self).awaiting(),
            final(self).operation() == old(self).operation(),
            final(self).workspace() == old(self).workspace(),
            final(self).items() == old(self).items(),
            match registration_outcome(
                expected_status(old(self).operation()),
                status,
                body@,
                is_string(old(self).items()[old(self).done()].value),
            ) {
                Ok(m) => {
                    &&& final(self).done() == old(self).done() + 1
                    &&& final(self).result_models() == old(self).result_models().push(m)
                    &&& !final(self).failed()
                },
                Err(e) => {
                    &&& final(self).done() == old(self).done()
                    &&& final(self).result_models() == old(self).result_models()
                    &&& final(self).failed()
                    &&& final(self).failure_is(old(self).items()[old(self).done()].name, e)
                },
            },
    {
        let c = self.cursor;
        let n = self.items.len();
        assert(c < n);
        let item = &self.items[c];
        let is_str = classify(&item.value).is_string;
        let outcome = match self.operation {
            Operation::Create => interpret_create_response(status, body, is_str),
            Operation::Update => interpret_update_response(status, body, is_str),
        };
        let ghost before = self.results@;
        match outcome {
            Ok(x) => {
                self.results.push(x);
                assert(registration_models(self.results@) =~= registration_models(before).push(x.model()));
                self.cursor = c + 1;
            },
            Err(e) => {
                let name = item.variable_name.clone();
                self.failure = Some(ItemFailure { variable_name: name, operation: self.operation, error: e });
            },
        }
        self.awaiting = false;
    }

    /// The failure recorded is on the variable `name`, with `error`.
    pub closed spec fn failure_is(&self, name: Seq<char>, error: ApiError) -> bool {
        self.failure matches Some(f) && f.variable_name@ == name && f.operation == self.operation
            && f.error == error
    }

    /// The variables applied so far, as the server echoed them, in order.
    pub fn results(&self) -> (r: &Vec<TerraformVariableRegistrationResult>)
        ensures
            registration_models(r@) == self.result_models(),
    {
        &self.results
    }

    /// Why the batch stopped, if it did.
    pub fn failure(&self) -> (r: &Option<ItemFailure>)
        ensures
            r is Some == self.failed(),
    {
        &self.failure
    }

    /// Hands out the results, ending the batch.
    pub fn into_results(self) -> (r: (Vec<TerraformVariableRegistrationResult>, Option<ItemFailure>))
        ensures
            registration_models(r.0@) == self.result_models(),
            r.1 is Some == self.failed(),
    {
        (self.results, self.failure)
    }
}

/// Starts creating `props` in workspace `workspace_id`, in their order.
pub fn create_variable(workspace_id: String, props: Vec<TerraformVariableProperty>) -> (r: BatchApply)
    ensures
        r.wf(),
        r.operation() == Operation::Create,
        r.workspace() == workspace_id@,
        r.items() == prop_models(props@),
        r.done() == 0,
        !r.awaiting(),
        !r.failed(),
        r.result_models() == Seq::<RegistrationModel>::empty(),
{
    BatchApply::new(Operation::Create, workspace_id, props)
}

/// Starts updating `props`, each of which carries its remote id, in
/// workspace `workspace_id`, in their order.
pub fn update_variable(workspace_id: String, props: Vec<TerraformVariableProperty>) -> (r: BatchApply)
    requires
        forall|k: int| 0 <= k < props@.len() ==> (#[trigger] props@[k]).variable_id is Some,
    ensures
        r.wf(),
        r.operation() == Operation::Update,
        r.workspace() == workspace_id@,
        r.items() == prop_models(props@),
        r.done() == 0,
        !r.awaiting(),
        !r.failed(),
        r.result_models() == Seq::<RegistrationModel>::empty(),
{
    BatchApply::new(Operation::Update, workspace_id, props)
}

// ---------------------------------------------------------------- one run

/// Where a run stands: the listing, the creates, the updates, and its end.
#[derive(Clone, Copy, Debug, PartialEq, Eq, Structural)]
pub enum SyncPhase {
    Listing,
    Creating,
    Updating,
    Done,
    Failed,
}

/// Why a run stopped early.
#[derive(Debug, PartialEq, Eq)]
pub enum SyncFailure {
    /// The variables of the workspace could not be listed.
    Listing(ApiError),
    /// A create or an update failed.
    Item(ItemFailure),
}

/// What the caller has to do next for a run.
#[derive(Debug, PartialEq, Eq)]
pub enum SyncAction {
    /// Wait this long, then ask again.
    Wait { nanos: u64 },
    /// Send this request and hand its answer to `record_response`.
    Send { request: ApiRequest },
    /// The run is over.
    Done,
}

/// One synchronisation pass over a workspace. It lists the workspace's
/// variables, creates the targets that are missing, then updates those that
/// exist when updating is allowed; otherwise it only reports them. Every
/// request waits for a token of the rate limiter. A failure ends the run;
/// what was applied before it stays applied.
pub struct SyncRun {
    workspace_id: String,
    targets: Vec<ExportValue>,
    allow_update: bool,
    phase: SyncPhase,
    awaiting_list: bool,
    batch: BatchApply,
    to_update: Vec<TerraformVariableProperty>,
    ignored: Vec<String>,
    created: Vec<TerraformVariableRegistrationResult>,
    updated: Vec<TerraformVariableRegistrationResult>,
    failure: Option<SyncFailure>,
    planned_creates: Ghost<Seq<PropModel>>,
    planned_updates: Ghost<Seq<PropModel>>,
}

impl SyncRun {
    pub closed spec fn phase(&self) -> SyncPhase {
        self.phase
    }

    pub closed spec fn workspace(&self) -> Seq<char> {
        self.workspace_id@
    }

    pub closed spec fn allow_update(&self) -> bool {
        self.allow_update
    }

    pub closed spec fn targets(&self) -> Seq<TargetModel> {
        target_models(self.targets@)
    }

    /// The variables to create, once the listing is read.
    pub closed spec fn planned_creates(&self) -> Seq<PropModel> {
        self.planned_creates@
    }

    /// The variables to update, once the listing is read.
    pub closed spec fn planned_updates(&self) -> Seq<PropModel> {
        self.planned_updates@
    }

    pub closed spec fn ignored(&self) -> Seq<Seq<char>> {
        char_strings(self.ignored@)
    }

    pub closed spec fn created_models(&self) -> Seq<RegistrationModel> {
        registration_models(self.created@)
    }

    pub closed spec fn updated_models(&self) -> Seq<RegistrationModel> {
        registration_models(self.updated@)
    }

    /// The variables created so far, as the server echoed them.
    pub closed spec fn created_so_far(&self) -> Seq<RegistrationModel> {
        if self.phase == SyncPhase::Creating {
            self.batch.result_models()
        } else {
            registration_models(self.created@)
        }
    }

    /// The variables updated so far, as the server echoed them.
    pub closed spec fn updated_so_far(&self) -> Seq<RegistrationModel> {
        if self.phase == SyncPhase::Updating {
            self.batch.result_models()
        } else {
            registration_models(self.updated@)
        }
    }

    /// The request last handed out has not been answered yet.
    pub closed spec fn awaiting(&self) -> bool {
        self.awaiting_list || ((self.phase == SyncPhase::Creating || self.phase == SyncPhase::Updating)
            && self.batch.awaiting())
    }

    /// The variable whose request the run hands out next.
    pub closed spec fn current_item(&self) -> PropModel {
        self.batch.items()[self.batch.done()]
    }

    pub closed spec fn wf(&self) -> bool {
        &&& self.batch.wf()
        &&& self.batch.workspace() == self.workspace_id@
        &&& forall|k: int|
            0 <= k < self.to_update@.len() ==> (#[trigger] self.to_update@[k]).variable_id is Some
        &&& (self.phase == SyncPhase::Listing || self.phase == SyncPhase::Creating) ==> prop_models(
            self.to_update@,
        ) == self.planned_updates@
        &&& self.awaiting_list ==> self.phase == SyncPhase::Listing
        &&& self.phase == SyncPhase::Listing ==> !self.batch.awaiting() && self.created@.len() == 0
        &&& (self.phase == SyncPhase::Listing || self.phase == SyncPhase::Creating) ==> self.updated@.len() == 0
        &&& self.phase == SyncPhase::Creating ==> {
            &&& self.batch.operation() == Operation::Create
            &&& self.batch.items() == self.planned_creates@
            &&& !self.batch.failed() && self.batch.done() < self.batch.items().len()
        }
        &&& self.phase == SyncPhase::Updating ==> {
            &&& self.batch.operation() == Operation::Update
            &&& self.batch.items() == self.planned_updates@
            &&& !self.batch.failed() && self.batch.done() < self.batch.items().len()
            &&& self.allow_update
            &&& self.created@.len() == self.planned_creates@.len()
        }
        &&& self.phase == SyncPhase::Done ==> {
            &&& self.created@.len() == self.planned_creates@.len()
            &&& self.updated@.len() == self.planned_updates@.len()
            &&& self.failure is None
        }
        &&& (self.phase == SyncPhase::Failed <==> self.failure is Some)
        &&& !self.allow_update ==> self.planned_updates@.len() == 0
    }

    /// A run over `targets` on workspace `workspace_id`; it starts by listing.
    /// Two targets with the same name are an input error: the first repeated
    /// name is reported and nothing is sent.
    pub fn new(workspace_id: String, targets: Vec<ExportValue>, allow_update: bool) -> (res: Result<
        Self,
        InputError,
    >)
        ensures
            match first_repeat(target_names(target_models(targets@))) {
                Some(n) => res matches Err(e) && e.model() == InputFault::DuplicateDestination(n),
                None => res matches Ok(r) && {
                    &&& r.wf()
                    &&& r.phase() == SyncPhase::Listing
                    &&& !r.awaiting()
                    &&& r.workspace() == workspace_id@
                    &&& r.targets() == target_models(targets@)
                    &&& r.allow_update() == allow_update
                },
            },
    {
        let ghost tn = target_names(target_models(targets@));
        let mut names: Vec<String> = Vec::new();
        assert(char_strings(names@) =~= tn.take(0));
        let mut k: usize = 0;
        while k < targets.len()
            invariant
                k <= targets@.len(),
                tn == target_names(target_models(targets@)),
                char_strings(names@) == tn.take(k as int),
            decreases targets@.len() - k,
        {
            let n = String::from_str(targets[k].get_variable_name());
            let ghost before = names@;
            names.push(n);
            assert(names@ == before.push(n));
            assert(char_strings(names@) =~= char_strings(before).push(n@));
            assert(target_models(targets@)[k as int] == targets@[k as int].model());
            assert(tn[k as int] == n@);
            assert(char_strings(names@) =~= tn.take(k + 1));
            k = k + 1;
        }
        assert(tn.take(k as int) =~= tn);
        match find_repeat(&names) {
            Some(i) => {
                return Err(InputError::DuplicateDestination(names[i].clone()));
            },
            None => {},
        }
        let batch = create_variable(workspace_id.clone(), Vec::new());
        let r = SyncRun {
            workspace_id,
            targets,
            allow_update,
            phase: SyncPhase::Listing,
            awaiting_list: false,
            batch,
            to_update: Vec::new(),
            ignored: Vec::new(),
            created: Vec::new(),
            updated: Vec::new(),
            failure: None,
            planned_creates: Ghost(Seq::empty()),
            planned_updates: Ghost(Seq::empty()),
        };
        assert(prop_models(r.to_update@) =~= Seq::empty());
        Ok(r)
    }

    /// Moves on while the current batch has nothing left to send.
    fn settle(&mut self)
        requires
            old(self).batch.wf(),
            old(self).batch.workspace() == old(self).workspace_id@,
            !old(self).awaiting_list,
            !old(self).batch.awaiting(),
            forall|k: int|
                0 <= k < old(self).to_update@.len() ==> (#[trigger] old(self).to_update@[k]).variable_id is Some,
            old(self).phase == SyncPhase::Creating || old(self).phase == SyncPhase::Updating,
            old(self).phase == SyncPhase::Creating ==> {
                &&& old(self).batch.operation() == Operation::Create
                &&& old(self).batch.items() == old(self).planned_creates@
                &&& prop_models(old(self).to_update@) == old(self).planned_updates@
                &&& old(self).updated@.len() == 0
            },
            old(self).phase == SyncPhase::Updating ==> {
                &&& old(self).batch.operation() == Operation::Update
                &&& old(self).batch.items() == old(self).planned_updates@
                &&& old(self).allow_update
                &&& old(self).created@.len() == old(self).planned_creates@.len()
            },
            old(self).failure is None,
            !old(self).allow_update ==> old(self).planned_updates@.len() == 0,
        ensures
            final(self).wf(),
            !final(self).awaiting(),
            final(self).workspace() == old(self).workspace(),
            final(self).targets() == old(self).targets(),
            final(self).allow_update() == old(self).allow_update(),
            final(self).planned_creates() == old(self).planned_creates(),
            final(self).planned_updates() == old(self).planned_updates(),
            final(self).ignored() == old(self).ignored(),
            final(self).phase() != SyncPhase::Listing,
            final(self).created_so_far() == old(self).created_so_far(),
            final(self).updated_so_far() == old(self).updated_so_far(),
            final(self).phase() == SyncPhase::Failed <==> old(self).batch.failed(),
    {
        if self.phase == SyncPhase::Creating && self.batch.is_finished() {
            let mut finished = create_variable(self.workspace_id.clone(), Vec::new());
            core::mem::swap(&mut self.batch, &mut finished);
            assert(finished.result_models().len() == finished.done());
            let (results, failure) = finished.into_results();
            assert(results@.len() == registration_models(results@).len());
            self.created = results;
            match failure {
                Some(f) => {
                    self.failure = Some(SyncFailure::Item(f));
                    self.phase = SyncPhase::Failed;
                    return;
                },
                None => {},
            }
            if self.to_update.len() > 0 {
                let mut pending: Vec<TerraformVariableProperty> = Vec::new();
                core::mem::swap(&mut self.to_update, &mut pending);
                self.batch = update_variable(self.workspace_id.clone(), pending);
                self.phase = SyncPhase::Updating;
            } else {
                self.phase = SyncPhase::Done;
            }
        }
        if self.phase == SyncPhase::Updating && self.batch.is_finished() {
            let mut finished = create_variable(self.workspace_id.clone(), Vec::new());
            core::mem::swap(&mut self.batch, &mut finished);
            assert(finished.result_models().len() == finished.done());
            let (results, failure) = finished.into_results();
            assert(results@.len() == registration_models(results@).len());
            self.updated = results;
            match failure {
                Some(f) => {
                    self.failure = Some(SyncFailure::Item(f));
                    self.phase = SyncPhase::Failed;
                },
                None => {
                    self.phase = SyncPhase::Done;
                },
            }
        }
    }

    /// What follows from the limiter's answer `grant`. A finished run is
    /// done whatever the answer. Otherwise a granted token hands out the next
    /// request (the listing, then the current variable's create or update),
    /// and a refusal tells the caller to wait the limiter's retry time, after
    /// which the same request is due again.
    pub fn action_with(&mut self, grant: Acquire) -> (r: SyncAction)
        requires
            old(self).wf(),
            !old(self).awaiting(),
        ensures
            final(self).wf(),
            final(self).phase() == old(self).phase(),
            final(self).workspace() == old(self).workspace(),
            final(self).targets() == old(self).targets(),
            final(self).allow_update() == old(self).allow_update(),
            final(self).planned_creates() == old(self).planned_creates(),
            final(self).planned_updates() == old(self).planned_updates(),
            final(self).ignored() == old(self).ignored(),
            final(self).created_models() == old(self).created_models(),
            final(self).updated_models() == old(self).updated_models(),
            final(self).created_so_far() == old(self).created_so_far(),
            final(self).updated_so_far() == old(self).updated_so_far(),
            old(self).phase() == SyncPhase::Updating ==> old(self).allow_update(),
            (old(self).phase() == SyncPhase::Done || old(self).phase() == SyncPhase::Failed) ==> {
                &&& r is Done
                &&& !final(self).awaiting()
            },
            !(old(self).phase() == SyncPhase::Done || old(self).phase() == SyncPhase::Failed) ==> match grant {
                Acquire::Granted => {
                    &&& final(self).awaiting()
                    &&& r matches SyncAction::Send { request } && match old(self).phase() {
                        SyncPhase::Listing => request.method == HttpMethod::Get && request.path@
                            == vars_path(old(self).workspace()) && request.body is None,
                        SyncPhase::Creating => request_for(
                            Operation::Create,
                            old(self).workspace(),
                            old(self).current_item(),
                            request,
                        ),
                        _ => request_for(
                            Operation::Update,
                            old(self).workspace(),
                            old(self).current_item(),
                            request,
                        ),
                    }
                },
                Acquire::Backoff { wait_nanos } => {
                    &&& r == SyncAction::Wait { nanos: wait_nanos }
                    &&& !final(self).awaiting()
                },
            },
    {
        match self.phase {
            SyncPhase::Listing => match grant {
                Acquire::Backoff { wait_nanos } => SyncAction::Wait { nanos: wait_nanos },
                Acquire::Granted => {
                    self.awaiting_list = true;
                    SyncAction::Send { request: list_request(self.workspace_id.as_str()) }
                },
            },
            SyncPhase::Creating | SyncPhase::Updating => match self.batch.step_with(grant) {
                BatchStep::Wait { nanos } => SyncAction::Wait { nanos },
                BatchStep::Send { request } => SyncAction::Send { request },
                BatchStep::Finished => {
                    assert(false);
                    SyncAction::Done
                },
            },
            SyncPhase::Done | SyncPhase::Failed => SyncAction::Done,
        }
    }

    /// The next thing to do: unless the run is over, asks `limiter` for a
    /// token and goes on as `action_with` says for its answer.
    pub fn next_action(&mut self, limiter: &RateLimiter) -> (r: SyncAction)
        requires
            old(self).wf(),
            !old(self).awaiting(),
        ensures
            final(self).wf(),
            final(self).phase() == old(self).phase(),
            final(self).workspace() == old(self).workspace(),
            final(self).targets() == old(self).targets(),
            final(self).allow_update() == old(self).allow_update(),
            final(self).planned_creates() == old(self).planned_creates(),
            final(self).planned_updates() == old(self).planned_updates(),
            final(self).ignored() == old(self).ignored(),
            final(self).created_models() == old(self).created_models(),
            final(self).updated_models() == old(self).updated_models(),
            final(self).created_so_far() == old(self).created_so_far(),
            final(self).updated_so_far() == old(self).updated_so_far(),
            (r is Done) <==> (old(self).phase() == SyncPhase::Done || old(self).phase() == SyncPhase::Failed),
            old(self).phase() == SyncPhase::Updating ==> old(self).allow_update(),
            r matches SyncAction::Wait { nanos } ==> nanos > 0 && !final(self).awaiting(),
            r matches SyncAction::Send { request } ==> final(self).awaiting() && match old(self).phase() {
                SyncPhase::Listing => request.method == HttpMethod::Get && request.path@ == vars_path(
                    old(self).workspace(),
                ) && request.body is None,
                SyncPhase::Creating => request_for(
                    Operation::Create,
                    old(self).workspace(),
                    old(self).current_item(),
                    request,
                ),
                _ => request_for(Operation::Update, old(self).workspace(), old(self).current_item(), request),
            },
    {
        if self.phase == SyncPhase::Done || self.phase == SyncPhase::Failed {
            return SyncAction::Done;
        }
        let grant = limiter.acquire();
        self.action_with(grant)
    }

    /// Records the answer (`status`, `body`) to the request last handed out.
    /// The answer to the listing decides what is created, updated or ignored.
    pub fn record_response(&mut self, status: u16, body: &str)
        requires
            old(self).wf(),
            old(self).awaiting(),
        ensures
            final(self).wf(),
            !final(self).awaiting(),
            final(self).workspace() == old(self).workspace(),
            final(self).targets() == old(self).targets(),
            final(self).allow_update() == old(self).allow_update(),
            old(self).phase() == SyncPhase::Listing ==> match list_outcome(status, body@) {
                Ok(remote) => {
                    &&& final(self).planned_creates() == creates_of(old(self).targets(), remote)
                    &&& final(self).planned_updates() == updates_of(
                        old(self).targets(),
                        remote,
                        old(self).allow_update(),
                    )
                    &&& final(self).ignored() == ignored_of(old(self).targets(), remote, old(self).allow_update())
                    &&& final(self).phase() != SyncPhase::Listing
                    &&& final(self).phase() != SyncPhase::Failed
                },
                Err(e) => {
                    &&& final(self).phase() == SyncPhase::Failed
                    &&& final(self).failure_is_listing(e)
                },
            },
            old(self).phase() != SyncPhase::Listing ==> {
                &&& final(self).planned_creates() == old(self).planned_creates()
                &&& final(self).planned_updates() == old(self).planned_updates()
                &&& final(self).ignored() == old(self).ignored()
            },
            old(self).phase() == SyncPhase::Creating ==> {
                &&& final(self).updated_so_far() == old(self).updated_so_far()
                &&& match registration_outcome(201, status, body@, is_string(old(self).current_item().value)) {
                    Ok(m) => final(self).created_so_far() == old(self).created_so_far().push(m)
                        && final(self).phase() != SyncPhase::Failed,
                    Err(_) => final(self).created_so_far() == old(self).created_so_far()
                        && final(self).phase() == SyncPhase::Failed,
                }
            },
            old(self).phase() == SyncPhase::Updating ==> {
                &&& final(self).created_so_far() == old(self).created_so_far()
                &&& match registration_outcome(200, status, body@, is_string(old(self).current_item().value)) {
                    Ok(m) => final(self).updated_so_far() == old(self).updated_so_far().push(m)
                        && final(self).phase() != SyncPhase::Failed,
                    Err(_) => final(self).updated_so_far() == old(self).updated_so_far()
                        && final(self).phase() == SyncPhase::Failed,
                }
            },
    {
        if self.phase == SyncPhase::Listing {
            self.awaiting_list = false;
            match get_variables(status, body) {
                Err(e) => {
                    self.failure = Some(SyncFailure::Listing(e));
                    self.phase = SyncPhase::Failed;
                },
                Ok(remote) => {
                    let plan = plan_sync(&self.targets, &remote, self.allow_update);
                    self.planned_creates = Ghost(prop_models(plan.to_create@));
                    self.planned_updates = Ghost(prop_models(plan.to_update@));
                    proof {
                        assert forall|k: int| 0 <= k < plan.to_update@.len() implies (#[trigger] plan.to_update@[k]).variable_id is Some by {
                            let ghost ts = target_models(self.targets@);
                            let ghost rs = remote_models(remote@);
                            assert(prop_models(plan.to_update@).len() == plan.to_update@.len());
                            assert(prop_models(plan.to_update@)[k] == plan.to_update@[k].model());
                            assert(plan.to_update@[k].model().id == opt_text(plan.to_update@[k].variable_id));
                            assert(prop_models(plan.to_update@) == updates_of(ts, rs, self.allow_update));
                            if self.allow_update {
                                lemma_existing_have_ids(ts, rs, k);
                                assert(updates_of(ts, rs, self.allow_update)[k].id is Some);
                            }
                            assert(opt_text(plan.to_update@[k].variable_id) is Some);
                        }
                    }
                    self.batch = create_variable(self.workspace_id.clone(), plan.to_create);
                    self.to_update = plan.to_update;
                    self.ignored = plan.ignored_existing;
                    self.phase = SyncPhase::Creating;
                    self.settle();
                },
            }
        } else {
            self.batch.record_response(status, body);
            self.settle();
        }
    }

    /// The failure recorded is the listing's, with `error`.
    pub closed spec fn failure_is_listing(&self, error: ApiError) -> bool {
        self.failure == Some(SyncFailure::Listing(error))
    }

    /// Where the run stands.
    pub fn current_phase(&self) -> (r: SyncPhase)
        ensures
            r == self.phase(),
    {
        self.phase
    }

    /// Hands out what the run did: the created and the updated variables as
    /// the server echoed them, the existing names left alone, and why the run
    /// stopped early, if it did.
    pub fn into_report(self) -> (r: SyncReport)
        requires
            self.wf(),
            self.phase() == SyncPhase::Done || self.phase() == SyncPhase::Failed,
        ensures
            registration_models(r.created@) == self.created_so_far(),
            registration_models(r.updated@) == self.updated_so_far(),
            char_strings(r.ignored_existing@) == self.ignored(),
            r.failure is Some <==> self.phase() == SyncPhase::Failed,
            self.phase() == SyncPhase::Done ==> r.created@.len() == self.planned_creates().len()
                && r.updated@.len() == self.planned_updates().len(),
    {
        SyncReport {
            created: self.created,
            updated: self.updated,
            ignored_existing: self.ignored,
            failure: self.failure,
        }
    }
}

/// What a run did.
pub struct SyncReport {
    pub created: Vec<TerraformVariableRegistrationResult>,
    pub updated: Vec<TerraformVariableRegistrationResult>,
    pub ignored_existing: Vec<String>,
    pub failure: Option<SyncFailure>,
}

/// A variable found existing carries the id of the remote variable.
proof fn lemma_existing_have_ids(ts: Seq<TargetModel>, remote: Seq<RemoteModel>, k: int)
    requires
        0 <= k < existing_of(ts, remote).len(),
    ensures
        existing_of(ts, remote)[k].id is Some,
    decreases ts.len(),
{
    if ts.len() > 0 {
        let prev = existing_of(ts.drop_last(), remote);
        if k < prev.len() {
            lemma_existing_have_ids(ts.drop_last(), remote, k);
        }
    }
}

} // verus!
