//! The interpreter's entry points: instantiation, submissions, owner
//! administration, register queries and replies.
use crate::error::ContractError;
use crate::host::Host;
use crate::interpreter::{hop_outcome, interpret_program, Env};
use crate::program::Program;
use crate::response::{CosmosMsg, Event, ReplyOn, Response, SubMsg, CALL_ID, SELF_CALL_ID};
use crate::state::{
    copy_events, owner_set, owners_distinct, same_attributes, same_events, Config, RawEvent, State, SubCallOutcome,
};
use vstd::prelude::*;

verus! {

/// Who sent the running message.
#[derive(Clone, Debug, PartialEq, Eq)]
pub struct MessageInfo {
    pub sender: Vec<u8>,
}

/// The configuration an interpreter is created with.
#[derive(Clone, Debug, PartialEq, Eq)]
pub struct InstantiateMsg {
    pub registry_address: Vec<u8>,
    pub relayer_address: Vec<u8>,
    pub network_id: u32,
    pub user_id: Vec<u8>,
}

/// A submission to the interpreter.
#[derive(Debug, PartialEq, Eq)]
pub enum ExecuteMsg {
    /// Runs an encoded program from its first instruction.
    Execute { program: Vec<u8> },
    /// Runs a program, or what remains of one; sent by the interpreter to
    /// itself. `None` where the submitted bytes are not a program.
    SelfExecute { program: Option<Program> },
    /// Lets more callers submit programs.
    AddOwners { owners: Vec<Vec<u8>> },
    /// Stops callers from submitting programs.
    RemoveOwners { owners: Vec<Vec<u8>> },
}

/// A register that can be queried.
#[derive(Clone, Copy, PartialEq, Eq, Structural, Debug)]
pub enum Register {
    Ip,
    Result,
    This,
    Relayer,
}

/// The content of a queried register.
#[derive(Clone, Debug, PartialEq, Eq)]
pub enum QueryResponse {
    Ip(u64),
    Result(Option<Result<SubCallOutcome, String>>),
    This(Vec<u8>),
    Relayer(Vec<u8>),
}

/// Whether two byte strings are equal.
fn same_bytes(a: &Vec<u8>, b: &Vec<u8>) -> (r: bool)
    ensures
        r == (a@ == b@),
{
    if a.len() != b.len() {
        return false;
    }
    let mut i: usize = 0;
    while i < a.len()
        invariant
            a@.len() == b@.len(),
            i <= a@.len(),
            forall|k: int| 0 <= k < i ==> a@[k] == b@[k],
        decreases a@.len() - i,
    {
        if a[i] != b[i] {
            return false;
        }
        i += 1;
    }
    assert(a@ =~= b@);
    true
}

/// Whether `a` is among `owners`.
fn has_owner(owners: &Vec<Vec<u8>>, a: &Vec<u8>) -> (r: bool)
    ensures
        r == owner_set(owners@).contains(a@),
{
    let mut i: usize = 0;
    while i < owners.len()
        invariant
            i <= owners@.len(),
            forall|k: int| 0 <= k < i ==> (#[trigger] owners@[k])@ != a@,
        decreases owners@.len() - i,
    {
        if same_bytes(&owners[i], a) {
            assert(owner_set(owners@).contains(a@)) by {
                assert(owners@[i as int]@ == a@);
            }
            return true;
        }
        i += 1;
    }
    false
}

/// Creates an interpreter: stores its configuration and makes the
/// instantiator its sole owner.
pub fn instantiate(info: MessageInfo, msg: InstantiateMsg) -> (r: (State, Response))
    ensures
        r.0.config.registry_address == msg.registry_address,
        r.0.config.relayer_address == msg.relayer_address,
        r.0.config.network_id == msg.network_id,
        r.0.config.user_id == msg.user_id,
        r.0.ip == 0,
        r.0.result is None,
        owner_set(r.0.owners@) == set![info.sender@],
        r.0.wf(),
        r.1.messages@.len() == 0,
        r.1.events@.len() == 1,
        r.1.events@[0] matches Event::Instantiated { network_id, user_id } && network_id
            == msg.network_id && user_id@ == msg.user_id@,
{
    let InstantiateMsg { registry_address, relayer_address, network_id, user_id } = msg;
    let event = Event::Instantiated { network_id, user_id: user_id.clone() };
    let mut owners: Vec<Vec<u8>> = Vec::new();
    owners.push(info.sender);
    let state = State {
        config: Config { registry_address, relayer_address, network_id, user_id },
        ip: 0,
        result: None,
        owners,
    };
    assert(owner_set(state.owners@) =~= set![info.sender@]) by {
        assert(state.owners@[0]@ == info.sender@);
    }
    let mut response = Response::new();
    response.events.push(event);
    (state, response)
}

/// Whether `sender` may submit: the interpreter itself or an owner.
pub open spec fn authorized(state: State, env: Env, sender: Seq<u8>) -> bool {
    sender == env.contract_address@ || owner_set(state.owners@).contains(sender)
}

/// Fails with `NotAuthorized` unless `sender` is the interpreter itself or an
/// owner.
pub fn assert_owner(state: &State, env: &Env, sender: &Vec<u8>) -> (r: Result<(), ContractError>)
    ensures
        r is Ok <==> authorized(*state, *env, sender@),
        r is Err ==> r == Err::<(), ContractError>(ContractError::NotAuthorized),
{
    if same_bytes(sender, &env.contract_address) || has_owner(&state.owners, sender) {
        Ok(())
    } else {
        Err(ContractError::NotAuthorized)
    }
}

/// Starts a fresh run of an encoded program: resets the instruction pointer
/// and sends the program to the interpreter itself, reporting back on failure
/// only.
pub fn initiate_execution(state: &mut State, env: &Env, program: Vec<u8>) -> (r: Response)
    ensures
        final(state).ip == 0,
        final(state).config == old(state).config,
        final(state).result == old(state).result,
        final(state).owners == old(state).owners,
        r.events@.len() == 0,
        r.messages@.len() == 1,
        r.messages@[0].id == SELF_CALL_ID,
        r.messages@[0].reply_on == ReplyOn::Error,
        r.messages@[0].msg matches CosmosMsg::SelfExecute { contract, program: sent } && contract@
            == env.contract_address@ && sent == program,
{
    state.ip = 0;
    let mut response = Response::new();
    response.messages.push(
        SubMsg {
            id: SELF_CALL_ID,
            msg: CosmosMsg::SelfExecute { contract: env.contract_address.clone(), program },
            reply_on: ReplyOn::Error,
        },
    );
    response
}

/// Adds owners; those already there stay as they are.
pub fn add_owners(state: &mut State, owners: Vec<Vec<u8>>) -> (r: Response)
    requires
        old(state).wf(),
    ensures
        final(state).wf(),
        owner_set(final(state).owners@) == owner_set(old(state).owners@).union(owner_set(owners@)),
        final(state).config == old(state).config,
        final(state).ip == old(state).ip,
        final(state).result == old(state).result,
        r.messages@.len() == 0,
        r.events@ == seq![Event::AddOwners { owners }],
{
    let mut i: usize = 0;
    while i < owners.len()
        invariant
            i <= owners@.len(),
            owners_distinct(state.owners@),
            owner_set(state.owners@) == owner_set(old(state).owners@).union(
                owner_set(owners@.take(i as int)),
            ),
            state.config == old(state).config,
            state.ip == old(state).ip,
            state.result == old(state).result,
        decreases owners@.len() - i,
    {
        let ghost before = state.owners@;
        if !has_owner(&state.owners, &owners[i]) {
            state.owners.push(owners[i].clone());
            assert(owners_distinct(state.owners@)) by {
                assert forall|a: int, b: int|
                    0 <= a < state.owners@.len() && 0 <= b < state.owners@.len() && a != b implies (
                    #[trigger] state.owners@[a])@ != (#[trigger] state.owners@[b])@ by {
                    if a == before.len() {
                        assert(!owner_set(before).contains(owners@[i as int]@));
                        assert(before[b]@ != owners@[i as int]@);
                    } else if b == before.len() {
                        assert(!owner_set(before).contains(owners@[i as int]@));
                        assert(before[a]@ != owners@[i as int]@);
                    }
                }
            }
        }
        proof {
            assert(owners@.take(i + 1) =~= owners@.take(i as int).push(owners@[i as int]));
            assert(owner_set(state.owners@) =~= owner_set(before).insert(owners@[i as int]@)) by {
                assert forall|x: Seq<u8>| owner_set(state.owners@).contains(x) implies owner_set(
                    before,
                ).insert(owners@[i as int]@).contains(x) by {
                    let k = choose|k: int| 0 <= k < state.owners@.len() && (#[trigger] state.owners@[k])@ == x;
                    if k < before.len() {
                        assert(before[k]@ == x);
                    }
                }
                assert forall|x: Seq<u8>| owner_set(before).insert(owners@[i as int]@).contains(x) implies owner_set(
                    state.owners@,
                ).contains(x) by {
                    if x != owners@[i as int]@ {
                        let k = choose|k: int| 0 <= k < before.len() && (#[trigger] before[k])@ == x;
                        assert(state.owners@[k]@ == x);
                    } else if state.owners@.len() > before.len() {
                        assert(state.owners@[before.len() as int]@ == x);
                    }
                }
            }
            assert(owner_set(owners@.take(i + 1)) =~= owner_set(owners@.take(i as int)).insert(
                owners@[i as int]@,
            )) by {
                let t = owners@.take(i + 1);
                assert forall|x: Seq<u8>| owner_set(t).contains(x) implies owner_set(
                    owners@.take(i as int),
                ).insert(owners@[i as int]@).contains(x) by {
                    let k = choose|k: int| 0 <= k < t.len() && (#[trigger] t[k])@ == x;
                    if k < i {
                        assert(owners@.take(i as int)[k]@ == x);
                    }
                }
                assert forall|x: Seq<u8>| owner_set(owners@.take(i as int)).insert(owners@[i as int]@).contains(x)
                    implies owner_set(t).contains(x) by {
                    if x != owners@[i as int]@ {
                        let k = choose|k: int| 0 <= k < i && (#[trigger] owners@.take(i as int)[k])@ == x;
                        assert(t[k]@ == x);
                    } else {
                        assert(t[i as int]@ == x);
                    }
                }
            }
        }
        i += 1;
    }
    assert(owners@.take(owners@.len() as int) =~= owners@);
    let mut response = Response::new();
    response.events.push(Event::AddOwners { owners });
    assert(response.events@ =~= seq![Event::AddOwners { owners }]);
    response
}

/// Removes owners; addresses that are not owners are passed over.
pub fn remove_owners(state: &mut State, owners: Vec<Vec<u8>>) -> (r: Response)
    requires
        old(state).wf(),
    ensures
        final(state).wf(),
        owner_set(final(state).owners@) == owner_set(old(state).owners@).difference(
            owner_set(owners@),
        ),
        final(state).config == old(state).config,
        final(state).ip == old(state).ip,
        final(state).result == old(state).result,
        r.messages@.len() == 0,
        r.events@ == seq![Event::RemoveOwners { owners }],
{
    let ghost before = state.owners@;
    let mut kept: Vec<Vec<u8>> = Vec::new();
    let mut i: usize = 0;
    while i < state.owners.len()
        invariant
            i <= state.owners@.len(),
            state.owners@ == before,
            owners_distinct(before),
            owners_distinct(kept@),
            forall|k: int|
                0 <= k < kept@.len() ==> exists|j: int|
                    0 <= j < i && (#[trigger] kept@[k])@ == (#[trigger] before[j])@,
            owner_set(kept@) == owner_set(before.take(i as int)).difference(owner_set(owners@)),
        decreases state.owners@.len() - i,
    {
        let ghost old_kept = kept@;
        let a = &state.owners[i];
        if !has_owner(&owners, a) {
            kept.push(a.clone());
            assert(owners_distinct(kept@)) by {
                assert forall|x: int, y: int|
                    0 <= x < kept@.len() && 0 <= y < kept@.len() && x != y implies (
                    #[trigger] kept@[x])@ != (#[trigger] kept@[y])@ by {
                    if x == old_kept.len() || y == old_kept.len() {
                        let z = if x == old_kept.len() { y } else { x };
                        let j = choose|j: int| 0 <= j < i && (#[trigger] old_kept[z])@ == (#[trigger] before[j])@;
                        assert(before[j]@ != before[i as int]@);
                    }
                }
            }
        }
        proof {
            let t = before.take(i + 1);
            let t0 = before.take(i as int);
            assert forall|x: Seq<u8>| owner_set(kept@).contains(x) == owner_set(t).difference(
                owner_set(owners@),
            ).contains(x) by {
                if owner_set(kept@).contains(x) {
                    let k = choose|k: int| 0 <= k < kept@.len() && (#[trigger] kept@[k])@ == x;
                    if k < old_kept.len() {
                        assert(owner_set(old_kept).contains(x));
                        let j = choose|j: int| 0 <= j < i && (#[trigger] t0[j])@ == x;
                        assert(t[j]@ == x);
                    } else {
                        assert(t[i as int]@ == x);
                    }
                }
                if owner_set(t).difference(owner_set(owners@)).contains(x) {
                    let j = choose|j: int| 0 <= j < t.len() && (#[trigger] t[j])@ == x;
                    if j < i {
                        assert(t0[j]@ == x);
                        assert(owner_set(old_kept).contains(x));
                        let k = choose|k: int| 0 <= k < old_kept.len() && (#[trigger] old_kept[k])@ == x;
                        assert(kept@[k]@ == x);
                    } else {
                        assert(kept@[kept@.len() - 1]@ == x);
                    }
                }
            }
            assert(owner_set(kept@) =~= owner_set(t).difference(owner_set(owners@)));
            assert forall|k: int| 0 <= k < kept@.len() implies exists|j: int|
                0 <= j < i + 1 && (#[trigger] kept@[k])@ == (#[trigger] before[j])@ by {
                if k < old_kept.len() {
                    let j = choose|j: int| 0 <= j < i && (#[trigger] old_kept[k])@ == (#[trigger] before[j])@;
                    assert(kept@[k]@ == before[j]@);
                } else {
                    assert(kept@[k]@ == before[i as int]@);
                }
            }
        }
        i += 1;
    }
    assert(before.take(before.len() as int) =~= before);
    state.owners = kept;
    let mut response = Response::new();
    response.events.push(Event::RemoveOwners { owners });
    assert(response.events@ =~= seq![Event::RemoveOwners { owners }]);
    response
}

/// Both are absent, or both hold the same bytes.
pub open spec fn same_data(a: Option<Vec<u8>>, b: Option<Vec<u8>>) -> bool {
    match (a, b) {
        (None, None) => true,
        (Some(x), Some(y)) => x@ == y@,
        _ => false,
    }
}

/// A copy of a sub-call's outcome.
fn copy_outcome(outcome: &SubCallOutcome) -> (r: SubCallOutcome)
    ensures
        same_events(r.events@, outcome.events@),
        same_data(r.data, outcome.data),
{
    let data = match &outcome.data {
        Some(d) => Some(d.clone()),
        None => None,
    };
    SubCallOutcome { events: copy_events(&outcome.events), data }
}

/// `r` is what `register` holds.
pub open spec fn query_answer(state: State, env: Env, register: Register, r: QueryResponse) -> bool {
    match (register, r) {
        (Register::Ip, QueryResponse::Ip(v)) => v == state.ip,
        (Register::This, QueryResponse::This(a)) => a@ == env.contract_address@,
        (Register::Relayer, QueryResponse::Relayer(a)) => a@ == state.config.relayer_address@,
        (Register::Result, QueryResponse::Result(v)) => match (state.result, v) {
            (None, None) => true,
            (Some(Err(m)), Some(Err(m2))) => m2@ == m@,
            (Some(Ok(o)), Some(Ok(o2))) => same_events(o2.events@, o.events@) && same_data(o2.data, o.data),
            _ => false,
        },
        _ => false,
    }
}

/// Reads a register: the instruction pointer, the last sub-call result, the
/// interpreter's address, or the relayer's address.
pub fn query(state: &State, env: &Env, register: Register) -> (r: QueryResponse)
    ensures
        query_answer(*state, *env, register, r),
{
    match register {
        Register::Ip => QueryResponse::Ip(state.ip),
        Register::This => QueryResponse::This(env.contract_address.clone()),
        Register::Relayer => QueryResponse::Relayer(state.config.relayer_address.clone()),
        Register::Result => {
            let v = match &state.result {
                Some(Ok(o)) => Some(Ok(copy_outcome(o))),
                Some(Err(m)) => Some(Err(m.clone())),
                None => None,
            };
            QueryResponse::Result(v)
        },
    }
}

/// `events` passes on `raw`, event by event.
pub open spec fn forwards(events: Seq<Event>, raw: Seq<RawEvent>) -> bool {
    events.len() == raw.len() && forall|i: int|
        0 <= i < events.len() ==> match #[trigger] events[i] {
            Event::Forwarded(e) => e.ty@ == raw[i].ty@ && same_attributes(
                e.attributes@,
                raw[i].attributes@,
            ),
            _ => false,
        }
}

/// `r` is the `CallFailed` error with the message of the failed `result`.
pub open spec fn reports_failure(
    result: Result<SubCallOutcome, String>,
    r: Result<Response, ContractError>,
) -> bool {
    match (result, r) {
        (Err(m), Err(ContractError::CallFailed(m2))) => m2@ == m@,
        _ => false,
    }
}

/// Handles the reply to a dispatched call, which reports success only: keeps
/// the outcome in the result register and passes its events on.
fn handle_call_result(state: &mut State, result: Result<SubCallOutcome, String>) -> (r: Result<
    Response,
    ContractError,
>)
    ensures
        result is Ok ==> r is Ok && final(state).result == Some(result) && forwards(
            r->Ok_0.events@,
            result->Ok_0.events@,
        ) && r->Ok_0.messages@.len() == 0,
        result is Err ==> reports_failure(result, r) && *final(state) == *old(state),
        final(state).config == old(state).config,
        final(state).ip == old(state).ip,
        final(state).owners == old(state).owners,
{
    match result {
        Ok(outcome) => {
            let mut response = Response::new();
            let mut i: usize = 0;
            while i < outcome.events.len()
                invariant
                    i <= outcome.events@.len(),
                    response.messages@.len() == 0,
                    forwards(response.events@, outcome.events@.take(i as int)),
                decreases outcome.events@.len() - i,
            {
                response.events.push(Event::Forwarded(outcome.events[i].copy()));
                i += 1;
            }
            assert(outcome.events@.take(outcome.events@.len() as int) =~= outcome.events@);
            state.result = Some(Ok(outcome));
            Ok(response)
        },
        Err(message) => Err(ContractError::CallFailed(message)),
    }
}

/// Handles the reply to a continuation, which reports failure only: keeps the
/// failure in the result register.
fn handle_self_call_result(state: &mut State, result: Result<SubCallOutcome, String>) -> (r: Result<
    Response,
    ContractError,
>)
    ensures
        result is Err ==> r is Ok && final(state).result == Some(result) && r->Ok_0.events@.len()
            == 0 && r->Ok_0.messages@.len() == 0,
        result is Ok ==> r == Err::<Response, ContractError>(ContractError::UnexpectedSuccess)
            && *final(state) == *old(state),
        final(state).config == old(state).config,
        final(state).ip == old(state).ip,
        final(state).owners == old(state).owners,
{
    match result {
        Ok(_) => Err(ContractError::UnexpectedSuccess),
        Err(message) => {
            state.result = Some(Err(message));
            Ok(Response::new())
        },
    }
}

/// Handles the chain's report on a sub-message, told apart by its reply id: a
/// dispatched call's success is kept in the result register and its events
/// passed on; a continuation's failure is kept in the result register.
pub fn reply(state: &mut State, id: u64, result: Result<SubCallOutcome, String>) -> (r: Result<
    Response,
    ContractError,
>)
    ensures
        final(state).config == old(state).config,
        final(state).ip == old(state).ip,
        final(state).owners == old(state).owners,
        r is Err ==> *final(state) == *old(state),
        id == CALL_ID ==> (result is Ok ==> r is Ok && final(state).result == Some(result)
            && forwards(r->Ok_0.events@, result->Ok_0.events@) && r->Ok_0.messages@.len() == 0)
            && (result is Err ==> reports_failure(result, r)),
        id == SELF_CALL_ID ==> (result is Err ==> r is Ok && final(state).result == Some(result)
            && r->Ok_0.events@.len() == 0 && r->Ok_0.messages@.len() == 0) && (result is Ok
            ==> r == Err::<Response, ContractError>(ContractError::UnexpectedSuccess)),
        id != CALL_ID && id != SELF_CALL_ID ==> r == Err::<Response, ContractError>(
            ContractError::UnknownReplyId(id),
        ),
{
    if id == CALL_ID {
        handle_call_result(state, result)
    } else if id == SELF_CALL_ID {
        handle_self_call_result(state, result)
    } else {
        Err(ContractError::UnknownReplyId(id))
    }
}

/// `resp` sends `program` to the interpreter at `contract`, reporting back on
/// failure only, and does nothing else.
pub open spec fn starts_run(resp: Response, contract: Seq<u8>, program: Vec<u8>) -> bool {
    &&& resp.events@.len() == 0
    &&& resp.messages@.len() == 1
    &&& resp.messages@[0].id == SELF_CALL_ID
    &&& resp.messages@[0].reply_on == ReplyOn::Error
    &&& match resp.messages@[0].msg {
        CosmosMsg::SelfExecute { contract: c, program: sent } => c@ == contract && sent == program,
        _ => false,
    }
}

/// What a submission `msg` from `sender` does: `new` is the state after it
/// and `r` its result.
pub open spec fn execute_outcome(
    old: State,
    new: State,
    env: Env,
    sender: Seq<u8>,
    msg: ExecuteMsg,
    r: Result<Response, ContractError>,
) -> bool {
    if !authorized(old, env, sender) {
        r == Err::<Response, ContractError>(ContractError::NotAuthorized) && new == old
    } else {
        match msg {
            ExecuteMsg::Execute { program } => match r {
                Ok(resp) => new.ip == 0 && new.config == old.config && new.result == old.result
                    && new.owners == old.owners && starts_run(resp, env.contract_address@, program),
                Err(_) => false,
            },
            ExecuteMsg::SelfExecute { program } => if sender != env.contract_address@ {
                r == Err::<Response, ContractError>(ContractError::NotAuthorized) && new == old
            } else {
                match program {
                    Some(p) => hop_outcome(old, new, env, p, r),
                    None => r == Err::<Response, ContractError>(ContractError::InvalidProgram)
                        && new == old,
                }
            },
            ExecuteMsg::AddOwners { owners } => r is Ok && owner_set(new.owners@) == owner_set(
                old.owners@,
            ).union(owner_set(owners@)) && new.ip == old.ip && new.result == old.result
                && new.config == old.config,
            ExecuteMsg::RemoveOwners { owners } => r is Ok && owner_set(new.owners@) == owner_set(
                old.owners@,
            ).difference(owner_set(owners@)) && new.ip == old.ip && new.result == old.result
                && new.config == old.config,
        }
    }
}

/// Handles a submission. Only the interpreter itself and its owners may
/// submit, and only the interpreter itself may send `SelfExecute`.
/// `Execute` starts a fresh run of a program; `SelfExecute` runs one hop of
/// a program (see `hop_outcome`); the others administer the owners.
pub fn execute<H: Host>(
    host: &H,
    state: &mut State,
    env: &Env,
    info: &MessageInfo,
    msg: ExecuteMsg,
) -> (r: Result<Response, ContractError>)
    requires
        old(state).wf(),
        msg matches ExecuteMsg::SelfExecute { program: Some(p) } ==> old(state).ip
            + p.instructions@.len() <= u64::MAX,
    ensures
        final(state).wf(),
        execute_outcome(*old(state), *final(state), *env, info.sender@, msg, r),
        r is Err ==> *final(state) == *old(state),
        !authorized(*old(state), *env, info.sender@) ==> r == Err::<Response, ContractError>(
            ContractError::NotAuthorized,
        ),
        msg is SelfExecute && info.sender@ != env.contract_address@ ==> r == Err::<
            Response,
            ContractError,
        >(ContractError::NotAuthorized),
{
    match assert_owner(state, env, &info.sender) {
        Ok(()) => {},
        Err(e) => {
            return Err(e);
        },
    }
    match msg {
        ExecuteMsg::Execute { program } => Ok(initiate_execution(state, env, program)),
        ExecuteMsg::SelfExecute { program } => {
            if !same_bytes(&env.contract_address, &info.sender) {
                return Err(ContractError::NotAuthorized);
            }
            match program {
                Some(p) => interpret_program(host, state, env, p),
                None => Err(ContractError::InvalidProgram),
            }
        },
        ExecuteMsg::AddOwners { owners } => Ok(add_owners(state, owners)),
        ExecuteMsg::RemoveOwners { owners } => Ok(remove_owners(state, owners)),
    }
}

} // verus!
