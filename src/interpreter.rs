//! Running instructions: bindings, calls, transfers and spawns.
use crate::asset::{apply_spec, Amount, AssetId};
use crate::encoding::{check_utf8, decimal, decimal_bytes, utf8_text};
use crate::error::ContractError;
use crate::host::Host;
use crate::patch::{byte_views, patch, patched, positions_valid};
use crate::program::{
    binding_positions, is_call, Binding, BindingValue, Destination, Funds, Instruction, Program,
    Spawn,
};
use crate::response::{
    burn_of, call_of, transfer_of, CosmosMsg, Event, ReplyOn, Response, SubMsg, CALL_ID,
    SELF_CALL_ID,
};
use crate::state::State;
use vstd::prelude::*;

verus! {

/// The chain's view of the running message.
#[derive(Clone, Debug, PartialEq, Eq)]
pub struct Env {
    /// The interpreter's own address.
    pub contract_address: Vec<u8>,
}

/// Whether `value` is what a binding of `v` may resolve to while the
/// instruction pointer is `ip`. The relayer, the interpreter's address and the
/// instruction pointer are fixed by the state; an asset's token contract is
/// what the registry answers; the result register, which must hold a value,
/// is encoded as the chain encodes it.
pub open spec fn resolves_to(state: State, env: Env, ip: u64, v: BindingValue, value: Seq<u8>) -> bool {
    match v {
        BindingValue::Relayer => value == state.config.relayer_address@,
        BindingValue::This => value == env.contract_address@,
        BindingValue::Ip => value == decimal(ip as nat),
        BindingValue::AssetId(_) => true,
        BindingValue::Result => state.result is Some,
    }
}

/// A binding value that the state alone determines.
pub open spec fn is_local(v: BindingValue) -> bool {
    v is Relayer || v is This || v is Ip
}

/// `out` is `payload` with the bindings' resolved values put in.
pub open spec fn patched_call(
    state: State,
    env: Env,
    ip: u64,
    payload: Seq<u8>,
    bindings: Seq<Binding>,
    out: Seq<u8>,
) -> bool {
    exists|values: Seq<Seq<u8>>|
        values.len() == bindings.len() && (forall|i: int|
            0 <= i < bindings.len() ==> resolves_to(state, env, ip, bindings[i].value, #[trigger] values[i]))
            && out == #[trigger] patched(payload, binding_positions(bindings), values)
}

/// `after` is `before` with the message that dispatches a call of `payload`
/// with `bindings` resolved at instruction pointer `ip`.
pub open spec fn call_step(
    state: State,
    env: Env,
    ip: u64,
    payload: Seq<u8>,
    bindings: Seq<Binding>,
    before: Response,
    after: Response,
) -> bool {
    &&& after.events == before.events
    &&& after.messages@.len() == before.messages@.len() + 1
    &&& after.messages@.drop_last() == before.messages@
    &&& call_of(after.messages@.last()) is Some
    &&& patched_call(state, env, ip, payload, bindings, call_of(after.messages@.last())->Some_0)
}

/// Resolves a binding's value into the bytes that it stands for.
pub fn resolve_binding<H: Host>(host: &H, state: &State, env: &Env, ip: u64, v: &BindingValue) -> (r:
    Result<Vec<u8>, ContractError>)
    ensures
        r is Ok ==> resolves_to(*state, *env, ip, *v, r->Ok_0@),
        r is Err ==> r == Err::<Vec<u8>, ContractError>(ContractError::InvalidBindings),
        is_local(*v) ==> r is Ok,
{
    match v {
        BindingValue::Relayer => Ok(state.config.relayer_address.clone()),
        BindingValue::This => Ok(env.contract_address.clone()),
        BindingValue::Ip => Ok(decimal_bytes(ip)),
        BindingValue::AssetId(asset) => match host.asset_contract(&state.config.registry_address, *asset) {
            Some(token) => Ok(token),
            None => Err(ContractError::InvalidBindings),
        },
        BindingValue::Result => match &state.result {
            Some(result) => match host.encode_result(result) {
                Some(bytes) => Ok(bytes),
                None => Err(ContractError::InvalidBindings),
            },
            None => Err(ContractError::InvalidBindings),
        },
    }
}

/// Interprets a `Call` instruction: resolves its bindings, puts their values
/// into `payload` and adds the result to `response` as a message that reports
/// back on success only. `ip` is the instruction pointer at this instruction.
pub fn interpret_call<H: Host>(
    host: &H,
    state: &State,
    env: &Env,
    bindings: &Vec<Binding>,
    payload: &Vec<u8>,
    ip: u64,
    response: &mut Response,
) -> (r: Result<(), ContractError>)
    ensures
        r is Ok ==> call_step(*state, *env, ip, payload@, bindings@, *old(response), *final(response)),
        r is Err ==> *final(response) == *old(response),
        r is Err ==> r == Err::<(), ContractError>(ContractError::InvalidBindings),
        !positions_valid(payload@.len() as int, binding_positions(bindings@)) ==> r is Err,
        positions_valid(payload@.len() as int, binding_positions(bindings@)) && (forall|i: int|
            0 <= i < bindings@.len() ==> is_local(#[trigger] bindings@[i].value)) ==> r is Ok,
{
    let n = bindings.len();
    let mut positions: Vec<usize> = Vec::new();
    let mut values: Vec<Vec<u8>> = Vec::new();
    let mut i: usize = 0;
    while i < n
        invariant
            n == bindings@.len(),
            i <= n,
            positions@.len() == i,
            values@.len() == i,
            forall|k: int| 0 <= k < i ==> #[trigger] positions@[k] == bindings@[k].position,
            forall|k: int|
                0 <= k < i ==> resolves_to(*state, *env, ip, bindings@[k].value, #[trigger] values@[k]@),
        decreases n - i,
    {
        let b = &bindings[i];
        let v = resolve_binding(host, state, env, ip, &b.value);
        match v {
            Ok(bytes) => {
                values.push(bytes);
            },
            Err(e) => {
                return Err(e);
            },
        }
        positions.push(b.position);
        i += 1;
    }
    assert(positions@ =~= binding_positions(bindings@));
    let ghost vals = byte_views(values@);
    assert forall|k: int| 0 <= k < bindings@.len() implies resolves_to(
        *state,
        *env,
        ip,
        bindings@[k].value,
        #[trigger] vals[k],
    ) by {
        assert(vals[k] == values@[k]@);
    }
    let out = patch(payload, &positions, &values);
    match out {
        Ok(bytes) => {
            response.messages.push(
                SubMsg { id: CALL_ID, msg: CosmosMsg::Call { payload: bytes }, reply_on: ReplyOn::Success },
            );
            assert(response.messages@.drop_last() =~= old(response).messages@);
            Ok(())
        },
        Err(e) => Err(e),
    }
}

/// The amount that a transfer moves for an asset whose token balance is
/// `balance`: nothing for the zero amount, else the amount applied to the
/// balance.
pub open spec fn transfer_amount(a: Amount, balance: u128) -> u128 {
    if a.intercept.0 == 0 && a.slope.0 == 0 { 0 } else { apply_spec(a, balance) }
}

/// The transfers (token, recipient, amount) for `assets`, where `tokens[i]` is
/// the token contract of asset `i` and `balances[i]` the interpreter's balance
/// in it: one for each asset whose amount comes to more than zero, in order.
pub open spec fn transfers(
    recipient: Seq<u8>,
    assets: Seq<(AssetId, Amount)>,
    tokens: Seq<Seq<u8>>,
    balances: Seq<u128>,
) -> Seq<(Seq<u8>, Seq<u8>, u128)>
    decreases assets.len(),
{
    if assets.len() == 0 {
        Seq::empty()
    } else {
        let n = assets.len() - 1;
        let rest = transfers(recipient, assets.take(n), tokens, balances);
        let amount = transfer_amount(assets[n].1, balances[n]);
        if amount == 0 { rest } else { rest.push((tokens[n], recipient, amount)) }
    }
}

/// `msgs` are plain transfer messages, one for each of `expected`.
pub open spec fn sends_transfers(msgs: Seq<SubMsg>, expected: Seq<(Seq<u8>, Seq<u8>, u128)>) -> bool {
    msgs.len() == expected.len() && forall|i: int|
        0 <= i < msgs.len() ==> transfer_of(#[trigger] msgs[i]) == Some(expected[i])
}

/// Where a transfer to `to` goes.
pub open spec fn recipient_of(state: State, to: Destination) -> Seq<u8> {
    match to {
        Destination::Account(account) => account@,
        Destination::Relayer => state.config.relayer_address@,
    }
}

/// A destination whose address is well-formed.
pub open spec fn destination_ok(to: Destination) -> bool {
    match to {
        Destination::Account(account) => utf8_text(account@),
        Destination::Relayer => true,
    }
}

/// `after` is `before` with the transfers of `assets` to `to`, for some answers
/// of the registry and the token contracts.
pub open spec fn transfer_step(
    state: State,
    to: Destination,
    assets: Funds,
    before: Response,
    after: Response,
) -> bool {
    &&& destination_ok(to)
    &&& after.events == before.events
    &&& after.messages@.len() >= before.messages@.len()
    &&& after.messages@.take(before.messages@.len() as int) == before.messages@
    &&& exists|tokens: Seq<Seq<u8>>, balances: Seq<u128>|
        tokens.len() == assets.0@.len() && balances.len() == assets.0@.len() && sends_transfers(
            after.messages@.skip(before.messages@.len() as int),
            #[trigger] transfers(recipient_of(state, to), assets.0@, tokens, balances),
        )
}

/// The transfer messages for `assets` to `recipient`, given the token
/// contract `tokens[i]` of asset `i` and the interpreter's balance
/// `balances[i]` in it: one for each asset whose amount comes to more than
/// zero, in order.
pub fn transfer_messages(
    recipient: &Vec<u8>,
    assets: &Funds,
    tokens: &Vec<Vec<u8>>,
    balances: &Vec<u128>,
) -> (r: Vec<SubMsg>)
    requires
        tokens@.len() == assets.0@.len(),
        balances@.len() == assets.0@.len(),
    ensures
        sends_transfers(r@, transfers(recipient@, assets.0@, byte_views(tokens@), balances@)),
{
    let ghost toks = byte_views(tokens@);
    let n = assets.0.len();
    let mut out: Vec<SubMsg> = Vec::new();
    let mut i: usize = 0;
    while i < n
        invariant
            n == assets.0@.len(),
            tokens@.len() == n,
            balances@.len() == n,
            toks == byte_views(tokens@),
            i <= n,
            sends_transfers(out@, transfers(recipient@, assets.0@.take(i as int), toks, balances@)),
        decreases n - i,
    {
        let amount = assets.0[i].1;
        let moved: u128 = if amount.is_zero() {
            0
        } else {
            amount.apply(balances[i])
        };
        let ghost before = out@;
        if moved != 0 {
            out.push(
                SubMsg {
                    id: 0,
                    msg: CosmosMsg::Transfer {
                        token: tokens[i].clone(),
                        recipient: recipient.clone(),
                        amount: moved,
                    },
                    reply_on: ReplyOn::Never,
                },
            );
        }
        proof {
            assert(assets.0@.take(i + 1).take(i as int) =~= assets.0@.take(i as int));
            assert(toks[i as int] == tokens@[i as int]@);
        }
        i += 1;
    }
    assert(assets.0@.take(n as int) =~= assets.0@);
    out
}

/// Interprets a `Transfer` instruction: for each asset, asks the registry
/// for its token contract and, unless the amount is zero, the token contract
/// for the interpreter's balance; then adds a transfer of the amount applied
/// to that balance, where it is not zero. Nothing is added on an error.
pub fn interpret_transfer<H: Host>(
    host: &H,
    state: &State,
    env: &Env,
    to: &Destination,
    assets: &Funds,
    response: &mut Response,
) -> (r: Result<(), ContractError>)
    ensures
        r is Ok ==> transfer_step(*state, *to, *assets, *old(response), *final(response)),
        r is Err ==> *final(response) == *old(response),
        !destination_ok(*to) ==> r == Err::<(), ContractError>(ContractError::InvalidAddress),
        r == Err::<(), ContractError>(ContractError::InvalidAddress) ==> !destination_ok(*to),
        r is Err ==> r == Err::<(), ContractError>(ContractError::InvalidAddress) || r == Err::<
            (),
            ContractError,
        >(ContractError::QueryFailed),
        destination_ok(*to) && assets.0@.len() == 0 ==> r is Ok,
{
    let recipient: Vec<u8> = match to {
        Destination::Account(account) => {
            if !check_utf8(account) {
                return Err(ContractError::InvalidAddress);
            }
            account.clone()
        },
        Destination::Relayer => state.config.relayer_address.clone(),
    };
    let n = assets.0.len();
    let mut tokens: Vec<Vec<u8>> = Vec::new();
    let mut balances: Vec<u128> = Vec::new();
    let mut i: usize = 0;
    while i < n
        invariant
            n == assets.0@.len(),
            i <= n,
            tokens@.len() == i,
            balances@.len() == i,
            destination_ok(*to),
            *response == *old(response),
        decreases n - i,
    {
        let asset = assets.0[i].0;
        let amount = assets.0[i].1;
        let token = match host.asset_contract(&state.config.registry_address, asset) {
            Some(t) => t,
            None => {
                return Err(ContractError::QueryFailed);
            },
        };
        let balance: u128 = if amount.is_zero() {
            0
        } else {
            match host.balance(&token, &env.contract_address) {
                Some(b) => b,
                None => {
                    return Err(ContractError::QueryFailed);
                },
            }
        };
        tokens.push(token);
        balances.push(balance);
        i += 1;
    }
    let mut sent = transfer_messages(&recipient, assets, &tokens, &balances);
    let ghost sent_view = sent@;
    response.messages.append(&mut sent);
    proof {
        let before = old(response).messages@;
        assert(response.messages@.take(before.len() as int) =~= before);
        assert(response.messages@.skip(before.len() as int) =~= sent_view);
        assert(transfer_step(*state, *to, *assets, *old(response), *response)) by {
            let toks = byte_views(tokens@);
            assert(toks.len() == assets.0@.len());
            assert(sends_transfers(
                response.messages@.skip(before.len() as int),
                transfers(recipient_of(*state, *to), assets.0@, toks, balances@),
            ));
        }
    }
    Ok(())
}

/// The amount that a spawn sets aside for an asset whose token balance is
/// `balance`: an absolute amount as it is, else the amount applied to the
/// balance.
pub open spec fn spawn_amount(a: Amount, balance: u128) -> u128 {
    if a.slope.0 == 0 { a.intercept.0 } else { apply_spec(a, balance) }
}

/// The assets and amounts that a spawn sets aside: one entry for each asset
/// whose amount comes to more than zero, in order.
pub open spec fn spawn_funds(assets: Seq<(AssetId, Amount)>, balances: Seq<u128>) -> Seq<(AssetId, u128)>
    decreases assets.len(),
{
    if assets.len() == 0 {
        Seq::empty()
    } else {
        let n = assets.len() - 1;
        let rest = spawn_funds(assets.take(n), balances);
        let amount = spawn_amount(assets[n].1, balances[n]);
        if amount == 0 { rest } else { rest.push((assets[n].0, amount)) }
    }
}

/// The burns (token, amount) of a spawn: one for each entry of `spawn_funds`,
/// from `tokens[i]`, the token contract of asset `i`.
pub open spec fn spawn_burns(
    assets: Seq<(AssetId, Amount)>,
    tokens: Seq<Seq<u8>>,
    balances: Seq<u128>,
) -> Seq<(Seq<u8>, u128)>
    decreases assets.len(),
{
    if assets.len() == 0 {
        Seq::empty()
    } else {
        let n = assets.len() - 1;
        let rest = spawn_burns(assets.take(n), tokens, balances);
        let amount = spawn_amount(assets[n].1, balances[n]);
        if amount == 0 { rest } else { rest.push((tokens[n], amount)) }
    }
}

/// `msgs` are plain burn messages, one for each of `expected`.
pub open spec fn sends_burns(msgs: Seq<SubMsg>, expected: Seq<(Seq<u8>, u128)>) -> bool {
    msgs.len() == expected.len() && forall|i: int|
        0 <= i < msgs.len() ==> burn_of(#[trigger] msgs[i]) == Some(expected[i])
}

/// `funds` lists the assets of `expected` with their absolute amounts.
pub open spec fn funds_are(funds: Seq<(AssetId, Amount)>, expected: Seq<(AssetId, u128)>) -> bool {
    funds.len() == expected.len() && forall|i: int|
        0 <= i < funds.len() ==> (#[trigger] funds[i]).0 == expected[i].0 && funds[i].1
            == Amount::absolute_spec(expected[i].1)
}

/// `e` announces `spawn` from this interpreter, with `funds` set aside in
/// place of the assets it asked for.
pub open spec fn spawn_event(e: Event, state: State, spawn: Spawn, funds: Seq<(AssetId, u128)>) -> bool {
    match e {
        Event::Spawn { origin_network_id, origin_user_id, spawn: sent } => origin_network_id
            == state.config.network_id && origin_user_id@ == state.config.user_id@ && sent.network
            == spawn.network && sent.salt == spawn.salt && sent.security == spawn.security
            && sent.program == spawn.program && funds_are(sent.assets.0@, funds),
        _ => false,
    }
}

/// `after` is `before` with the burns and the announcement of `spawn`, for
/// some answers of the registry and the token contracts.
pub open spec fn spawn_step(state: State, spawn: Spawn, before: Response, after: Response) -> bool {
    &&& after.events@ == before.events@.push(after.events@.last())
    &&& after.messages@.len() >= before.messages@.len()
    &&& after.messages@.take(before.messages@.len() as int) == before.messages@
    &&& exists|tokens: Seq<Seq<u8>>, balances: Seq<u128>|
        tokens.len() == spawn.assets.0@.len() && balances.len() == spawn.assets.0@.len()
            && sends_burns(
            after.messages@.skip(before.messages@.len() as int),
            #[trigger] spawn_burns(spawn.assets.0@, tokens, balances),
        ) && spawn_event(after.events@.last(), state, spawn, spawn_funds(spawn.assets.0@, balances))
}

/// The burns and the funds set aside for a spawn of `assets`, given the token
/// contract `tokens[i]` of asset `i` and the interpreter's balance
/// `balances[i]` in it.
pub fn spawn_plan(assets: &Funds, tokens: &Vec<Vec<u8>>, balances: &Vec<u128>) -> (r: (
    Vec<SubMsg>,
    Vec<(AssetId, Amount)>,
))
    requires
        tokens@.len() == assets.0@.len(),
        balances@.len() == assets.0@.len(),
    ensures
        sends_burns(r.0@, spawn_burns(assets.0@, byte_views(tokens@), balances@)),
        funds_are(r.1@, spawn_funds(assets.0@, balances@)),
{
    let ghost toks = byte_views(tokens@);
    let n = assets.0.len();
    let mut burns: Vec<SubMsg> = Vec::new();
    let mut funds: Vec<(AssetId, Amount)> = Vec::new();
    let mut i: usize = 0;
    while i < n
        invariant
            n == assets.0@.len(),
            tokens@.len() == n,
            balances@.len() == n,
            toks == byte_views(tokens@),
            i <= n,
            sends_burns(burns@, spawn_burns(assets.0@.take(i as int), toks, balances@)),
            funds_are(funds@, spawn_funds(assets.0@.take(i as int), balances@)),
        decreases n - i,
    {
        let asset = assets.0[i].0;
        let amount = assets.0[i].1;
        let moved: u128 = if amount.slope.0 == 0 {
            amount.intercept.0
        } else {
            amount.apply(balances[i])
        };
        if moved != 0 {
            funds.push((asset, Amount::absolute(moved)));
            burns.push(
                SubMsg {
                    id: 0,
                    msg: CosmosMsg::Burn { token: tokens[i].clone(), amount: moved },
                    reply_on: ReplyOn::Never,
                },
            );
        }
        proof {
            assert(assets.0@.take(i + 1).take(i as int) =~= assets.0@.take(i as int));
            assert(toks[i as int] == tokens@[i as int]@);
        }
        i += 1;
    }
    assert(assets.0@.take(n as int) =~= assets.0@);
    (burns, funds)
}

/// Interprets a `Spawn` instruction: works out the amount of each asset to
/// send (for a ratio, asking the registry for the token contract and that
/// contract for the interpreter's balance), asks the registry for the token
/// contract of each asset it sends, burns the amounts there, and announces the
/// spawn with those amounts for the transport to deliver. Nothing is added on
/// an error.
pub fn interpret_spawn<H: Host>(
    host: &H,
    state: &State,
    env: &Env,
    spawn: Spawn,
    response: &mut Response,
) -> (r: Result<(), ContractError>)
    ensures
        r is Ok ==> spawn_step(*state, spawn, *old(response), *final(response)),
        r is Err ==> *final(response) == *old(response),
        r is Err ==> r == Err::<(), ContractError>(ContractError::QueryFailed),
        spawn.assets.0@.len() == 0 ==> r is Ok,
{
    let ghost input = spawn;
    let Spawn { network, salt, security, assets, program } = spawn;
    let n = assets.0.len();
    let mut tokens: Vec<Vec<u8>> = Vec::new();
    let mut balances: Vec<u128> = Vec::new();
    let mut i: usize = 0;
    while i < n
        invariant
            n == assets.0@.len(),
            n == spawn.assets.0@.len(),
            i <= n,
            tokens@.len() == i,
            balances@.len() == i,
            *response == *old(response),
        decreases n - i,
    {
        let asset = assets.0[i].0;
        let amount = assets.0[i].1;
        let mut balance: u128 = 0;
        let moved: u128 = if amount.slope.0 == 0 {
            amount.intercept.0
        } else {
            let token = match host.asset_contract(&state.config.registry_address, asset) {
                Some(t) => t,
                None => {
                    return Err(ContractError::QueryFailed);
                },
            };
            balance = match host.balance(&token, &env.contract_address) {
                Some(b) => b,
                None => {
                    return Err(ContractError::QueryFailed);
                },
            };
            amount.apply(balance)
        };
        let token: Vec<u8> = if moved != 0 {
            match host.asset_contract(&state.config.registry_address, asset) {
                Some(t) => t,
                None => {
                    return Err(ContractError::QueryFailed);
                },
            }
        } else {
            Vec::new()
        };
        tokens.push(token);
        balances.push(balance);
        i += 1;
    }
    let (mut burns, funds) = spawn_plan(&assets, &tokens, &balances);
    let ghost burn_view = burns@;
    response.messages.append(&mut burns);
    response.events.push(
        Event::Spawn {
            origin_network_id: state.config.network_id,
            origin_user_id: state.config.user_id.clone(),
            spawn: Spawn { network, salt, security, assets: Funds(funds), program },
        },
    );
    proof {
        let before = old(response).messages@;
        assert(response.messages@.take(before.len() as int) =~= before);
        assert(response.messages@.skip(before.len() as int) =~= burn_view);
        assert(response.events@ == old(response).events@.push(response.events@.last()));
        let toks = byte_views(tokens@);
        assert(toks.len() == input.assets.0@.len());
        assert(sends_burns(
            response.messages@.skip(before.len() as int),
            spawn_burns(input.assets.0@, toks, balances@),
        ));
    }
    Ok(())
}


/// An instruction that asks the chain nothing and so cannot fail: a `Call`
/// whose bindings are in place and resolve from the state alone, a `Transfer`
/// of no assets to a well-formed destination, or a `Spawn` of no assets.
pub open spec fn host_free(instruction: Instruction) -> bool {
    match instruction {
        Instruction::Call { payload, bindings } => positions_valid(
            payload@.len() as int,
            binding_positions(bindings@),
        ) && forall|j: int| 0 <= j < bindings@.len() ==> is_local(#[trigger] bindings@[j].value),
        Instruction::Transfer { to, assets } => destination_ok(to) && assets.0@.len() == 0,
        Instruction::Spawn(spawn) => spawn.assets.0@.len() == 0,
    }
}

/// A `Call` whose bindings are out of place.
pub open spec fn bad_bindings(instruction: Instruction) -> bool {
    match instruction {
        Instruction::Call { payload, bindings } => !positions_valid(
            payload@.len() as int,
            binding_positions(bindings@),
        ),
        _ => false,
    }
}

/// A `Transfer` to an account whose address is not UTF-8.
pub open spec fn bad_destination(instruction: Instruction) -> bool {
    match instruction {
        Instruction::Transfer { to, assets: _ } => !destination_ok(to),
        _ => false,
    }
}

/// Every instruction before `j` asks the chain nothing and does not yield, so
/// that a hop surely reaches instruction `j`.
pub open spec fn clear_before(instructions: Seq<Instruction>, j: int) -> bool {
    forall|i: int|
        0 <= i < j ==> host_free(#[trigger] instructions[i]) && !is_call(instructions[i])
}

/// The errors of a hop over `program` that do not depend on the chain's
/// answers: a reached `Call` with bindings out of place fails with
/// `InvalidBindings`, a reached `Transfer` to a malformed account with
/// `InvalidAddress`, and a hop that runs to its end without asking the chain
/// anything, with a tag that is not UTF-8, with `InvalidProgramTag`; and these
/// errors come from nowhere else.
pub open spec fn hop_errors(program: Program, r: Result<Response, ContractError>) -> bool {
    let s = program.instructions@;
    &&& forall|j: int|
        0 <= j < s.len() && clear_before(s, j) && #[trigger] bad_bindings(s[j]) ==> r == Err::<
            Response,
            ContractError,
        >(ContractError::InvalidBindings)
    &&& forall|j: int|
        0 <= j < s.len() && clear_before(s, j) && #[trigger] bad_destination(s[j]) ==> r == Err::<
            Response,
            ContractError,
        >(ContractError::InvalidAddress)
    &&& r == Err::<Response, ContractError>(ContractError::InvalidBindings) ==> exists|j: int|
        0 <= j < s.len() && #[trigger] is_call(s[j])
    &&& r == Err::<Response, ContractError>(ContractError::InvalidAddress) ==> exists|j: int|
        0 <= j < s.len() && #[trigger] bad_destination(s[j])
    &&& runs_through(s) && !utf8_text(program.tag@) && (forall|j: int|
        0 <= j < s.len() ==> #[trigger] host_free(s[j])) ==> r == Err::<Response, ContractError>(
        ContractError::InvalidProgramTag,
    )
    &&& r == Err::<Response, ContractError>(ContractError::InvalidProgramTag) ==> runs_through(s)
        && !utf8_text(program.tag@)
}

/// A hop over `program` succeeds where the chain is not asked anything: it
/// runs to its end over such instructions with a UTF-8 tag, or yields at a
/// call after such instructions.
pub open spec fn hop_succeeds(program: Program, r: Result<Response, ContractError>) -> bool {
    let s = program.instructions@;
    &&& runs_through(s) && utf8_text(program.tag@) && (forall|j: int|
        0 <= j < s.len() ==> #[trigger] host_free(s[j])) ==> r is Ok
    &&& forall|k: int|
        #[trigger] yields_at(s, k) && (forall|j: int| 0 <= j <= k ==> #[trigger] host_free(s[j]))
            ==> r is Ok
}

/// Instruction `k` is where a hop yields: the first `Call` that is not the
/// program's last instruction.
pub open spec fn yields_at(instructions: Seq<Instruction>, k: int) -> bool {
    0 <= k < instructions.len() - 1 && is_call(instructions[k]) && forall|j: int|
        0 <= j < k ==> !is_call(#[trigger] instructions[j])
}

/// No `Call` but perhaps the last instruction: the hop runs the whole
/// program.
pub open spec fn runs_through(instructions: Seq<Instruction>) -> bool {
    forall|j: int| 0 <= j < instructions.len() - 1 ==> !is_call(#[trigger] instructions[j])
}

/// `m` runs the interpreter at `contract` on the program of `tag` and `rest`,
/// reporting back on failure only.
pub open spec fn continues_with(m: SubMsg, contract: Seq<u8>, tag: Seq<u8>, rest: Seq<Instruction>) -> bool {
    m.id == SELF_CALL_ID && m.reply_on == ReplyOn::Error && match m.msg {
        CosmosMsg::Continue { contract: c, program } => c@ == contract && program.tag@ == tag
            && program.instructions@ == rest,
        _ => false,
    }
}

/// `after` is `before` with the effect of `instruction` run at instruction
/// pointer `ip`, for some answers of the chain.
pub open spec fn step(
    state: State,
    env: Env,
    ip: u64,
    instruction: Instruction,
    before: Response,
    after: Response,
) -> bool {
    match instruction {
        Instruction::Call { payload, bindings } => call_step(
            state,
            env,
            ip,
            payload@,
            bindings@,
            before,
            after,
        ),
        Instruction::Spawn(spawn) => spawn_step(state, spawn, before, after),
        Instruction::Transfer { to, assets } => transfer_step(state, to, assets, before, after),
    }
}

/// Step `j` of `trace`: instruction `j` turns `trace[j]` into `trace[j + 1]`.
pub open spec fn step_at(
    state: State,
    env: Env,
    instructions: Seq<Instruction>,
    trace: Seq<Response>,
    j: int,
) -> bool {
    step(state, env, (state.ip + j) as u64, instructions[j], trace[j], trace[j + 1])
}

/// `trace` runs `instructions` one after another from an empty response,
/// starting at the instruction pointer of `state`.
pub open spec fn runs(state: State, env: Env, instructions: Seq<Instruction>, trace: Seq<Response>) -> bool {
    &&& trace.len() == instructions.len() + 1
    &&& trace[0].messages@.len() == 0
    &&& trace[0].events@.len() == 0
    &&& forall|j: int| 0 <= j < instructions.len() ==> #[trigger] step_at(state, env, instructions, trace, j)
}

/// Where a hop yields at instruction `k` and succeeds: the state counts the
/// instructions up to `k`, and the response holds what they did, the last
/// being the call of instruction `k`, followed by the continuation with the
/// instructions after it.
pub open spec fn yield_outcome(
    old: State,
    new: State,
    env: Env,
    program: Program,
    r: Result<Response, ContractError>,
    k: int,
) -> bool {
    r is Ok ==> {
        let resp = r->Ok_0;
        &&& new.ip == old.ip + k + 1
        &&& resp.messages@.len() > 0
        &&& continues_with(
            resp.messages@.last(),
            env.contract_address@,
            program.tag@,
            program.instructions@.skip(k + 1),
        )
        &&& exists|trace: Seq<Response>|
            #[trigger] runs(old, env, program.instructions@.take(k + 1), trace)
                && resp.messages@.drop_last() == trace.last().messages@ && resp.events
                == trace.last().events
    }
}

/// What one hop over `program` from state `old` does, with `new` the state
/// after it and `r` its result: what it does (see `hop_core`), which errors it
/// meets, and where it surely succeeds.
pub open spec fn hop_outcome(
    old: State,
    new: State,
    env: Env,
    program: Program,
    r: Result<Response, ContractError>,
) -> bool {
    hop_core(old, new, env, program, r) && hop_errors(program, r) && hop_succeeds(program, r)
}

/// What one hop over `program` from state `old` does: `new` is the state
/// after it and `r` its result. The instructions run one after another, each
/// adding its messages and events. A `Call` that is not the last instruction
/// ends the hop: the call is dispatched, followed by a continuation that runs
/// the remaining instructions as a new program with the same tag, and the
/// instruction pointer counts the instructions run in this hop. Otherwise the
/// whole program runs, the instruction pointer counts all of it, and an
/// `Executed` event carries the program's tag. On an error the state is left
/// as it was.
pub open spec fn hop_core(
    old: State,
    new: State,
    env: Env,
    program: Program,
    r: Result<Response, ContractError>,
) -> bool {
    &&& (r is Err ==> new == old)
    &&& (r is Ok ==> new.config == old.config && new.result == old.result && new.owners
        == old.owners)
    &&& (forall|k: int|
        yields_at(program.instructions@, k) ==> #[trigger] yield_outcome(old, new, env, program, r, k))
    &&& (runs_through(program.instructions@) ==> (r is Ok ==> {
        let resp = r->Ok_0;
        &&& new.ip == old.ip + program.instructions@.len()
        &&& utf8_text(program.tag@)
        &&& exists|trace: Seq<Response>|
            #[trigger] runs(old, env, program.instructions@, trace) && resp.messages
                == trace.last().messages && resp.events@ == trace.last().events@.push(
                Event::Executed { tag: program.tag },
            )
    }))
    &&& (runs_through(program.instructions@) && !utf8_text(program.tag@) ==> r is Err)
}

/// The errors and the success of a hop, kept folded while the hop is proved.
#[verifier::opaque]
spec fn hop_settled(program: Program, r: Result<Response, ContractError>) -> bool {
    hop_errors(program, r) && hop_succeeds(program, r)
}

/// Runs a program from the instruction pointer in `state`, one instruction
/// after another, for one hop (see `hop_outcome`).
pub fn interpret_program<H: Host>(host: &H, state: &mut State, env: &Env, program: Program) -> (r: Result<
    Response,
    ContractError,
>)
    requires
        old(state).ip + program.instructions@.len() <= u64::MAX,
    ensures
        hop_outcome(*old(state), *final(state), *env, program, r),
{
    let r = run_hop(host, state, env, program);
    proof {
        reveal(hop_settled);
    }
    r
}

#[verifier::rlimit(30)]
fn run_hop<H: Host>(host: &H, state: &mut State, env: &Env, program: Program) -> (r: Result<
    Response,
    ContractError,
>)
    requires
        old(state).ip + program.instructions@.len() <= u64::MAX,
    ensures
        hop_core(*old(state), *final(state), *env, program, r),
        hop_settled(program, r),
{
    let ghost all = program.instructions@;
    let ghost tag_bytes = program.tag@;
    let ghost input = program;
    let Program { tag, instructions } = program;
    let n = instructions.len();
    let mut rest = instructions;
    let mut response = Response::new();
    let ghost mut trace: Seq<Response> = seq![response];
    let mut ip: u64 = state.ip;
    let mut i: usize = 0;
    while i < n
        invariant
            trace.len() == i + 1,
            runs(*old(state), *env, all.take(i as int), trace),
            trace.last() == response,
            n == all.len(),
            i <= n,
            rest@ == all.skip(i as int),
            ip == old(state).ip + i,
            old(state).ip + n <= u64::MAX,
            *state == *old(state),
            tag@ == tag_bytes,
            tag == input.tag,
            input == program,
            input.instructions@ == all,
            input.tag@ == tag_bytes,
            forall|j: int| 0 <= j < i && j < n - 1 ==> !is_call(#[trigger] all[j]),
            forall|j: int|
                0 <= j < i ==> !bad_bindings(#[trigger] all[j]) && !bad_destination(all[j]),
        decreases n - i,
    {
        let instruction = rest.remove(0);
        assert(instruction == all[i as int]);
        assert(rest@ =~= all.skip(i + 1));
        let ghost before = response;
        let is_last = i + 1 == n;
        match instruction {
            Instruction::Call { payload, bindings } => {
                match interpret_call(host, state, env, &bindings, &payload, ip, &mut response) {
                    Ok(()) => {},
                    Err(e) => {
                        proof {
                            lemma_hop_fails_at(input, i as int, e);
                        }
                        return Err(e);
                    },
                }
                proof {
                    assert(step(*old(state), *env, ip, all[i as int], before, response));
                    lemma_runs_extend(*old(state), *env, all, trace, i as int, response);
                    assert(!bad_bindings(all[i as int]) && !bad_destination(all[i as int]));
                    trace = trace.push(response);
                }
                if !is_last {
                    state.ip = ip + 1;
                    let ghost called = response;
                    response.messages.push(
                        SubMsg {
                            id: SELF_CALL_ID,
                            msg: CosmosMsg::Continue {
                                contract: env.contract_address.clone(),
                                program: Program { tag, instructions: rest },
                            },
                            reply_on: ReplyOn::Error,
                        },
                    );
                    let result: Result<Response, ContractError> = Ok(response);
                    proof {
                        lemma_hop_yields_at(input, i as int, result);
                        assert(is_call(all[i as int]));
                        assert(!runs_through(all));
                        assert forall|k: int| yields_at(all, k) implies k == i by {
                            if k < i {
                                assert(!is_call(all[k]));
                            } else if k > i {
                                assert(!is_call(all[i as int]));
                            }
                        }
                        assert(response.messages@.drop_last() =~= called.messages@);
                        assert(runs(*old(state), *env, input.instructions@.take(i + 1), trace));
                        assert(yield_outcome(*old(state), *state, *env, input, result, i as int));
                        assert forall|k: int| yields_at(all, k) implies #[trigger] yield_outcome(
                            *old(state),
                            *state,
                            *env,
                            input,
                            result,
                            k,
                        ) by {
                            assert(k == i);
                        }
                    }
                    return result;
                }
            },
            Instruction::Spawn(spawn) => {
                match interpret_spawn(host, state, env, spawn, &mut response) {
                    Ok(()) => {},
                    Err(e) => {
                        proof {
                            lemma_hop_fails_at(input, i as int, e);
                        }
                        return Err(e);
                    },
                }
                proof {
                    assert(step(*old(state), *env, ip, all[i as int], before, response));
                    lemma_runs_extend(*old(state), *env, all, trace, i as int, response);
                    assert(!bad_bindings(all[i as int]) && !bad_destination(all[i as int]));
                    trace = trace.push(response);
                }
            },
            Instruction::Transfer { to, assets } => {
                match interpret_transfer(host, state, env, &to, &assets, &mut response) {
                    Ok(()) => {},
                    Err(e) => {
                        proof {
                            lemma_hop_fails_at(input, i as int, e);
                        }
                        return Err(e);
                    },
                }
                proof {
                    assert(step(*old(state), *env, ip, all[i as int], before, response));
                    lemma_runs_extend(*old(state), *env, all, trace, i as int, response);
                    assert(!bad_bindings(all[i as int]) && !bad_destination(all[i as int]));
                    trace = trace.push(response);
                }
            },
        }
        ip = ip + 1;
        i = i + 1;
    }
    assert(runs_through(all));
    assert forall|k: int| !yields_at(all, k) by {
        if 0 <= k < all.len() - 1 {
            assert(!is_call(all[k]));
        }
    }
    if !check_utf8(&tag) {
        proof {
            lemma_hop_runs_through(input, Err(ContractError::InvalidProgramTag));
        }
        return Err(ContractError::InvalidProgramTag);
    }
    state.ip = ip;
    let ghost ran = response;
    response.events.push(Event::Executed { tag });
    assert(all.take(n as int) =~= all);
    assert(response.events@ == ran.events@.push(Event::Executed { tag: input.tag }));
    let result: Result<Response, ContractError> = Ok(response);
    proof {
        lemma_hop_runs_through(input, result);
    }
    result
}

/// A successful hop over three instructions of which the first is a `Call`
/// runs that call alone: it counts one instruction, dispatches the call, and
/// hands the other two instructions on as a continuation with the same tag.
pub proof fn first_call_yields(
    old: State,
    new: State,
    env: Env,
    program: Program,
    r: Result<Response, ContractError>,
)
    requires
        program.instructions@.len() == 3,
        is_call(program.instructions@[0]),
        hop_outcome(old, new, env, program, r),
        r is Ok,
    ensures
        new.ip == old.ip + 1,
        r->Ok_0.messages@.len() == 2,
        call_of(r->Ok_0.messages@[0]) is Some,
        continues_with(
            r->Ok_0.messages@[1],
            env.contract_address@,
            program.tag@,
            program.instructions@.skip(1),
        ),
{
    let s = program.instructions@;
    assert(yields_at(s, 0));
    assert(yield_outcome(old, new, env, program, r, 0));
    let resp = r->Ok_0;
    let trace = choose|trace: Seq<Response>|
        #[trigger] runs(old, env, s.take(1), trace) && resp.messages@.drop_last()
            == trace.last().messages@ && resp.events == trace.last().events;
    assert(step_at(old, env, s.take(1), trace, 0));
    assert(s.take(1)[0] == s[0]);
    assert(resp.messages@[0] == resp.messages@.drop_last()[0]);
}

proof fn lemma_hop_fails_at(program: Program, i: int, e: ContractError)
    requires
        0 <= i < program.instructions@.len(),
        forall|j: int|
            0 <= j < i ==> !bad_bindings(#[trigger] program.instructions@[j]) && !bad_destination(
                program.instructions@[j],
            ),
        forall|j: int|
            0 <= j < i && j < program.instructions@.len() - 1 ==> !is_call(
                #[trigger] program.instructions@[j],
            ),
        !host_free(program.instructions@[i]),
        e == ContractError::InvalidBindings ==> is_call(program.instructions@[i]),
        e == ContractError::InvalidAddress ==> bad_destination(program.instructions@[i]),
        bad_bindings(program.instructions@[i]) ==> e == ContractError::InvalidBindings,
        bad_destination(program.instructions@[i]) ==> e == ContractError::InvalidAddress,
        e != ContractError::InvalidProgramTag,
    ensures
        hop_settled(program, Err(e)),
{
    reveal(hop_settled);
    let s = program.instructions@;
    assert forall|j: int|
        0 <= j < s.len() && clear_before(s, j) && #[trigger] bad_bindings(s[j]) implies Err::<
        Response,
        ContractError,
    >(e) == Err::<Response, ContractError>(ContractError::InvalidBindings) by {
        if j > i {
            assert(host_free(s[i]));
        }
    }
    assert forall|j: int|
        0 <= j < s.len() && clear_before(s, j) && #[trigger] bad_destination(s[j]) implies Err::<
        Response,
        ContractError,
    >(e) == Err::<Response, ContractError>(ContractError::InvalidAddress) by {
        if j > i {
            assert(host_free(s[i]));
        }
    }
    if e == ContractError::InvalidBindings {
        assert(is_call(s[i]));
    }
    if e == ContractError::InvalidAddress {
        assert(bad_destination(s[i]));
    }
    assert forall|k: int|
        #[trigger] yields_at(s, k) && (forall|j: int| 0 <= j <= k ==> #[trigger] host_free(s[j]))
            implies Err::<Response, ContractError>(e) is Ok by {
        if k >= i {
            assert(host_free(s[i]));
        } else {
            assert(!is_call(s[k]));
        }
    }
    if runs_through(s) && (forall|j: int| 0 <= j < s.len() ==> #[trigger] host_free(s[j])) {
        assert(host_free(s[i]));
    }
}

proof fn lemma_hop_yields_at(program: Program, i: int, r: Result<Response, ContractError>)
    requires
        0 <= i < program.instructions@.len() - 1,
        is_call(program.instructions@[i]),
        forall|j: int|
            0 <= j <= i ==> !bad_bindings(#[trigger] program.instructions@[j]) && !bad_destination(
                program.instructions@[j],
            ),
        r is Ok,
    ensures
        hop_settled(program, r),
{
    reveal(hop_settled);
    let s = program.instructions@;
    assert(!runs_through(s));
    assert forall|j: int|
        0 <= j < s.len() && clear_before(s, j) && #[trigger] bad_bindings(s[j]) implies r == Err::<
        Response,
        ContractError,
    >(ContractError::InvalidBindings) by {
        if j > i {
            assert(!is_call(s[i]));
        }
    }
    assert forall|j: int|
        0 <= j < s.len() && clear_before(s, j) && #[trigger] bad_destination(s[j]) implies r == Err::<
        Response,
        ContractError,
    >(ContractError::InvalidAddress) by {
        if j > i {
            assert(!is_call(s[i]));
        }
    }
}

proof fn lemma_hop_runs_through(program: Program, r: Result<Response, ContractError>)
    requires
        runs_through(program.instructions@),
        forall|j: int|
            0 <= j < program.instructions@.len() ==> !bad_bindings(#[trigger] program.instructions@[j])
                && !bad_destination(program.instructions@[j]),
        r is Ok ==> utf8_text(program.tag@),
        r is Err ==> r == Err::<Response, ContractError>(ContractError::InvalidProgramTag) && !utf8_text(
            program.tag@,
        ),
    ensures
        hop_settled(program, r),
{
    reveal(hop_settled);
    let s = program.instructions@;
    assert forall|k: int| !yields_at(s, k) by {
        if 0 <= k < s.len() - 1 {
            assert(!is_call(s[k]));
        }
    }
}

proof fn lemma_runs_extend(
    state: State,
    env: Env,
    instructions: Seq<Instruction>,
    trace: Seq<Response>,
    i: int,
    next: Response,
)
    requires
        0 <= i < instructions.len(),
        runs(state, env, instructions.take(i), trace),
        step(state, env, (state.ip + i) as u64, instructions[i], trace.last(), next),
    ensures
        runs(state, env, instructions.take(i + 1), trace.push(next)),
{
    let longer = trace.push(next);
    let prefix = instructions.take(i + 1);
    assert forall|j: int| 0 <= j < prefix.len() implies #[trigger] step_at(state, env, prefix, longer, j) by {
        if j < i {
            assert(step_at(state, env, instructions.take(i), trace, j));
            assert(prefix[j] == instructions.take(i)[j]);
        }
    }
}

} // verus!
