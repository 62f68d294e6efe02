use xcvm_interpreter::asset::{Amount, Asset, AssetId, ETH, MAX_PARTS, PICA};
use xcvm_interpreter::contract::{
    execute, instantiate, query, reply, ExecuteMsg, InstantiateMsg, MessageInfo, QueryResponse,
    Register,
};
use xcvm_interpreter::error::ContractError;
use xcvm_interpreter::host::Host;
use xcvm_interpreter::interpreter::{spawn_plan, transfer_messages, Env};
use xcvm_interpreter::program::{
    Binding, BindingValue, Destination, Funds, Instruction, Program, Spawn,
};
use xcvm_interpreter::response::{CosmosMsg, Event, ReplyOn, Response, SubMsg, CALL_ID, SELF_CALL_ID};
use xcvm_interpreter::state::{Attribute, RawEvent, State, SubCallOutcome};

const CW20_ADDR: &str = "cw20_addr";
const REGISTRY_ADDR: &str = "registry_addr";
const RELAYER_ADDR: &str = "relayer_addr";
const MOCK_CONTRACT_ADDR: &str = "cosmos2contract";
const PICASSO: u32 = 1;

struct MockHost {
    balance: u128,
}

impl Host for MockHost {
    fn asset_contract(&self, registry: &Vec<u8>, _asset: AssetId) -> Option<Vec<u8>> {
        if registry.as_slice() == REGISTRY_ADDR.as_bytes() {
            Some(CW20_ADDR.as_bytes().to_vec())
        } else {
            None
        }
    }

    fn balance(&self, token: &Vec<u8>, account: &Vec<u8>) -> Option<u128> {
        if token.as_slice() == CW20_ADDR.as_bytes() && account.as_slice() == MOCK_CONTRACT_ADDR.as_bytes() {
            Some(self.balance)
        } else {
            None
        }
    }

    fn encode_result(&self, result: &Result<SubCallOutcome, String>) -> Option<Vec<u8>> {
        match result {
            Ok(_) => Some(b"{\"ok\":{}}".to_vec()),
            Err(m) => Some(format!("{{\"error\":\"{}\"}}", m).into_bytes()),
        }
    }
}

fn host() -> MockHost {
    MockHost { balance: 100000 }
}

fn env() -> Env {
    Env { contract_address: MOCK_CONTRACT_ADDR.as_bytes().to_vec() }
}

fn info(sender: &str) -> MessageInfo {
    MessageInfo { sender: sender.as_bytes().to_vec() }
}

fn setup(user_id: Vec<u8>) -> State {
    let (state, _) = instantiate(
        info(MOCK_CONTRACT_ADDR),
        InstantiateMsg {
            registry_address: REGISTRY_ADDR.as_bytes().to_vec(),
            relayer_address: RELAYER_ADDR.as_bytes().to_vec(),
            network_id: PICASSO,
            user_id,
        },
    );
    state
}

fn self_execute(state: &mut State, program: Program) -> Result<Response, ContractError> {
    execute(
        &host(),
        state,
        &env(),
        &info(MOCK_CONTRACT_ADDR),
        ExecuteMsg::SelfExecute { program: Some(program) },
    )
}

fn wasm_call(contract: &str, msg: &str) -> Vec<u8> {
    format!("{{\"wasm\":{{\"execute\":{{\"contract_addr\":\"{}\",\"msg\":{},\"funds\":[]}}}}}}", contract, msg)
        .into_bytes()
}

fn hello_call() -> Instruction {
    Instruction::Call { payload: wasm_call("1234", "\"hello world\""), bindings: vec![] }
}

fn empty_transfer() -> Instruction {
    Instruction::Transfer { to: Destination::Relayer, assets: Funds::empty() }
}

fn empty_spawn(program: Program) -> Instruction {
    Instruction::Spawn(Spawn { network: PICASSO, salt: vec![], security: 1, assets: Funds::empty(), program })
}

fn transfer_msg(amount: u128) -> SubMsg {
    SubMsg {
        id: 0,
        msg: CosmosMsg::Transfer {
            token: CW20_ADDR.as_bytes().to_vec(),
            recipient: RELAYER_ADDR.as_bytes().to_vec(),
            amount,
        },
        reply_on: ReplyOn::Never,
    }
}

#[test]
fn proper_instantiation() {
    let (state, res) = instantiate(
        info("sender"),
        InstantiateMsg {
            registry_address: REGISTRY_ADDR.as_bytes().to_vec(),
            relayer_address: RELAYER_ADDR.as_bytes().to_vec(),
            network_id: PICASSO,
            user_id: vec![],
        },
    );
    assert_eq!(0, res.messages.len());
    assert_eq!(state.config.registry_address, REGISTRY_ADDR.as_bytes().to_vec());
    assert_eq!(state.config.relayer_address, RELAYER_ADDR.as_bytes().to_vec());
    assert_eq!(state.config.network_id, PICASSO);
    assert_eq!(state.config.user_id, Vec::<u8>::new());
    assert_eq!(state.owners, vec![b"sender".to_vec()]);
    assert_eq!(res.events, vec![Event::Instantiated { network_id: PICASSO, user_id: vec![] }]);
}

#[test]
fn execute_transfer() {
    let mut state = setup(vec![]);
    let mut assets = Funds::empty();
    assets.insert(PICA::id(), Amount::absolute(1));
    assets.insert(ETH::id(), Amount::absolute(2));
    let program = Program {
        tag: vec![],
        instructions: vec![Instruction::Transfer { to: Destination::Relayer, assets }],
    };
    let res = self_execute(&mut state, program).unwrap();
    assert_eq!(res.messages, vec![transfer_msg(1), transfer_msg(2)]);
}

#[test]
fn execute_call() {
    let mut state = setup(vec![]);
    let instructions = || {
        vec![
            hello_call(),
            empty_transfer(),
            hello_call(),
            empty_spawn(Program { tag: vec![], instructions: vec![] }),
        ]
    };
    let res = self_execute(&mut state, Program { tag: vec![], instructions: instructions() }).unwrap();
    assert_eq!(
        res.messages[0],
        SubMsg {
            id: CALL_ID,
            msg: CosmosMsg::Call { payload: wasm_call("1234", "\"hello world\"") },
            reply_on: ReplyOn::Success,
        }
    );
    let mut rest = instructions();
    rest.remove(0);
    assert_eq!(
        res.messages[1],
        SubMsg {
            id: SELF_CALL_ID,
            msg: CosmosMsg::Continue {
                contract: MOCK_CONTRACT_ADDR.as_bytes().to_vec(),
                program: Program { tag: vec![], instructions: rest },
            },
            reply_on: ReplyOn::Error,
        }
    );
    assert_eq!(res.messages.len(), 2);
}

#[test]
fn execute_spawn() {
    let mut state = setup(vec![]);
    let inner = || Program {
        tag: vec![],
        instructions: vec![Instruction::Call { payload: vec![], bindings: vec![] }],
    };
    let program = Program { tag: vec![], instructions: vec![empty_spawn(inner())] };
    let res = self_execute(&mut state, program).unwrap();
    assert_eq!(
        res.events[0],
        Event::Spawn {
            origin_network_id: 1,
            origin_user_id: vec![],
            spawn: Spawn { network: PICASSO, salt: vec![], security: 1, assets: Funds::empty(), program: inner() },
        }
    );
}

#[test]
fn late_bindings() {
    let mut state = setup(vec![65, 65]);
    let payload = wasm_call("#", "{\"part1\":\"#\",\"part2\":\"hello\",\"part3\":\"#\"}");
    let slots: Vec<usize> =
        payload.iter().enumerate().filter(|(_, b)| **b == b'#').map(|(i, _)| i).collect();
    assert_eq!(slots.len(), 3);
    let bindings = vec![
        Binding { position: slots[0], value: BindingValue::This },
        Binding { position: slots[1], value: BindingValue::This },
        Binding { position: slots[2], value: BindingValue::Relayer },
    ];
    let program = Program { tag: vec![], instructions: vec![Instruction::Call { payload, bindings }] };
    let res = self_execute(&mut state, program).unwrap();
    let expected = wasm_call(
        MOCK_CONTRACT_ADDR,
        &format!(
            "{{\"part1\":\"{}\",\"part2\":\"hello\",\"part3\":\"{}\"}}",
            MOCK_CONTRACT_ADDR, RELAYER_ADDR
        ),
    );
    assert_eq!(res.messages[0].msg, CosmosMsg::Call { payload: expected });
}

#[test]
fn terminal_call_is_dispatched_without_continuation() {
    let mut state = setup(vec![]);
    let program = Program {
        tag: b"three".to_vec(),
        instructions: vec![
            empty_transfer(),
            empty_spawn(Program { tag: vec![], instructions: vec![] }),
            hello_call(),
        ],
    };
    let res = self_execute(&mut state, program).unwrap();
    assert_eq!(res.messages.len(), 1);
    assert_eq!(res.messages[0].id, CALL_ID);
    assert_eq!(res.messages[0].reply_on, ReplyOn::Success);
    assert_eq!(state.ip, 3);
    assert_eq!(res.events.last(), Some(&Event::Executed { tag: b"three".to_vec() }));
}

#[test]
fn first_call_yields_to_continuation() {
    let mut state = setup(vec![]);
    let program = Program {
        tag: b"t".to_vec(),
        instructions: vec![hello_call(), empty_transfer(), empty_transfer()],
    };
    let res = self_execute(&mut state, program).unwrap();
    assert_eq!(res.messages.len(), 2);
    assert_eq!(
        res.messages[1],
        SubMsg {
            id: SELF_CALL_ID,
            msg: CosmosMsg::Continue {
                contract: MOCK_CONTRACT_ADDR.as_bytes().to_vec(),
                program: Program { tag: b"t".to_vec(), instructions: vec![empty_transfer(), empty_transfer()] },
            },
            reply_on: ReplyOn::Error,
        }
    );
    assert_eq!(state.ip, 1);
    assert!(res.events.is_empty());
}

#[test]
fn continuation_resumes_from_instruction_pointer() {
    let mut state = setup(vec![]);
    state.ip = 1;
    let payload = wasm_call("x", "\"#\"");
    let slot = payload.iter().position(|b| *b == b'#').unwrap();
    let program = Program {
        tag: vec![],
        instructions: vec![
            empty_transfer(),
            Instruction::Call { payload, bindings: vec![Binding { position: slot, value: BindingValue::Ip }] },
        ],
    };
    let res = self_execute(&mut state, program).unwrap();
    assert_eq!(res.messages[0].msg, CosmosMsg::Call { payload: wasm_call("x", "\"2\"") });
    assert_eq!(state.ip, 3);
}

#[test]
fn zero_amounts_produce_no_transfer() {
    let mut state = setup(vec![]);
    let program = Program {
        tag: vec![],
        instructions: vec![Instruction::Transfer {
            to: Destination::Relayer,
            assets: Funds(vec![
                (PICA::id(), Amount::absolute(0)),
                (ETH::id(), Amount::absolute(5)),
                (AssetId(3), Amount::ratio(0)),
            ]),
        }],
    };
    let res = self_execute(&mut state, program).unwrap();
    assert_eq!(res.messages, vec![transfer_msg(5)]);
}

#[test]
fn ratio_of_empty_balance_produces_no_transfer() {
    let mut state = setup(vec![]);
    let program = Program {
        tag: vec![],
        instructions: vec![Instruction::Transfer {
            to: Destination::Relayer,
            assets: Funds(vec![(PICA::id(), Amount::ratio(MAX_PARTS / 2))]),
        }],
    };
    let res = execute(
        &MockHost { balance: 0 },
        &mut state,
        &env(),
        &info(MOCK_CONTRACT_ADDR),
        ExecuteMsg::SelfExecute { program: Some(program) },
    )
    .unwrap();
    assert!(res.messages.is_empty());
}

#[test]
fn ratio_transfer_uses_live_balance() {
    let mut state = setup(vec![]);
    let program = Program {
        tag: vec![],
        instructions: vec![Instruction::Transfer {
            to: Destination::Account(b"someone".to_vec()),
            assets: Funds(vec![(PICA::id(), Amount::ratio(MAX_PARTS / 2))]),
        }],
    };
    let res = self_execute(&mut state, program).unwrap();
    assert_eq!(
        res.messages,
        vec![SubMsg {
            id: 0,
            msg: CosmosMsg::Transfer {
                token: CW20_ADDR.as_bytes().to_vec(),
                recipient: b"someone".to_vec(),
                amount: 50000,
            },
            reply_on: ReplyOn::Never,
        }]
    );
}

#[test]
fn transfer_to_malformed_account_fails() {
    let mut state = setup(vec![]);
    let program = Program {
        tag: vec![],
        instructions: vec![Instruction::Transfer { to: Destination::Account(vec![0xff, 0xfe]), assets: Funds::empty() }],
    };
    assert_eq!(self_execute(&mut state, program), Err(ContractError::InvalidAddress));
}

#[test]
fn malformed_tag_fails() {
    let mut state = setup(vec![]);
    let program = Program { tag: vec![0xc3], instructions: vec![empty_transfer()] };
    assert_eq!(self_execute(&mut state, program), Err(ContractError::InvalidProgramTag));
    assert_eq!(state.ip, 0);
}

#[test]
fn failed_registry_query_fails_transfer() {
    let (mut state, _) = instantiate(
        info(MOCK_CONTRACT_ADDR),
        InstantiateMsg {
            registry_address: b"elsewhere".to_vec(),
            relayer_address: RELAYER_ADDR.as_bytes().to_vec(),
            network_id: PICASSO,
            user_id: vec![],
        },
    );
    let program = Program {
        tag: vec![],
        instructions: vec![Instruction::Transfer {
            to: Destination::Relayer,
            assets: Funds(vec![(PICA::id(), Amount::absolute(1))]),
        }],
    };
    assert_eq!(self_execute(&mut state, program), Err(ContractError::QueryFailed));
}

#[test]
fn invalid_binding_position_fails_call() {
    let mut state = setup(vec![]);
    let payload = wasm_call("x", "1");
    let len = payload.len();
    let program = Program {
        tag: vec![],
        instructions: vec![Instruction::Call {
            payload,
            bindings: vec![Binding { position: len, value: BindingValue::This }],
        }],
    };
    assert_eq!(self_execute(&mut state, program), Err(ContractError::InvalidBindings));
}

#[test]
fn non_ascending_bindings_fail_call() {
    let mut state = setup(vec![]);
    let program = Program {
        tag: vec![],
        instructions: vec![Instruction::Call {
            payload: wasm_call("x", "1"),
            bindings: vec![
                Binding { position: 5, value: BindingValue::This },
                Binding { position: 4, value: BindingValue::This },
            ],
        }],
    };
    assert_eq!(self_execute(&mut state, program), Err(ContractError::InvalidBindings));
}

#[test]
fn asset_binding_takes_registry_answer() {
    let mut state = setup(vec![]);
    let payload = wasm_call("#", "1");
    let slot = payload.iter().position(|b| *b == b'#').unwrap();
    let program = Program {
        tag: vec![],
        instructions: vec![Instruction::Call {
            payload,
            bindings: vec![Binding { position: slot, value: BindingValue::AssetId(PICA::id()) }],
        }],
    };
    let res = self_execute(&mut state, program).unwrap();
    assert_eq!(res.messages[0].msg, CosmosMsg::Call { payload: wasm_call(CW20_ADDR, "1") });
}

#[test]
fn result_binding_needs_a_result() {
    let mut state = setup(vec![]);
    let program = Program {
        tag: vec![],
        instructions: vec![Instruction::Call {
            payload: b"[_]".to_vec(),
            bindings: vec![Binding { position: 1, value: BindingValue::Result }],
        }],
    };
    assert_eq!(self_execute(&mut state, program), Err(ContractError::InvalidBindings));
}

#[test]
fn result_binding_takes_encoded_register() {
    let mut state = setup(vec![]);
    state.result = Some(Err("boom".to_string()));
    let program = Program {
        tag: vec![],
        instructions: vec![Instruction::Call {
            payload: b"[_]".to_vec(),
            bindings: vec![Binding { position: 1, value: BindingValue::Result }],
        }],
    };
    let res = self_execute(&mut state, program).unwrap();
    assert_eq!(res.messages[0].msg, CosmosMsg::Call { payload: b"[{\"error\":\"boom\"}]".to_vec() });
}

#[test]
fn spawn_burns_what_it_sends() {
    let mut state = setup(vec![65]);
    let program = Program {
        tag: vec![],
        instructions: vec![Instruction::Spawn(Spawn {
            network: 2,
            salt: vec![9],
            security: 0,
            assets: Funds(vec![
                (PICA::id(), Amount::absolute(7)),
                (ETH::id(), Amount::ratio(MAX_PARTS / 4)),
                (AssetId(3), Amount::zero()),
            ]),
            program: Program { tag: vec![], instructions: vec![] },
        })],
    };
    let res = self_execute(&mut state, program).unwrap();
    let burn = |amount: u128| SubMsg {
        id: 0,
        msg: CosmosMsg::Burn { token: CW20_ADDR.as_bytes().to_vec(), amount },
        reply_on: ReplyOn::Never,
    };
    assert_eq!(res.messages, vec![burn(7), burn(25000)]);
    assert_eq!(
        res.events[0],
        Event::Spawn {
            origin_network_id: PICASSO,
            origin_user_id: vec![65],
            spawn: Spawn {
                network: 2,
                salt: vec![9],
                security: 0,
                assets: Funds(vec![(PICA::id(), Amount::absolute(7)), (ETH::id(), Amount::absolute(25000))]),
                program: Program { tag: vec![], instructions: vec![] },
            },
        }
    );
}

#[test]
fn self_execute_from_other_caller_is_rejected() {
    let mut state = setup(vec![]);
    let r = execute(
        &host(),
        &mut state,
        &env(),
        &info(MOCK_CONTRACT_ADDR),
        ExecuteMsg::AddOwners { owners: vec![b"owner".to_vec()] },
    );
    assert!(r.is_ok());
    let r = execute(
        &host(),
        &mut state,
        &env(),
        &info("owner"),
        ExecuteMsg::SelfExecute { program: Some(Program { tag: vec![], instructions: vec![] }) },
    );
    assert_eq!(r, Err(ContractError::NotAuthorized));
}

#[test]
fn execute_from_non_owner_is_rejected() {
    let mut state = setup(vec![]);
    let r = execute(&host(), &mut state, &env(), &info("stranger"), ExecuteMsg::Execute { program: vec![1, 2] });
    assert_eq!(r, Err(ContractError::NotAuthorized));
}

#[test]
fn undecodable_program_is_invalid() {
    let mut state = setup(vec![]);
    let r = execute(
        &host(),
        &mut state,
        &env(),
        &info(MOCK_CONTRACT_ADDR),
        ExecuteMsg::SelfExecute { program: None },
    );
    assert_eq!(r, Err(ContractError::InvalidProgram));
}

#[test]
fn execute_resets_instruction_pointer_and_sends_program_to_itself() {
    let mut state = setup(vec![]);
    state.ip = 5;
    let res = execute(&host(), &mut state, &env(), &info(MOCK_CONTRACT_ADDR), ExecuteMsg::Execute { program: vec![1, 2] })
        .unwrap();
    assert_eq!(state.ip, 0);
    assert_eq!(
        res.messages,
        vec![SubMsg {
            id: SELF_CALL_ID,
            msg: CosmosMsg::SelfExecute { contract: MOCK_CONTRACT_ADDR.as_bytes().to_vec(), program: vec![1, 2] },
            reply_on: ReplyOn::Error,
        }]
    );
}

#[test]
fn owners_are_added_and_removed() {
    let mut state = setup(vec![]);
    execute(
        &host(),
        &mut state,
        &env(),
        &info(MOCK_CONTRACT_ADDR),
        ExecuteMsg::AddOwners { owners: vec![b"a".to_vec(), b"b".to_vec(), b"a".to_vec()] },
    )
    .unwrap();
    assert_eq!(state.owners, vec![MOCK_CONTRACT_ADDR.as_bytes().to_vec(), b"a".to_vec(), b"b".to_vec()]);
    assert!(execute(&host(), &mut state, &env(), &info("b"), ExecuteMsg::Execute { program: vec![] }).is_ok());
    let res = execute(
        &host(),
        &mut state,
        &env(),
        &info("a"),
        ExecuteMsg::RemoveOwners { owners: vec![b"b".to_vec(), b"zz".to_vec()] },
    )
    .unwrap();
    assert_eq!(res.events, vec![Event::RemoveOwners { owners: vec![b"b".to_vec(), b"zz".to_vec()] }]);
    assert_eq!(state.owners, vec![MOCK_CONTRACT_ADDR.as_bytes().to_vec(), b"a".to_vec()]);
    let r = execute(&host(), &mut state, &env(), &info("b"), ExecuteMsg::Execute { program: vec![] });
    assert_eq!(r, Err(ContractError::NotAuthorized));
}

fn outcome() -> SubCallOutcome {
    SubCallOutcome {
        events: vec![RawEvent {
            ty: "wasm".to_string(),
            attributes: vec![Attribute { key: "k".to_string(), value: "v".to_string() }],
        }],
        data: Some(vec![1]),
    }
}

#[test]
fn failed_continuation_is_recorded() {
    let mut state = setup(vec![]);
    let res = reply(&mut state, SELF_CALL_ID, Err("failed".to_string())).unwrap();
    assert!(res.messages.is_empty() && res.events.is_empty());
    assert_eq!(state.result, Some(Err("failed".to_string())));
}

#[test]
fn successful_call_is_recorded_and_its_events_passed_on() {
    let mut state = setup(vec![]);
    let res = reply(&mut state, CALL_ID, Ok(outcome())).unwrap();
    assert_eq!(state.result, Some(Ok(outcome())));
    assert_eq!(res.events, vec![Event::Forwarded(outcome().events.remove(0))]);
    match query(&state, &env(), Register::Result) {
        QueryResponse::Result(v) => assert_eq!(v, Some(Ok(outcome()))),
        _ => panic!("wrong register"),
    }
}

#[test]
fn unexpected_replies_fail() {
    let mut state = setup(vec![]);
    assert_eq!(reply(&mut state, CALL_ID, Err("e".to_string())), Err(ContractError::CallFailed("e".to_string())));
    assert_eq!(reply(&mut state, SELF_CALL_ID, Ok(outcome())), Err(ContractError::UnexpectedSuccess));
    assert_eq!(reply(&mut state, 9, Ok(outcome())), Err(ContractError::UnknownReplyId(9)));
    assert_eq!(state.result, None);
}

#[test]
fn registers_can_be_queried() {
    let mut state = setup(vec![65, 66]);
    state.ip = 4;
    assert_eq!(query(&state, &env(), Register::Ip), QueryResponse::Ip(4));
    assert_eq!(query(&state, &env(), Register::This), QueryResponse::This(MOCK_CONTRACT_ADDR.as_bytes().to_vec()));
    assert_eq!(query(&state, &env(), Register::Relayer), QueryResponse::Relayer(RELAYER_ADDR.as_bytes().to_vec()));
    assert_eq!(query(&state, &env(), Register::Result), QueryResponse::Result(None));
}

#[test]
fn relayer_transfer_scenario() {
    let (mut state, _) = instantiate(
        info("router"),
        InstantiateMsg {
            registry_address: REGISTRY_ADDR.as_bytes().to_vec(),
            relayer_address: b"L".to_vec(),
            network_id: 7,
            user_id: vec![],
        },
    );
    let program = Program {
        tag: b"pay relayer".to_vec(),
        instructions: vec![Instruction::Transfer {
            to: Destination::Relayer,
            assets: Funds(vec![(PICA::id(), Amount::absolute(1)), (ETH::id(), Amount::absolute(2))]),
        }],
    };
    let res = execute(
        &host(),
        &mut state,
        &env(),
        &info(MOCK_CONTRACT_ADDR),
        ExecuteMsg::SelfExecute { program: Some(program) },
    )
    .unwrap();
    let to_relayer = |amount: u128| SubMsg {
        id: 0,
        msg: CosmosMsg::Transfer { token: CW20_ADDR.as_bytes().to_vec(), recipient: b"L".to_vec(), amount },
        reply_on: ReplyOn::Never,
    };
    assert_eq!(res.messages, vec![to_relayer(1), to_relayer(2)]);
    assert_eq!(res.events, vec![Event::Executed { tag: b"pay relayer".to_vec() }]);
}

#[test]
fn transfer_messages_follow_the_answers_given() {
    let assets = Funds(vec![
        (PICA::id(), Amount::absolute(10)),
        (ETH::id(), Amount::ratio(MAX_PARTS / 2)),
        (AssetId(3), Amount::zero()),
        (AssetId(4), Amount::absolute(3)),
    ]);
    let tokens = vec![b"t1".to_vec(), b"t2".to_vec(), b"t3".to_vec(), b"t4".to_vec()];
    let balances = vec![4, 80, 1000, 0];
    let msgs = transfer_messages(&b"r".to_vec(), &assets, &tokens, &balances);
    let to_r = |token: &[u8], amount: u128| SubMsg {
        id: 0,
        msg: CosmosMsg::Transfer { token: token.to_vec(), recipient: b"r".to_vec(), amount },
        reply_on: ReplyOn::Never,
    };
    assert_eq!(msgs, vec![to_r(b"t1", 4), to_r(b"t2", 40)]);
}

#[test]
fn spawn_plan_follows_the_answers_given() {
    let assets = Funds(vec![
        (PICA::id(), Amount::absolute(10)),
        (ETH::id(), Amount::ratio(MAX_PARTS / 4)),
        (AssetId(3), Amount::ratio(MAX_PARTS)),
    ]);
    let tokens = vec![b"t1".to_vec(), b"t2".to_vec(), b"t3".to_vec()];
    let balances = vec![0, 400, 0];
    let (burns, funds) = spawn_plan(&assets, &tokens, &balances);
    let burn = |token: &[u8], amount: u128| SubMsg {
        id: 0,
        msg: CosmosMsg::Burn { token: token.to_vec(), amount },
        reply_on: ReplyOn::Never,
    };
    assert_eq!(burns, vec![burn(b"t1", 10), burn(b"t2", 100)]);
    assert_eq!(funds, vec![(PICA::id(), Amount::absolute(10)), (ETH::id(), Amount::absolute(100))]);
}

#[test]
fn failed_transfer_adds_no_message() {
    let mut state = setup(vec![]);
    let program = Program {
        tag: vec![],
        instructions: vec![Instruction::Transfer {
            to: Destination::Relayer,
            assets: Funds(vec![(PICA::id(), Amount::absolute(1))]),
        }],
    };
    let r = execute(
        &MockHost { balance: 5 },
        &mut state,
        &Env { contract_address: b"elsewhere".to_vec() },
        &info("elsewhere"),
        ExecuteMsg::SelfExecute { program: Some(program) },
    );
    assert_eq!(r, Err(ContractError::QueryFailed));
    assert_eq!(state.ip, 0);
}

struct RecordingHost {
    asked: std::cell::RefCell<Vec<String>>,
}

impl Host for RecordingHost {
    fn asset_contract(&self, registry: &Vec<u8>, asset: AssetId) -> Option<Vec<u8>> {
        self.asked.borrow_mut().push(format!("registry {} {}", String::from_utf8_lossy(registry), asset.0));
        Some(format!("token{}", asset.0).into_bytes())
    }

    fn balance(&self, token: &Vec<u8>, account: &Vec<u8>) -> Option<u128> {
        self.asked
            .borrow_mut()
            .push(format!("balance {} {}", String::from_utf8_lossy(token), String::from_utf8_lossy(account)));
        Some(1000)
    }

    fn encode_result(&self, _result: &Result<SubCallOutcome, String>) -> Option<Vec<u8>> {
        None
    }
}

#[test]
fn transfer_asks_registry_and_token_contracts() {
    let mut state = setup(vec![]);
    let host = RecordingHost { asked: std::cell::RefCell::new(vec![]) };
    let program = Program {
        tag: vec![],
        instructions: vec![Instruction::Transfer {
            to: Destination::Relayer,
            assets: Funds(vec![(PICA::id(), Amount::zero()), (ETH::id(), Amount::absolute(2))]),
        }],
    };
    let res = execute(&host, &mut state, &env(), &info(MOCK_CONTRACT_ADDR), ExecuteMsg::SelfExecute { program: Some(program) })
        .unwrap();
    assert_eq!(
        *host.asked.borrow(),
        vec![
            "registry registry_addr 1".to_string(),
            "registry registry_addr 2".to_string(),
            "balance token2 cosmos2contract".to_string(),
        ]
    );
    assert_eq!(
        res.messages,
        vec![SubMsg {
            id: 0,
            msg: CosmosMsg::Transfer { token: b"token2".to_vec(), recipient: RELAYER_ADDR.as_bytes().to_vec(), amount: 2 },
            reply_on: ReplyOn::Never,
        }]
    );
}
