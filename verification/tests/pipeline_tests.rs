use std::cell::Cell;

use kore_contract_sdk::bridge::{read_region, write_region, InMemoryBoundary};
use kore_contract_sdk::codec::encode;
use kore_contract_sdk::invoker::{
    check_init_data, execute_contract, ContractHandler, ContractInitCheck, ContractInitCheckView,
    ContractResult, ContractResultView, Context, ValueForm,
};
use kore_contract_sdk::sample_counters::{CountersContract, State, StateEvent};
use kore_contract_sdk::value::{Value, ValueWrapper};

fn store(host: &mut InMemoryBoundary, bytes: &[u8]) -> usize {
    write_region(host, &bytes.to_vec())
}

fn le32(n: u32) -> Vec<u8> {
    n.to_le_bytes().to_vec()
}

fn expected_success_record(final_state: &State, success: bool, error: &str) -> Vec<u8> {
    let mut out = encode(&final_state.to_value());
    out.push(if success { 1 } else { 0 });
    let msg = format!("Error running contract event: {}", error);
    out.extend_from_slice(&le32(msg.len() as u32));
    out.extend_from_slice(msg.as_bytes());
    out
}

fn expected_failure_record(reason: &str) -> Vec<u8> {
    let mut out = vec![5u8, 0];
    out.extend_from_slice(&le32(reason.len() as u32));
    out.extend_from_slice(reason.as_bytes());
    out
}

fn run(
    host: &mut InMemoryBoundary,
    state: &[u8],
    init: &[u8],
    event: &[u8],
    owner: i32,
) -> Vec<u8> {
    let state_ptr = store(host, state);
    let init_ptr = store(host, init);
    let event_ptr = store(host, event);
    let result_ptr = execute_contract::<State, StateEvent, CountersContract, InMemoryBoundary>(
        host,
        &CountersContract,
        state_ptr,
        init_ptr,
        event_ptr,
        owner,
    );
    read_region(host, result_ptr)
}

fn state_bytes(one: u32, two: u32, three: u32) -> Vec<u8> {
    encode(&State { one, two, three }.to_value())
}

fn event_bytes(ev: &StateEvent) -> Vec<u8> {
    encode(&ev.to_value())
}

#[test]
fn execute_pipeline_end_to_end() {
    let mut host = InMemoryBoundary::new();
    let result = run(
        &mut host,
        &state_bytes(1, 2, 3),
        &state_bytes(0, 0, 0),
        &event_bytes(&StateEvent::ModOne { data: 100 }),
        0,
    );
    assert_eq!(
        result,
        expected_success_record(&State { one: 100, two: 2, three: 3 }, true, "")
    );
}

#[test]
fn execute_domain_rejection_surfaces_verbatim() {
    let mut host = InMemoryBoundary::new();
    let result = run(
        &mut host,
        &state_bytes(1, 2, 3),
        &state_bytes(0, 0, 0),
        &event_bytes(&StateEvent::ModThree { data: 50 }),
        0,
    );
    // The callback's rejection reaches the record: success stays false, the
    // final state reflects what the callback left (unchanged counters), and
    // the message is wrapped in the fixed prefix.
    assert_eq!(
        result,
        expected_success_record(
            &State { one: 1, two: 2, three: 3 },
            false,
            "Can not change three value, 50 is a invalid value",
        )
    );
}

#[test]
fn execute_falls_back_to_init_state() {
    let mut host = InMemoryBoundary::new();
    // Committed state decodes but does not convert (a bare number).
    let bad_state = encode(&ValueWrapper(Value::UnsignedInt(7)));
    let result = run(
        &mut host,
        &bad_state,
        &state_bytes(10, 20, 30),
        &event_bytes(&StateEvent::ModTwo { data: 99 }),
        1,
    );
    assert_eq!(
        result,
        expected_success_record(&State { one: 10, two: 99, three: 30 }, true, "")
    );
}

#[test]
fn execute_rejects_undecodable_state_and_init() {
    let mut host = InMemoryBoundary::new();
    let result = run(
        &mut host,
        &[9u8],
        &state_bytes(0, 0, 0),
        &event_bytes(&StateEvent::ModOne { data: 1 }),
        0,
    );
    assert_eq!(result, expected_failure_record("Can not deserialize State"));

    let bad_state = encode(&ValueWrapper(Value::Null));
    let result = run(
        &mut host,
        &bad_state,
        &[9u8],
        &event_bytes(&StateEvent::ModOne { data: 1 }),
        0,
    );
    assert_eq!(result, expected_failure_record("Can not deserialize Init State"));

    let result = run(
        &mut host,
        &bad_state,
        &bad_state,
        &event_bytes(&StateEvent::ModOne { data: 1 }),
        0,
    );
    assert_eq!(result, expected_failure_record("Can not convert State from value"));
}

#[test]
fn execute_rejects_bad_event() {
    let mut host = InMemoryBoundary::new();
    let result = run(
        &mut host,
        &state_bytes(1, 2, 3),
        &state_bytes(0, 0, 0),
        &[9u8],
        0,
    );
    assert_eq!(result, expected_failure_record("Can not deserialize Event"));

    let not_an_event = encode(&ValueWrapper(Value::Bool(true)));
    let result = run(
        &mut host,
        &state_bytes(1, 2, 3),
        &state_bytes(0, 0, 0),
        &not_an_event,
        0,
    );
    assert_eq!(result, expected_failure_record("Can not convert Event from value"));
}

#[test]
fn init_pipeline_end_to_end() {
    let mut host = InMemoryBoundary::new();
    let state_ptr = store(&mut host, &state_bytes(1, 2, 3));
    let result_ptr = check_init_data::<State, StateEvent, CountersContract, InMemoryBoundary>(
        &mut host,
        &CountersContract,
        state_ptr,
    );
    assert_eq!(read_region(&host, result_ptr), vec![1u8, 0, 0, 0, 0]);

    let bad_ptr = store(&mut host, &[9u8]);
    let result_ptr = check_init_data::<State, StateEvent, CountersContract, InMemoryBoundary>(
        &mut host,
        &CountersContract,
        bad_ptr,
    );
    let mut expected = vec![0u8];
    let reason = "Can not deserialize State";
    expected.extend_from_slice(&le32(reason.len() as u32));
    expected.extend_from_slice(reason.as_bytes());
    assert_eq!(read_region(&host, result_ptr), expected);
}

/// A contract that counts its invocations and reports the owner flag.
struct ProbeContract {
    calls: Cell<u32>,
}

impl ContractHandler<State, StateEvent> for ProbeContract {
    // The spec items exist only for verification; nothing calls them in a
    // compiled test.
    fn spec_init(&self, _: State, _: ContractInitCheckView) -> ContractInitCheckView {
        panic!()
    }

    fn spec_execute(
        &self,
        _: Context<State, StateEvent>,
        _: ContractResultView<State>,
    ) -> ContractResultView<State> {
        panic!()
    }

    fn init(&self, _state: &State, result: &mut ContractInitCheck) {
        self.calls.set(self.calls.get() + 1);
        result.success = true;
    }

    fn execute(&self, context: &Context<State, StateEvent>, result: &mut ContractResult<State>) {
        self.calls.set(self.calls.get() + 1);
        result.success = context.is_owner;
    }
}

fn run_probe(
    probe: &ProbeContract,
    state: &[u8],
    init: &[u8],
    event: &[u8],
    owner: i32,
) -> Vec<u8> {
    let mut host = InMemoryBoundary::new();
    let state_ptr = store(&mut host, state);
    let init_ptr = store(&mut host, init);
    let event_ptr = store(&mut host, event);
    let result_ptr = execute_contract::<State, StateEvent, ProbeContract, InMemoryBoundary>(
        &mut host,
        probe,
        state_ptr,
        init_ptr,
        event_ptr,
        owner,
    );
    read_region(&host, result_ptr)
}

#[test]
fn callback_runs_exactly_once_per_invocation() {
    let ev = event_bytes(&StateEvent::ModOne { data: 1 });

    // Plain run: exactly one invocation.
    let probe = ProbeContract { calls: Cell::new(0) };
    run_probe(&probe, &state_bytes(1, 2, 3), &state_bytes(0, 0, 0), &ev, 0);
    assert_eq!(probe.calls.get(), 1);

    // Fallback run: still exactly one invocation.
    let probe = ProbeContract { calls: Cell::new(0) };
    let bad_state = encode(&ValueWrapper(Value::Null));
    run_probe(&probe, &bad_state, &state_bytes(0, 0, 0), &ev, 0);
    assert_eq!(probe.calls.get(), 1);

    // Failing decode: the callback never runs.
    let probe = ProbeContract { calls: Cell::new(0) };
    run_probe(&probe, &[9u8], &[9u8], &ev, 0);
    assert_eq!(probe.calls.get(), 0);
}

#[test]
fn owner_flag_derived_from_nonzero() {
    for (flag, expected) in [(0i32, false), (1, true), (2, true), (-1, true)] {
        let probe = ProbeContract { calls: Cell::new(0) };
        let result = run_probe(
            &probe,
            &state_bytes(1, 2, 3),
            &state_bytes(0, 0, 0),
            &event_bytes(&StateEvent::ModOne { data: 1 }),
            flag,
        );
        // The success byte sits right after the encoded final state.
        let state_len = state_bytes(1, 2, 3).len();
        assert_eq!(result[state_len], if expected { 1 } else { 0 });
    }
}
