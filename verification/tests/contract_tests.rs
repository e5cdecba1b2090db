use kore_contract_sdk::invoker::{
    ContractHandler, ContractInitCheck, ContractResult, Context, ValueForm,
};
use kore_contract_sdk::value::{Value, ValueWrapper};
use kore_contract_sdk::sample_counters::{CountersContract, State, StateEvent};
use kore_contract_sdk::sample_text;

#[test]
fn contract_test() {
    let initial_state = State { one: 1, two: 2, three: 3 };
    let context = Context {
        initial_state: initial_state.clone(),
        event: StateEvent::ModOne { data: 100 },
        is_owner: false,
    };
    let mut result = ContractResult::new(initial_state);
    CountersContract.execute(&context, &mut result);
    assert_eq!(result.final_state.one, 100);
    assert!(result.success);
}

#[test]
fn contract_test_fail() {
    let initial_state = State { one: 1, two: 2, three: 3 };
    let context = Context {
        initial_state: initial_state.clone(),
        event: StateEvent::ModThree { data: 50 },
        is_owner: false,
    };
    let mut result = ContractResult::new(initial_state);
    CountersContract.execute(&context, &mut result);
    assert_eq!(result.final_state.three, 3);
    assert_eq!(result.error, "Can not change three value, 50 is a invalid value");
    assert!(!result.success);
}

#[test]
fn lib_contract_test() {
    let initial_state = sample_text::State { data: "".to_owned() };
    let context = Context {
        initial_state: initial_state.clone(),
        event: sample_text::StateEvent::ChangeData { data: "KoreLedger".to_owned() },
        is_owner: false,
    };
    let mut result = ContractResult::new(initial_state);
    sample_text::TextContract.execute(&context, &mut result);
    assert_eq!(result.final_state.data, "KoreLedger");
    assert!(result.success);
}

#[test]
fn mod_all_updates_every_counter() {
    let initial_state = State { one: 1, two: 2, three: 3 };
    let context = Context {
        initial_state: initial_state.clone(),
        event: StateEvent::ModAll { one: 7, two: 8, three: 9 },
        is_owner: true,
    };
    let mut result = ContractResult::new(initial_state);
    CountersContract.execute(&context, &mut result);
    assert_eq!(result.final_state.one, 7);
    assert_eq!(result.final_state.two, 8);
    assert_eq!(result.final_state.three, 9);
    assert!(result.success);
}

#[test]
fn init_accepts_any_state() {
    let state = State { one: 0, two: 0, three: 0 };
    let mut check = ContractInitCheck::default();
    assert!(!check.success);
    CountersContract.init(&state, &mut check);
    assert!(check.success);
    assert_eq!(check.error, "");
}

#[test]
fn state_value_conversion_round_trip() {
    let state = State { one: 4, two: 5, three: 6 };
    let tree = state.to_value();
    let back = State::from_value(&tree).unwrap();
    assert_eq!(back.one, 4);
    assert_eq!(back.two, 5);
    assert_eq!(back.three, 6);

    // Field order in the tree does not matter, as with any map-shaped state.
    let shuffled = ValueWrapper(Value::Object(vec![
        ("three".to_owned(), Value::UnsignedInt(3)),
        ("one".to_owned(), Value::UnsignedInt(1)),
        ("two".to_owned(), Value::UnsignedInt(2)),
    ]));
    let s = State::from_value(&shuffled).unwrap();
    assert_eq!((s.one, s.two, s.three), (1, 2, 3));

    // A tree of the wrong shape is rejected.
    assert!(State::from_value(&ValueWrapper(Value::Null)).is_err());
    let out_of_range = ValueWrapper(Value::Object(vec![
        ("one".to_owned(), Value::UnsignedInt(u64::MAX)),
        ("two".to_owned(), Value::UnsignedInt(2)),
        ("three".to_owned(), Value::UnsignedInt(3)),
    ]));
    assert!(State::from_value(&out_of_range).is_err());

    let event = StateEvent::ModAll { one: 9, two: 8, three: 7 };
    let tree = event.to_value();
    match StateEvent::from_value(&tree).unwrap() {
        StateEvent::ModAll { one, two, three } => assert_eq!((one, two, three), (9, 8, 7)),
        other => panic!("wrong event decoded: {:?}", other),
    }
}
