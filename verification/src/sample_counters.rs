//! A sample contract over three counters: the demonstration domain logic
//! that ships with the shim, with its typed state and event forms.

use vstd::prelude::*;

use crate::codec::pairs_view;
use crate::error::ConversionError;
use crate::invoker::{
    ContractHandler, ContractInitCheck, ContractInitCheckView, ContractResult, ContractResultView,
    Context, ValueForm,
};
use crate::value::{Value, ValueView, ValueWrapper};

verus! {

/// State of the counters contract.
#[derive(Debug, Clone, Copy)]
pub struct State {
    pub one: u32,
    pub two: u32,
    pub three: u32,
}

/// Events the counters contract accepts.
#[derive(Debug, Clone, Copy)]
pub enum StateEvent {
    ModOne { data: u32 },
    ModTwo { data: u32 },
    ModThree { data: u32 },
    ModAll { one: u32, two: u32, three: u32 },
}

/// The `u32` stored under the first occurrence of `key`, if there is one
/// and it is an unsigned number in range.
pub open spec fn spec_get_u32(pairs: Seq<(Seq<char>, ValueView)>, key: Seq<char>) -> Option<u32>
    decreases pairs.len(),
{
    if pairs.len() == 0 {
        None
    } else if pairs[0].0 == key {
        match pairs[0].1 {
            ValueView::UnsignedInt(u) => if u <= u32::MAX {
                Some(u as u32)
            } else {
                None
            },
            _ => None,
        }
    } else {
        spec_get_u32(pairs.drop_first(), key)
    }
}

/// Finds the `u32` stored under `key` in decoded object pairs.
#[verifier::loop_isolation(false)]
pub fn get_u32(pairs: &Vec<(String, Value)>, key: &String) -> (r: Option<u32>)
    ensures
        r == spec_get_u32(pairs_view(pairs@), key@),
{
    let n = pairs.len();
    let mut j: usize = 0;
    proof {
        assert(pairs_view(pairs@).skip(0) =~= pairs_view(pairs@));
    }
    while j < n
        invariant
            j <= n,
            n == pairs@.len(),
            spec_get_u32(pairs_view(pairs@), key@) == spec_get_u32(
                pairs_view(pairs@).skip(j as int),
                key@,
            ),
        decreases n - j,
    {
        let ghost tail = pairs_view(pairs@).skip(j as int);
        proof {
            assert(tail[0] == pairs_view(pairs@)[j as int]);
        }
        if pairs[j].0 == *key {
            match &pairs[j].1 {
                Value::UnsignedInt(u) => {
                    if *u <= 0xffff_ffff {
                        return Some(*u as u32);
                    } else {
                        return None;
                    }
                },
                _ => {
                    return None;
                },
            }
        }
        j = j + 1;
        proof {
            assert(tail.drop_first() =~= pairs_view(pairs@).skip(j as int));
        }
    }
    None
}

impl ValueForm for State {
    open spec fn spec_from_value(v: ValueView) -> Option<State> {
        match v {
            ValueView::Object(ps) => match (
                spec_get_u32(ps, "one"@),
                spec_get_u32(ps, "two"@),
                spec_get_u32(ps, "three"@),
            ) {
                (Some(a), Some(b), Some(c)) => Some(State { one: a, two: b, three: c }),
                _ => None,
            },
            _ => None,
        }
    }

    open spec fn spec_to_value(self) -> ValueView {
        ValueView::Object(
            seq![
                ("one"@, ValueView::UnsignedInt(self.one as u64)),
                ("two"@, ValueView::UnsignedInt(self.two as u64)),
                ("three"@, ValueView::UnsignedInt(self.three as u64)),
            ],
        )
    }

    fn from_value(v: &ValueWrapper) -> (r: Result<State, ConversionError>) {
        match &v.0 {
            Value::Object(pairs) => {
                proof {
                    assert(v@.obj_pairs() =~= pairs_view(pairs@));
                }
                let one = get_u32(pairs, &"one".to_owned());
                let two = get_u32(pairs, &"two".to_owned());
                let three = get_u32(pairs, &"three".to_owned());
                match (one, two, three) {
                    (Some(a), Some(b), Some(c)) => Ok(State { one: a, two: b, three: c }),
                    _ => Err(ConversionError::ShapeMismatch),
                }
            },
            _ => Err(ConversionError::ShapeMismatch),
        }
    }

    fn to_value(&self) -> (r: ValueWrapper) {
        let mut pairs: Vec<(String, Value)> = Vec::new();
        pairs.push(("one".to_owned(), Value::UnsignedInt(self.one as u64)));
        pairs.push(("two".to_owned(), Value::UnsignedInt(self.two as u64)));
        pairs.push(("three".to_owned(), Value::UnsignedInt(self.three as u64)));
        let r = ValueWrapper(Value::Object(pairs));
        proof {
            assert(r@.obj_pairs() =~= pairs_view(pairs@));
            assert(pairs_view(pairs@) =~= self.spec_to_value().obj_pairs());
            assert(r@ == self.spec_to_value());
        }
        r
    }
}

/// One field update event in its wire shape: an object with the variant
/// name as sole key and the field object as value.
pub open spec fn event_form(name: Seq<char>, fields: Seq<(Seq<char>, ValueView)>) -> ValueView {
    ValueView::Object(seq![(name, ValueView::Object(fields))])
}

impl ValueForm for StateEvent {
    open spec fn spec_from_value(v: ValueView) -> Option<StateEvent> {
        match v {
            ValueView::Object(ps) => if ps.len() == 1 {
                match ps[0].1 {
                    ValueView::Object(fields) => if ps[0].0 == "ModOne"@ {
                        match spec_get_u32(fields, "data"@) {
                            Some(d) => Some(StateEvent::ModOne { data: d }),
                            None => None,
                        }
                    } else if ps[0].0 == "ModTwo"@ {
                        match spec_get_u32(fields, "data"@) {
                            Some(d) => Some(StateEvent::ModTwo { data: d }),
                            None => None,
                        }
                    } else if ps[0].0 == "ModThree"@ {
                        match spec_get_u32(fields, "data"@) {
                            Some(d) => Some(StateEvent::ModThree { data: d }),
                            None => None,
                        }
                    } else if ps[0].0 == "ModAll"@ {
                        match (
                            spec_get_u32(fields, "one"@),
                            spec_get_u32(fields, "two"@),
                            spec_get_u32(fields, "three"@),
                        ) {
                            (Some(a), Some(b), Some(c)) => Some(
                                StateEvent::ModAll { one: a, two: b, three: c },
                            ),
                            _ => None,
                        }
                    } else {
                        None
                    },
                    _ => None,
                }
            } else {
                None
            },
            _ => None,
        }
    }

    open spec fn spec_to_value(self) -> ValueView {
        match self {
            StateEvent::ModOne { data } => event_form(
                "ModOne"@,
                seq![("data"@, ValueView::UnsignedInt(data as u64))],
            ),
            StateEvent::ModTwo { data } => event_form(
                "ModTwo"@,
                seq![("data"@, ValueView::UnsignedInt(data as u64))],
            ),
            StateEvent::ModThree { data } => event_form(
                "ModThree"@,
                seq![("data"@, ValueView::UnsignedInt(data as u64))],
            ),
            StateEvent::ModAll { one, two, three } => event_form(
                "ModAll"@,
                seq![
                    ("one"@, ValueView::UnsignedInt(one as u64)),
                    ("two"@, ValueView::UnsignedInt(two as u64)),
                    ("three"@, ValueView::UnsignedInt(three as u64)),
                ],
            ),
        }
    }

    fn from_value(v: &ValueWrapper) -> (r: Result<StateEvent, ConversionError>) {
        match &v.0 {
            Value::Object(pairs) => {
                proof {
                    assert(v@.obj_pairs() =~= pairs_view(pairs@));
                }
                if pairs.len() != 1 {
                    return Err(ConversionError::ShapeMismatch);
                }
                match &pairs[0].1 {
                    Value::Object(fields) => {
                        proof {
                            assert(pairs_view(pairs@)[0].1.obj_pairs() =~~= pairs_view(fields@));
                        }
                        if pairs[0].0 == "ModOne".to_owned() {
                            match get_u32(fields, &"data".to_owned()) {
                                Some(d) => Ok(StateEvent::ModOne { data: d }),
                                None => Err(ConversionError::ShapeMismatch),
                            }
                        } else if pairs[0].0 == "ModTwo".to_owned() {
                            match get_u32(fields, &"data".to_owned()) {
                                Some(d) => Ok(StateEvent::ModTwo { data: d }),
                                None => Err(ConversionError::ShapeMismatch),
                            }
                        } else if pairs[0].0 == "ModThree".to_owned() {
                            match get_u32(fields, &"data".to_owned()) {
                                Some(d) => Ok(StateEvent::ModThree { data: d }),
                                None => Err(ConversionError::ShapeMismatch),
                            }
                        } else if pairs[0].0 == "ModAll".to_owned() {
                            let one = get_u32(fields, &"one".to_owned());
                            let two = get_u32(fields, &"two".to_owned());
                            let three = get_u32(fields, &"three".to_owned());
                            match (one, two, three) {
                                (Some(a), Some(b), Some(c)) => Ok(
                                    StateEvent::ModAll { one: a, two: b, three: c },
                                ),
                                _ => Err(ConversionError::ShapeMismatch),
                            }
                        } else {
                            Err(ConversionError::ShapeMismatch)
                        }
                    },
                    _ => Err(ConversionError::ShapeMismatch),
                }
            },
            _ => Err(ConversionError::ShapeMismatch),
        }
    }

    fn to_value(&self) -> (r: ValueWrapper) {
        let name: String;
        let mut fields: Vec<(String, Value)> = Vec::new();
        match self {
            StateEvent::ModOne { data } => {
                name = "ModOne".to_owned();
                fields.push(("data".to_owned(), Value::UnsignedInt(*data as u64)));
            },
            StateEvent::ModTwo { data } => {
                name = "ModTwo".to_owned();
                fields.push(("data".to_owned(), Value::UnsignedInt(*data as u64)));
            },
            StateEvent::ModThree { data } => {
                name = "ModThree".to_owned();
                fields.push(("data".to_owned(), Value::UnsignedInt(*data as u64)));
            },
            StateEvent::ModAll { one, two, three } => {
                name = "ModAll".to_owned();
                fields.push(("one".to_owned(), Value::UnsignedInt(*one as u64)));
                fields.push(("two".to_owned(), Value::UnsignedInt(*two as u64)));
                fields.push(("three".to_owned(), Value::UnsignedInt(*three as u64)));
            },
        }
        let mut pairs: Vec<(String, Value)> = Vec::new();
        let ghost fieldsv = pairs_view(fields@);
        pairs.push((name, Value::Object(fields)));
        let r = ValueWrapper(Value::Object(pairs));
        proof {
            assert(pairs_view(pairs@)[0].1.obj_pairs() =~= pairs_view(fields@));
            assert(fieldsv =~= self.spec_to_value().obj_pairs()[0].1.obj_pairs());
            assert(pairs_view(pairs@)[0].1 == self.spec_to_value().obj_pairs()[0].1);
            assert(r@.obj_pairs() =~= pairs_view(pairs@));
            assert(pairs_view(pairs@) =~= self.spec_to_value().obj_pairs());
            assert(r@ == self.spec_to_value());
        }
        r
    }
}

/// The counters contract: accepts any init state; applies one field
/// update per event, rejecting the one value its rules forbid.
pub struct CountersContract;

impl ContractHandler<State, StateEvent> for CountersContract {
    open spec fn spec_init(
        &self,
        state: State,
        seeded: ContractInitCheckView,
    ) -> ContractInitCheckView {
        ContractInitCheckView { success: true, error: seeded.error }
    }

    open spec fn spec_execute(
        &self,
        context: Context<State, StateEvent>,
        seeded: ContractResultView<State>,
    ) -> ContractResultView<State> {
        let s = seeded.final_state;
        match context.event {
            StateEvent::ModOne { data } => ContractResultView {
                final_state: State { one: data, ..s },
                success: true,
                error: seeded.error,
            },
            StateEvent::ModTwo { data } => ContractResultView {
                final_state: State { two: data, ..s },
                success: true,
                error: seeded.error,
            },
            StateEvent::ModThree { data } => if data == 50 {
                ContractResultView {
                    final_state: s,
                    success: seeded.success,
                    error: "Can not change three value, 50 is a invalid value"@,
                }
            } else {
                ContractResultView {
                    final_state: State { three: data, ..s },
                    success: true,
                    error: seeded.error,
                }
            },
            StateEvent::ModAll { one, two, three } => ContractResultView {
                final_state: State { one, two, three },
                success: true,
                error: seeded.error,
            },
        }
    }

    fn init(&self, _state: &State, result: &mut ContractInitCheck) {
        result.success = true;
    }

    fn execute(&self, context: &Context<State, StateEvent>, result: &mut ContractResult<State>) {
        match &context.event {
            StateEvent::ModOne { data } => {
                result.final_state.one = *data;
            },
            StateEvent::ModTwo { data } => {
                result.final_state.two = *data;
            },
            StateEvent::ModThree { data } => {
                if *data == 50 {
                    result.error = "Can not change three value, 50 is a invalid value".to_owned();
                    return ;
                }
                result.final_state.three = *data;
            },
            StateEvent::ModAll { one, two, three } => {
                result.final_state.one = *one;
                result.final_state.two = *two;
                result.final_state.three = *three;
            },
        }
        result.success = true;
    }
}

} // verus!
