//! The invocation pipeline: fetch raw bytes over the boundary, decode them,
//! convert them to the domain types, run the author-supplied callback
//! exactly once, convert and encode the result, and write it back.
//!
//! Every phase that fails short-circuits to a failure record with a
//! phase-specific reason; that record is itself encoded and written, so a
//! caller always receives a handle to a structurally valid result.

use vstd::prelude::*;
use vstd::string::StringExecFns;
use vstd::utf8::encode_utf8;

use crate::bridge::{read_region, write_region, HostBoundary};
use crate::codec::{decode, encode, is_wf, spec_decoded, spec_encoded, spec_encoded_str};
use crate::error::ConversionError;
use crate::value::{Value, ValueView, ValueWrapper};

verus! {

/// Contract execution context: what the callback may read.
pub struct Context<State, Event> {
    /// State of the contract when the event arrived.
    pub initial_state: State,
    /// Event that triggered the contract execution.
    pub event: Event,
    /// Whether the sender of the event owns the contract.
    pub is_owner: bool,
}

/// Contract execution result: what the callback may write.
pub struct ContractResult<State> {
    /// Final state of the contract.
    pub final_state: State,
    /// Whether the contract execution succeeded.
    pub success: bool,
    /// Message of a domain-level rejection.
    pub error: String,
}

/// Result of the contract's init check.
pub struct ContractInitCheck {
    /// Whether the init data was accepted.
    pub success: bool,
    /// Message of a domain-level rejection.
    pub error: String,
}

/// Model of a [`ContractResult`]: the error as a character sequence.
pub struct ContractResultView<State> {
    pub final_state: State,
    pub success: bool,
    pub error: Seq<char>,
}

/// Model of a [`ContractInitCheck`].
pub struct ContractInitCheckView {
    pub success: bool,
    pub error: Seq<char>,
}

impl<State> View for ContractResult<State> {
    type V = ContractResultView<State>;

    open spec fn view(&self) -> ContractResultView<State> {
        ContractResultView { final_state: self.final_state, success: self.success, error: self.error@ }
    }
}

impl View for ContractInitCheck {
    type V = ContractInitCheckView;

    open spec fn view(&self) -> ContractInitCheckView {
        ContractInitCheckView { success: self.success, error: self.error@ }
    }
}

impl<State> ContractResult<State> {
    /// Seeds a result with the working state, no success and no error.
    pub fn new(state: State) -> (r: ContractResult<State>)
        ensures
            r@ == (ContractResultView { final_state: state, success: false, error: Seq::<
                char,
            >::empty() }),
    {
        ContractResult { final_state: state, success: false, error: String::new() }
    }
}

impl Default for ContractInitCheck {
    /// A check that has not accepted anything yet.
    fn default() -> (r: ContractInitCheck)
        ensures
            r@ == (ContractInitCheckView { success: false, error: Seq::<char>::empty() }),
    {
        ContractInitCheck { success: false, error: String::new() }
    }
}

/// Wire-level contract execution result record.
pub struct ContractResultBorsh {
    /// Final state of the contract as a value tree.
    pub final_state: ValueWrapper,
    /// Whether the contract execution succeeded.
    pub success: bool,
    /// Error text carried back to the host.
    pub error: String,
}

/// Model of a [`ContractResultBorsh`].
pub struct ResultRecordView {
    pub final_state: ValueView,
    pub success: bool,
    pub error: Seq<char>,
}

impl View for ContractResultBorsh {
    type V = ResultRecordView;

    open spec fn view(&self) -> ResultRecordView {
        ResultRecordView { final_state: self.final_state@, success: self.success, error: self.error@ }
    }
}

impl ContractResultBorsh {
    /// A failure record: null state, no success, the given reason.
    pub fn error(error: &str) -> (r: ContractResultBorsh)
        ensures
            r@ == (ResultRecordView {
                final_state: ValueView::Null,
                success: false,
                error: error@,
            }),
    {
        ContractResultBorsh {
            final_state: ValueWrapper(Value::Null),
            success: false,
            error: error.to_owned(),
        }
    }
}

/// Wire-level init check record.
pub struct ContractInitCheckBorsh {
    /// Whether the init data was accepted.
    pub success: bool,
    /// Error text carried back to the host.
    pub error: String,
}

/// Model of a [`ContractInitCheckBorsh`].
pub struct InitRecordView {
    pub success: bool,
    pub error: Seq<char>,
}

impl View for ContractInitCheckBorsh {
    type V = InitRecordView;

    open spec fn view(&self) -> InitRecordView {
        InitRecordView { success: self.success, error: self.error@ }
    }
}

impl ContractInitCheckBorsh {
    /// A failure record carrying the given reason.
    pub fn error(error: &str) -> (r: ContractInitCheckBorsh)
        ensures
            r@ == (InitRecordView { success: false, error: error@ }),
    {
        ContractInitCheckBorsh { success: false, error: error.to_owned() }
    }

    /// The success record.
    pub fn ok() -> (r: ContractInitCheckBorsh)
        ensures
            r@ == (InitRecordView { success: true, error: Seq::<char>::empty() }),
    {
        ContractInitCheckBorsh { success: true, error: String::new() }
    }
}

/// A domain type with an explicit, fallible mapping from the value tree
/// and a total mapping back to it. Contract authors implement this for
/// their state and event types.
pub trait ValueForm: Sized {
    /// The typed value a tree converts to, if its shape matches.
    spec fn spec_from_value(v: ValueView) -> Option<Self>;

    /// The value tree this typed value serializes to.
    spec fn spec_to_value(self) -> ValueView;

    /// Converts a decoded value tree into this type.
    fn from_value(v: &ValueWrapper) -> (r: Result<Self, ConversionError>)
        ensures
            match r {
                Ok(s) => Self::spec_from_value(v@) == Some(s),
                Err(_) => Self::spec_from_value(v@) is None,
            },
    ;

    /// Converts this typed value back into a value tree.
    fn to_value(&self) -> (r: ValueWrapper)
        ensures
            r@ == self.spec_to_value(),
    ;
}

/// The author-supplied contract: an init check and a state transition,
/// each specified by its own spec function so the pipeline's contract can
/// name the callback's effect.
pub trait ContractHandler<State, Event> {
    /// What `init` leaves in the check record.
    spec fn spec_init(&self, state: State, seeded: ContractInitCheckView) -> ContractInitCheckView;

    /// What `execute` leaves in the result record.
    spec fn spec_execute(
        &self,
        context: Context<State, Event>,
        seeded: ContractResultView<State>,
    ) -> ContractResultView<State>;

    /// Validates the initial contract state.
    fn init(&self, state: &State, result: &mut ContractInitCheck)
        ensures
            final(result)@ == self.spec_init(*state, old(result)@),
    ;

    /// Runs the contract logic for one event.
    fn execute(&self, context: &Context<State, Event>, result: &mut ContractResult<State>)
        ensures
            final(result)@ == self.spec_execute(*context, old(result)@),
    ;
}

/// A failure record of the execute path.
pub open spec fn execute_failure(msg: Seq<char>) -> ResultRecordView {
    ResultRecordView { final_state: ValueView::Null, success: false, error: msg }
}

/// A failure record of the init path.
pub open spec fn init_failure(msg: Seq<char>) -> InitRecordView {
    InitRecordView { success: false, error: msg }
}

/// The working state of an execute invocation: the committed state if its
/// bytes decode and convert, else the init state as fallback, else the
/// phase-specific reason for giving up.
pub open spec fn spec_working_state<State: ValueForm>(state_bytes: Seq<u8>, init_bytes: Seq<u8>) -> Result<
    State,
    Seq<char>,
> {
    match spec_decoded(state_bytes) {
        Err(_) => Err("Can not deserialize State"@),
        Ok(sv) => match State::spec_from_value(sv) {
            Some(st) => Ok(st),
            None => match spec_decoded(init_bytes) {
                Err(_) => Err("Can not deserialize Init State"@),
                Ok(iv) => match State::spec_from_value(iv) {
                    Some(st) => Ok(st),
                    None => Err("Can not convert State from value"@),
                },
            },
        },
    }
}

/// What one run of the callback produces at the wire level: the callback
/// sees the working state and the event, and its result record is encoded
/// with the error wrapped in the fixed execute-path prefix — also when it
/// reports success.
pub open spec fn spec_callback_outcome<
    State: ValueForm,
    Event: ValueForm,
    C: ContractHandler<State, Event>,
>(c: C, st: State, event: Event, owner_flag: i32) -> ResultRecordView {
    let context = Context { initial_state: st, event: event, is_owner: owner_flag != 0 };
    let seeded = ContractResultView {
        final_state: st,
        success: false,
        error: Seq::<char>::empty(),
    };
    let res = c.spec_execute(context, seeded);
    let fv = res.final_state.spec_to_value();
    if !fv.wf() {
        execute_failure("Can not convert contract final state into Value"@)
    } else {
        let msg = "Error running contract event: "@ + res.error;
        if encode_utf8(msg).len() <= u32::MAX {
            ResultRecordView { final_state: fv, success: res.success, error: msg }
        } else {
            execute_failure("Can not return contract result"@)
        }
    }
}

/// The record an execute invocation writes back, as a function of the raw
/// bytes of the three regions and the owner flag. The callback's effect
/// enters exactly once, through [`spec_callback_outcome`].
pub open spec fn spec_execute_outcome<
    State: ValueForm,
    Event: ValueForm,
    C: ContractHandler<State, Event>,
>(c: C, state_bytes: Seq<u8>, init_bytes: Seq<u8>, event_bytes: Seq<u8>, owner_flag: i32) -> ResultRecordView {
    match spec_working_state::<State>(state_bytes, init_bytes) {
        Err(msg) => execute_failure(msg),
        Ok(st) => match spec_decoded(event_bytes) {
            Err(_) => execute_failure("Can not deserialize Event"@),
            Ok(ev) => match Event::spec_from_value(ev) {
                None => execute_failure("Can not convert Event from value"@),
                Some(event) => spec_callback_outcome(c, st, event, owner_flag),
            },
        },
    }
}

/// The record an init invocation writes back, as a function of the raw
/// state bytes. The callback's effect enters exactly once.
pub open spec fn spec_init_outcome<
    State: ValueForm,
    Event: ValueForm,
    C: ContractHandler<State, Event>,
>(c: C, state_bytes: Seq<u8>) -> InitRecordView {
    match spec_decoded(state_bytes) {
        Err(_) => init_failure("Can not deserialize State"@),
        Ok(sv) => match State::spec_from_value(sv) {
            None => init_failure("Can not convert State from value"@),
            Some(st) => {
                let chk = c.spec_init(
                    st,
                    ContractInitCheckView { success: false, error: Seq::<char>::empty() },
                );
                if chk.success {
                    InitRecordView { success: true, error: Seq::<char>::empty() }
                } else {
                    let msg = "Error running init contract data: "@ + chk.error;
                    if encode_utf8(msg).len() <= u32::MAX {
                        init_failure(msg)
                    } else {
                        init_failure("Can not return init contract result"@)
                    }
                }
            },
        },
    }
}

/// Wire form of an execute result record: the final state's value tree,
/// one success byte, the length-prefixed error text.
pub open spec fn result_record_bytes(rec: ResultRecordView) -> Seq<u8> {
    spec_encoded(rec.final_state) + seq![if rec.success { 1u8 } else { 0u8 }] + spec_encoded_str(
        rec.error,
    )
}

/// Wire form of an init check record: one success byte, the
/// length-prefixed error text.
pub open spec fn init_record_bytes(rec: InitRecordView) -> Seq<u8> {
    seq![if rec.success { 1u8 } else { 0u8 }] + spec_encoded_str(rec.error)
}

/// Encodes an init check record.
fn encode_init_record(rec: &ContractInitCheckBorsh) -> (out: Vec<u8>)
    requires
        encode_utf8(rec.error@).len() <= u32::MAX,
    ensures
        out@ == init_record_bytes(rec@),
{
    let mut out: Vec<u8> = Vec::new();
    out.push(if rec.success { 1u8 } else { 0u8 });
    crate::codec::push_str(&mut out, &rec.error);
    assert(out@ =~= init_record_bytes(rec@));
    out
}

/// Encodes an execute result record.
fn encode_result_record(rec: &ContractResultBorsh) -> (out: Vec<u8>)
    requires
        rec.final_state@.wf(),
        encode_utf8(rec.error@).len() <= u32::MAX,
    ensures
        out@ == result_record_bytes(rec@),
{
    let mut out = encode(&rec.final_state);
    out.push(if rec.success { 1u8 } else { 0u8 });
    crate::codec::push_str(&mut out, &rec.error);
    assert(out@ =~= result_record_bytes(rec@));
    out
}

/// Runs the init phases on the raw state bytes and builds the record to
/// write back; the callback runs exactly once, on the success path.
fn run_init_record<State, Event, C>(c: &C, bytes: &Vec<u8>) -> (r: ContractInitCheckBorsh) where
    State: ValueForm,
    Event: ValueForm,
    C: ContractHandler<State, Event>,

    ensures
        r@ == spec_init_outcome::<State, Event, C>(*c, bytes@),
        encode_utf8(r.error@).len() <= u32::MAX,
{
    match decode(bytes) {
        Err(_) => {
            proof {
                crate::codec::lemma_encode_utf8_len("Can not deserialize State"@);
                reveal_strlit("Can not deserialize State");
            }
            ContractInitCheckBorsh::error("Can not deserialize State")
        },
        Ok(w) => match State::from_value(&w) {
            Err(_) => {
                proof {
                    crate::codec::lemma_encode_utf8_len("Can not convert State from value"@);
                    reveal_strlit("Can not convert State from value");
                }
                ContractInitCheckBorsh::error("Can not convert State from value")
            },
            Ok(st) => {
                let mut chk = ContractInitCheck::default();
                c.init(&st, &mut chk);
                if chk.success {
                    proof {
                        crate::codec::lemma_encode_utf8_len(Seq::<char>::empty());
                    }
                    ContractInitCheckBorsh::ok()
                } else {
                    let mut msg = "Error running init contract data: ".to_owned();
                    msg.append(chk.error.as_str());
                    if msg.as_str().as_bytes().len() as u64 <= u32::MAX as u64 {
                        ContractInitCheckBorsh { success: false, error: msg }
                    } else {
                        proof {
                            crate::codec::lemma_encode_utf8_len(
                                "Can not return init contract result"@,
                            );
                            reveal_strlit("Can not return init contract result");
                        }
                        ContractInitCheckBorsh::error("Can not return init contract result")
                    }
                }
            },
        },
    }
}

/// Runs the execute phases on the raw bytes of the three regions and
/// builds the record to write back; the callback runs exactly once, on
/// the success path.
fn run_execute_record<State, Event, C>(
    c: &C,
    state_bytes: &Vec<u8>,
    init_bytes: &Vec<u8>,
    event_bytes: &Vec<u8>,
    is_owner: i32,
) -> (r: ContractResultBorsh) where
    State: ValueForm,
    Event: ValueForm,
    C: ContractHandler<State, Event>,

    ensures
        r@ == spec_execute_outcome::<State, Event, C>(
            *c,
            state_bytes@,
            init_bytes@,
            event_bytes@,
            is_owner,
        ),
        r.final_state@.wf(),
        encode_utf8(r.error@).len() <= u32::MAX,
{
    let wrapper: ValueWrapper = match decode(state_bytes) {
        Err(_) => {
            proof {
                crate::codec::lemma_encode_utf8_len("Can not deserialize State"@);
                reveal_strlit("Can not deserialize State");
            }
            return ContractResultBorsh::error("Can not deserialize State");
        },
        Ok(w) => {
            let convertible = match State::from_value(&w) {
                Ok(_) => true,
                Err(_) => false,
            };
            if convertible {
                w
            } else {
                match decode(init_bytes) {
                    Err(_) => {
                        proof {
                            crate::codec::lemma_encode_utf8_len("Can not deserialize Init State"@);
                            reveal_strlit("Can not deserialize Init State");
                        }
                        return ContractResultBorsh::error("Can not deserialize Init State");
                    },
                    Ok(iw) => match State::from_value(&iw) {
                        Ok(_) => iw,
                        Err(_) => {
                            proof {
                                crate::codec::lemma_encode_utf8_len(
                                    "Can not convert State from value"@,
                                );
                                reveal_strlit("Can not convert State from value");
                            }
                            return ContractResultBorsh::error("Can not convert State from value");
                        },
                    },
                }
            }
        },
    };
    let st1: State = match State::from_value(&wrapper) {
        Ok(s) => s,
        Err(_) => {
            // The wrapper was chosen because it converts; this branch is
            // provably unreachable.
            proof {
                assert(false);
            }
            return ContractResultBorsh::error("Can not convert State from value");
        },
    };
    let st2: State = match State::from_value(&wrapper) {
        Ok(s) => s,
        Err(_) => {
            proof {
                assert(false);
            }
            return ContractResultBorsh::error("Can not convert State from value");
        },
    };
    let event: Event = match decode(event_bytes) {
        Err(_) => {
            proof {
                crate::codec::lemma_encode_utf8_len("Can not deserialize Event"@);
                reveal_strlit("Can not deserialize Event");
            }
            return ContractResultBorsh::error("Can not deserialize Event");
        },
        Ok(ew) => match Event::from_value(&ew) {
            Ok(e) => e,
            Err(_) => {
                proof {
                    crate::codec::lemma_encode_utf8_len("Can not convert Event from value"@);
                    reveal_strlit("Can not convert Event from value");
                }
                return ContractResultBorsh::error("Can not convert Event from value");
            },
        },
    };
    let context = Context { initial_state: st1, event: event, is_owner: is_owner != 0 };
    let mut result = ContractResult::new(st2);
    c.execute(&context, &mut result);
    let fv = result.final_state.to_value();
    if !is_wf(&fv.0) {
        proof {
            crate::codec::lemma_encode_utf8_len("Can not convert contract final state into Value"@);
            reveal_strlit("Can not convert contract final state into Value");
        }
        return ContractResultBorsh::error("Can not convert contract final state into Value");
    }
    let mut msg = "Error running contract event: ".to_owned();
    msg.append(result.error.as_str());
    if msg.as_str().as_bytes().len() as u64 <= u32::MAX as u64 {
        ContractResultBorsh { final_state: fv, success: result.success, error: msg }
    } else {
        proof {
            crate::codec::lemma_encode_utf8_len("Can not return contract result"@);
            reveal_strlit("Can not return contract result");
        }
        ContractResultBorsh::error("Can not return contract result")
    }
}

/// Checks init data: reads the state region, decodes and converts it,
/// runs the init callback exactly once, and writes the init record back,
/// returning its fresh handle. A failing phase writes a failure record
/// with its reason instead — this path never fails outward.
pub fn check_init_data<State, Event, C, B>(host: &mut B, contract: &C, state_ptr: usize) -> (result_ptr: usize) where
    State: ValueForm,
    Event: ValueForm,
    C: ContractHandler<State, Event>,
    B: HostBoundary,

    requires
        old(host).regions().contains_key(state_ptr),
    ensures
        !old(host).regions().contains_key(result_ptr),
        final(host).regions().contains_key(result_ptr),
        final(host).regions()[result_ptr] == init_record_bytes(
            spec_init_outcome::<State, Event, C>(*contract, old(host).regions()[state_ptr]),
        ),
        forall|h: usize|
            #![trigger old(host).regions().contains_key(h)]
            h != result_ptr && old(host).regions().contains_key(h)
                ==> final(host).regions().contains_key(h)
                && final(host).regions()[h] == old(host).regions()[h],
{
    let bytes = read_region(host, state_ptr);
    let out = check_init_data_bytes::<State, Event, C>(contract, &bytes);
    write_region(host, &out)
}

/// Executes the contract for one event: reads the state, init state and
/// event regions, decodes and converts them (falling back to the init
/// state when the committed state does not convert), derives the owner
/// flag, runs the execute callback exactly once, converts and encodes the
/// result, and writes it back, returning its fresh handle. A failing
/// phase writes a failure record with its reason instead — this path
/// never fails outward.
pub fn execute_contract<State, Event, C, B>(
    host: &mut B,
    contract: &C,
    state_ptr: usize,
    init_state_ptr: usize,
    event_ptr: usize,
    is_owner: i32,
) -> (result_ptr: usize) where
    State: ValueForm,
    Event: ValueForm,
    C: ContractHandler<State, Event>,
    B: HostBoundary,

    requires
        old(host).regions().contains_key(state_ptr),
        old(host).regions().contains_key(init_state_ptr),
        old(host).regions().contains_key(event_ptr),
    ensures
        !old(host).regions().contains_key(result_ptr),
        final(host).regions().contains_key(result_ptr),
        final(host).regions()[result_ptr] == result_record_bytes(
            spec_execute_outcome::<State, Event, C>(
                *contract,
                old(host).regions()[state_ptr],
                old(host).regions()[init_state_ptr],
                old(host).regions()[event_ptr],
                is_owner,
            ),
        ),
        forall|h: usize|
            #![trigger old(host).regions().contains_key(h)]
            h != result_ptr && old(host).regions().contains_key(h)
                ==> final(host).regions().contains_key(h)
                && final(host).regions()[h] == old(host).regions()[h],
{
    let state_bytes = read_region(host, state_ptr);
    let init_bytes = read_region(host, init_state_ptr);
    let event_bytes = read_region(host, event_ptr);
    let out = execute_contract_bytes::<State, Event, C>(
        contract,
        &state_bytes,
        &init_bytes,
        &event_bytes,
        is_owner,
    );
    write_region(host, &out)
}

/// The compute core of [`execute_contract`]: the whole pipeline from raw
/// region bytes to the encoded result record, for hosts that do their own
/// marshalling.
pub fn execute_contract_bytes<State, Event, C>(
    contract: &C,
    state_bytes: &Vec<u8>,
    init_bytes: &Vec<u8>,
    event_bytes: &Vec<u8>,
    is_owner: i32,
) -> (out: Vec<u8>) where
    State: ValueForm,
    Event: ValueForm,
    C: ContractHandler<State, Event>,

    ensures
        out@ == result_record_bytes(
            spec_execute_outcome::<State, Event, C>(
                *contract,
                state_bytes@,
                init_bytes@,
                event_bytes@,
                is_owner,
            ),
        ),
{
    let rec = run_execute_record::<State, Event, C>(
        contract,
        state_bytes,
        init_bytes,
        event_bytes,
        is_owner,
    );
    encode_result_record(&rec)
}

/// The compute core of [`check_init_data`]: from raw state bytes to the
/// encoded init check record.
pub fn check_init_data_bytes<State, Event, C>(contract: &C, state_bytes: &Vec<u8>) -> (out: Vec<
    u8,
>) where State: ValueForm, Event: ValueForm, C: ContractHandler<State, Event>
    ensures
        out@ == init_record_bytes(
            spec_init_outcome::<State, Event, C>(*contract, state_bytes@),
        ),
{
    let rec = run_init_record::<State, Event, C>(contract, state_bytes);
    encode_init_record(&rec)
}

/// Fallback: when the committed state bytes decode but fail typed
/// conversion, while the init state decodes and converts, the invocation
/// runs the callback on the init state, with the owner flag derived from
/// the raw flag — any nonzero flag means owner.
pub proof fn lemma_execute_fallback<State, Event, C>(
    c: C,
    state_bytes: Seq<u8>,
    init_bytes: Seq<u8>,
    event_bytes: Seq<u8>,
    owner_flag: i32,
    st: State,
    event: Event,
) where State: ValueForm, Event: ValueForm, C: ContractHandler<State, Event>
    requires
        spec_decoded(state_bytes) is Ok,
        State::spec_from_value(spec_decoded(state_bytes)->Ok_0) is None,
        spec_decoded(init_bytes) is Ok,
        State::spec_from_value(spec_decoded(init_bytes)->Ok_0) == Some(st),
        spec_decoded(event_bytes) is Ok,
        Event::spec_from_value(spec_decoded(event_bytes)->Ok_0) == Some(event),
    ensures
        spec_execute_outcome::<State, Event, C>(
            c,
            state_bytes,
            init_bytes,
            event_bytes,
            owner_flag,
        ) == spec_callback_outcome(c, st, event, owner_flag),
        (Context { initial_state: st, event: event, is_owner: owner_flag != 0 }).is_owner
            <==> owner_flag != 0,
{
}

/// A domain-level verdict surfaces verbatim: whatever the callback leaves
/// in the result record — success flag, final state, message — reaches the
/// wire record, with the message wrapped in the fixed execute-path prefix
/// even when the callback reports success.
pub proof fn lemma_domain_verdict_surfaces<State, Event, C>(
    c: C,
    st: State,
    event: Event,
    owner_flag: i32,
) where State: ValueForm, Event: ValueForm, C: ContractHandler<State, Event>
    requires
        ({
            let res = c.spec_execute(
                Context { initial_state: st, event: event, is_owner: owner_flag != 0 },
                ContractResultView { final_state: st, success: false, error: Seq::<char>::empty() },
            );
            res.final_state.spec_to_value().wf() && encode_utf8(
                "Error running contract event: "@ + res.error,
            ).len() <= u32::MAX
        }),
    ensures
        ({
            let res = c.spec_execute(
                Context { initial_state: st, event: event, is_owner: owner_flag != 0 },
                ContractResultView { final_state: st, success: false, error: Seq::<char>::empty() },
            );
            spec_callback_outcome(c, st, event, owner_flag) == (ResultRecordView {
                final_state: res.final_state.spec_to_value(),
                success: res.success,
                error: "Error running contract event: "@ + res.error,
            })
        }),
{
}

} // verus!
