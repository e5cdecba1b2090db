//! A second sample contract holding one text field: the smallest domain
//! logic that exercises string state.

use vstd::prelude::*;

use crate::invoker::{
    ContractHandler, ContractInitCheck, ContractInitCheckView, ContractResult, ContractResultView,
    Context,
};

verus! {

/// State of the text contract.
#[derive(Debug, Clone)]
pub struct State {
    pub data: String,
}

/// Events the text contract accepts.
#[derive(Debug, Clone)]
pub enum StateEvent {
    ChangeData { data: String },
}

/// The text contract: accepts any init state; each event replaces the
/// text with the one it carries.
pub struct TextContract;

impl ContractHandler<State, StateEvent> for TextContract {
    open spec fn spec_init(
        &self,
        state: State,
        seeded: ContractInitCheckView,
    ) -> ContractInitCheckView {
        ContractInitCheckView { success: true, error: seeded.error }
    }

    open spec fn spec_execute(
        &self,
        context: Context<State, StateEvent>,
        seeded: ContractResultView<State>,
    ) -> ContractResultView<State> {
        match context.event {
            StateEvent::ChangeData { data } => ContractResultView {
                final_state: State { data: data },
                success: true,
                error: seeded.error,
            },
        }
    }

    fn init(&self, _state: &State, result: &mut ContractInitCheck) {
        result.success = true;
    }

    fn execute(&self, context: &Context<State, StateEvent>, result: &mut ContractResult<State>) {
        match &context.event {
            StateEvent::ChangeData { data } => {
                result.final_state.data = data.clone();
            },
        }
        result.success = true;
    }
}

} // verus!
