//! Execution shim for author-supplied contract logic running behind a hard
//! memory-isolation boundary: a binary codec for a dynamically typed value
//! tree, byte-granular marshalling over opaque region handles, and an
//! invocation pipeline that decodes, converts, runs the contract callback
//! exactly once, and always writes a structurally valid result record back.

pub mod bridge;
pub mod codec;
pub mod error;
pub mod invoker;
pub mod sample_counters;
pub mod sample_text;
pub mod value;

pub use invoker::{
    check_init_data, execute_contract, Context, ContractHandler, ContractInitCheck,
    ContractResult, ValueForm,
};
pub use value::ValueWrapper;
