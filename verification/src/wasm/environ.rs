//! The environment of a function translation.

use crate::frontend::{BuilderView, FunctionBuilder};
use crate::ir::function::Signature;
use crate::wasm::state::{StateView, TranslationState};
use vstd::prelude::*;

verus! {

/// What a function translation needs from the WebAssembly module and the runtime environment: the
/// translation of each operator.
pub trait FuncEnvironment: Sized {
    /// Whether the environment may turn `before` into `after`, and the body and the state with it,
    /// when it translates `op`. An implementation may say here what it does; by default it says
    /// nothing. `FuncTranslator::translate` is for an environment that says enough to tell where
    /// a function ends, and `FuncTranslator::translate_prefix` for any.
    open spec fn translated(
        signature: Signature,
        op: wasmparser::Operator<'static>,
        before: Self,
        builder_before: BuilderView,
        state_before: StateView,
        after: Self,
        builder_after: BuilderView,
        state_after: StateView,
    ) -> bool {
        true
    }

    /// Translate one operator of a function with the given signature.
    ///
    /// Add what the operator needs to `builder`, and keep `state` at the place after the operator.
    /// The `End` operator of the outermost control block leaves `state` without control blocks,
    /// and `builder` in the exit block of the function, without instructions in it.
    fn translate_operator(
        &mut self,
        signature: &Signature,
        op: &wasmparser::Operator,
        builder: &mut FunctionBuilder,
        state: &mut TranslationState,
    )
        ensures
            Self::translated(
                *signature,
                *op,
                *old(self),
                old(builder)@,
                old(state)@,
                *final(self),
                final(builder)@,
                final(state)@,
            ),
    ;
}

} // verus!
