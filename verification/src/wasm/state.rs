//! The state of a function translation.

use crate::ir::entities::{Ebb, Value};
use crate::ir::function::{ArgumentPurpose, ArgumentType, Signature};
use vstd::prelude::*;

verus! {

/// A control block of the WebAssembly code that has been entered and not yet left.
#[derive(Clone, Copy, Debug, PartialEq, Eq, Structural)]
pub struct ControlFrame {
    /// The block in which the code after the control block goes on.
    pub destination: Ebb,
    /// The number of values that the control block leaves on the stack.
    pub num_return_values: usize,
    /// The height of the value stack when the control block was entered.
    pub original_stack_size: usize,
}

/// What a translation state holds.
#[verifier::ext_equal]
pub struct StateView {
    /// The values on the WebAssembly stack.
    pub stack: Seq<Value>,
    /// The control blocks that are open, the outermost first.
    pub control_stack: Seq<ControlFrame>,
}

/// The number of normal arguments or return values, which are those that the WebAssembly code
/// knows of.
pub open spec fn normal_count(args: Seq<ArgumentType>) -> nat
    decreases args.len(),
{
    if args.len() == 0 {
        0
    } else {
        normal_count(args.drop_last()) + if args.last().purpose == ArgumentPurpose::Normal {
            1nat
        } else {
            0nat
        }
    }
}

impl StateView {
    /// The state at the start of a function: nothing is on the stack, and one control block, which
    /// stands for the whole function, is open.
    pub open spec fn initial(return_types: Seq<ArgumentType>, exit_block: Ebb) -> StateView {
        StateView {
            stack: Seq::empty(),
            control_stack: seq![
                ControlFrame {
                    destination: exit_block,
                    num_return_values: normal_count(return_types) as usize,
                    original_stack_size: 0,
                },
            ],
        }
    }
}

/// The state of a function translation: the values and the control blocks of the WebAssembly code
/// at the place that has been reached.
#[derive(Debug)]
pub struct TranslationState {
    /// The values on the WebAssembly stack.
    pub stack: Vec<Value>,
    /// The control blocks that are open, the outermost first.
    pub control_stack: Vec<ControlFrame>,
}

impl View for TranslationState {
    type V = StateView;

    open spec fn view(&self) -> StateView {
        StateView { stack: self.stack@, control_stack: self.control_stack@ }
    }
}

impl TranslationState {
    /// Create a state without any value or control block.
    pub fn new() -> (state: TranslationState)
        ensures
            state@ == (StateView { stack: Seq::empty(), control_stack: Seq::empty() }),
    {
        TranslationState { stack: Vec::new(), control_stack: Vec::new() }
    }

    /// Initialize the state for compiling a function with the given signature.
    ///
    /// This resets the state to contain only a single block representing the whole function. The
    /// exit block is the last block in the function which will contain the return instruction.
    pub fn initialize(&mut self, signature: &Signature, exit_block: Ebb)
        ensures
            final(self)@ == StateView::initial(signature.return_types@, exit_block),
    {
        let mut num_return_values: usize = 0;
        let mut i: usize = 0;
        while i < signature.return_types.len()
            invariant
                i <= signature.return_types.len(),
                num_return_values == normal_count(signature.return_types@.take(i as int)),
                num_return_values <= i,
            decreases signature.return_types.len() - i,
        {
            assert(signature.return_types@.take(i + 1).drop_last()
                =~= signature.return_types@.take(i as int));
            if signature.return_types[i].purpose == ArgumentPurpose::Normal {
                num_return_values += 1;
            }
            i += 1;
        }
        assert(signature.return_types@.take(i as int) =~= signature.return_types@);
        self.stack.clear();
        self.control_stack.clear();
        self.control_stack.push(
            ControlFrame { destination: exit_block, num_return_values, original_stack_size: 0 },
        );
    }
}

/// The normal arguments or return values are those whose purpose is normal, and no others.
pub proof fn law_normal_are_counted(args: Seq<ArgumentType>)
    ensures
        normal_count(args) == args.filter(
            |arg: ArgumentType| arg.purpose == ArgumentPurpose::Normal,
        ).len(),
{
    let normal = |arg: ArgumentType| arg.purpose == ArgumentPurpose::Normal;
    lemma_normal_count(args, normal);
}

/// Counting the normal arguments is counting those that satisfy a predicate.
pub(crate) proof fn lemma_normal_count(
    args: Seq<ArgumentType>,
    normal: spec_fn(ArgumentType) -> bool,
)
    requires
        forall|arg: ArgumentType| #[trigger]
            normal(arg) <==> arg.purpose == ArgumentPurpose::Normal,
    ensures
        normal_count(args) == args.filter(normal).len(),
        normal_count(args) <= args.len(),
    decreases args.len(),
{
    reveal(Seq::filter);
    if args.len() > 0 {
        lemma_normal_count(args.drop_last(), normal);
    }
}

/// At the start of a function nothing is on the stack, and one control block is open: code after it
/// goes on in the exit block, it leaves a value for each normal return value of the function, and
/// it was entered with nothing on the stack.
pub proof fn law_initial_state(return_types: Seq<ArgumentType>, exit_block: Ebb)
    requires
        return_types.len() <= usize::MAX,
    ensures
        ({
            let state = StateView::initial(return_types, exit_block);
            &&& state.stack.len() == 0
            &&& state.control_stack.len() == 1
            &&& state.control_stack[0].destination == exit_block
            &&& state.control_stack[0].num_return_values == return_types.filter(
                |arg: ArgumentType| arg.purpose == ArgumentPurpose::Normal,
            ).len()
            &&& state.control_stack[0].original_stack_size == 0
        }),
{
    let normal = |arg: ArgumentType| arg.purpose == ArgumentPurpose::Normal;
    lemma_normal_count(return_types, normal);
}

/// What a translation state is seen to hold is what it holds.
pub proof fn law_state_view_is_faithful(state: TranslationState)
    ensures
        state@.stack == state.stack@,
        state@.control_stack == state.control_stack@,
{
}

} // verus!
