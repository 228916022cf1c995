//! Functions and their signatures.

use crate::frontend::{BuilderView, FunctionBuilder};
use crate::ir::frame::StackFrame;
use crate::ir::stackslot::StackSlots;
use crate::ir::types::Type;
use vstd::prelude::*;

verus! {

/// What an argument is for.
#[derive(Clone, Copy, Debug, PartialEq, Eq, Structural)]
pub enum ArgumentPurpose {
    /// A normal user program value passed to or from a function.
    Normal,
    /// A struct return pointer.
    StructReturn,
    /// The link register.
    Link,
    /// The frame pointer.
    FramePointer,
    /// A callee-saved register.
    CalleeSaved,
    /// A VM context pointer.
    VMContext,
}

/// One argument or return value of a function.
#[derive(Clone, Copy, Debug, PartialEq, Eq, Structural)]
pub struct ArgumentType {
    /// Type of the argument value.
    pub value_type: Type,
    /// What the argument is for.
    pub purpose: ArgumentPurpose,
}

impl ArgumentType {
    /// Create a normal argument type.
    pub fn new(value_type: Type) -> (arg: ArgumentType)
        ensures
            arg == (ArgumentType { value_type, purpose: ArgumentPurpose::Normal }),
    {
        ArgumentType { value_type, purpose: ArgumentPurpose::Normal }
    }
}

/// A function signature: what is passed to and from a function.
#[derive(Debug)]
pub struct Signature {
    /// The arguments.
    pub argument_types: Vec<ArgumentType>,
    /// The return values.
    pub return_types: Vec<ArgumentType>,
}

/// A function.
#[derive(Debug)]
pub struct Function {
    /// Name of this function.
    pub name: String,
    /// Signature of this function.
    pub signature: Signature,
    /// Stack slots allocated in this function.
    pub stack_slots: StackSlots,
    /// What has been built of the body of this function.
    pub body: FunctionBuilder,
}

impl Function {
    /// Create a function without name, arguments, return values, stack slots and body.
    pub fn new() -> (func: Function)
        ensures
            func.name@ == Seq::<char>::empty(),
            func.signature.argument_types@ == Seq::<ArgumentType>::empty(),
            func.signature.return_types@ == Seq::<ArgumentType>::empty(),
            func.stack_slots@ == StackFrame::empty(),
            func.stack_slots@.well_formed(),
            func.stack_slots@.is_ordered(),
            func.body@ == BuilderView::empty(),
    {
        Function {
            name: String::new(),
            signature: Signature { argument_types: Vec::new(), return_types: Vec::new() },
            stack_slots: StackSlots::new(),
            body: FunctionBuilder::new(),
        }
    }
}

} // verus!
