//! The body of a function under construction.
//!
//! A `FunctionBuilder` keeps what it is asked for as a list of steps, in the order in which they
//! are to be taken to build the body.

use crate::ir::entities::{Ebb, Local, Value};
use crate::ir::function::ArgumentType;
use crate::ir::types::{LaneType, Type};
use vstd::prelude::*;

verus! {

/// One step in building a function body.
#[derive(Debug, PartialEq, Eq)]
pub enum Step {
    /// Create a block.
    CreateEbb(Ebb),
    /// Make a block the one that instructions are added to.
    SwitchToBlock(Ebb),
    /// Declare that all the predecessors of a block are known.
    SealBlock(Ebb),
    /// Make sure that the current block is part of the layout.
    EnsureInsertedEbb,
    /// Declare the type of a variable.
    DeclareVar(Local, Type),
    /// Give a variable a value.
    DefVar(Local, Value),
    /// Make an integer constant of a type.
    Iconst(Type, i64),
    /// Make a binary32 constant, given by its bits.
    F32const(u32),
    /// Make a binary64 constant, given by its bits.
    F64const(u64),
    /// Return from the function.
    Return(Vec<Value>),
    /// Add any other instruction, given by its number, its arguments and the blocks it refers to.
    Inst(u32, Vec<Value>, Vec<Ebb>),
}

/// One step in building a function body, as a mathematical value.
#[verifier::ext_equal]
pub enum StepView {
    CreateEbb(Ebb),
    SwitchToBlock(Ebb),
    SealBlock(Ebb),
    EnsureInsertedEbb,
    DeclareVar(Local, Type),
    DefVar(Local, Value),
    Iconst(Type, i64),
    F32const(u32),
    F64const(u64),
    Return(Seq<Value>),
    Inst(u32, Seq<Value>, Seq<Ebb>),
}

impl View for Step {
    type V = StepView;

    open spec fn view(&self) -> StepView {
        match *self {
            Step::CreateEbb(ebb) => StepView::CreateEbb(ebb),
            Step::SwitchToBlock(ebb) => StepView::SwitchToBlock(ebb),
            Step::SealBlock(ebb) => StepView::SealBlock(ebb),
            Step::EnsureInsertedEbb => StepView::EnsureInsertedEbb,
            Step::DeclareVar(var, ty) => StepView::DeclareVar(var, ty),
            Step::DefVar(var, val) => StepView::DefVar(var, val),
            Step::Iconst(ty, imm) => StepView::Iconst(ty, imm),
            Step::F32const(bits) => StepView::F32const(bits),
            Step::F64const(bits) => StepView::F64const(bits),
            Step::Return(args) => StepView::Return(args@),
            Step::Inst(opcode, args, ebbs) => StepView::Inst(opcode, args@, ebbs@),
        }
    }
}

/// What a function builder holds.
#[verifier::ext_equal]
pub struct BuilderView {
    /// The steps, in order.
    pub steps: Seq<StepView>,
    /// The type of each value, by number.
    pub values: Seq<Type>,
    /// The number of blocks.
    pub num_ebbs: nat,
    /// Whether the current block is known to be unreachable.
    pub unreachable: bool,
}

impl BuilderView {
    /// The builder of a body in which there is nothing yet.
    pub open spec fn empty() -> BuilderView {
        BuilderView { steps: Seq::empty(), values: Seq::empty(), num_ebbs: 0, unreachable: false }
    }

    /// The builder after one more step.
    pub open spec fn with_step(self, step: StepView) -> BuilderView {
        BuilderView { steps: self.steps.push(step), ..self }
    }

    /// The builder after more steps.
    pub open spec fn followed_by(self, steps: Seq<StepView>) -> BuilderView {
        BuilderView { steps: self.steps + steps, ..self }
    }

    /// The builder after one more step, which makes a value of type `ty`.
    pub open spec fn making(self, step: StepView, ty: Type) -> BuilderView {
        BuilderView { steps: self.steps.push(step), values: self.values.push(ty), ..self }
    }

    /// The builder after the creation of a block.
    pub open spec fn with_ebb(self) -> BuilderView {
        BuilderView {
            steps: self.steps.push(StepView::CreateEbb(Ebb(self.num_ebbs as u32))),
            num_ebbs: self.num_ebbs + 1,
            ..self
        }
    }

    /// The builder after a switch to a block with a value for each of the function's arguments.
    pub open spec fn in_entry_block(self, ebb: Ebb, args: Seq<ArgumentType>) -> BuilderView {
        BuilderView {
            steps: self.steps.push(StepView::SwitchToBlock(ebb)),
            values: self.values + args.map_values(|arg: ArgumentType| arg.value_type),
            unreachable: false,
            ..self
        }
    }

    /// Whether another value can be numbered.
    pub open spec fn has_room(self) -> bool {
        self.values.len() < u32::MAX
    }
}

/// Whether the steps add no instruction to the block that they switched to last.
pub open spec fn is_pristine(steps: Seq<StepView>) -> bool
    decreases steps.len(),
{
    steps.len() == 0 || match steps.last() {
        StepView::SwitchToBlock(_) => true,
        StepView::Iconst(_, _)
        | StepView::F32const(_)
        | StepView::F64const(_)
        | StepView::Return(_)
        | StepView::Inst(_, _, _) => false,
        _ => is_pristine(steps.drop_last()),
    }
}

/// The views of a list of steps.
pub open spec fn step_views(steps: Seq<Step>) -> Seq<StepView> {
    steps.map_values(|step: Step| step@)
}

/// Build a function body.
#[derive(Debug)]
pub struct FunctionBuilder {
    /// The steps to take, in order.
    pub steps: Vec<Step>,
    /// The type of each value, by number. The arguments of the function come first.
    pub values: Vec<Type>,
    /// The number of blocks.
    pub num_ebbs: u32,
    /// Whether the current block is known to be unreachable: it is sealed, and nothing jumps to
    /// it. Whoever adds jumps keeps this up to date.
    pub unreachable: bool,
}

impl View for FunctionBuilder {
    type V = BuilderView;

    open spec fn view(&self) -> BuilderView {
        BuilderView {
            steps: step_views(self.steps@),
            values: self.values@,
            num_ebbs: self.num_ebbs as nat,
            unreachable: self.unreachable,
        }
    }
}

impl FunctionBuilder {
    /// Create a builder for an empty body.
    pub fn new() -> (builder: FunctionBuilder)
        ensures
            builder@ == BuilderView::empty(),
    {
        FunctionBuilder { steps: Vec::new(), values: Vec::new(), num_ebbs: 0, unreachable: false }
    }

    /// Add a step that makes no value.
    fn push_step(&mut self, step: Step)
        ensures
            final(self)@ == old(self)@.with_step(step@),
    {
        self.steps.push(step);
        assert(step_views(self.steps@) =~= step_views(old(self).steps@).push(step@));
    }

    /// Add a step that makes a value of type `ty`.
    fn push_value(&mut self, step: Step, ty: Type) -> (val: Value)
        requires
            old(self)@.has_room(),
        ensures
            final(self)@ == old(self)@.making(step@, ty),
            val == Value(old(self)@.values.len() as u32),
    {
        let val = Value(self.values.len() as u32);
        self.push_step(step);
        self.values.push(ty);
        val
    }

    /// Create a block.
    pub fn create_ebb(&mut self) -> (ebb: Ebb)
        requires
            old(self)@.num_ebbs < u32::MAX,
        ensures
            final(self)@ == old(self)@.with_ebb(),
            ebb == Ebb(old(self)@.num_ebbs as u32),
    {
        let ebb = Ebb(self.num_ebbs);
        self.push_step(Step::CreateEbb(ebb));
        self.num_ebbs = self.num_ebbs + 1;
        ebb
    }

    /// Start adding instructions to the entry block, which gets a value for each of the arguments
    /// of the function.
    pub fn switch_to_entry_block(&mut self, ebb: Ebb, args: &Vec<ArgumentType>)
        ensures
            final(self)@ == old(self)@.in_entry_block(ebb, args@),
    {
        let ghost before = self@;
        self.push_step(Step::SwitchToBlock(ebb));
        self.unreachable = false;
        let mut i: usize = 0;
        while i < args.len()
            invariant
                i <= args.len(),
                self@ == before.in_entry_block(ebb, args@.take(i as int)),
            decreases args.len() - i,
        {
            self.values.push(args[i].value_type);
            i += 1;
            assert(self@.values =~= before.in_entry_block(ebb, args@.take(i as int)).values);
        }
        assert(args@.take(i as int) =~= args@);
    }

    /// Declare that all the predecessors of a block are known.
    pub fn seal_block(&mut self, ebb: Ebb)
        ensures
            final(self)@ == old(self)@.with_step(StepView::SealBlock(ebb)),
    {
        self.push_step(Step::SealBlock(ebb));
    }

    /// Make sure that the current block is part of the layout.
    pub fn ensure_inserted_ebb(&mut self)
        ensures
            final(self)@ == old(self)@.with_step(StepView::EnsureInsertedEbb),
    {
        self.push_step(Step::EnsureInsertedEbb);
    }

    /// Declare the type of a variable.
    pub fn declare_var(&mut self, var: Local, ty: Type)
        ensures
            final(self)@ == old(self)@.with_step(StepView::DeclareVar(var, ty)),
    {
        self.push_step(Step::DeclareVar(var, ty));
    }

    /// Give a variable a value.
    pub fn def_var(&mut self, var: Local, val: Value)
        ensures
            final(self)@ == old(self)@.with_step(StepView::DefVar(var, val)),
    {
        self.push_step(Step::DefVar(var, val));
    }

    /// Get the value of an argument of the function.
    pub fn arg_value(&self, i: usize) -> (val: Value)
        requires
            i < self@.values.len(),
            i < u32::MAX,
        ensures
            val == Value(i as u32),
    {
        Value(i as u32)
    }

    /// Get the type of a value.
    pub fn value_type(&self, val: Value) -> (ty: Type)
        requires
            val.0 < self@.values.len(),
        ensures
            ty == self@.values[val.0 as int],
    {
        self.values[val.0 as usize]
    }

    /// Make an integer constant.
    pub fn iconst(&mut self, ty: Type, imm: i64) -> (val: Value)
        requires
            old(self)@.has_room(),
        ensures
            final(self)@ == old(self)@.making(StepView::Iconst(ty, imm), ty),
            val == Value(old(self)@.values.len() as u32),
    {
        self.push_value(Step::Iconst(ty, imm), ty)
    }

    /// Make a binary32 constant.
    pub fn f32const(&mut self, bits: u32) -> (val: Value)
        requires
            old(self)@.has_room(),
        ensures
            final(self)@ == old(self)@.making(
                StepView::F32const(bits),
                Type::of_lane(LaneType::F32),
            ),
            val == Value(old(self)@.values.len() as u32),
    {
        self.push_value(Step::F32const(bits), Type::scalar(LaneType::F32))
    }

    /// Make a binary64 constant.
    pub fn f64const(&mut self, bits: u64) -> (val: Value)
        requires
            old(self)@.has_room(),
        ensures
            final(self)@ == old(self)@.making(
                StepView::F64const(bits),
                Type::of_lane(LaneType::F64),
            ),
            val == Value(old(self)@.values.len() as u32),
    {
        self.push_value(Step::F64const(bits), Type::scalar(LaneType::F64))
    }

    /// Return from the function.
    pub fn return_(&mut self, args: &Vec<Value>)
        ensures
            final(self)@ == old(self)@.with_step(StepView::Return(args@)),
    {
        let copy: Vec<Value> = args.clone();
        assert(copy@ =~= args@);
        self.push_step(Step::Return(copy));
    }

    /// Check if the current block is known to be unreachable.
    pub fn is_unreachable(&self) -> (unreachable: bool)
        ensures
            unreachable == self@.unreachable,
    {
        self.unreachable
    }
}

/// A step is seen as what it is, with all that it holds.
pub proof fn law_step_view_is_faithful(step: Step)
    ensures
        match step {
            Step::CreateEbb(ebb) => step@ == StepView::CreateEbb(ebb),
            Step::SwitchToBlock(ebb) => step@ == StepView::SwitchToBlock(ebb),
            Step::SealBlock(ebb) => step@ == StepView::SealBlock(ebb),
            Step::EnsureInsertedEbb => step@ == StepView::EnsureInsertedEbb,
            Step::DeclareVar(var, ty) => step@ == StepView::DeclareVar(var, ty),
            Step::DefVar(var, val) => step@ == StepView::DefVar(var, val),
            Step::Iconst(ty, imm) => step@ == StepView::Iconst(ty, imm),
            Step::F32const(bits) => step@ == StepView::F32const(bits),
            Step::F64const(bits) => step@ == StepView::F64const(bits),
            Step::Return(args) => step@ == StepView::Return(args@),
            Step::Inst(opcode, args, ebbs) => step@ == StepView::Inst(opcode, args@, ebbs@),
        },
{
}

/// What a builder is seen to hold is what it holds, step by step.
pub proof fn law_builder_view_is_faithful(builder: FunctionBuilder)
    ensures
        builder@.steps.len() == builder.steps@.len(),
        forall|i: int|
            0 <= i < builder.steps@.len() ==> #[trigger] builder@.steps[i] == builder.steps@[i]@,
        builder@.values == builder.values@,
        builder@.num_ebbs == builder.num_ebbs,
        builder@.unreachable == builder.unreachable,
{
}

/// A new body has no steps, values and blocks, and is not unreachable.
pub proof fn law_empty_body()
    ensures
        BuilderView::empty().steps.len() == 0,
        BuilderView::empty().values.len() == 0,
        BuilderView::empty().num_ebbs == 0,
        !BuilderView::empty().unreachable,
{
}

/// A step that makes no value comes after all the others, and nothing else changes.
pub proof fn law_step_comes_last(builder: BuilderView, step: StepView)
    ensures
        ({
            let next = builder.with_step(step);
            &&& next.steps.len() == builder.steps.len() + 1
            &&& next.steps.last() == step
            &&& next.steps.drop_last() == builder.steps
            &&& next.values == builder.values
            &&& next.num_ebbs == builder.num_ebbs
            &&& next.unreachable == builder.unreachable
        }),
{
    assert(builder.with_step(step).steps.drop_last() =~= builder.steps);
}

/// Several steps come after all the others, in order, and nothing else changes.
pub proof fn law_steps_come_last(builder: BuilderView, steps: Seq<StepView>)
    ensures
        ({
            let next = builder.followed_by(steps);
            &&& next.steps.len() == builder.steps.len() + steps.len()
            &&& next.steps.take(builder.steps.len() as int) == builder.steps
            &&& next.steps.skip(builder.steps.len() as int) == steps
            &&& next.values == builder.values
            &&& next.num_ebbs == builder.num_ebbs
            &&& next.unreachable == builder.unreachable
        }),
{
    let next = builder.followed_by(steps);
    assert(next.steps.take(builder.steps.len() as int) =~= builder.steps);
    assert(next.steps.skip(builder.steps.len() as int) =~= steps);
}

/// A step that makes a value comes after all the other steps, the value gets the next number and
/// has the type that was given, and nothing else changes.
pub proof fn law_value_comes_last(builder: BuilderView, step: StepView, ty: Type)
    ensures
        ({
            let next = builder.making(step, ty);
            &&& next.steps.len() == builder.steps.len() + 1
            &&& next.steps.last() == step
            &&& next.steps.drop_last() == builder.steps
            &&& next.values.len() == builder.values.len() + 1
            &&& next.values.last() == ty
            &&& next.values.drop_last() == builder.values
            &&& next.num_ebbs == builder.num_ebbs
            &&& next.unreachable == builder.unreachable
        }),
        builder.has_room() <==> builder.values.len() < u32::MAX,
{
    assert(builder.making(step, ty).steps.drop_last() =~= builder.steps);
    assert(builder.making(step, ty).values.drop_last() =~= builder.values);
}

/// A new block gets the number after those of the others.
pub proof fn law_ebb_comes_last(builder: BuilderView)
    requires
        builder.num_ebbs < u32::MAX,
    ensures
        ({
            let next = builder.with_ebb();
            &&& next.steps.len() == builder.steps.len() + 1
            &&& next.steps.drop_last() == builder.steps
            &&& next.steps.last() == StepView::CreateEbb(Ebb(builder.num_ebbs as u32))
            &&& next.num_ebbs == builder.num_ebbs + 1
            &&& next.values == builder.values
            &&& next.unreachable == builder.unreachable
        }),
{
    assert(builder.with_ebb().steps.drop_last() =~= builder.steps);
}

/// The entry block is switched to and is reachable, and each argument of the function gets a value
/// of its type there, special-purpose ones included.
pub proof fn law_arguments_have_values(builder: BuilderView, ebb: Ebb, args: Seq<ArgumentType>)
    ensures
        ({
            let next = builder.in_entry_block(ebb, args);
            &&& next.steps.len() == builder.steps.len() + 1
            &&& next.steps.drop_last() == builder.steps
            &&& next.steps.last() == StepView::SwitchToBlock(ebb)
            &&& next.values.len() == builder.values.len() + args.len()
            &&& next.values.take(builder.values.len() as int) == builder.values
            &&& forall|p: int|
                0 <= p < args.len() ==> next.values[builder.values.len() + p] == (
                #[trigger] args[p]).value_type
            &&& next.num_ebbs == builder.num_ebbs
            &&& !next.unreachable
        }),
{
    let next = builder.in_entry_block(ebb, args);
    assert(next.steps.drop_last() =~= builder.steps);
    assert(next.values.take(builder.values.len() as int) =~= builder.values);
}

/// A block is without instructions exactly if each instruction that there is comes before a switch
/// to a block.
pub proof fn law_pristine_block(steps: Seq<StepView>)
    ensures
        is_pristine(steps) <==> forall|i: int|
            0 <= i < steps.len() && (#[trigger] steps[i] is Iconst || steps[i] is F32const
                || steps[i] is F64const || steps[i] is Return || steps[i] is Inst) ==> exists|j: int|
                i < j < steps.len() && #[trigger] steps[j] is SwitchToBlock,
    decreases steps.len(),
{
    if steps.len() > 0 {
        let n = steps.len() - 1;
        let less = steps.drop_last();
        law_pristine_block(less);
        let all = forall|i: int|
            0 <= i < steps.len() && (#[trigger] steps[i] is Iconst || steps[i] is F32const
                || steps[i] is F64const || steps[i] is Return || steps[i] is Inst) ==> exists|j: int|
                i < j < steps.len() && #[trigger] steps[j] is SwitchToBlock;
        if steps[n] is SwitchToBlock {
            assert(all);
        } else if steps[n] is Iconst || steps[n] is F32const || steps[n] is F64const || steps[n]
            is Return || steps[n] is Inst {
            assert(!all);
        } else {
            if is_pristine(less) {
                assert forall|i: int|
                    0 <= i < steps.len() && (#[trigger] steps[i] is Iconst || steps[i] is F32const
                        || steps[i] is F64const || steps[i] is Return || steps[i]
                        is Inst) implies exists|j: int|
                    i < j < steps.len() && #[trigger] steps[j] is SwitchToBlock by {
                    assert(less[i] == steps[i]);
                    let j = choose|j: int|
                        i < j < less.len() && #[trigger] less[j] is SwitchToBlock;
                    assert(steps[j] is SwitchToBlock);
                }
            }
            if all {
                assert forall|i: int|
                    0 <= i < less.len() && (#[trigger] less[i] is Iconst || less[i] is F32const
                        || less[i] is F64const || less[i] is Return || less[i]
                        is Inst) implies exists|j: int|
                    i < j < less.len() && #[trigger] less[j] is SwitchToBlock by {
                    assert(less[i] == steps[i]);
                    let j = choose|j: int|
                        i < j < steps.len() && #[trigger] steps[j] is SwitchToBlock;
                    assert(less[j] is SwitchToBlock);
                }
            }
        }
    }
}

} // verus!
