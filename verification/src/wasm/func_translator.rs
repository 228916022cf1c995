//! Stand-alone WebAssembly function translator.
//!
//! This module defines the `FuncTranslator` type which can translate a single WebAssembly function
//! guided by a `FuncEnvironment` which provides information about the WebAssembly module and the
//! runtime environment.

use crate::frontend::{is_pristine, BuilderView, FunctionBuilder, StepView};
use crate::ir::entities::{Ebb, Local, Value};
use crate::ir::function::{ArgumentPurpose, ArgumentType, Function, Signature};
use crate::ir::types::{LaneType, Type};
use crate::result::{CtonError, CtonResult};
use crate::wasm::environ::FuncEnvironment;
use crate::wasm::reader::{
    local_count_at, local_decl_at, operator_at, BinaryReader, WasmType, MAX_DECLARED_LOCALS,
};
use crate::wasm::state::{normal_count, StateView, TranslationState};
use vstd::prelude::*;

verus! {

/// Maximum number of local variables permitted in a function. The translation fails with a
/// `CtonError::ImplLimitExceeded` error if the limit is exceeded.
pub const MAX_LOCALS: usize = 50_000;

/// The steps that make the normal arguments accessible as the first local variables: each is
/// declared with the type of its argument, and has the argument as its value.
pub open spec fn argument_steps(args: Seq<ArgumentType>) -> Seq<StepView>
    decreases args.len(),
{
    if args.len() == 0 {
        Seq::empty()
    } else if args.last().purpose == ArgumentPurpose::Normal {
        let local = Local(normal_count(args.drop_last()) as u32);
        argument_steps(args.drop_last()).push(
            StepView::DeclareVar(local, args.last().value_type),
        ).push(StepView::DefVar(local, Value((args.len() - 1) as u32)))
    } else {
        argument_steps(args.drop_last())
    }
}

/// Declare local variables for the signature arguments that correspond to WebAssembly locals.
///
/// Return the number of local variables declared.
pub fn declare_wasm_arguments(builder: &mut FunctionBuilder, signature: &Signature) -> (num_args:
    usize)
    requires
        // The entry block has a value for each argument.
        signature.argument_types@.len() <= old(builder)@.values.len(),
        signature.argument_types@.len() <= u32::MAX,
    ensures
        final(builder)@ == old(builder)@.followed_by(argument_steps(signature.argument_types@)),
        num_args == normal_count(signature.argument_types@),
{
    let ghost args = signature.argument_types@;
    let ghost before = builder@;
    let sig_len: usize = signature.argument_types.len();
    let mut next_local: usize = 0;
    let mut i: usize = 0;
    assert(builder@ =~= before.followed_by(argument_steps(args.take(0))));
    while i < sig_len
        invariant
            args == signature.argument_types@,
            i <= sig_len == args.len() <= u32::MAX,
            args.len() <= before.values.len(),
            builder@ == before.followed_by(argument_steps(args.take(i as int))),
            next_local == normal_count(args.take(i as int)) <= i,
        decreases sig_len - i,
    {
        let arg_type = signature.argument_types[i];
        assert(args.take(i + 1).drop_last() =~= args.take(i as int));
        // There may be additional special-purpose arguments following the normal WebAssembly
        // signature arguments. For example, a `vmctx` pointer.
        if arg_type.purpose == ArgumentPurpose::Normal {
            // This is a normal WebAssembly signature argument, so create a local for it.
            let local = Local(next_local as u32);
            builder.declare_var(local, arg_type.value_type);
            next_local += 1;

            let arg_value: Value = builder.arg_value(i);
            builder.def_var(local, arg_value);
        }
        i += 1;
        assert(builder@ =~= before.followed_by(argument_steps(args.take(i as int))));
    }
    assert(args.take(i as int) =~= args);
    next_local
}

/// What has become of the local variables.
#[verifier::ext_equal]
pub struct LocalsView {
    /// The body.
    pub builder: BuilderView,
    /// The number of local variables declared, which is the number of the next one.
    pub next_local: int,
    /// Whether they could be declared.
    pub result: CtonResult,
}

/// The lane type of a WebAssembly type that a local variable may have.
pub open spec fn local_lane(wasm_type: WasmType) -> Option<LaneType> {
    match wasm_type {
        WasmType::I32 => Some(LaneType::I32),
        WasmType::I64 => Some(LaneType::I64),
        WasmType::F32 => Some(LaneType::F32),
        WasmType::F64 => Some(LaneType::F64),
        _ => None,
    }
}

/// The step that makes the zero of a type that a local variable may have.
pub open spec fn zero_step(lane: LaneType) -> StepView {
    match lane {
        LaneType::F32 => StepView::F32const(0),
        LaneType::F64 => StepView::F64const(0),
        _ => StepView::Iconst(Type::of_lane(lane), 0),
    }
}

/// The steps that declare `count` local variables of one type from number `first` on, each of
/// which has the value `val`.
pub open spec fn local_steps(first: int, count: nat, ty: Type, val: Value) -> Seq<StepView> {
    Seq::new(
        2 * count,
        |i: int|
            if i % 2 == 0 {
                StepView::DeclareVar(Local((first + i / 2) as u32), ty)
            } else {
                StepView::DefVar(Local((first + i / 2) as u32), val)
            },
    )
}

/// How many of `count` local variables can be declared from number `first` on.
pub open spec fn permitted(first: int, count: int) -> int {
    if first + count <= MAX_LOCALS {
        count
    } else if first <= MAX_LOCALS {
        MAX_LOCALS - first
    } else {
        0
    }
}

/// The local variables after a declaration of `count` more of one type.
///
/// A zero of the type is made, then the variables are declared with the zero as their value, until
/// one is beyond the limit.
pub open spec fn with_locals(
    builder: BuilderView,
    next_local: int,
    count: int,
    wasm_type: WasmType,
) -> LocalsView {
    match local_lane(wasm_type) {
        None => LocalsView { builder, next_local, result: Err(CtonError::InvalidInput) },
        Some(lane) => {
            let ty = Type::of_lane(lane);
            let zero = Value(builder.values.len() as u32);
            let declared = permitted(next_local, count);
            LocalsView {
                builder: builder.making(zero_step(lane), ty).followed_by(
                    local_steps(next_local, declared as nat, ty, zero),
                ),
                next_local: next_local + declared,
                result: if declared == count {
                    Ok(())
                } else {
                    Err(CtonError::ImplLimitExceeded)
                },
            }
        },
    }
}

/// Declare `count` local variables of the same type, starting from `next_local`.
///
/// Fail if too many locals are declared in the function, or if the type is not valid for a local.
pub fn declare_locals(
    builder: &mut FunctionBuilder,
    count: u32,
    wasm_type: WasmType,
    next_local: &mut usize,
) -> (result: CtonResult)
    requires
        old(builder)@.has_room(),
    ensures
        (LocalsView { builder: final(builder)@, next_local: *final(next_local) as int, result })
            == with_locals(old(builder)@, *old(next_local) as int, count as int, wasm_type),
{
    let ghost first = *next_local as int;
    // All locals are initialized to 0.
    let zeroval: Value = match wasm_type {
        WasmType::I32 => builder.iconst(Type::scalar(LaneType::I32), 0),
        WasmType::I64 => builder.iconst(Type::scalar(LaneType::I64), 0),
        WasmType::F32 => builder.f32const(0),
        WasmType::F64 => builder.f64const(0),
        _ => return Err(CtonError::InvalidInput),
    };

    let ty: Type = builder.value_type(zeroval);
    let ghost start = builder@;
    let mut i: u32 = 0;
    assert(builder@ =~= start.followed_by(local_steps(first, 0, ty, zeroval)));
    while i < count
        invariant
            i <= count,
            *next_local == first + i,
            i == 0 || first + i <= MAX_LOCALS,
            builder@ == start.followed_by(local_steps(first, i as nat, ty, zeroval)),
            start == old(builder)@.making(zero_step(local_lane(wasm_type).unwrap()), ty),
            local_lane(wasm_type) is Some,
            ty == Type::of_lane(local_lane(wasm_type).unwrap()),
            zeroval == Value(old(builder)@.values.len() as u32),
            first == *old(next_local),
        decreases count - i,
    {
        // This implementation limit is arbitrary, but it ensures that a small function can't blow
        // up the compiler by declaring millions of locals.
        if *next_local >= MAX_LOCALS {
            return Err(CtonError::ImplLimitExceeded);
        }
        let local = Local(*next_local as u32);
        builder.declare_var(local, ty);
        builder.def_var(local, zeroval);
        *next_local += 1;
        i += 1;
        assert(builder@ =~= start.followed_by(local_steps(first, i as nat, ty, zeroval)));
    }

    Ok(())
}

/// The local variables after the `count` declarations that `bytes` starts with, of which the
/// binary format counts `locals_total` variables so far, and the bytes after the declarations that
/// were read, unless one could not be read.
pub open spec fn with_decls(
    bytes: Seq<u8>,
    count: nat,
    locals_total: int,
    builder: BuilderView,
    next_local: int,
) -> (LocalsView, Option<Seq<u8>>)
    decreases count,
{
    if count == 0 {
        (LocalsView { builder, next_local, result: Ok(()) }, Some(bytes))
    } else {
        match local_decl_at(bytes, locals_total) {
            None => (
                LocalsView { builder, next_local, result: Err(CtonError::InvalidInput) },
                None,
            ),
            Some((n, ty, read)) => {
                let locals = with_locals(builder, next_local, n as int, ty);
                let rest = bytes.skip(read);
                match locals.result {
                    Err(_) => (locals, Some(rest)),
                    Ok(_) => with_decls(
                        rest,
                        (count - 1) as nat,
                        locals_total + n,
                        locals.builder,
                        locals.next_local,
                    ),
                }
            },
        }
    }
}

/// Declarations that succeed could be read.
proof fn lemma_decls_were_read(
    bytes: Seq<u8>,
    count: nat,
    locals_total: int,
    builder: BuilderView,
    next_local: int,
)
    ensures
        ({
            let (locals, rest) = with_decls(bytes, count, locals_total, builder, next_local);
            locals.result is Ok ==> rest is Some
        }),
    decreases count,
{
    if count > 0 {
        if let Some((n, ty, read)) = local_decl_at(bytes, locals_total) {
            let locals = with_locals(builder, next_local, n as int, ty);
            lemma_decls_were_read(
                bytes.skip(read),
                (count - 1) as nat,
                locals_total + n,
                locals.builder,
                locals.next_local,
            );
        }
    }
}

/// The local variables after all the declarations that `bytes` starts with, and the bytes after
/// those that were read, unless one could not be read. The arguments among the variables count
/// toward the limit too.
pub open spec fn with_all_decls(bytes: Seq<u8>, builder: BuilderView, next_local: int) -> (
    LocalsView,
    Option<Seq<u8>>,
) {
    match local_count_at(bytes) {
        None => (
            LocalsView { builder, next_local, result: Err(CtonError::InvalidInput) },
            None,
        ),
        Some((count, read)) => {
            let (locals, rest) = with_decls(
                bytes.skip(read),
                count as nat,
                0,
                builder,
                next_local,
            );
            if locals.result is Ok && locals.next_local > MAX_LOCALS {
                (LocalsView { result: Err(CtonError::ImplLimitExceeded), ..locals }, rest)
            } else {
                (locals, rest)
            }
        },
    }
}

/// Parse the local variable declarations that precede the function body.
///
/// Declare local variables, starting from `num_args`. Fail if the arguments and these are too many.
pub fn parse_local_decls(
    reader: &mut BinaryReader,
    builder: &mut FunctionBuilder,
    num_args: usize,
) -> (result: CtonResult)
    requires
        old(builder)@.values.len() + MAX_DECLARED_LOCALS <= u32::MAX,
    ensures
        ({
            let (locals, rest) = with_all_decls(
                old(reader).bytes@,
                old(builder)@,
                num_args as int,
            );
            &&& result == locals.result
            &&& final(builder)@ == locals.builder
            &&& rest matches Some(bytes) ==> final(reader).bytes@ == bytes
            &&& result is Ok ==> rest is Some
        }),
{
    let mut next_local: usize = num_args;
    let local_count: usize = match reader.read_local_count() {
        Ok(count) => count,
        Err(_) => return Err(CtonError::InvalidInput),
    };

    let ghost all = with_decls(
        reader.bytes@,
        local_count as nat,
        0,
        builder@,
        num_args as int,
    );
    proof {
        lemma_decls_were_read(reader.bytes@, local_count as nat, 0, builder@, num_args as int);
    }
    let ghost room = builder@.values.len();
    let mut locals_total: usize = 0;
    let mut i: usize = 0;
    while i < local_count
        invariant
            i <= local_count <= MAX_DECLARED_LOCALS,
            all == with_decls(
                reader.bytes@,
                (local_count - i) as nat,
                locals_total as int,
                builder@,
                next_local as int,
            ),
            builder@.values.len() == room + i,
            room + MAX_DECLARED_LOCALS <= u32::MAX,
            all.0.result is Ok ==> all.1 is Some,
            local_count_at(old(reader).bytes@) is Some,
            with_all_decls(old(reader).bytes@, old(builder)@, num_args as int) == (if all.0.result
                is Ok && all.0.next_local > MAX_LOCALS {
                (LocalsView { result: Err(CtonError::ImplLimitExceeded), ..all.0 }, all.1)
            } else {
                all
            }),
        decreases local_count - i,
    {
        let (count, ty) = match reader.read_local_decl(&mut locals_total) {
            Ok(decl) => decl,
            Err(_) => return Err(CtonError::InvalidInput),
        };
        match declare_locals(builder, count, ty, &mut next_local) {
            Ok(_) => {},
            Err(error) => return Err(error),
        }
        i += 1;
    }

    // The arguments alone may exceed the limit.
    if next_local > MAX_LOCALS {
        return Err(CtonError::ImplLimitExceeded);
    }

    Ok(())
}

/// A place in the translation of a function body: what has been made of the operators so far, and
/// the bytes of those that are left.
pub struct Place<FE> {
    /// The environment.
    pub environ: FE,
    /// The body.
    pub builder: BuilderView,
    /// The translation state.
    pub state: StateView,
    /// The bytes of the operators that are left.
    pub rest: Seq<u8>,
}

/// Whether the environment translates the next operator from one place to the other.
pub open spec fn is_step<FE: FuncEnvironment>(
    signature: Signature,
    from: Place<FE>,
    to: Place<FE>,
) -> bool {
    match operator_at(from.rest) {
        None => false,
        Some((op, read)) => {
            &&& to.rest == from.rest.skip(read)
            &&& FE::translated(
                signature,
                op,
                from.environ,
                from.builder,
                from.state,
                to.environ,
                to.builder,
                to.state,
            )
        },
    }
}

/// Whether a control block is open at the place `i` of `run`, and the next operator leads from
/// there to the next place.
pub open spec fn advances<FE: FuncEnvironment>(
    signature: Signature,
    run: Seq<Place<FE>>,
    i: int,
) -> bool {
    run[i].state.control_stack.len() > 0 && is_step(signature, run[i], run[i + 1])
}

/// Whether `run` leads from `start` through one operator after the other, each while a control
/// block was open.
pub open spec fn is_run<FE: FuncEnvironment>(
    signature: Signature,
    start: Place<FE>,
    run: Seq<Place<FE>>,
) -> bool {
    &&& run.len() > 0
    &&& run[0] == start
    &&& forall|i: int| 0 <= i < run.len() - 1 ==> #[trigger] advances(signature, run, i)
}

/// The body after its last operator: the exit block returns what is left on the stack, unless it
/// is unreachable.
pub open spec fn finished(builder: BuilderView, stack: Seq<Value>) -> BuilderView {
    if builder.unreachable {
        builder
    } else {
        builder.with_step(StepView::Return(stack))
    }
}

/// Whether the translation of a body ends at `last` with the given outcome: it succeeds where no
/// control block is open any more, with the bytes in `left` left over, and fails where one is but
/// no operator can be read.
pub open spec fn is_end<FE: FuncEnvironment>(
    last: Place<FE>,
    result: CtonResult,
    environ: FE,
    builder: BuilderView,
    state: StateView,
    left: Seq<u8>,
) -> bool {
    &&& environ == last.environ
    &&& state == last.state
    &&& if last.state.control_stack.len() == 0 {
        &&& result == CtonResult::Ok(())
        &&& builder == finished(last.builder, last.state.stack)
        &&& left == last.rest
    } else {
        &&& operator_at(last.rest) is None
        &&& result == CtonResult::Err(CtonError::InvalidInput)
        &&& builder == last.builder
    }
}

/// Whether the operators from `start` on lead to the given outcome.
pub open spec fn is_body_translation<FE: FuncEnvironment>(
    signature: Signature,
    start: Place<FE>,
    result: CtonResult,
    environ: FE,
    builder: BuilderView,
    state: StateView,
    left: Seq<u8>,
) -> bool {
    exists|run: Seq<Place<FE>>| #[trigger]
        is_run(signature, start, run) && is_end(
            run.last(),
            result,
            environ,
            builder,
            state,
            left,
        )
}

/// Whether the operator that closes the last control block, whichever it is, is the end of the
/// code and leaves the exit block without instructions.
pub open spec fn closes_at_end<FE: FuncEnvironment>(
    signature: Signature,
    start: Place<FE>,
) -> bool {
    forall|run: Seq<Place<FE>>| #[trigger]
        is_run(signature, start, run) && run.last().state.control_stack.len() == 0 ==> {
            &&& run.last().rest.len() == 0
            &&& is_pristine(run.last().builder.steps)
        }
}

/// Finish a function body after its last operator, which leaves `stack`.
///
/// The final `End` operator left us in the exit block where we need to manually add a return
/// instruction.
pub fn finish_function_body(builder: &mut FunctionBuilder, stack: &Vec<Value>)
    ensures
        final(builder)@ == finished(old(builder)@, stack@),
{
    // If the exit block is unreachable, it may not have the correct arguments, so we would
    // generate a return instruction that doesn't match the signature.
    if !builder.is_unreachable() {
        builder.return_(stack);
    }
}

/// Translate operators until the outermost control block is closed, and finish the function body.
///
/// The reader is left after the final `End` operator, be there more bytes or not.
pub fn translate_operators<FE: FuncEnvironment>(
    reader: &mut BinaryReader,
    signature: &Signature,
    builder: &mut FunctionBuilder,
    state: &mut TranslationState,
    environ: &mut FE,
) -> (result: CtonResult)
    ensures
        is_body_translation(
            *signature,
            Place {
                environ: *old(environ),
                builder: old(builder)@,
                state: old(state)@,
                rest: old(reader).bytes@,
            },
            result,
            *final(environ),
            final(builder)@,
            final(state)@,
            final(reader).bytes@,
        ),
{
    let ghost start = Place {
        environ: *environ,
        builder: builder@,
        state: state@,
        rest: reader.bytes@,
    };
    let ghost mut run: Seq<Place<FE>> = seq![start];
    // Keep going until the final `End` operator which pops the outermost block.
    while state.control_stack.len() > 0
        invariant
            start == (Place {
                environ: *old(environ),
                builder: old(builder)@,
                state: old(state)@,
                rest: old(reader).bytes@,
            }),
            is_run(*signature, start, run),
            run.last() == (Place {
                environ: *environ,
                builder: builder@,
                state: state@,
                rest: reader.bytes@,
            }),
        decreases reader.bytes@.len(),
    {
        let op = match reader.read_operator() {
            Ok(op) => op,
            Err(_) => return Err(CtonError::InvalidInput),
        };
        environ.translate_operator(signature, &op, builder, state);
        proof {
            let next = Place {
                environ: *environ,
                builder: builder@,
                state: state@,
                rest: reader.bytes@,
            };
            let longer = run.push(next);
            assert forall|i: int| 0 <= i < longer.len() - 1 implies #[trigger] advances(
                *signature,
                longer,
                i,
            ) by {
                if i < run.len() - 1 {
                    assert(advances(*signature, run, i));
                }
            }
            run = longer;
        }
    }
    finish_function_body(builder, &state.stack);
    Ok(())
}

/// Parse the function body in `reader`.
///
/// This assumes that the local variable declarations have already been parsed and function
/// arguments and locals are declared in the builder. The final `End` operator must be the end of
/// the code and leave the exit block without instructions; `translate_operators` tells a caller who
/// cannot know that what is left over.
pub fn parse_function_body<FE: FuncEnvironment>(
    reader: BinaryReader,
    signature: &Signature,
    builder: &mut FunctionBuilder,
    state: &mut TranslationState,
    environ: &mut FE,
) -> (result: CtonResult)
    requires
        // The control stack is initialized with a single block representing the whole function.
        old(state)@.control_stack.len() == 1,
        closes_at_end(
            *signature,
            Place {
                environ: *old(environ),
                builder: old(builder)@,
                state: old(state)@,
                rest: reader.bytes@,
            },
        ),
    ensures
        is_body_translation(
            *signature,
            Place {
                environ: *old(environ),
                builder: old(builder)@,
                state: old(state)@,
                rest: reader.bytes@,
            },
            result,
            *final(environ),
            final(builder)@,
            final(state)@,
            Seq::empty(),
        ),
{
    let mut rest = reader;
    let ghost start = Place {
        environ: *environ,
        builder: builder@,
        state: state@,
        rest: rest.bytes@,
    };
    let result: CtonResult = translate_operators(&mut rest, signature, builder, state, environ);
    proof {
        let run = choose|run: Seq<Place<FE>>| #[trigger]
            is_run(*signature, start, run) && is_end(
                run.last(),
                result,
                *environ,
                builder@,
                state@,
                rest.bytes@,
            );
        if result is Ok {
            assert(run.last().rest =~= Seq::empty());
        }
        assert(is_end(run.last(), result, *environ, builder@, state@, Seq::empty()));
    }
    result
}

/// The entry block of a function.
pub open spec fn entry_block() -> Ebb {
    Ebb(0)
}

/// The exit block of a function.
pub open spec fn exit_block() -> Ebb {
    Ebb(1)
}

/// The body of a function before its local declarations are read: there is an entry block, in
/// which the normal arguments are accessible as local variables, and an exit block.
pub open spec fn prologue(args: Seq<ArgumentType>) -> BuilderView {
    BuilderView::empty().with_ebb().in_entry_block(entry_block(), args).with_step(
        StepView::SealBlock(entry_block()),
    ).with_step(StepView::EnsureInsertedEbb).followed_by(argument_steps(args)).with_ebb()
}

/// Whether the translation of `code` as a function with the given signature has the given outcome.
///
/// If the local declarations fail, the environment is not asked for anything. Otherwise it
/// translates the operators after them, and where that succeeds `left` is what comes after those.
pub open spec fn is_translation<FE: FuncEnvironment>(
    signature: Signature,
    code: Seq<u8>,
    environ_before: FE,
    result: CtonResult,
    environ: FE,
    builder: BuilderView,
    state: StateView,
    left: Seq<u8>,
) -> bool {
    let args = signature.argument_types@;
    let (locals, rest) = with_all_decls(code, prologue(args), normal_count(args) as int);
    let initial = StateView::initial(signature.return_types@, exit_block());
    match locals.result {
        Err(_) => {
            &&& result == locals.result
            &&& environ == environ_before
            &&& builder == locals.builder
            &&& state == initial
        },
        Ok(_) => is_body_translation(
            signature,
            Place {
                environ: environ_before,
                builder: locals.builder,
                state: initial,
                rest: rest.unwrap(),
            },
            result,
            environ,
            builder,
            state,
            left,
        ),
    }
}

/// Whether the operator that closes the last control block of a function, whichever it is, is the
/// end of `code` and leaves the exit block without instructions.
pub open spec fn translation_closes_at_end<FE: FuncEnvironment>(
    signature: Signature,
    code: Seq<u8>,
    environ: FE,
) -> bool {
    let args = signature.argument_types@;
    let (locals, rest) = with_all_decls(code, prologue(args), normal_count(args) as int);
    locals.result is Ok ==> closes_at_end(
        signature,
        Place {
            environ,
            builder: locals.builder,
            state: StateView::initial(signature.return_types@, exit_block()),
            rest: rest.unwrap(),
        },
    )
}

/// WebAssembly function translator.
///
/// A `FuncTranslator` is used to translate a binary WebAssembly function guided by a
/// `FuncEnvironment` object. A single translator instance can be reused to translate multiple
/// functions which will reduce heap allocation traffic.
#[derive(Debug)]
pub struct FuncTranslator {
    state: TranslationState,
}

impl View for FuncTranslator {
    type V = StateView;

    /// The state that the last translation was left in.
    closed spec fn view(&self) -> StateView {
        self.state@
    }
}

/// The state that a translator is seen to be left in is the one that it holds.
proof fn law_translator_view_is_faithful(translator: FuncTranslator)
    ensures
        translator@.stack == translator.state.stack@,
        translator@.control_stack == translator.state.control_stack@,
{
}

impl FuncTranslator {
    /// Create a new translator.
    pub fn new() -> (translator: FuncTranslator)
        ensures
            translator@ == (StateView { stack: Seq::empty(), control_stack: Seq::empty() }),
    {
        FuncTranslator { state: TranslationState::new() }
    }

    /// Translate a binary WebAssembly function.
    ///
    /// The `code` slice contains the binary WebAssembly *function code* as it appears in the code
    /// section of a WebAssembly module, not including the initial size of the function code. The
    /// slice is expected to contain two parts:
    ///
    /// - The declaration of *locals*, and
    /// - The function *body* as an expression.
    ///
    /// The function `func` should be completely empty except for the `func.signature` and
    /// `func.name` fields. The signature may contain special-purpose arguments which are not
    /// regarded as WebAssembly local variables. Any signature arguments marked as
    /// `ArgumentPurpose::Normal` are made accessible as WebAssembly local variables.
    ///
    /// The final `End` operator must be the end of the code. For code of which that is not known,
    /// there is `translate_prefix`.
    ///
    /// What an earlier translation left in the translator has no influence.
    pub fn translate<FE: FuncEnvironment>(
        &mut self,
        code: &[u8],
        func: &mut Function,
        environ: &mut FE,
    ) -> (result: CtonResult)
        requires
            old(func).body@ == BuilderView::empty(),
            old(func).signature.argument_types@.len() + MAX_DECLARED_LOCALS <= u32::MAX,
            translation_closes_at_end(old(func).signature, code@, *old(environ)),
        ensures
            is_translation(
                old(func).signature,
                code@,
                *old(environ),
                result,
                *final(environ),
                final(func).body@,
                final(self)@,
                Seq::empty(),
            ),
            final(func).name == old(func).name,
            final(func).signature == old(func).signature,
            final(func).stack_slots == old(func).stack_slots,
    {
        self.translate_from_reader(BinaryReader::new(code), func, environ)
    }

    /// Translate a binary WebAssembly function from a `BinaryReader`.
    pub fn translate_from_reader<FE: FuncEnvironment>(
        &mut self,
        reader: BinaryReader,
        func: &mut Function,
        environ: &mut FE,
    ) -> (result: CtonResult)
        requires
            old(func).body@ == BuilderView::empty(),
            old(func).signature.argument_types@.len() + MAX_DECLARED_LOCALS <= u32::MAX,
            translation_closes_at_end(old(func).signature, reader.bytes@, *old(environ)),
        ensures
            is_translation(
                old(func).signature,
                reader.bytes@,
                *old(environ),
                result,
                *final(environ),
                final(func).body@,
                final(self)@,
                Seq::empty(),
            ),
            final(func).name == old(func).name,
            final(func).signature == old(func).signature,
            final(func).stack_slots == old(func).stack_slots,
    {
        let mut rest = reader;
        match self.prepare(&mut rest, func) {
            Ok(_) => {},
            Err(error) => return Err(error),
        }
        parse_function_body(rest, &func.signature, &mut func.body, &mut self.state, environ)
    }

    /// Translate the binary WebAssembly function that starts a `BinaryReader`.
    ///
    /// This is `translate_from_reader` for code that may go on after the final `End` operator: on
    /// success the reader is left there, and a caller who expects the end of the code can look.
    pub fn translate_prefix<FE: FuncEnvironment>(
        &mut self,
        reader: &mut BinaryReader,
        func: &mut Function,
        environ: &mut FE,
    ) -> (result: CtonResult)
        requires
            old(func).body@ == BuilderView::empty(),
            old(func).signature.argument_types@.len() + MAX_DECLARED_LOCALS <= u32::MAX,
        ensures
            is_translation(
                old(func).signature,
                old(reader).bytes@,
                *old(environ),
                result,
                *final(environ),
                final(func).body@,
                final(self)@,
                final(reader).bytes@,
            ),
            final(func).name == old(func).name,
            final(func).signature == old(func).signature,
            final(func).stack_slots == old(func).stack_slots,
    {
        match self.prepare(reader, func) {
            Ok(_) => {},
            Err(error) => return Err(error),
        }
        translate_operators(reader, &func.signature, &mut func.body, &mut self.state, environ)
    }

    /// Get ready to translate the operators of a function: make the entry block, declare the
    /// arguments and the local variables, and set up the state.
    fn prepare(&mut self, reader: &mut BinaryReader, func: &mut Function) -> (result: CtonResult)
        requires
            old(func).body@ == BuilderView::empty(),
            old(func).signature.argument_types@.len() + MAX_DECLARED_LOCALS <= u32::MAX,
        ensures
            ({
                let args = old(func).signature.argument_types@;
                let (locals, rest) = with_all_decls(
                    old(reader).bytes@,
                    prologue(args),
                    normal_count(args) as int,
                );
                &&& result == locals.result
                &&& final(func).body@ == locals.builder
                &&& rest matches Some(bytes) ==> final(reader).bytes@ == bytes
                &&& result is Ok ==> rest is Some
            }),
            final(self)@ == StateView::initial(old(func).signature.return_types@, exit_block()),
            final(func).name == old(func).name,
            final(func).signature == old(func).signature,
            final(func).stack_slots == old(func).stack_slots,
    {
        let builder = &mut func.body;
        let entry_block: Ebb = builder.create_ebb();
        // This also creates values for the arguments.
        builder.switch_to_entry_block(entry_block, &func.signature.argument_types);
        builder.seal_block(entry_block);
        // Make sure the entry block is inserted in the layout before we make any callbacks to
        // `environ`. The callback functions may need to insert things in the entry block.
        builder.ensure_inserted_ebb();

        let num_args: usize = declare_wasm_arguments(builder, &func.signature);

        // Set up the translation state with a single pushed control block representing the whole
        // function and its return values.
        let exit_block: Ebb = builder.create_ebb();
        self.state.initialize(&func.signature, exit_block);

        parse_local_decls(reader, builder, num_args)
    }
}

} // verus!
