//! What holds of every function translation, and of the local variables in particular.

use crate::frontend::{BuilderView, StepView};
use crate::ir::entities::{Local, Value};
use crate::ir::function::{ArgumentPurpose, ArgumentType, Signature};
use crate::ir::types::{LaneType, Type};
use crate::result::{CtonError, CtonResult};
use crate::wasm::environ::FuncEnvironment;
use crate::wasm::func_translator::{
    advances, argument_steps, entry_block, exit_block, is_end, is_run, is_translation, local_lane,
    local_steps, permitted, prologue, translation_closes_at_end, with_all_decls, with_decls,
    with_locals, zero_step, Place, MAX_LOCALS,
};
use crate::wasm::reader::{
    lemma_leb128_len, local_count_at, local_decl_at, operator_at, WasmType, MAX_DECLARED_LOCALS,
};
use crate::wasm::state::{normal_count, StateView};
use vstd::prelude::*;

verus! {

/// The variables that the steps declare, in order.
pub open spec fn declarations(steps: Seq<StepView>) -> Seq<(Local, Type)>
    decreases steps.len(),
{
    if steps.len() == 0 {
        Seq::empty()
    } else {
        match steps.last() {
            StepView::DeclareVar(var, ty) => declarations(steps.drop_last()).push((var, ty)),
            _ => declarations(steps.drop_last()),
        }
    }
}

/// The values that the steps give to variables, in order.
pub open spec fn definitions(steps: Seq<StepView>) -> Seq<(Local, Value)>
    decreases steps.len(),
{
    if steps.len() == 0 {
        Seq::empty()
    } else {
        match steps.last() {
            StepView::DefVar(var, val) => definitions(steps.drop_last()).push((var, val)),
            _ => definitions(steps.drop_last()),
        }
    }
}

/// The constants that the steps make, in order.
pub open spec fn constants(steps: Seq<StepView>) -> Seq<StepView>
    decreases steps.len(),
{
    if steps.len() == 0 {
        Seq::empty()
    } else {
        match steps.last() {
            StepView::Iconst(_, _) | StepView::F32const(_) | StepView::F64const(_) => constants(
                steps.drop_last(),
            ).push(steps.last()),
            _ => constants(steps.drop_last()),
        }
    }
}

/// What holds of the local variable with number `i`.
///
/// `num_values` is the number of arguments of the function, and `num_args` that of the normal ones.
pub open spec fn local_is_sound(
    builder: BuilderView,
    num_values: int,
    num_args: int,
    i: int,
) -> bool {
    let (declared, ty) = declarations(builder.steps)[i];
    let (defined, val) = definitions(builder.steps)[i];
    // It is the one that is declared in this place and defined in this place.
    &&& declared == Local(i as u32)
    &&& defined == Local(i as u32)
    // It has a value of its own type.
    &&& val.0 < builder.values.len()
    &&& builder.values[val.0 as int] == ty
    // If it is not an argument, the value is the constant zero.
    &&& i >= num_args ==> {
        &&& val.0 >= num_values
        &&& constants(builder.steps)[val.0 - num_values] == zero_step(ty.lane)
    }
}

/// What holds of the local variables of a function before the operators of its body are
/// translated: there are `next_local` of them, numbered from zero on, each declared and defined
/// once, and the values are the arguments and after them the constants.
pub open spec fn locals_are_sound(
    builder: BuilderView,
    num_values: int,
    num_args: int,
    next_local: int,
) -> bool {
    &&& builder.values.len() == num_values + constants(builder.steps).len()
    &&& declarations(builder.steps).len() == next_local
    &&& definitions(builder.steps).len() == next_local
    &&& forall|i: int|
        0 <= i < next_local ==> #[trigger] local_is_sound(builder, num_values, num_args, i)
}

/// What one more step declares, defines and makes.
proof fn lemma_pushed_step(steps: Seq<StepView>, step: StepView)
    ensures
        declarations(steps.push(step)) == match step {
            StepView::DeclareVar(var, ty) => declarations(steps).push((var, ty)),
            _ => declarations(steps),
        },
        definitions(steps.push(step)) == match step {
            StepView::DefVar(var, val) => definitions(steps).push((var, val)),
            _ => definitions(steps),
        },
        constants(steps.push(step)) == match step {
            StepView::Iconst(_, _) | StepView::F32const(_) | StepView::F64const(_) => constants(
                steps,
            ).push(step),
            _ => constants(steps),
        },
{
    assert(steps.push(step).drop_last() =~= steps);
}

/// A declaration and a definition of the next local variable keep the local variables sound.
proof fn lemma_next_local(
    builder: BuilderView,
    num_values: int,
    num_args: int,
    next_local: int,
    ty: Type,
    val: Value,
)
    requires
        locals_are_sound(builder, num_values, num_args, next_local),
        val.0 < builder.values.len(),
        builder.values[val.0 as int] == ty,
        next_local >= num_args ==> val.0 >= num_values && constants(builder.steps)[val.0
            - num_values] == zero_step(ty.lane),
    ensures
        ({
            let local = Local(next_local as u32);
            let next = builder.with_step(StepView::DeclareVar(local, ty)).with_step(
                StepView::DefVar(local, val),
            );
            &&& locals_are_sound(next, num_values, num_args, next_local + 1)
            &&& declarations(next.steps) == declarations(builder.steps).push((local, ty))
            &&& definitions(next.steps) == definitions(builder.steps).push((local, val))
            &&& constants(next.steps) == constants(builder.steps)
        }),
{
    let local = Local(next_local as u32);
    let declared = builder.with_step(StepView::DeclareVar(local, ty));
    lemma_pushed_step(builder.steps, StepView::DeclareVar(local, ty));
    lemma_pushed_step(declared.steps, StepView::DefVar(local, val));
    let next = declared.with_step(StepView::DefVar(local, val));
    assert forall|i: int| 0 <= i < next_local + 1 implies #[trigger] local_is_sound(
        next,
        num_values,
        num_args,
        i,
    ) by {
        if i < next_local {
            assert(local_is_sound(builder, num_values, num_args, i));
        }
    }
}

/// Whether the argument at place `p`, a normal one, is accessible as the local variable whose
/// number is that of the normal arguments before it: with its type, and as its value.
pub open spec fn argument_is_local(
    steps: Seq<StepView>,
    args: Seq<ArgumentType>,
    p: int,
) -> bool {
    let k = normal_count(args.take(p)) as int;
    &&& k < declarations(steps).len()
    &&& k < definitions(steps).len()
    &&& declarations(steps)[k] == (Local(k as u32), args[p].value_type)
    &&& definitions(steps)[k] == (Local(k as u32), Value(p as u32))
}

/// The builder after the argument steps for some of the arguments.
spec fn with_arguments(builder: BuilderView, args: Seq<ArgumentType>) -> BuilderView {
    builder.followed_by(argument_steps(args))
}

/// The argument steps make the normal arguments the first local variables.
proof fn lemma_arguments(builder: BuilderView, all: Seq<ArgumentType>, n: int)
    requires
        0 <= n <= all.len() <= u32::MAX,
        builder.values =~= all.map_values(|arg: ArgumentType| arg.value_type),
        declarations(builder.steps).len() == 0,
        definitions(builder.steps).len() == 0,
        constants(builder.steps).len() == 0,
    ensures
        ({
            let args = all.take(n);
            let next = with_arguments(builder, args);
            &&& locals_are_sound(
                next,
                all.len() as int,
                normal_count(all) as int,
                normal_count(args) as int,
            )
            &&& forall|p: int|
                0 <= p < n && all[p].purpose == ArgumentPurpose::Normal ==> #[trigger]
                argument_is_local(next.steps, all, p)
            &&& normal_count(args) <= normal_count(all)
        }),
    decreases n,
{
    let args = all.take(n);
    if n == 0 {
        assert(with_arguments(builder, args) =~= builder);
    } else {
        lemma_arguments(builder, all, n - 1);
        assert(args.drop_last() =~= all.take(n - 1));
        lemma_normal_count_monotonic(all, n);
        let before = with_arguments(builder, all.take(n - 1));
        let k = normal_count(all.take(n - 1));
        if all[n - 1].purpose == ArgumentPurpose::Normal {
            lemma_next_local(
                before,
                all.len() as int,
                normal_count(all) as int,
                k as int,
                all[n - 1].value_type,
                Value((n - 1) as u32),
            );
            let local = Local(k as u32);
            assert(with_arguments(builder, args) =~= before.with_step(
                StepView::DeclareVar(local, all[n - 1].value_type),
            ).with_step(StepView::DefVar(local, Value((n - 1) as u32))));
            let next = with_arguments(builder, args);
            assert forall|p: int|
                0 <= p < n && all[p].purpose == ArgumentPurpose::Normal implies #[trigger]
            argument_is_local(next.steps, all, p) by {
                if p < n - 1 {
                    assert(argument_is_local(before.steps, all, p));
                }
            }
        } else {
            assert(with_arguments(builder, args) =~= before);
        }
    }
}

/// There are at most as many normal arguments among the first `n` as among all.
proof fn lemma_normal_count_monotonic(args: Seq<ArgumentType>, n: int)
    requires
        0 <= n <= args.len(),
    ensures
        normal_count(args.take(n)) <= normal_count(args),
    decreases args.len() - n,
{
    if n == args.len() {
        assert(args.take(n) =~= args);
    } else {
        lemma_normal_count_monotonic(args, n + 1);
        assert(args.take(n + 1).drop_last() =~= args.take(n));
    }
}

/// Before the local declarations, the local variables are the normal arguments, in order: each has
/// the type of its argument, and the argument as its value. Special-purpose arguments get none.
pub proof fn law_arguments_are_locals(args: Seq<ArgumentType>)
    requires
        args.len() <= u32::MAX,
    ensures
        locals_are_sound(
            prologue(args),
            args.len() as int,
            normal_count(args) as int,
            normal_count(args) as int,
        ),
        forall|p: int|
            0 <= p < args.len() && args[p].purpose == ArgumentPurpose::Normal ==> #[trigger]
            argument_is_local(prologue(args).steps, args, p),
{
    let created = BuilderView::empty().with_ebb();
    let switched = created.in_entry_block(entry_block(), args);
    let sealed = switched.with_step(StepView::SealBlock(entry_block()));
    let inserted = sealed.with_step(StepView::EnsureInsertedEbb);
    lemma_pushed_step(BuilderView::empty().steps, created.steps.last());
    lemma_pushed_step(created.steps, switched.steps.last());
    lemma_pushed_step(switched.steps, sealed.steps.last());
    lemma_pushed_step(sealed.steps, inserted.steps.last());
    lemma_arguments(inserted, args, args.len() as int);
    assert(args.take(args.len() as int) =~= args);
    let with_args = with_arguments(inserted, args);
    lemma_pushed_step(with_args.steps, prologue(args).steps.last());
    assert forall|i: int| 0 <= i < normal_count(args) implies #[trigger] local_is_sound(
        prologue(args),
        args.len() as int,
        normal_count(args) as int,
        i,
    ) by {
        assert(local_is_sound(with_args, args.len() as int, normal_count(args) as int, i));
    }
    assert forall|p: int|
        0 <= p < args.len() && args[p].purpose == ArgumentPurpose::Normal implies #[trigger]
    argument_is_local(prologue(args).steps, args, p) by {
        assert(argument_is_local(with_args.steps, args, p));
    }
}

/// Part of the local variables of one declaration.
proof fn lemma_local_steps(
    builder: BuilderView,
    num_values: int,
    num_args: int,
    next_local: int,
    count: nat,
    ty: Type,
    val: Value,
)
    requires
        locals_are_sound(builder, num_values, num_args, next_local),
        num_args <= next_local,
        num_values <= val.0 < builder.values.len(),
        builder.values[val.0 as int] == ty,
        constants(builder.steps)[val.0 - num_values] == zero_step(ty.lane),
    ensures
        ({
            let next = builder.followed_by(local_steps(next_local, count, ty, val));
            &&& locals_are_sound(next, num_values, num_args, next_local + count)
            &&& constants(next.steps) == constants(builder.steps)
            &&& declarations(builder.steps).is_prefix_of(declarations(next.steps))
            &&& definitions(builder.steps).is_prefix_of(definitions(next.steps))
        }),
    decreases count,
{
    let next = builder.followed_by(local_steps(next_local, count, ty, val));
    if count == 0 {
        assert(next =~= builder);
    } else {
        let less = (count - 1) as nat;
        lemma_local_steps(builder, num_values, num_args, next_local, less, ty, val);
        let before = builder.followed_by(local_steps(next_local, less, ty, val));
        lemma_next_local(before, num_values, num_args, next_local + less, ty, val);
        let local = Local((next_local + less) as u32);
        assert(next =~= before.with_step(StepView::DeclareVar(local, ty)).with_step(
            StepView::DefVar(local, val),
        ));
    }
}

/// A declaration of local variables keeps the local variables sound and leaves those that were
/// there as they were, whether it succeeds or not.
pub proof fn law_declaration_is_sound(
    builder: BuilderView,
    num_values: int,
    num_args: int,
    next_local: int,
    count: int,
    wasm_type: WasmType,
)
    requires
        locals_are_sound(builder, num_values, num_args, next_local),
        0 <= num_values,
        0 <= num_args <= next_local,
        builder.has_room(),
        count >= 0,
    ensures
        ({
            let locals = with_locals(builder, next_local, count, wasm_type);
            &&& locals_are_sound(locals.builder, num_values, num_args, locals.next_local)
            &&& declarations(builder.steps).is_prefix_of(declarations(locals.builder.steps))
            &&& definitions(builder.steps).is_prefix_of(definitions(locals.builder.steps))
        }),
{
    match local_lane(wasm_type) {
        None => {},
        Some(lane) => {
            let ty = Type::of_lane(lane);
            let made = builder.making(zero_step(lane), ty);
            lemma_pushed_step(builder.steps, zero_step(lane));
            assert forall|i: int| 0 <= i < next_local implies #[trigger] local_is_sound(
                made,
                num_values,
                num_args,
                i,
            ) by {
                assert(local_is_sound(builder, num_values, num_args, i));
            }
            lemma_local_steps(
                made,
                num_values,
                num_args,
                next_local,
                permitted(next_local, count) as nat,
                ty,
                Value(builder.values.len() as u32),
            );
        },
    }
}

/// Several declarations keep the local variables sound.
proof fn lemma_declarations_are_sound(
    bytes: Seq<u8>,
    count: nat,
    locals_total: int,
    builder: BuilderView,
    num_values: int,
    num_args: int,
    next_local: int,
)
    requires
        locals_are_sound(builder, num_values, num_args, next_local),
        0 <= num_values,
        0 <= num_args <= next_local,
        builder.values.len() + count <= u32::MAX,
    ensures
        ({
            let locals = with_decls(bytes, count, locals_total, builder, next_local).0;
            &&& locals_are_sound(locals.builder, num_values, num_args, locals.next_local)
            &&& declarations(builder.steps).is_prefix_of(declarations(locals.builder.steps))
            &&& definitions(builder.steps).is_prefix_of(definitions(locals.builder.steps))
        }),
    decreases count,
{
    if count > 0 {
        if let Some((n, ty, read)) = local_decl_at(bytes, locals_total) {
            law_declaration_is_sound(builder, num_values, num_args, next_local, n as int, ty);
            let locals = with_locals(builder, next_local, n as int, ty);
            if locals.result is Ok {
                lemma_declarations_are_sound(
                    bytes.skip(read),
                    (count - 1) as nat,
                    locals_total + n,
                    locals.builder,
                    num_values,
                    num_args,
                    locals.next_local,
                );
            }
        }
    }
}

/// After the local declarations of any code, the local variables are numbered from zero on, each
/// is declared and defined once and has a value of its own type, those that stand for arguments
/// are as they were before, and all the others are zero.
pub proof fn law_locals_are_sound(args: Seq<ArgumentType>, code: Seq<u8>)
    requires
        args.len() + MAX_DECLARED_LOCALS <= u32::MAX,
    ensures
        ({
            let num_args = normal_count(args) as int;
            let locals = with_all_decls(code, prologue(args), num_args).0;
            &&& locals_are_sound(
                locals.builder,
                args.len() as int,
                num_args,
                locals.next_local,
            )
            &&& declarations(prologue(args).steps).is_prefix_of(
                declarations(locals.builder.steps),
            )
            &&& definitions(prologue(args).steps).is_prefix_of(
                definitions(locals.builder.steps),
            )
        }),
{
    law_arguments_are_locals(args);
    let num_args = normal_count(args) as int;
    if let Some((count, read)) = local_count_at(code) {
        lemma_declarations_are_sound(
            code.skip(read),
            count as nat,
            0,
            prologue(args),
            args.len() as int,
            num_args,
            num_args,
        );
    }
}

/// How far several declarations get.
proof fn lemma_limit(
    bytes: Seq<u8>,
    count: nat,
    locals_total: int,
    builder: BuilderView,
    next_local: int,
)
    requires
        0 <= locals_total,
        0 <= next_local,
    ensures
        ({
            let locals = with_decls(bytes, count, locals_total, builder, next_local).0;
            &&& next_local <= locals.next_local
            &&& locals.next_local <= MAX_LOCALS || locals.next_local == next_local
            &&& locals.result == CtonResult::Err(CtonError::ImplLimitExceeded) ==> next_local
                > locals_total && locals.next_local >= MAX_LOCALS
        }),
    decreases count,
{
    if count > 0 {
        if let Some((n, ty, read)) = local_decl_at(bytes, locals_total) {
            let locals = with_locals(builder, next_local, n as int, ty);
            if locals.result is Ok {
                lemma_limit(
                    bytes.skip(read),
                    (count - 1) as nat,
                    locals_total + n,
                    locals.builder,
                    locals.next_local,
                );
            }
        }
    }
}

/// No more local variables than the limit are declared, arguments included, or the translation
/// fails; and the limit stops it only where it has been reached. Since the binary format permits as
/// many variables to be declared, that takes at least one normal argument.
pub proof fn law_limit_is_kept(code: Seq<u8>, builder: BuilderView, num_args: int)
    requires
        0 <= num_args,
    ensures
        ({
            let locals = with_all_decls(code, builder, num_args).0;
            &&& num_args <= locals.next_local
            &&& locals.next_local <= MAX_LOCALS || locals.next_local == num_args
            &&& locals.result is Ok ==> locals.next_local <= MAX_LOCALS
            &&& locals.result == CtonResult::Err(CtonError::ImplLimitExceeded) ==> num_args > 0
                && locals.next_local >= MAX_LOCALS
        }),
{
    if let Some((count, read)) = local_count_at(code) {
        lemma_limit(code.skip(read), count as nat, 0, builder, num_args);
    }
}

/// What several declarations leave is the end of the bytes, where they could be read.
proof fn lemma_rest(
    bytes: Seq<u8>,
    count: nat,
    locals_total: int,
    builder: BuilderView,
    next_local: int,
) -> (read: int)
    ensures
        0 <= read <= bytes.len(),
        ({
            let (locals, rest) = with_decls(bytes, count, locals_total, builder, next_local);
            &&& rest matches Some(after) ==> after == bytes.skip(read)
            &&& rest is None ==> locals.result == CtonResult::Err(CtonError::InvalidInput)
        }),
    decreases count,
{
    if count > 0 {
        if let Some((n, ty, read)) = local_decl_at(bytes, locals_total) {
            lemma_leb128_len(bytes);
            let locals = with_locals(builder, next_local, n as int, ty);
            if locals.result is Ok {
                let more = lemma_rest(
                    bytes.skip(read),
                    (count - 1) as nat,
                    locals_total + n,
                    locals.builder,
                    locals.next_local,
                );
                assert(bytes.skip(read).skip(more) =~= bytes.skip(read + more));
                read + more
            } else {
                read
            }
        } else {
            assert(bytes.skip(0) =~= bytes);
            0
        }
    } else {
        assert(bytes.skip(0) =~= bytes);
        0
    }
}

/// The declarations are the start of the code: the operators are read from what comes after them.
/// There is nothing to read only where a declaration could not be read.
pub proof fn law_declarations_come_first(code: Seq<u8>, builder: BuilderView, num_args: int)
    ensures
        ({
            let (locals, rest) = with_all_decls(code, builder, num_args);
            &&& rest matches Some(after) ==> exists|read: int|
                0 <= read <= code.len() && after == #[trigger] code.skip(read)
            &&& rest is None ==> locals.result == CtonResult::Err(CtonError::InvalidInput)
        }),
{
    if let Some((count, read)) = local_count_at(code) {
        lemma_leb128_len(code);
        let more = lemma_rest(code.skip(read), count as nat, 0, builder, num_args);
        assert(code.skip(read).skip(more) =~= code.skip(read + more));
    } else {
        assert(code.skip(0) =~= code);
    }
}

/// A function whose code starts with a zero byte declares no local variables besides its
/// arguments, and fails only if those are too many.
pub proof fn law_no_declarations(code: Seq<u8>, builder: BuilderView, num_args: int)
    requires
        code.len() > 0,
        code[0] == 0,
    ensures
        ({
            let (locals, rest) = with_all_decls(code, builder, num_args);
            &&& locals.result == if num_args <= MAX_LOCALS {
                CtonResult::Ok(())
            } else {
                CtonResult::Err(CtonError::ImplLimitExceeded)
            }
            &&& locals.builder == builder
            &&& locals.next_local == num_args
            &&& rest == Some(code.skip(1))
        }),
{
    reveal_with_fuel(crate::wasm::reader::leb128_value, 2);
    assert(local_count_at(code) == Some((0u32, 1int)));
}

/// A translation that succeeds has closed every control block, and its body ends with the return of
/// what is left on the stack unless the exit block is unreachable. One that exceeds a limit has not
/// asked the environment for anything.
pub proof fn law_outcome<FE: FuncEnvironment>(
    signature: Signature,
    code: Seq<u8>,
    environ_before: FE,
    result: CtonResult,
    environ: FE,
    builder: BuilderView,
    state: StateView,
    left: Seq<u8>,
)
    requires
        is_translation(signature, code, environ_before, result, environ, builder, state, left),
    ensures
        result is Ok ==> {
            &&& state.control_stack.len() == 0
            &&& builder.unreachable || builder.steps.len() > 0 && builder.steps.last()
                == StepView::Return(state.stack)
        },
        result == CtonResult::Err(CtonError::ImplLimitExceeded) ==> environ == environ_before,
{
}

/// The local variables that `count` of one type from number `first` on are declared as.
pub open spec fn declared_from(first: int, count: nat, ty: Type) -> Seq<(Local, Type)> {
    Seq::new(count, |i: int| (Local((first + i) as u32), ty))
}

/// Whether `next` comes from `builder` by the declaration of `count` local variables of one type
/// from number `first` on, each of which is then defined as a zero of that type.
pub open spec fn declares_zeros(
    builder: BuilderView,
    next: BuilderView,
    first: int,
    count: nat,
    lane: LaneType,
) -> bool {
    let ty = Type::of_lane(lane);
    let defs = definitions(next.steps);
    let known = definitions(builder.steps).len();
    &&& declarations(next.steps) == declarations(builder.steps) + declared_from(first, count, ty)
    &&& defs.len() == known + count
    &&& definitions(builder.steps).is_prefix_of(defs)
    &&& forall|i: int|
        known <= i < defs.len() ==> is_zero_definition(builder, next, #[trigger] defs[i], lane)
            && defs[i].0 == Local((first + i - known) as u32)
}

/// Whether a definition in `next` is by a zero that was made after `builder`.
pub open spec fn is_zero_definition(
    builder: BuilderView,
    next: BuilderView,
    definition: (Local, Value),
    lane: LaneType,
) -> bool {
    let made = definition.1.0 - builder.values.len();
    &&& 0 <= made
    &&& definition.1.0 < next.values.len()
    &&& next.values[definition.1.0 as int] == Type::of_lane(lane)
    &&& constants(builder.steps).len() + made < constants(next.steps).len()
    &&& constants(next.steps)[constants(builder.steps).len() + made] == zero_step(lane)
}

/// What the steps for some local variables declare, define and make.
proof fn lemma_local_step_lists(
    builder: BuilderView,
    first: int,
    count: nat,
    ty: Type,
    val: Value,
)
    ensures
        ({
            let steps = builder.followed_by(local_steps(first, count, ty, val)).steps;
            &&& declarations(steps) == declarations(builder.steps) + declared_from(
                first,
                count,
                ty,
            )
            &&& definitions(steps) == definitions(builder.steps) + Seq::new(
                count,
                |i: int| (Local((first + i) as u32), val),
            )
            &&& constants(steps) == constants(builder.steps)
        }),
    decreases count,
{
    let next = builder.followed_by(local_steps(first, count, ty, val));
    if count == 0 {
        assert(next =~= builder);
        assert(declarations(next.steps) =~= declarations(builder.steps) + declared_from(
            first,
            count,
            ty,
        ));
        assert(definitions(next.steps) =~= definitions(builder.steps) + Seq::new(
            count,
            |i: int| (Local((first + i) as u32), val),
        ));
    } else {
        let less = (count - 1) as nat;
        lemma_local_step_lists(builder, first, less, ty, val);
        let before = builder.followed_by(local_steps(first, less, ty, val));
        let local = Local((first + less) as u32);
        let declared = before.with_step(StepView::DeclareVar(local, ty));
        lemma_pushed_step(before.steps, StepView::DeclareVar(local, ty));
        lemma_pushed_step(declared.steps, StepView::DefVar(local, val));
        assert(next =~= declared.with_step(StepView::DefVar(local, val)));
        assert(declarations(next.steps) =~= declarations(builder.steps) + declared_from(
            first,
            count,
            ty,
        ));
        assert(definitions(next.steps) =~= definitions(builder.steps) + Seq::new(
            count,
            |i: int| (Local((first + i) as u32), val),
        ));
    }
}

/// A declaration of local variables of a type that they may have declares as many as the limit
/// permits, and defines each as zero.
pub proof fn law_declaration_makes_zeros(
    builder: BuilderView,
    next_local: int,
    count: int,
    wasm_type: WasmType,
)
    requires
        builder.has_room(),
        count >= 0,
        local_lane(wasm_type) is Some,
    ensures
        ({
            let locals = with_locals(builder, next_local, count, wasm_type);
            let lane = local_lane(wasm_type).unwrap();
            &&& declares_zeros(
                builder,
                locals.builder,
                next_local,
                (locals.next_local - next_local) as nat,
                lane,
            )
            &&& constants(locals.builder.steps) == constants(builder.steps).push(zero_step(lane))
        }),
{
    let lane = local_lane(wasm_type).unwrap();
    let ty = Type::of_lane(lane);
    let zero = Value(builder.values.len() as u32);
    let made = builder.making(zero_step(lane), ty);
    lemma_pushed_step(builder.steps, zero_step(lane));
    let declared = permitted(next_local, count) as nat;
    lemma_local_step_lists(made, next_local, declared, ty, zero);
}

/// A declaration of `a` local variables and then one of `b` more of the same type have the outcome
/// of one declaration of `a + b`: the same result, the same number of local variables, and the same
/// variables declared with the same types, each defined as zero.
pub proof fn law_declarations_add_up(
    builder: BuilderView,
    next_local: int,
    a: int,
    b: int,
    wasm_type: WasmType,
)
    requires
        builder.values.len() + 2 <= u32::MAX,
        a >= 0,
        b >= 0,
        local_lane(wasm_type) is Some,
    ensures
        ({
            let first = with_locals(builder, next_local, a, wasm_type);
            let second = with_locals(first.builder, first.next_local, b, wasm_type);
            let last = if first.result is Ok {
                second
            } else {
                first
            };
            let whole = with_locals(builder, next_local, a + b, wasm_type);
            let lane = local_lane(wasm_type).unwrap();
            let count = (whole.next_local - next_local) as nat;
            &&& last.result == whole.result
            &&& last.next_local == whole.next_local
            &&& declarations(last.builder.steps) == declarations(whole.builder.steps)
            &&& declares_zeros(builder, last.builder, next_local, count, lane)
            &&& declares_zeros(builder, whole.builder, next_local, count, lane)
        }),
{
    let first = with_locals(builder, next_local, a, wasm_type);
    let second = with_locals(first.builder, first.next_local, b, wasm_type);
    let whole = with_locals(builder, next_local, a + b, wasm_type);
    let lane = local_lane(wasm_type).unwrap();
    let ty = Type::of_lane(lane);
    law_declaration_makes_zeros(builder, next_local, a, wasm_type);
    law_declaration_makes_zeros(builder, next_local, a + b, wasm_type);
    if first.result is Ok {
        law_declaration_makes_zeros(first.builder, first.next_local, b, wasm_type);
        let one = (first.next_local - next_local) as nat;
        let two = (second.next_local - first.next_local) as nat;
        assert(declared_from(next_local, one, ty) + declared_from(first.next_local, two, ty)
            =~= declared_from(next_local, one + two, ty));
        assert(declarations(second.builder.steps) =~= declarations(builder.steps)
            + declared_from(next_local, one + two, ty));
        lemma_zeros_add_up(builder, first.builder, second.builder, next_local, one, two, lane);
    }
}

/// Two runs of zeros make one.
proof fn lemma_zeros_add_up(
    builder: BuilderView,
    middle: BuilderView,
    next: BuilderView,
    first: int,
    one: nat,
    two: nat,
    lane: LaneType,
)
    requires
        declares_zeros(builder, middle, first, one, lane),
        declares_zeros(middle, next, first + one, two, lane),
        middle.values.len() == builder.values.len() + 1,
        constants(middle.steps).len() == constants(builder.steps).len() + 1,
        middle.values.is_prefix_of(next.values),
        constants(middle.steps).is_prefix_of(constants(next.steps)),
        declarations(next.steps) == declarations(builder.steps) + declared_from(
            first,
            one + two,
            Type::of_lane(lane),
        ),
    ensures
        declares_zeros(builder, next, first, one + two, lane),
{
    let known = definitions(builder.steps).len();
    let halfway = definitions(middle.steps);
    let defs = definitions(next.steps);
    assert forall|i: int| known <= i < defs.len() implies is_zero_definition(
        builder,
        next,
        #[trigger] defs[i],
        lane,
    ) && defs[i].0 == Local((first + i - known) as u32) by {
        if i < halfway.len() {
            assert(defs[i] == halfway[i]);
            assert(is_zero_definition(builder, middle, halfway[i], lane));
        } else {
            assert(is_zero_definition(middle, next, defs[i], lane));
        }
    }
}

/// Where the last control block is closed at the end of the code, a translation that succeeds
/// leaves nothing over.
pub proof fn law_nothing_is_left<FE: FuncEnvironment>(
    signature: Signature,
    code: Seq<u8>,
    environ_before: FE,
    result: CtonResult,
    environ: FE,
    builder: BuilderView,
    state: StateView,
    left: Seq<u8>,
)
    requires
        translation_closes_at_end(signature, code, environ_before),
        is_translation(signature, code, environ_before, result, environ, builder, state, left),
    ensures
        result is Ok ==> left.len() == 0,
        is_translation(
            signature,
            code,
            environ_before,
            result,
            environ,
            builder,
            state,
            Seq::empty(),
        ),
{
    let args = signature.argument_types@;
    let (locals, rest) = with_all_decls(code, prologue(args), normal_count(args) as int);
    if locals.result is Ok {
        let start = Place {
            environ: environ_before,
            builder: locals.builder,
            state: StateView::initial(signature.return_types@, exit_block()),
            rest: rest.unwrap(),
        };
        let run = choose|run: Seq<Place<FE>>| #[trigger]
            is_run(signature, start, run) && is_end(
                run.last(),
                result,
                environ,
                builder,
                state,
                left,
            );
        if result is Ok {
            assert(run.last().rest =~= Seq::empty());
        }
        assert(is_end(run.last(), result, environ, builder, state, Seq::empty()));
    }
}

/// Whether the environment makes one thing only of each operator, wherever it comes.
pub open spec fn is_deterministic<FE: FuncEnvironment>() -> bool {
    forall|
        signature: Signature,
        op: wasmparser::Operator<'static>,
        from: Place<FE>,
        to: Place<FE>,
        other: Place<FE>,
    |
        #![trigger
            translates(signature, op, from, to),
            translates(signature, op, from, other)]
        translates(signature, op, from, to) && translates(signature, op, from, other) ==> {
            &&& to.environ == other.environ
            &&& to.builder == other.builder
            &&& to.state == other.state
        }
}

/// Whether the environment may get from one place to the other by an operator.
pub open spec fn translates<FE: FuncEnvironment>(
    signature: Signature,
    op: wasmparser::Operator<'static>,
    from: Place<FE>,
    to: Place<FE>,
) -> bool {
    FE::translated(
        signature,
        op,
        from.environ,
        from.builder,
        from.state,
        to.environ,
        to.builder,
        to.state,
    )
}

/// Two runs from the same place agree as far as both go.
proof fn lemma_runs_agree<FE: FuncEnvironment>(
    signature: Signature,
    start: Place<FE>,
    run: Seq<Place<FE>>,
    other: Seq<Place<FE>>,
    i: int,
)
    requires
        is_deterministic::<FE>(),
        is_run(signature, start, run),
        is_run(signature, start, other),
        0 <= i < run.len(),
        i < other.len(),
    ensures
        run[i] == other[i],
    decreases i,
{
    if i > 0 {
        lemma_runs_agree(signature, start, run, other, i - 1);
        assert(advances(signature, run, i - 1));
        assert(advances(signature, other, i - 1));
        let (op, _) = operator_at(run[i - 1].rest).unwrap();
        assert(translates(signature, op, run[i - 1], run[i]));
        assert(translates(signature, op, run[i - 1], other[i]));
    }
}

/// Where the environment is deterministic, the translation of a function has one outcome: the
/// result, what becomes of the environment, the body and the state, and what is left over, are all
/// determined by the signature, the code and the environment before.
///
/// So a translator that has been used before does what a new one does, and so does a translation
/// from a reader of the code.
pub proof fn law_outcome_is_determined<FE: FuncEnvironment>(
    signature: Signature,
    code: Seq<u8>,
    environ_before: FE,
    result: CtonResult,
    environ: FE,
    builder: BuilderView,
    state: StateView,
    left: Seq<u8>,
    other_result: CtonResult,
    other_environ: FE,
    other_builder: BuilderView,
    other_state: StateView,
    other_left: Seq<u8>,
)
    requires
        is_deterministic::<FE>(),
        is_translation(signature, code, environ_before, result, environ, builder, state, left),
        is_translation(
            signature,
            code,
            environ_before,
            other_result,
            other_environ,
            other_builder,
            other_state,
            other_left,
        ),
    ensures
        result == other_result,
        environ == other_environ,
        builder == other_builder,
        state == other_state,
        result is Ok ==> left == other_left,
{
    let args = signature.argument_types@;
    let (locals, rest) = with_all_decls(code, prologue(args), normal_count(args) as int);
    if locals.result is Ok {
        let start = Place {
            environ: environ_before,
            builder: locals.builder,
            state: StateView::initial(signature.return_types@, exit_block()),
            rest: rest.unwrap(),
        };
        let run = choose|run: Seq<Place<FE>>| #[trigger]
            is_run(signature, start, run) && is_end(
                run.last(),
                result,
                environ,
                builder,
                state,
                left,
            );
        let other = choose|run: Seq<Place<FE>>| #[trigger]
            is_run(signature, start, run) && is_end(
                run.last(),
                other_result,
                other_environ,
                other_builder,
                other_state,
                other_left,
            );
        if run.len() < other.len() {
            lemma_runs_agree(signature, start, run, other, run.len() - 1);
            assert(advances(signature, other, run.len() - 1));
        } else if other.len() < run.len() {
            lemma_runs_agree(signature, start, run, other, other.len() - 1);
            assert(advances(signature, run, other.len() - 1));
        } else {
            lemma_runs_agree(signature, start, run, other, run.len() - 1);
        }
    }
}

} // verus!
