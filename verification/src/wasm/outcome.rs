//! What a function translation comes to, told by the bytes, the operators and the steps alone.

use crate::frontend::{is_pristine, law_pristine_block, law_step_comes_last};
use crate::frontend::{BuilderView, StepView};
use crate::ir::entities::{Ebb, Local, Value};
use crate::ir::function::{ArgumentPurpose, ArgumentType, Signature};
use crate::ir::types::{LaneType, Type};
use crate::result::{CtonError, CtonResult};
use crate::wasm::environ::FuncEnvironment;
use crate::wasm::func_translator::{
    advances, argument_steps, closes_at_end, entry_block, exit_block, finished,
    is_body_translation, is_end, is_run, is_translation, prologue, translation_closes_at_end,
    with_all_decls, with_decls, with_locals, LocalsView, Place, MAX_LOCALS,
};
use crate::wasm::reader::{local_count_at, local_decl_at, operator_at, WasmType};
use crate::wasm::state::{lemma_normal_count, normal_count, StateView};
use vstd::prelude::*;

verus! {

/// What the argument steps are, for any way to tell the normal arguments.
proof fn lemma_argument_steps(args: Seq<ArgumentType>, normal: spec_fn(ArgumentType) -> bool)
    requires
        args.len() <= u32::MAX,
        forall|arg: ArgumentType| #[trigger]
            normal(arg) <==> arg.purpose == ArgumentPurpose::Normal,
    ensures
        ({
            let steps = argument_steps(args);
            let kept = args.filter(normal);
            &&& steps.len() == 2 * kept.len()
            &&& forall|k: int|
                0 <= k < kept.len() ==> {
                    &&& steps[2 * k] == StepView::DeclareVar(
                        Local(k as u32),
                        (#[trigger] kept[k]).value_type,
                    )
                    &&& steps[2 * k + 1] matches StepView::DefVar(var, val) && var == Local(
                        k as u32,
                    ) && val.0 < args.len() && args[val.0 as int] == kept[k]
                }
            &&& forall|p: int|
                0 <= p < args.len() && (#[trigger] args[p]).purpose == ArgumentPurpose::Normal
                    ==> {
                    let k = args.take(p).filter(normal).len() as int;
                    &&& k < kept.len()
                    &&& kept[k] == args[p]
                    &&& steps[2 * k + 1] == StepView::DefVar(Local(k as u32), Value(p as u32))
                }
        }),
    decreases args.len(),
{
    reveal(Seq::filter);
    if args.len() > 0 {
        let less = args.drop_last();
        let n = args.len() - 1;
        lemma_argument_steps(less, normal);
        lemma_normal_count(less, normal);
        let steps = argument_steps(args);
        let before = argument_steps(less);
        let kept = args.filter(normal);
        let last = less.filter(normal).len() as int;
        assert forall|k: int| 0 <= k < kept.len() implies {
            &&& steps[2 * k] == StepView::DeclareVar(
                Local(k as u32),
                (#[trigger] kept[k]).value_type,
            )
            &&& steps[2 * k + 1] matches StepView::DefVar(var, val) && var == Local(k as u32)
                && val.0 < args.len() && args[val.0 as int] == kept[k]
        } by {
            if k < last {
                assert(kept[k] == less.filter(normal)[k]);
                assert(steps[2 * k] == before[2 * k]);
                assert(steps[2 * k + 1] == before[2 * k + 1]);
            }
        }
        assert forall|p: int|
            0 <= p < args.len() && (#[trigger] args[p]).purpose
                == ArgumentPurpose::Normal implies {
            let k = args.take(p).filter(normal).len() as int;
            &&& k < kept.len()
            &&& kept[k] == args[p]
            &&& steps[2 * k + 1] == StepView::DefVar(Local(k as u32), Value(p as u32))
        } by {
            if p < n {
                assert(less[p] == args[p]);
                assert(args.take(p) =~= less.take(p));
            } else {
                assert(args.take(p) =~= less);
            }
        }
    }
}

/// The local variables for the arguments are those of the normal arguments, in order: the one with
/// number `k` has the type of the `k`-th normal argument and that argument as its value, and no
/// special-purpose argument is the value of any.
pub proof fn law_normal_arguments_are_locals(args: Seq<ArgumentType>)
    requires
        args.len() <= u32::MAX,
    ensures
        ({
            let steps = argument_steps(args);
            let kept = args.filter(
                |arg: ArgumentType| arg.purpose == ArgumentPurpose::Normal,
            );
            &&& normal_count(args) == kept.len()
            &&& steps.len() == 2 * kept.len()
            &&& forall|k: int|
                0 <= k < kept.len() ==> {
                    &&& steps[2 * k] == StepView::DeclareVar(
                        Local(k as u32),
                        (#[trigger] kept[k]).value_type,
                    )
                    &&& steps[2 * k + 1] matches StepView::DefVar(var, val) && var == Local(
                        k as u32,
                    ) && val.0 < args.len() && args[val.0 as int].purpose
                        == ArgumentPurpose::Normal
                }
            &&& forall|p: int|
                0 <= p < args.len() && (#[trigger] args[p]).purpose == ArgumentPurpose::Normal
                    ==> {
                    let k = args.take(p).filter(
                        |arg: ArgumentType| arg.purpose == ArgumentPurpose::Normal,
                    ).len() as int;
                    &&& k < kept.len()
                    &&& kept[k] == args[p]
                    &&& steps[2 * k + 1] == StepView::DefVar(Local(k as u32), Value(p as u32))
                }
            &&& forall|i: int, p: int|
                0 <= i < steps.len() && 0 <= p < args.len() && (#[trigger] args[p]).purpose
                    != ArgumentPurpose::Normal ==> !(#[trigger] steps[i] matches StepView::DefVar(
                    _,
                    val,
                ) && val == Value(p as u32))
        }),
{
    let normal = |arg: ArgumentType| arg.purpose == ArgumentPurpose::Normal;
    lemma_normal_count(args, normal);
    lemma_argument_steps(args, normal);
    let steps = argument_steps(args);
    let kept = args.filter(normal);
    assert forall|k: int| 0 <= k < kept.len() implies (#[trigger] kept[k]).purpose
        == ArgumentPurpose::Normal by {
        args.lemma_filter_pred(normal, k);
    }
    assert forall|i: int, p: int|
        0 <= i < steps.len() && 0 <= p < args.len() && (#[trigger] args[p]).purpose
            != ArgumentPurpose::Normal implies !(#[trigger] steps[i] matches StepView::DefVar(
        _,
        val,
    ) && val == Value(p as u32)) by {
        let k = i / 2;
        assert(kept[k].purpose == ArgumentPurpose::Normal);
        if i % 2 == 0 {
            assert(i == 2 * k);
        } else {
            assert(i == 2 * k + 1);
        }
    }
}

/// A body starts with an entry block, which is sealed and inserted before anything else happens;
/// then come the local variables for the arguments, and last the exit block is made. Each argument
/// has a value of its type.
pub proof fn law_prologue_is_complete(args: Seq<ArgumentType>)
    ensures
        ({
            let steps = prologue(args).steps;
            let n = argument_steps(args).len() as int;
            &&& steps.len() == n + 5
            &&& steps[0] == StepView::CreateEbb(Ebb(0))
            &&& steps[1] == StepView::SwitchToBlock(Ebb(0))
            &&& steps[2] == StepView::SealBlock(Ebb(0))
            &&& steps[3] == StepView::EnsureInsertedEbb
            &&& steps.subrange(4, n + 4) == argument_steps(args)
            &&& steps[n + 4] == StepView::CreateEbb(Ebb(1))
            &&& entry_block() == Ebb(0)
            &&& exit_block() == Ebb(1)
            &&& prologue(args).num_ebbs == 2
            &&& !prologue(args).unreachable
            &&& prologue(args).values.len() == args.len()
            &&& forall|p: int|
                0 <= p < args.len() ==> prologue(args).values[p] == (
                #[trigger] args[p]).value_type
        }),
{
    let n = argument_steps(args).len() as int;
    assert(prologue(args).steps.subrange(4, n + 4) =~= argument_steps(args));
}

/// A declaration of `count` local variables of a WebAssembly number type makes a zero of that type
/// and declares all of them if there is room below the limit, each with that type and that zero,
/// numbered from the next one on. If there is none left for some, it declares those that there is
/// room for and fails. Of any other type it declares nothing and fails.
pub proof fn law_declaration_is_exact(
    builder: BuilderView,
    next_local: int,
    count: int,
    wasm_type: WasmType,
)
    requires
        builder.values.len() < u32::MAX,
        0 <= next_local,
        0 <= count,
    ensures
        ({
            let locals = with_locals(builder, next_local, count, wasm_type);
            let (zero, lane) = match wasm_type {
                WasmType::I32 => (
                    StepView::Iconst(Type { lane: LaneType::I32, lanes: 1 }, 0),
                    LaneType::I32,
                ),
                WasmType::I64 => (
                    StepView::Iconst(Type { lane: LaneType::I64, lanes: 1 }, 0),
                    LaneType::I64,
                ),
                WasmType::F32 => (StepView::F32const(0), LaneType::F32),
                WasmType::F64 => (StepView::F64const(0), LaneType::F64),
                _ => (StepView::EnsureInsertedEbb, LaneType::Void),
            };
            let ty = Type { lane, lanes: 1 };
            let n = builder.steps.len() as int;
            let declared = locals.next_local - next_local;
            &&& lane == LaneType::Void ==> {
                &&& locals.result == CtonResult::Err(CtonError::InvalidInput)
                &&& locals.builder == builder
                &&& locals.next_local == next_local
            }
            &&& lane != LaneType::Void ==> {
                &&& locals.result is Ok <==> count == 0 || next_local + count <= MAX_LOCALS
                &&& locals.result is Err ==> locals.result == CtonResult::Err(
                    CtonError::ImplLimitExceeded,
                )
                &&& locals.result is Ok ==> locals.next_local == next_local + count
                &&& locals.result is Err && next_local <= MAX_LOCALS ==> locals.next_local
                    == MAX_LOCALS
                &&& locals.result is Err && next_local > MAX_LOCALS ==> locals.next_local
                    == next_local
                &&& locals.builder.steps.len() == n + 1 + 2 * declared
                &&& locals.builder.steps.take(n) == builder.steps
                &&& locals.builder.steps[n] == zero
                &&& forall|i: int|
                    #![trigger locals.builder.steps[n + 1 + 2 * i]]
                    #![trigger locals.builder.steps[n + 2 + 2 * i]]
                    0 <= i < declared ==> {
                        let local = Local((next_local + i) as u32);
                        &&& locals.builder.steps[n + 1 + 2 * i] == StepView::DeclareVar(local, ty)
                        &&& locals.builder.steps[n + 2 + 2 * i] == StepView::DefVar(
                            local,
                            Value(builder.values.len() as u32),
                        )
                    }
                &&& locals.builder.values.len() == builder.values.len() + 1
                &&& locals.builder.values.drop_last() == builder.values
                &&& locals.builder.values.last() == ty
                &&& locals.builder.num_ebbs == builder.num_ebbs
                &&& locals.builder.unreachable == builder.unreachable
            }
        }),
{
    let locals = with_locals(builder, next_local, count, wasm_type);
    let n = builder.steps.len() as int;
    match wasm_type {
        WasmType::I32 | WasmType::I64 | WasmType::F32 | WasmType::F64 => {
            assert(locals.builder.steps.take(n) =~= builder.steps);
            assert(locals.builder.values.drop_last() =~= builder.values);
        },
        _ => {},
    }
}

/// The declarations that are read one after the other, and what becomes of the local variables.
proof fn lemma_declarations(
    bytes: Seq<u8>,
    count: nat,
    locals_total: int,
    builder: BuilderView,
    next_local: int,
) -> (trace: (Seq<(u32, WasmType)>, Seq<Seq<u8>>, Seq<int>, Seq<LocalsView>))
    ensures
        ({
            let (decls, rests, totals, made) = trace;
            let (locals, rest) = with_decls(bytes, count, locals_total, builder, next_local);
            let n = decls.len() as int;
            &&& n <= count
            &&& rests.len() == n + 1
            &&& totals.len() == n + 1
            &&& made.len() == n + 1
            &&& rests[0] == bytes
            &&& totals[0] == locals_total
            &&& made[0] == (LocalsView { builder, next_local, result: Ok(()) })
            &&& forall|i: int|
                0 <= i < n ==> {
                    let (m, ty) = #[trigger] decls[i];
                    &&& made[i].result is Ok
                    &&& local_decl_at(rests[i], totals[i]) matches Some((number, of, read))
                        && number == m && of == ty && rests[i + 1] == rests[i].skip(read)
                    &&& totals[i + 1] == totals[i] + m
                    &&& made[i + 1] == with_locals(
                        made[i].builder,
                        made[i].next_local,
                        m as int,
                        ty,
                    )
                }
            &&& locals.builder == made[n].builder
            &&& locals.next_local == made[n].next_local
            &&& made[n].result is Err ==> locals.result == made[n].result && rest == Some(rests[n])
            &&& made[n].result is Ok && n == count ==> locals.result is Ok && rest == Some(
                rests[n],
            )
            &&& made[n].result is Ok && n < count ==> {
                &&& local_decl_at(rests[n], totals[n]) is None
                &&& locals.result == CtonResult::Err(CtonError::InvalidInput)
                &&& rest is None
            }
        }),
    decreases count,
{
    let start = LocalsView { builder, next_local, result: Ok(()) };
    let none = (Seq::empty(), seq![bytes], seq![locals_total], seq![start]);
    if count == 0 {
        none
    } else {
        match local_decl_at(bytes, locals_total) {
            None => none,
            Some((m, ty, read)) => {
                let next = with_locals(builder, next_local, m as int, ty);
                if next.result is Err {
                    let decls = seq![(m, ty)];
                    let rests = seq![bytes, bytes.skip(read)];
                    let totals = seq![locals_total, locals_total + m];
                    let made = seq![start, next];
                    assert(decls[0] == (m, ty));
                    (decls, rests, totals, made)
                } else {
                    let (d, r, t, l) = lemma_declarations(
                        bytes.skip(read),
                        (count - 1) as nat,
                        locals_total + m,
                        next.builder,
                        next.next_local,
                    );
                    let decls = seq![(m, ty)] + d;
                    let rests = seq![bytes] + r;
                    let totals = seq![locals_total] + t;
                    let made = seq![start] + l;
                    assert(l[0] == next);
                    assert forall|i: int| 0 <= i < decls.len() implies {
                        let (m, ty) = #[trigger] decls[i];
                        &&& made[i].result is Ok
                        &&& local_decl_at(rests[i], totals[i]) matches Some((number, of, read))
                            && number == m && of == ty && rests[i + 1] == rests[i].skip(read)
                        &&& totals[i + 1] == totals[i] + m
                        &&& made[i + 1] == with_locals(
                            made[i].builder,
                            made[i].next_local,
                            m as int,
                            ty,
                        )
                    } by {
                        if i > 0 {
                            assert(decls[i] == d[i - 1]);
                            assert(rests[i + 1] == r[i]);
                            assert(totals[i + 1] == t[i]);
                            assert(made[i + 1] == l[i]);
                        }
                    }
                    (decls, rests, totals, made)
                }
            },
        }
    }
}

/// The local declarations are read and made one after the other, as many as the code says there
/// are: each from the bytes after the one before it, with the variables that were declared so far
/// counted, and from the number after the last variable. All that follows stops at the first that
/// cannot be read or made; and where all are made, there may not be too many variables with the
/// arguments.
pub proof fn law_declarations_are_followed(
    code: Seq<u8>,
    builder: BuilderView,
    num_args: int,
) -> (trace: (Seq<(u32, WasmType)>, Seq<Seq<u8>>, Seq<int>, Seq<LocalsView>))
    requires
        0 <= num_args,
    ensures
        ({
            let (decls, rests, totals, made) = trace;
            let (locals, rest) = with_all_decls(code, builder, num_args);
            let n = decls.len() as int;
            match local_count_at(code) {
                None => {
                    &&& locals.result == CtonResult::Err(CtonError::InvalidInput)
                    &&& locals.builder == builder
                    &&& locals.next_local == num_args
                    &&& rest is None
                },
                Some((count, read)) => {
                    &&& n <= count
                    &&& rests.len() == n + 1
                    &&& totals.len() == n + 1
                    &&& made.len() == n + 1
                    &&& rests[0] == code.skip(read)
                    &&& totals[0] == 0
                    &&& made[0].builder == builder
                    &&& made[0].next_local == num_args
                    &&& made[0].result is Ok
                    &&& forall|i: int|
                        0 <= i < n ==> {
                            let (m, ty) = #[trigger] decls[i];
                            &&& made[i].result is Ok
                            &&& local_decl_at(rests[i], totals[i]) matches Some((number, of, read))
                                && number == m && of == ty && rests[i + 1] == rests[i].skip(read)
                            &&& totals[i + 1] == totals[i] + m
                            &&& made[i + 1] == with_locals(
                                made[i].builder,
                                made[i].next_local,
                                m as int,
                                ty,
                            )
                            &&& made[i + 1].result is Ok ==> made[i + 1].next_local == num_args
                                + totals[i + 1]
                        }
                    &&& locals.builder == made[n].builder
                    &&& locals.next_local == made[n].next_local
                    &&& made[n].result is Err ==> locals.result == made[n].result && rest == Some(
                        rests[n],
                    )
                    &&& made[n].result is Ok && n < count ==> {
                        &&& local_decl_at(rests[n], totals[n]) is None
                        &&& locals.result == CtonResult::Err(CtonError::InvalidInput)
                        &&& rest is None
                    }
                    &&& made[n].result is Ok && n == count ==> {
                        &&& rest == Some(rests[n])
                        &&& locals.next_local == num_args + totals[n]
                        &&& locals.next_local <= MAX_LOCALS ==> locals.result is Ok
                        &&& locals.next_local > MAX_LOCALS ==> locals.result == CtonResult::Err(
                            CtonError::ImplLimitExceeded,
                        )
                    }
                },
            }
        }),
{
    match local_count_at(code) {
        None => (Seq::empty(), Seq::empty(), Seq::empty(), Seq::empty()),
        Some((count, read)) => {
            let trace = lemma_declarations(code.skip(read), count as nat, 0, builder, num_args);
            lemma_declared_so_far(trace.0, trace.2, trace.3, num_args, trace.0.len() as int);
            trace
        },
    }
}

/// As long as declarations succeed, there is a variable for each argument and for each one that was
/// declared.
proof fn lemma_declared_so_far(
    decls: Seq<(u32, WasmType)>,
    totals: Seq<int>,
    made: Seq<LocalsView>,
    num_args: int,
    n: int,
)
    requires
        0 <= n <= decls.len(),
        totals.len() == decls.len() + 1,
        made.len() == decls.len() + 1,
        totals[0] == 0,
        made[0].next_local == num_args,
        forall|i: int|
            0 <= i < decls.len() ==> {
                let (m, ty) = #[trigger] decls[i];
                &&& made[i].result is Ok
                &&& totals[i + 1] == totals[i] + m
                &&& made[i + 1] == with_locals(
                    made[i].builder,
                    made[i].next_local,
                    m as int,
                    ty,
                )
            },
    ensures
        forall|i: int|
            0 <= i <= n && (#[trigger] made[i]).result is Ok ==> made[i].next_local == num_args
                + totals[i],
    decreases n,
{
    if n > 0 {
        lemma_declared_so_far(decls, totals, made, num_args, n - 1);
        assert(decls[n - 1] == decls[n - 1]);
        assert(made[n - 1].result is Ok);
    }
}

/// The return is the one step that comes last in a body whose exit block is reachable; an
/// unreachable exit block gets none.
pub proof fn law_return_comes_last(builder: BuilderView, stack: Seq<Value>)
    ensures
        builder.unreachable ==> finished(builder, stack) == builder,
        !builder.unreachable ==> {
            let last = finished(builder, stack);
            &&& last.steps.len() == builder.steps.len() + 1
            &&& last.steps.last() == StepView::Return(stack)
            &&& last.steps.drop_last() == builder.steps
            &&& last.values == builder.values
            &&& last.num_ebbs == builder.num_ebbs
            &&& last.unreachable == builder.unreachable
        },
{
    law_step_comes_last(builder, StepView::Return(stack));
}

/// The operators are handed to the environment in order, each decoded from the bytes after the one
/// before it, as long as a control block is open, however many are. That ends well exactly where
/// none is open any more: the body is finished with the return, and what is left over is what comes
/// after the last operator. It fails only where one is open and no operator can be decoded, and adds
/// nothing there.
pub proof fn law_operators_are_followed<FE: FuncEnvironment>(
    signature: Signature,
    start: Place<FE>,
    result: CtonResult,
    environ: FE,
    builder: BuilderView,
    state: StateView,
    left: Seq<u8>,
) -> (places: Seq<Place<FE>>)
    requires
        is_body_translation(signature, start, result, environ, builder, state, left),
    ensures
        places.len() > 0,
        places[0] == start,
        forall|i: int|
            0 <= i < places.len() - 1 ==> {
                let from = #[trigger] places[i];
                let to = places[i + 1];
                &&& from.state.control_stack.len() > 0
                &&& operator_at(from.rest) matches Some((op, read)) && to.rest == from.rest.skip(
                    read,
                ) && FE::translated(
                    signature,
                    op,
                    from.environ,
                    from.builder,
                    from.state,
                    to.environ,
                    to.builder,
                    to.state,
                )
            },
        environ == places.last().environ,
        state == places.last().state,
        result is Ok <==> state.control_stack.len() == 0,
        result is Ok ==> {
            let last = places.last().builder;
            &&& left == places.last().rest
            &&& builder.values == last.values
            &&& builder.num_ebbs == last.num_ebbs
            &&& builder.unreachable == last.unreachable
            &&& last.unreachable ==> builder.steps == last.steps
            &&& !last.unreachable ==> builder.steps == last.steps.push(
                StepView::Return(state.stack),
            )
        },
        result is Err ==> {
            &&& result == CtonResult::Err(CtonError::InvalidInput)
            &&& operator_at(places.last().rest) is None
            &&& builder == places.last().builder
        },
{
    let run = choose|run: Seq<Place<FE>>| #[trigger]
        is_run(signature, start, run) && is_end(
            run.last(),
            result,
            environ,
            builder,
            state,
            left,
        );
    assert forall|i: int| 0 <= i < run.len() - 1 implies {
        let from = #[trigger] run[i];
        let to = run[i + 1];
        &&& from.state.control_stack.len() > 0
        &&& operator_at(from.rest) matches Some((op, read)) && to.rest == from.rest.skip(read)
            && FE::translated(
            signature,
            op,
            from.environ,
            from.builder,
            from.state,
            to.environ,
            to.builder,
            to.state,
        )
    } by {
        assert(advances(signature, run, i));
    }
    run
}

/// Where the environment makes one thing only of each operator, a way through the operators that
/// ends where no control block is open, or where no operator can be decoded, is the way that is
/// taken, and the outcome is the one at its end: success in the first case, whatever was open on the
/// way, and failure in the second.
pub proof fn law_way_is_taken<FE: FuncEnvironment>(
    signature: Signature,
    places: Seq<Place<FE>>,
    result: CtonResult,
    environ: FE,
    builder: BuilderView,
    state: StateView,
    left: Seq<u8>,
)
    requires
        forall|
            op: wasmparser::Operator<'static>,
            from: Place<FE>,
            to: Place<FE>,
            other: Place<FE>,
        |
            #[trigger] FE::translated(
                signature,
                op,
                from.environ,
                from.builder,
                from.state,
                to.environ,
                to.builder,
                to.state,
            ) && #[trigger] FE::translated(
                signature,
                op,
                from.environ,
                from.builder,
                from.state,
                other.environ,
                other.builder,
                other.state,
            ) ==> to.environ == other.environ && to.builder == other.builder && to.state
                == other.state,
        places.len() > 0,
        forall|i: int|
            0 <= i < places.len() - 1 ==> {
                let from = #[trigger] places[i];
                let to = places[i + 1];
                &&& from.state.control_stack.len() > 0
                &&& operator_at(from.rest) matches Some((op, read)) && to.rest == from.rest.skip(
                    read,
                ) && FE::translated(
                    signature,
                    op,
                    from.environ,
                    from.builder,
                    from.state,
                    to.environ,
                    to.builder,
                    to.state,
                )
            },
        places.last().state.control_stack.len() == 0 || operator_at(places.last().rest) is None,
        is_body_translation(signature, places[0], result, environ, builder, state, left),
    ensures
        environ == places.last().environ,
        state == places.last().state,
        places.last().state.control_stack.len() == 0 ==> {
            let last = places.last().builder;
            &&& result is Ok
            &&& left == places.last().rest
            &&& builder.values == last.values
            &&& builder.num_ebbs == last.num_ebbs
            &&& builder.unreachable == last.unreachable
            &&& last.unreachable ==> builder.steps == last.steps
            &&& !last.unreachable ==> builder.steps == last.steps.push(
                StepView::Return(state.stack),
            )
        },
        places.last().state.control_stack.len() > 0 ==> {
            &&& result == CtonResult::Err(CtonError::InvalidInput)
            &&& builder == places.last().builder
        },
{
    let taken = law_operators_are_followed(
        signature,
        places[0],
        result,
        environ,
        builder,
        state,
        left,
    );
    let n = if taken.len() < places.len() { taken.len() - 1 } else { places.len() - 1 };
    lemma_ways_agree(signature, places, taken, n);
    if taken.len() < places.len() {
        assert(places[n].state.control_stack.len() > 0);
    } else if places.len() < taken.len() {
        assert(taken[n].state.control_stack.len() > 0);
    }
}

/// Two ways through the same operators agree as far as both go.
proof fn lemma_ways_agree<FE: FuncEnvironment>(
    signature: Signature,
    places: Seq<Place<FE>>,
    others: Seq<Place<FE>>,
    n: int,
)
    requires
        forall|
            op: wasmparser::Operator<'static>,
            from: Place<FE>,
            to: Place<FE>,
            other: Place<FE>,
        |
            #[trigger] FE::translated(
                signature,
                op,
                from.environ,
                from.builder,
                from.state,
                to.environ,
                to.builder,
                to.state,
            ) && #[trigger] FE::translated(
                signature,
                op,
                from.environ,
                from.builder,
                from.state,
                other.environ,
                other.builder,
                other.state,
            ) ==> to.environ == other.environ && to.builder == other.builder && to.state
                == other.state,
        0 <= n < places.len(),
        n < others.len(),
        places[0] == others[0],
        forall|i: int|
            0 <= i < places.len() - 1 ==> {
                let from = #[trigger] places[i];
                let to = places[i + 1];
                operator_at(from.rest) matches Some((op, read)) && to.rest == from.rest.skip(read)
                    && FE::translated(
                    signature,
                    op,
                    from.environ,
                    from.builder,
                    from.state,
                    to.environ,
                    to.builder,
                    to.state,
                )
            },
        forall|i: int|
            0 <= i < others.len() - 1 ==> {
                let from = #[trigger] others[i];
                let to = others[i + 1];
                operator_at(from.rest) matches Some((op, read)) && to.rest == from.rest.skip(read)
                    && FE::translated(
                    signature,
                    op,
                    from.environ,
                    from.builder,
                    from.state,
                    to.environ,
                    to.builder,
                    to.state,
                )
            },
    ensures
        places[n] == others[n],
    decreases n,
{
    if n > 0 {
        lemma_ways_agree(signature, places, others, n - 1);
        let from = places[n - 1];
        assert(others[n - 1] == from);
        assert(places[n - 1 + 1] == places[n]);
        assert(others[n - 1 + 1] == others[n]);
    }
}

/// A translation first makes the arguments and then the declared variables local. If that fails,
/// it fails in the same way, with the body that far, and the environment is not asked for anything.
/// Otherwise it is a translation of the operators after the declarations, from that body and from
/// a state with the function itself as the one open control block.
pub proof fn law_translation_is_complete<FE: FuncEnvironment>(
    signature: Signature,
    code: Seq<u8>,
    environ_before: FE,
    result: CtonResult,
    environ: FE,
    builder: BuilderView,
    state: StateView,
    left: Seq<u8>,
)
    ensures
        ({
            let args = signature.argument_types@;
            let (locals, rest) = with_all_decls(
                code,
                prologue(args),
                args.filter(
                    |arg: ArgumentType| arg.purpose == ArgumentPurpose::Normal,
                ).len() as int,
            );
            let initial = StateView::initial(signature.return_types@, Ebb(1));
            is_translation(signature, code, environ_before, result, environ, builder, state, left)
                <==> {
                &&& locals.result is Err ==> {
                    &&& result == locals.result
                    &&& environ == environ_before
                    &&& builder == locals.builder
                    &&& state == initial
                }
                &&& locals.result is Ok ==> is_body_translation(
                    signature,
                    Place {
                        environ: environ_before,
                        builder: locals.builder,
                        state: initial,
                        rest: rest.unwrap(),
                    },
                    result,
                    environ,
                    builder,
                    state,
                    left,
                )
            }
        }),
{
    let normal = |arg: ArgumentType| arg.purpose == ArgumentPurpose::Normal;
    lemma_normal_count(signature.argument_types@, normal);
}

/// A body closes at the end of its code if every way through its operators to a place where no
/// control block is open leaves no bytes, and each instruction there comes before a switch to a
/// block.
pub proof fn law_body_closes_at_end<FE: FuncEnvironment>(signature: Signature, start: Place<FE>)
    requires
        forall|places: Seq<Place<FE>>|
            places.len() > 0 && places[0] == start && (#[trigger] places.last())
                .state.control_stack.len() == 0 && (forall|i: int|
                0 <= i < places.len() - 1 ==> {
                    let from = #[trigger] places[i];
                    let to = places[i + 1];
                    &&& from.state.control_stack.len() > 0
                    &&& operator_at(from.rest) matches Some((op, read)) && to.rest
                        == from.rest.skip(read) && FE::translated(
                        signature,
                        op,
                        from.environ,
                        from.builder,
                        from.state,
                        to.environ,
                        to.builder,
                        to.state,
                    )
                }) ==> {
                let steps = places.last().builder.steps;
                &&& places.last().rest.len() == 0
                &&& forall|i: int|
                    0 <= i < steps.len() && (#[trigger] steps[i] is Iconst || steps[i] is F32const
                        || steps[i] is F64const || steps[i] is Return || steps[i] is Inst)
                        ==> exists|j: int|
                        i < j < steps.len() && #[trigger] steps[j] is SwitchToBlock
            },
    ensures
        closes_at_end(signature, start),
{
    assert forall|run: Seq<Place<FE>>| #[trigger]
        is_run(signature, start, run) && run.last().state.control_stack.len() == 0 implies {
        &&& run.last().rest.len() == 0
        &&& is_pristine(run.last().builder.steps)
    } by {
        assert forall|i: int| 0 <= i < run.len() - 1 implies {
            let from = #[trigger] run[i];
            let to = run[i + 1];
            &&& from.state.control_stack.len() > 0
            &&& operator_at(from.rest) matches Some((op, read)) && to.rest == from.rest.skip(read)
                && FE::translated(
                signature,
                op,
                from.environ,
                from.builder,
                from.state,
                to.environ,
                to.builder,
                to.state,
            )
        } by {
            assert(advances(signature, run, i));
        }
        law_pristine_block(run.last().builder.steps);
    }
}

/// A function closes at the end of its code if its local declarations fail, or if its body does.
pub proof fn law_function_closes_at_end<FE: FuncEnvironment>(
    signature: Signature,
    code: Seq<u8>,
    environ: FE,
)
    ensures
        ({
            let args = signature.argument_types@;
            let (locals, rest) = with_all_decls(
                code,
                prologue(args),
                args.filter(
                    |arg: ArgumentType| arg.purpose == ArgumentPurpose::Normal,
                ).len() as int,
            );
            translation_closes_at_end(signature, code, environ) <==> locals.result is Err
                || closes_at_end(
                signature,
                Place {
                    environ,
                    builder: locals.builder,
                    state: StateView::initial(signature.return_types@, Ebb(1)),
                    rest: rest.unwrap(),
                },
            )
        }),
{
    let normal = |arg: ArgumentType| arg.purpose == ArgumentPurpose::Normal;
    lemma_normal_count(signature.argument_types@, normal);
}

} // verus!
