use cretonne::frontend::{FunctionBuilder, Step};
use cretonne::ir::entities::{Ebb, Local, Value};
use cretonne::ir::function::{ArgumentPurpose, ArgumentType, Function, Signature};
use cretonne::ir::types::{LaneType, Type};
use cretonne::result::CtonError;
use cretonne::wasm::environ::FuncEnvironment;
use cretonne::wasm::func_translator::{
    declare_locals, declare_wasm_arguments, finish_function_body, parse_function_body,
    parse_local_decls, translate_operators, FuncTranslator, MAX_LOCALS,
};
use cretonne::wasm::reader::{BinaryReader, WasmType};
use cretonne::wasm::state::{ControlFrame, TranslationState};
use wasmparser::Operator;

const I32: Type = Type { lane: LaneType::I32, lanes: 1 };
const I64: Type = Type { lane: LaneType::I64, lanes: 1 };
const F32: Type = Type { lane: LaneType::F32, lanes: 1 };
const F64: Type = Type { lane: LaneType::F64, lanes: 1 };

const IADD: u32 = 1;
const JUMP: u32 = 2;

/// Translates a handful of operators, and keeps the names of those that it was asked for.
struct DummyRuntime {
    operators: Vec<String>,
    vars: Vec<Value>,
    dead: bool,
    exit_reached: bool,
}

impl DummyRuntime {
    fn new() -> DummyRuntime {
        DummyRuntime { operators: Vec::new(), vars: Vec::new(), dead: false, exit_reached: false }
    }

    fn value_of(&self, builder: &FunctionBuilder, index: u32) -> Value {
        let mut found = None;
        for step in builder.steps.iter() {
            if let Step::DefVar(Local(local), val) = step {
                if *local == index {
                    found = Some(*val);
                }
            }
        }
        found.unwrap()
    }
}

impl FuncEnvironment for DummyRuntime {
    fn translate_operator(
        &mut self,
        signature: &Signature,
        op: &Operator,
        builder: &mut FunctionBuilder,
        state: &mut TranslationState,
    ) {
        self.operators.push(format!("{:?}", op));
        match *op {
            Operator::GetLocal { local_index } => {
                let val = self.value_of(builder, local_index);
                state.stack.push(val);
            }
            Operator::SetLocal { local_index } => {
                let val = state.stack.pop().unwrap();
                builder.def_var(Local(local_index), val);
                self.vars.push(val);
            }
            Operator::I32Const { value } => {
                let val = builder.iconst(I32, value as i64);
                state.stack.push(val);
            }
            Operator::I32Add => {
                let rhs = state.stack.pop().unwrap();
                let lhs = state.stack.pop().unwrap();
                builder.steps.push(Step::Inst(IADD, vec![lhs, rhs], vec![]));
                state.stack.push(Value(builder.values.len() as u32));
                builder.values.push(I32);
            }
            Operator::Return => {
                let n = signature.return_types.len();
                let at = state.stack.len() - n;
                let args = state.stack.split_off(at);
                builder.return_(&args);
                self.dead = true;
            }
            Operator::Loop { .. } => {
                let header = builder.create_ebb();
                builder.steps.push(Step::Inst(JUMP, vec![], vec![header]));
                state.control_stack.push(ControlFrame {
                    destination: header,
                    num_return_values: 1,
                    original_stack_size: state.stack.len(),
                });
            }
            Operator::Br { relative_depth } => {
                let at = state.control_stack.len() - 1 - relative_depth as usize;
                let dest = state.control_stack[at].destination;
                builder.steps.push(Step::Inst(JUMP, vec![], vec![dest]));
                self.dead = true;
            }
            Operator::End => {
                let frame = state.control_stack.pop().unwrap();
                if state.control_stack.is_empty() {
                    // The results are the arguments of the exit block.
                    let exit = frame.destination;
                    if !self.dead {
                        let at = state.stack.len() - frame.num_return_values;
                        let results = state.stack.split_off(at);
                        for val in results.iter() {
                            state.stack.push(Value(builder.values.len() as u32));
                            builder.values.push(builder.value_type(*val));
                        }
                        builder.steps.push(Step::Inst(JUMP, results, vec![exit]));
                    }
                    builder.steps.push(Step::SwitchToBlock(exit));
                    builder.seal_block(exit);
                    self.exit_reached = !self.dead;
                    builder.unreachable = self.dead;
                }
            }
            _ => panic!("operator"),
        }
    }
}

fn function(args: &[Type], results: &[Type]) -> Function {
    let mut func = Function::new();
    for ty in args {
        func.signature.argument_types.push(ArgumentType::new(*ty));
    }
    for ty in results {
        func.signature.return_types.push(ArgumentType::new(*ty));
    }
    func
}

#[test]
fn small1() {
    // Implicit return.
    //
    // (func $small1 (param i32) (result i32)
    //     (i32.add (get_local 0) (i32.const 1))
    // )
    const BODY: [u8; 7] = [
        0x00, // local decl count
        0x20, 0x00, // get_local 0
        0x41, 0x01, // i32.const 1
        0x6a, // i32.add
        0x0b, // end
    ];

    let mut trans = FuncTranslator::new();
    let mut runtime = DummyRuntime::new();
    let mut func = function(&[I32], &[I32]);
    func.name = "small1".to_string();

    trans.translate(&BODY, &mut func, &mut runtime).unwrap();
    assert_eq!(func.name, "small1");
    assert_eq!(
        runtime.operators,
        vec!["GetLocal { local_index: 0 }", "I32Const { value: 1 }", "I32Add", "End"]
    );
    assert_eq!(
        func.body.steps,
        vec![
            Step::CreateEbb(Ebb(0)),
            Step::SwitchToBlock(Ebb(0)),
            Step::SealBlock(Ebb(0)),
            Step::EnsureInsertedEbb,
            Step::DeclareVar(Local(0), I32),
            Step::DefVar(Local(0), Value(0)),
            Step::CreateEbb(Ebb(1)),
            Step::Iconst(I32, 1),
            Step::Inst(IADD, vec![Value(0), Value(1)], vec![]),
            Step::Inst(JUMP, vec![Value(2)], vec![Ebb(1)]),
            Step::SwitchToBlock(Ebb(1)),
            Step::SealBlock(Ebb(1)),
            Step::Return(vec![Value(3)]),
        ]
    );
    assert_eq!(func.body.values, vec![I32, I32, I32, I32]);
    assert!(runtime.exit_reached);
}

#[test]
fn small2() {
    // Same as above, but with an explicit return instruction.
    //
    // (func $small2 (param i32) (result i32)
    //     (return (i32.add (get_local 0) (i32.const 1)))
    // )
    const BODY: [u8; 8] = [
        0x00, // local decl count
        0x20, 0x00, // get_local 0
        0x41, 0x01, // i32.const 1
        0x6a, // i32.add
        0x0f, // return
        0x0b, // end
    ];

    let mut trans = FuncTranslator::new();
    let mut runtime = DummyRuntime::new();
    let mut func = function(&[I32], &[I32]);
    func.name = "small2".to_string();

    trans.translate(&BODY, &mut func, &mut runtime).unwrap();
    assert_eq!(runtime.operators.len(), 5);
    // The exit block is unreachable, so nothing is added after the explicit return.
    assert_eq!(
        func.body.steps[9..],
        [
            Step::Return(vec![Value(2)]),
            Step::SwitchToBlock(Ebb(1)),
            Step::SealBlock(Ebb(1)),
        ]
    );
    assert!(!runtime.exit_reached);
}

#[test]
fn infloop() {
    // An infinite loop, no return instructions.
    //
    // (func $infloop (result i32)
    //     (local i32)
    //     (loop (result i32)
    //         (i32.add (get_local 0) (i32.const 1))
    //         (set_local 0)
    //         (br 0)
    //     )
    // )
    const BODY: [u8; 16] = [
        0x01, // 1 local decl.
        0x01, 0x7f, // 1 i32 local.
        0x03, 0x7f, // loop i32
        0x20, 0x00, // get_local 0
        0x41, 0x01, // i32.const 0
        0x6a, // i32.add
        0x21, 0x00, // set_local 0
        0x0c, 0x00, // br 0
        0x0b, // end
        0x0b, // end
    ];

    let mut trans = FuncTranslator::new();
    let mut runtime = DummyRuntime::new();
    let mut func = function(&[], &[I32]);
    func.name = "infloop".to_string();

    trans.translate(&BODY, &mut func, &mut runtime).unwrap();
    assert_eq!(runtime.operators.len(), 8);
    assert_eq!(
        func.body.steps[4..8],
        [
            Step::CreateEbb(Ebb(1)),
            Step::Iconst(I32, 0),
            Step::DeclareVar(Local(0), I32),
            Step::DefVar(Local(0), Value(0)),
        ]
    );
    assert!(!func.body.steps.iter().any(|step| matches!(step, Step::Return(_))));
    let before_exit = func.body.steps.len() - 3;
    assert_eq!(
        func.body.steps[before_exit..],
        [
            Step::Inst(JUMP, vec![], vec![Ebb(2)]),
            Step::SwitchToBlock(Ebb(1)),
            Step::SealBlock(Ebb(1)),
        ]
    );
}

#[test]
fn special_arguments_are_no_locals() {
    let mut func = function(&[I64, F32], &[]);
    func.signature.argument_types.insert(
        1,
        ArgumentType { value_type: I64, purpose: ArgumentPurpose::VMContext },
    );
    let mut trans = FuncTranslator::new();
    let mut runtime = DummyRuntime::new();
    assert_eq!(trans.translate(&[0x00, 0x0b], &mut func, &mut runtime), Ok(()));
    assert_eq!(func.body.values, vec![I64, I64, F32]);
    assert_eq!(
        func.body.steps[4..],
        [
            Step::DeclareVar(Local(0), I64),
            Step::DefVar(Local(0), Value(0)),
            Step::DeclareVar(Local(1), F32),
            Step::DefVar(Local(1), Value(2)),
            Step::CreateEbb(Ebb(1)),
            Step::Inst(JUMP, vec![], vec![Ebb(1)]),
            Step::SwitchToBlock(Ebb(1)),
            Step::SealBlock(Ebb(1)),
            Step::Return(vec![]),
        ]
    );
}

#[test]
fn arguments_are_counted() {
    let mut builder = FunctionBuilder::new();
    let func = function(&[I32, F64], &[]);
    let entry = builder.create_ebb();
    builder.switch_to_entry_block(entry, &func.signature.argument_types);
    assert_eq!(declare_wasm_arguments(&mut builder, &func.signature), 2);
    assert_eq!(builder.arg_value(1), Value(1));
    assert_eq!(builder.value_type(Value(1)), F64);
}

#[test]
fn locals_of_each_type() {
    let code = [
        0x04, // 4 local decls.
        0x02, 0x7f, // 2 i32 locals
        0x01, 0x7e, // 1 i64 local
        0x00, 0x7d, // no f32 local
        0x01, 0x7c, // 1 f64 local
        0x0b, // end
    ];
    let mut func = function(&[F32], &[]);
    let mut trans = FuncTranslator::new();
    let mut runtime = DummyRuntime::new();
    assert_eq!(trans.translate(&code, &mut func, &mut runtime), Ok(()));
    assert_eq!(
        func.body.steps[7..],
        [
            Step::Iconst(I32, 0),
            Step::DeclareVar(Local(1), I32),
            Step::DefVar(Local(1), Value(1)),
            Step::DeclareVar(Local(2), I32),
            Step::DefVar(Local(2), Value(1)),
            Step::Iconst(I64, 0),
            Step::DeclareVar(Local(3), I64),
            Step::DefVar(Local(3), Value(2)),
            Step::F32const(0),
            Step::F64const(0),
            Step::DeclareVar(Local(4), F64),
            Step::DefVar(Local(4), Value(4)),
            Step::Inst(JUMP, vec![], vec![Ebb(1)]),
            Step::SwitchToBlock(Ebb(1)),
            Step::SealBlock(Ebb(1)),
            Step::Return(vec![]),
        ]
    );
    assert_eq!(func.body.values, vec![F32, I32, I64, F32, F64]);
}

fn fails_with(code: &[u8], args: &[Type]) -> (CtonError, usize) {
    let mut func = function(args, &[]);
    let mut trans = FuncTranslator::new();
    let mut runtime = DummyRuntime::new();
    let error = trans.translate(code, &mut func, &mut runtime).unwrap_err();
    (error, runtime.operators.len())
}

#[test]
fn invalid_input() {
    // No local count.
    assert_eq!(fails_with(&[], &[]), (CtonError::InvalidInput, 0));
    assert_eq!(fails_with(&[0x80], &[]), (CtonError::InvalidInput, 0));
    // Too many declarations.
    assert_eq!(fails_with(&[0xd1, 0x86, 0x03, 0x0b], &[]), (CtonError::InvalidInput, 0));
    // A number that does not end.
    assert_eq!(
        fails_with(&[0x80, 0x80, 0x80, 0x80, 0x80, 0x00, 0x0b], &[]),
        (CtonError::InvalidInput, 0)
    );
    // A declaration that is cut off.
    assert_eq!(fails_with(&[0x01, 0x01], &[]), (CtonError::InvalidInput, 0));
    // A byte that is no type.
    assert_eq!(fails_with(&[0x01, 0x01, 0x7b, 0x0b], &[]), (CtonError::InvalidInput, 0));
    assert_eq!(fails_with(&[0x01, 0x01, 0xff, 0x0b], &[]), (CtonError::InvalidInput, 0));
    // Types that a local cannot have.
    assert_eq!(fails_with(&[0x01, 0x01, 0x70, 0x0b], &[]), (CtonError::InvalidInput, 0));
    assert_eq!(fails_with(&[0x01, 0x01, 0x60, 0x0b], &[]), (CtonError::InvalidInput, 0));
    assert_eq!(fails_with(&[0x01, 0x00, 0x40, 0x0b], &[]), (CtonError::InvalidInput, 0));
    // More locals than the format permits.
    assert_eq!(
        fails_with(&[0x01, 0xd1, 0x86, 0x03, 0x7f, 0x0b], &[]),
        (CtonError::InvalidInput, 0)
    );
    // No operator, an unknown one, and a body that does not end.
    assert_eq!(fails_with(&[0x00], &[]), (CtonError::InvalidInput, 0));
    assert_eq!(fails_with(&[0x00, 0xff], &[]), (CtonError::InvalidInput, 0));
    assert_eq!(fails_with(&[0x00, 0x41, 0x05], &[]), (CtonError::InvalidInput, 1));
}

#[test]
fn too_many_locals() {
    // 50000 locals are just enough.
    let code = [0x01, 0xd0, 0x86, 0x03, 0x7f, 0x0b];
    let mut func = function(&[], &[]);
    let mut trans = FuncTranslator::new();
    let mut runtime = DummyRuntime::new();
    assert_eq!(trans.translate(&code, &mut func, &mut runtime), Ok(()));
    assert_eq!(func.body.steps.len(), 5 + 1 + 2 * MAX_LOCALS + 4);

    // One more argument is too many.
    assert_eq!(fails_with(&code, &[I32]), (CtonError::ImplLimitExceeded, 0));

    // The arguments alone may be too many.
    let args = vec![I32; MAX_LOCALS + 1];
    assert_eq!(fails_with(&[0x00, 0x0b], &args), (CtonError::ImplLimitExceeded, 0));
    let mut func = function(&args[1..], &[]);
    assert_eq!(trans.translate(&[0x00, 0x0b], &mut func, &mut runtime), Ok(()));

    let mut builder = FunctionBuilder::new();
    let mut next_local = MAX_LOCALS - 1;
    assert_eq!(
        declare_locals(&mut builder, 3, WasmType::I64, &mut next_local),
        Err(CtonError::ImplLimitExceeded)
    );
    assert_eq!(next_local, MAX_LOCALS);
    assert_eq!(
        builder.steps,
        vec![
            Step::Iconst(I64, 0),
            Step::DeclareVar(Local(49_999), I64),
            Step::DefVar(Local(49_999), Value(0)),
        ]
    );
    assert_eq!(declare_locals(&mut builder, 0, WasmType::F32, &mut next_local), Ok(()));
    assert_eq!(
        declare_locals(&mut builder, 0, WasmType::Func, &mut next_local),
        Err(CtonError::InvalidInput)
    );
    assert_eq!(builder.steps.len(), 4);
}

#[test]
fn numbers_are_decoded() {
    // A number may be padded, up to five bytes.
    let mut reader = BinaryReader::new(&[0x83, 0x80, 0x80, 0x80, 0x00, 0x2a]);
    assert_eq!(reader.read_local_count().unwrap(), 3);
    assert_eq!(reader.bytes, &[0x2a]);

    // The bits above the 32nd are dropped.
    let mut reader = BinaryReader::new(&[0x81, 0x80, 0x80, 0x80, 0x70]);
    assert_eq!(reader.read_local_count().unwrap(), 1);
    assert_eq!(reader.bytes, &[]);

    // Seven bits from each byte, the lowest first.
    let mut reader = BinaryReader::new(&[0xe5, 0x8e, 0x02, 0x7f, 0x0b]);
    let mut total = 100;
    assert_eq!(reader.read_local_decl(&mut total).unwrap(), (34661, WasmType::I32));
    assert_eq!(total, 34761);
    assert_eq!(reader.bytes, &[0x0b]);

    // A declaration without a type.
    assert!(reader.read_local_decl(&mut total).is_err());

    let mut total = 49_999;
    let mut reader = BinaryReader::new(&[0x02, 0x7f]);
    assert!(reader.read_local_decl(&mut total).is_err());
    let mut reader = BinaryReader::new(&[0x01, 0x7f]);
    assert_eq!(reader.read_local_decl(&mut total).unwrap(), (1, WasmType::I32));
    let mut total = usize::MAX;
    let mut reader = BinaryReader::new(&[0x01, 0x7f]);
    assert!(reader.read_local_decl(&mut total).is_err());
}

#[test]
fn types_are_decoded() {
    let types = [
        (0x7f, WasmType::I32),
        (0x7e, WasmType::I64),
        (0x7d, WasmType::F32),
        (0x7c, WasmType::F64),
        (0x70, WasmType::AnyFunc),
        (0x60, WasmType::Func),
        (0x40, WasmType::EmptyBlockType),
    ];
    for byte in 0..=255u8 {
        let code = [0x05, byte];
        let mut reader = BinaryReader::new(&code);
        let mut total = 0;
        let expected = types.iter().find(|entry| entry.0 == byte).map(|entry| (5, entry.1));
        assert_eq!(reader.read_local_decl(&mut total).ok(), expected);
    }
}

#[test]
fn operators_are_decoded() {
    let code = [0x41, 0xff, 0x00, 0x0e, 0x02, 0x01, 0x02, 0x00, 0x0b, 0xff];
    let mut reader = BinaryReader::new(&code);
    assert!(matches!(reader.read_operator().unwrap(), Operator::I32Const { value: 127 }));
    assert_eq!(reader.bytes.len(), 7);
    match reader.read_operator().unwrap() {
        Operator::BrTable { table } => assert_eq!(table.read_table(), (vec![1, 2], 0)),
        _ => panic!("operator"),
    }
    assert_eq!(reader.bytes.len(), 2);
    assert!(matches!(reader.read_operator().unwrap(), Operator::End));
    assert_eq!(reader.bytes, &[0xff]);
    assert!(reader.read_operator().is_err());
    let mut empty = BinaryReader::new(&[]);
    assert!(empty.read_operator().is_err());
}

#[test]
fn declarations_come_first() {
    let code = [0x01, 0x02, 0x7e, 0x0b, 0x0b];
    let mut reader = BinaryReader::new(&code);
    let mut builder = FunctionBuilder::new();
    assert_eq!(parse_local_decls(&mut reader, &mut builder, 7), Ok(()));
    assert_eq!(reader.bytes, &[0x0b, 0x0b]);
    assert_eq!(
        builder.steps,
        vec![
            Step::Iconst(I64, 0),
            Step::DeclareVar(Local(7), I64),
            Step::DefVar(Local(7), Value(0)),
            Step::DeclareVar(Local(8), I64),
            Step::DefVar(Local(8), Value(0)),
        ]
    );
}

#[test]
fn failed_declarations_stay() {
    // The second declaration fails; what the first one declared is kept.
    let mut func = function(&[], &[]);
    let mut trans = FuncTranslator::new();
    let mut runtime = DummyRuntime::new();
    let code = [0x02, 0x01, 0x7f, 0x01, 0x70];
    assert_eq!(
        trans.translate(&code, &mut func, &mut runtime),
        Err(CtonError::InvalidInput)
    );
    assert_eq!(func.body.steps.len(), 5 + 3);
    assert_eq!(runtime.operators.len(), 0);
}

#[test]
fn translator_is_reused() {
    let mut trans = FuncTranslator::new();
    let mut runtime = DummyRuntime::new();
    // A translation that fails with a value on the stack and a block open.
    let mut func = function(&[], &[]);
    assert_eq!(
        trans.translate(&[0x00, 0x41, 0x05], &mut func, &mut runtime),
        Err(CtonError::InvalidInput)
    );
    // The next one does not see them.
    let mut func = function(&[], &[]);
    let reader = BinaryReader::new(&[0x00, 0x0b]);
    assert_eq!(trans.translate_from_reader(reader, &mut func, &mut runtime), Ok(()));
    assert_eq!(func.body.steps.last(), Some(&Step::Return(vec![])));
}

const ADD_ONE: [u8; 10] = [
    0x01, // 1 local decl.
    0x01, 0x7f, // 1 i32 local.
    0x20, 0x00, // get_local 0
    0x41, 0x01, // i32.const 1
    0x6a, // i32.add
    0x0f, // return
    0x0b, // end
];

#[test]
fn reused_translator_does_what_a_new_one_does() {
    let mut reused = FuncTranslator::new();
    let mut earlier = function(&[], &[]);
    assert_eq!(
        reused.translate(&[0x00, 0x41, 0x05], &mut earlier, &mut DummyRuntime::new()),
        Err(CtonError::InvalidInput)
    );
    for code in [&ADD_ONE[..], &ADD_ONE[..7], &[0x00, 0x41, 0x07, 0x0b], &[0x05]].iter() {
        let mut func = function(&[I32], &[I32]);
        let mut runtime = DummyRuntime::new();
        let result = reused.translate(code, &mut func, &mut runtime);
        let mut other_func = function(&[I32], &[I32]);
        let mut other_runtime = DummyRuntime::new();
        let mut fresh = FuncTranslator::new();
        assert_eq!(fresh.translate(code, &mut other_func, &mut other_runtime), result);
        assert_eq!(func.body.steps, other_func.body.steps);
        assert_eq!(func.body.values, other_func.body.values);
        assert_eq!(runtime.operators, other_runtime.operators);
    }
}

#[test]
fn reader_does_what_its_code_does() {
    for code in [&ADD_ONE[..], &ADD_ONE[..7], &[0x00, 0x41, 0x07, 0x0b], &[0x05]].iter() {
        let mut trans = FuncTranslator::new();
        let mut func = function(&[I32], &[I32]);
        let mut runtime = DummyRuntime::new();
        let result = trans.translate(code, &mut func, &mut runtime);
        let mut other_func = function(&[I32], &[I32]);
        let mut other_runtime = DummyRuntime::new();
        let reader = BinaryReader::new(code);
        assert_eq!(
            trans.translate_from_reader(reader, &mut other_func, &mut other_runtime),
            result
        );
        assert_eq!(func.body.steps, other_func.body.steps);
        assert_eq!(func.body.values, other_func.body.values);
        assert_eq!(runtime.operators, other_runtime.operators);
    }
}

#[test]
fn bytes_after_the_function_are_left() {
    let code = [0x00, 0x0b, 0xff];
    let mut trans = FuncTranslator::new();
    let mut runtime = DummyRuntime::new();
    let mut func = function(&[], &[]);
    let mut reader = BinaryReader::new(&code);
    assert_eq!(trans.translate_prefix(&mut reader, &mut func, &mut runtime), Ok(()));
    assert_eq!(runtime.operators, vec!["End"]);
    assert_eq!(reader.bytes, &[0xff]);

    // Nothing is left where the function is all there is.
    let mut reader = BinaryReader::new(&ADD_ONE);
    let mut func = function(&[I32], &[I32]);
    assert_eq!(trans.translate_prefix(&mut reader, &mut func, &mut runtime), Ok(()));
    assert_eq!(reader.bytes, &[]);
}

#[test]
fn operators_are_translated() {
    let code = [0x41, 0x05, 0x0b, 0x0b];
    let signature = function(&[], &[I32]).signature;
    let mut runtime = DummyRuntime::new();
    let mut builder = FunctionBuilder::new();
    let mut state = TranslationState::new();
    state.initialize(&signature, Ebb(1));
    let mut reader = BinaryReader::new(&code);
    assert_eq!(
        translate_operators(&mut reader, &signature, &mut builder, &mut state, &mut runtime),
        Ok(())
    );
    assert_eq!(reader.bytes, &[0x0b]);
    assert_eq!(builder.steps.first(), Some(&Step::Iconst(I32, 5)));
    assert_eq!(builder.steps.last(), Some(&Step::Return(vec![Value(1)])));

    // Where no block is open, no operator is read.
    assert_eq!(
        translate_operators(&mut reader, &signature, &mut builder, &mut state, &mut runtime),
        Ok(())
    );
    assert_eq!(reader.bytes, &[0x0b]);

    let mut other = FunctionBuilder::new();
    state.initialize(&signature, Ebb(1));
    let reader = BinaryReader::new(&code[..3]);
    assert_eq!(
        parse_function_body(reader, &signature, &mut other, &mut state, &mut runtime),
        Ok(())
    );
    assert_eq!(other.steps[..], builder.steps[..5]);
    assert_eq!(state.stack, vec![Value(1)]);
}

/// The locals that are declared, and those that have a zero of their type as their value.
fn declared(builder: &FunctionBuilder) -> (Vec<(Local, Type)>, Vec<(Local, Type)>) {
    let mut zeros = Vec::new();
    let mut vars = Vec::new();
    let mut defs = Vec::new();
    for step in builder.steps.iter() {
        match step {
            Step::Iconst(ty, 0) => zeros.push(*ty),
            Step::F32const(0) => zeros.push(F32),
            Step::F64const(0) => zeros.push(F64),
            Step::DeclareVar(var, ty) => vars.push((*var, *ty)),
            Step::DefVar(var, Value(val)) => defs.push((*var, zeros[*val as usize])),
            _ => panic!("step"),
        }
    }
    (vars, defs)
}

#[test]
fn declarations_add_up() {
    let types = [WasmType::I32, WasmType::I64, WasmType::F32, WasmType::F64];
    let cases = [(0, 2, 3), (4, 0, 3), (7, 3, 0), (49_998, 1, 1), (49_998, 1, 4), (49_998, 2, 1)];
    for ty in types.iter() {
        for (first, a, b) in cases.iter() {
            let mut parts = FunctionBuilder::new();
            let mut next = *first;
            assert_eq!(declare_locals(&mut parts, *a, *ty, &mut next), Ok(()));
            let result = declare_locals(&mut parts, *b, *ty, &mut next);

            let mut whole = FunctionBuilder::new();
            let mut other_next = *first;
            assert_eq!(declare_locals(&mut whole, a + b, *ty, &mut other_next), result);
            assert_eq!(next, other_next);
            assert_eq!(declared(&parts), declared(&whole));
            let (vars, defs) = declared(&parts);
            assert_eq!(vars, defs);
            assert_eq!(vars.len(), next - first);
        }
    }
}

#[test]
fn state_is_initialized() {
    let mut func = function(&[], &[I32, I64]);
    func.signature.return_types.push(ArgumentType {
        value_type: I64,
        purpose: ArgumentPurpose::StructReturn,
    });
    let mut state = TranslationState::new();
    state.stack.push(Value(3));
    state.initialize(&func.signature, Ebb(1));
    assert_eq!(state.stack, vec![]);
    assert_eq!(
        state.control_stack,
        vec![ControlFrame { destination: Ebb(1), num_return_values: 2, original_stack_size: 0 }]
    );
}

#[test]
fn body_is_finished() {
    let mut builder = FunctionBuilder::new();
    finish_function_body(&mut builder, &vec![Value(4), Value(2)]);
    assert_eq!(builder.steps, vec![Step::Return(vec![Value(4), Value(2)])]);
    builder.unreachable = true;
    finish_function_body(&mut builder, &vec![Value(4)]);
    assert_eq!(builder.steps.len(), 1);
}
