use leviscript::ast::{Block, Call, Expr, Let, Phrase, StrLit, StrLitElem, Symbol};
use leviscript::ast::IntLit;
use leviscript::bytecode::{ByteCode, DebugInformation, Runner, StepResult};
use leviscript::bytecode_builder::{ByteCodeBuilder, DataTypeInfo, Owner};
use leviscript::compiler::CompilationError;
use leviscript::data::{Data, RuntimeRef, Value};
use leviscript::type_inference::{inference_start, EnvironmentIdentifier};
use leviscript::types::DataType;
use leviscript::vm::{exec_failure_error, Error};

fn pure_str(id: usize, part_id: usize, s: &str) -> Expr {
    Expr::StrLit(StrLit(id, vec![StrLitElem::PureStrLit(part_id, s.to_string())]))
}

fn call_builtin(id: usize, callee_id: usize, name: &str, args: Vec<Expr>) -> Expr {
    Expr::Call(Call {
        id,
        callee: Box::new(Expr::Symbol(Symbol(callee_id, name.to_string()))),
        args,
    })
}

fn compile_program(prog: &Block) -> Result<(ByteCode, DebugInformation), CompilationError> {
    let (env, tidx) = inference_start();
    let (_, tidx) = prog
        .infer_types(env, tidx)
        .map_err(|e| CompilationError::CompilerBug { ast_id: e.get_ast_id(), msg: String::new() })?;
    let builder = prog.compile(ByteCodeBuilder::new(), &tidx)?;
    builder.build()
}

/// Runs the program, recording external calls and answering each with
/// success; panics on a runtime failure.
fn run_collecting(runner: &mut Runner) -> (i32, Vec<(String, Vec<String>)>) {
    let mut calls = Vec::new();
    let mut steps = 0usize;
    loop {
        steps += 1;
        assert!(steps < 10_000, "the program did not finish");
        match runner.step() {
            StepResult::Stepped => {}
            StepResult::Done(code) => return (code, calls),
            StepResult::ExternalCall { bin, args } => calls.push((bin, args)),
            StepResult::Failed(e) => panic!("execution failed: {:?}", e),
        }
    }
}

#[test]
fn echo_hi_runs_the_external_process() {
    let prog = Block(
        0,
        vec![Phrase::Expr(call_builtin(
            1,
            2,
            "exec",
            vec![pure_str(3, 4, "echo"), pure_str(5, 6, "hi")],
        ))],
    );
    let (bc, _info) = compile_program(&prog).unwrap();
    let mut runner = Runner::new(bc);
    runner.reset_pc();
    let (code, calls) = run_collecting(&mut runner);
    assert_eq!(code, 0);
    assert_eq!(calls.len(), 1);
    assert_eq!(calls[0].0, "echo");
    assert_eq!(calls[0].1, vec!["hi".to_string()]);
}

#[test]
fn interpolation_reads_the_binding() {
    let prog = Block(
        0,
        vec![
            Phrase::Expr(Expr::Let(Let {
                id: 1,
                symbol_name: "s".to_string(),
                value_expr: Box::new(pure_str(2, 3, "hello")),
            })),
            Phrase::Expr(call_builtin(
                4,
                5,
                "exec",
                vec![
                    pure_str(6, 7, "echo"),
                    Expr::StrLit(StrLit(8, vec![StrLitElem::Symbol(9, "s".to_string())])),
                ],
            )),
        ],
    );
    let (bc, _info) = compile_program(&prog).unwrap();
    let mut runner = Runner::new(bc);
    runner.reset_pc();
    let (code, calls) = run_collecting(&mut runner);
    assert_eq!(code, 0);
    assert_eq!(calls.len(), 1);
    assert_eq!(calls[0].0, "echo");
    assert_eq!(calls[0].1, vec!["hello".to_string()]);
}

#[test]
fn alias_let_emits_no_code() {
    let with_alias = Block(
        0,
        vec![
            Phrase::Expr(Expr::Let(Let {
                id: 1,
                symbol_name: "a".to_string(),
                value_expr: Box::new(pure_str(2, 3, "x")),
            })),
            Phrase::Expr(Expr::Let(Let {
                id: 4,
                symbol_name: "b".to_string(),
                value_expr: Box::new(Expr::Symbol(Symbol(5, "a".to_string()))),
            })),
        ],
    );
    let without_alias = Block(
        0,
        vec![Phrase::Expr(Expr::Let(Let {
            id: 1,
            symbol_name: "a".to_string(),
            value_expr: Box::new(pure_str(2, 3, "x")),
        }))],
    );
    let (bc_with, _) = compile_program(&with_alias).unwrap();
    let (bc_without, _) = compile_program(&without_alias).unwrap();
    assert_eq!(bc_with.text, bc_without.text);
    let mut runner = Runner::new(bc_with);
    runner.reset_pc();
    let (code, calls) = run_collecting(&mut runner);
    assert_eq!(code, 0);
    assert!(calls.is_empty());
}

#[test]
fn scope_collapse_hands_the_string_out() {
    let inner = Block(
        1,
        vec![
            Phrase::Expr(Expr::Let(Let {
                id: 2,
                symbol_name: "s".to_string(),
                value_expr: Box::new(pure_str(3, 4, "t")),
            })),
            Phrase::Expr(Expr::Symbol(Symbol(5, "s".to_string()))),
        ],
    );
    let prog = Block(0, vec![Phrase::Expr(Expr::Block(inner))]);
    let (bc, _info) = compile_program(&prog).unwrap();
    let mut runner = Runner::new(bc);
    runner.reset_pc();
    let (code, calls) = run_collecting(&mut runner);
    assert_eq!(code, 0);
    assert!(calls.is_empty());
    assert_eq!(runner.mem.stack.len(), 1);
    match runner.mem.stack[0] {
        Data::Ref(RuntimeRef::HeapRef(h)) => {
            assert!(runner.mem.heap.is_live(h));
            match runner.mem.heap.get(h).unwrap() {
                Value::Str(s) => assert_eq!(s.as_str(), "t"),
                other => panic!("the block's value must be a string, not {:?}", other),
            }
        }
        other => panic!("the block's value must live on the heap, not {:?}", other),
    }
}

#[test]
fn each_heap_value_has_one_live_owner() {
    // `let a = "x"; a` leaves two entries for one heap string: the
    // binding owns it, the trailing use borrows from slot 0.
    let prog = Block(
        0,
        vec![
            Phrase::Expr(Expr::Let(Let {
                id: 1,
                symbol_name: "a".to_string(),
                value_expr: Box::new(pure_str(2, 3, "x")),
            })),
            Phrase::Expr(Expr::Symbol(Symbol(4, "a".to_string()))),
        ],
    );
    let (env, tidx) = inference_start();
    let (_, tidx) = prog.infer_types(env, tidx).unwrap();
    let builder = prog.compile(ByteCodeBuilder::new(), &tidx).unwrap();
    assert_eq!(builder.stack_info.len(), 2);
    match &builder.stack_info[0].type_info {
        DataTypeInfo::HeapTypeInfo { owner_idx: Owner::Me, .. } => {}
        other => panic!("the binding must own its string, not {:?}", other),
    }
    match &builder.stack_info[1].type_info {
        DataTypeInfo::HeapTypeInfo { owner_idx: Owner::Borrowed(0), .. } => {}
        other => panic!("the use must borrow from the owner, not {:?}", other),
    }
}

#[test]
fn collapse_leaves_one_owned_result_at_the_watermark() {
    // Compiling `{ let s = "t"; s }` collapses the inner scope: the
    // shadow stack holds exactly one entry, an owned string.
    let inner = Block(
        1,
        vec![
            Phrase::Expr(Expr::Let(Let {
                id: 2,
                symbol_name: "s".to_string(),
                value_expr: Box::new(pure_str(3, 4, "t")),
            })),
            Phrase::Expr(Expr::Symbol(Symbol(5, "s".to_string()))),
        ],
    );
    let prog = Block(0, vec![Phrase::Expr(Expr::Block(inner))]);
    let (env, tidx) = inference_start();
    let (_, tidx) = prog.infer_types(env, tidx).unwrap();
    let builder = prog.compile(ByteCodeBuilder::new(), &tidx).unwrap();
    assert_eq!(builder.stack_info.len(), 1);
    match &builder.stack_info[0].type_info {
        DataTypeInfo::HeapTypeInfo { owner_idx: Owner::Me, .. } => {}
        other => panic!("the scope's result must own its string, not {:?}", other),
    }
}

#[test]
fn undefined_symbol_is_a_compile_error() {
    let prog = Block(
        0,
        vec![Phrase::Expr(call_builtin(
            1,
            2,
            "exec",
            vec![
                pure_str(3, 4, "echo"),
                Expr::Symbol(Symbol(7, "undefined_name".to_string())),
            ],
        ))],
    );
    let (_, tidx) = inference_start();
    match prog.compile(ByteCodeBuilder::new(), &tidx) {
        Err(CompilationError::UndefinedSymbol { ast_id, name }) => {
            assert_eq!(ast_id, 7);
            assert_eq!(name, "undefined_name");
        }
        _ => panic!("an unbound name must fail compilation"),
    }
}

#[test]
fn failing_external_call_carries_the_name_and_the_call_site() {
    let prog = Block(
        0,
        vec![Phrase::Expr(call_builtin(
            1,
            2,
            "exec",
            vec![pure_str(3, 4, "nosuchbin")],
        ))],
    );
    let (bc, info) = compile_program(&prog).unwrap();
    let mut runner = Runner::new(bc);
    runner.reset_pc();
    let mut steps = 0usize;
    loop {
        steps += 1;
        assert!(steps < 10_000);
        let pc_before = runner.pc;
        match runner.step() {
            StepResult::Stepped => {}
            StepResult::ExternalCall { bin, args } => {
                assert_eq!(bin, "nosuchbin");
                assert!(args.is_empty());
                // The caller failed to run the binary: the surfaced
                // error names it, and the call site is recoverable.
                let err = exec_failure_error(&bin, &"no such file".to_string());
                match err {
                    Error::Runtime(msg) => {
                        assert_eq!(msg, "nosuchbin: no such file");
                    }
                    other => panic!("unexpected error shape: {:?}", other),
                }
                let idx = info.index_of(pc_before).unwrap();
                assert_eq!(info.ast_ids[idx], 1);
                return;
            }
            StepResult::Done(_) => panic!("the call must surface before the program ends"),
            StepResult::Failed(e) => panic!("execution failed early: {:?}", e),
        }
    }
}

#[test]
fn strcat_builds_one_owned_string() {
    let prog = Block(
        0,
        vec![Phrase::Expr(call_builtin(
            1,
            2,
            "strcat",
            vec![pure_str(3, 4, "ab"), pure_str(5, 6, "cd")],
        ))],
    );
    let (bc, _info) = compile_program(&prog).unwrap();
    let mut runner = Runner::new(bc);
    runner.reset_pc();
    let (code, calls) = run_collecting(&mut runner);
    assert_eq!(code, 0);
    assert!(calls.is_empty());
    assert_eq!(runner.mem.stack.len(), 1);
    match runner.mem.stack[0] {
        Data::Ref(RuntimeRef::HeapRef(h)) => match runner.mem.heap.get(h).unwrap() {
            Value::Str(s) => assert_eq!(s.as_str(), "abcd"),
            other => panic!("concatenation must yield a string, not {:?}", other),
        },
        other => panic!("the result must live on the heap, not {:?}", other),
    }
}

#[test]
fn integer_arguments_are_cast_to_strings() {
    let prog = Block(
        0,
        vec![Phrase::Expr(call_builtin(
            1,
            2,
            "exec",
            vec![pure_str(3, 4, "echo"), Expr::IntLit(IntLit(5, -42))],
        ))],
    );
    let (bc, _info) = compile_program(&prog).unwrap();
    let mut runner = Runner::new(bc);
    runner.reset_pc();
    let (code, calls) = run_collecting(&mut runner);
    assert_eq!(code, 0);
    assert_eq!(calls.len(), 1);
    assert_eq!(calls[0].1, vec!["-42".to_string()]);
}

#[test]
fn too_few_arguments_is_a_type_mismatch() {
    let prog = Block(0, vec![Phrase::Expr(call_builtin(1, 2, "exec", vec![]))]);
    let (_, tidx) = inference_start();
    match prog.compile(ByteCodeBuilder::new(), &tidx) {
        Err(CompilationError::TypeMismatch { ast_id }) => assert_eq!(ast_id, 1),
        r => panic!("a missing fixed argument must be a type error, got {:?}", r.is_ok()),
    }
}

#[test]
fn only_built_ins_can_be_called() {
    let prog = Block(
        0,
        vec![Phrase::Expr(Expr::Call(Call {
            id: 1,
            callee: Box::new(Expr::IntLit(IntLit(2, 3))),
            args: vec![],
        }))],
    );
    let (_, tidx) = inference_start();
    match prog.compile(ByteCodeBuilder::new(), &tidx) {
        Err(CompilationError::CompilerBug { ast_id, .. }) => assert_eq!(ast_id, 1),
        r => panic!("a non-symbol callee cannot be lowered, got {:?}", r.is_ok()),
    }
}

#[test]
fn a_name_bound_over_a_built_in_is_rejected() {
    // The type index records an integer for the callee node, as it
    // would after `let exec = 1`: the lowering refuses to treat the
    // name as the built-in.
    let prog = Block(
        0,
        vec![Phrase::Expr(call_builtin(3, 4, "exec", vec![pure_str(5, 6, "hi")]))],
    );
    let (_, mut tidx) = inference_start();
    tidx.insert(EnvironmentIdentifier::AstId(4), DataType::integer());
    match prog.compile(ByteCodeBuilder::new(), &tidx) {
        Err(CompilationError::CompilerBug { ast_id, .. }) => assert_eq!(ast_id, 3),
        r => panic!("a shadowed built-in must be refused, got ok={:?}", r.is_ok()),
    }
}
