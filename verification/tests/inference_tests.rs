use leviscript::ast::{ArgDef, Block, Call, Expr, FnFragment, IntLit, Let, Phrase, StrLit, StrLitElem, Symbol};
use leviscript::type_inference::{
    find_matching_indices, inference_start, EnvironmentIdentifier, Error,
};
use leviscript::types::{CallableType, DataType, HeapType, StackType};

fn pure_str(id: usize, part_id: usize, s: &str) -> Expr {
    Expr::StrLit(StrLit(id, vec![StrLitElem::PureStrLit(part_id, s.to_string())]))
}

fn exec_call(id: usize, callee_id: usize, args: Vec<Expr>) -> Expr {
    Expr::Call(Call {
        id,
        callee: Box::new(Expr::Symbol(Symbol(callee_id, "exec".to_string()))),
        args,
    })
}

#[test]
fn test_find_matching_indices() {
    let searched_names = [
        ArgDef { id: 0, name: "foo".into() },
        ArgDef { id: 0, name: "bar".into() },
    ];
    let search_space = [Expr::IntLit(IntLit(0, 1))];
    let res = find_matching_indices(&searched_names, &search_space);
    assert_eq!(Vec::<(usize, usize)>::new(), res);

    let search_space = [
        Expr::IntLit(IntLit(0, 1)),
        Expr::Symbol(Symbol(0, "foo".into())),
    ];
    let res = find_matching_indices(&searched_names, &search_space);
    assert_eq!(vec![(0, 1)], res);
}

#[test]
fn undefined_symbol_reports_the_node() {
    let (env, tidx) = inference_start();
    let sym = Symbol(5, "nope".to_string());
    match sym.infer_types(env, tidx) {
        Err(Error::UndefinedSymbol(id, name)) => {
            assert_eq!(id, 5);
            assert_eq!(name, "nope");
        }
        _ => panic!("an unbound name must be reported"),
    }
}

#[test]
fn empty_block_has_unit_type() {
    let (env, tidx) = inference_start();
    let block = Block(3, vec![]);
    let (_, tidx) = block.infer_types(env, tidx).unwrap();
    let t = tidx.get(EnvironmentIdentifier::AstId(3)).unwrap();
    assert!(matches!(t, DataType::StackType(StackType::Unit)));
}

#[test]
fn call_takes_the_callee_result_type() {
    let (env, tidx) = inference_start();
    let call = exec_call(1, 2, vec![pure_str(3, 4, "echo"), pure_str(5, 6, "hi")]);
    let block = Block(0, vec![Phrase::Expr(call)]);
    let (_, tidx) = block.infer_types(env, tidx).unwrap();
    let t = tidx.get(EnvironmentIdentifier::AstId(1)).unwrap();
    assert!(matches!(t, DataType::StackType(StackType::Unit)));
    let t0 = tidx.get(EnvironmentIdentifier::AstId(0)).unwrap();
    assert!(matches!(t0, DataType::StackType(StackType::Unit)));
}

#[test]
fn let_binds_the_rhs_type() {
    let (env, tidx) = inference_start();
    let prog = Block(
        0,
        vec![
            Phrase::Expr(Expr::Let(Let {
                id: 1,
                symbol_name: "s".to_string(),
                value_expr: Box::new(pure_str(2, 3, "hello")),
            })),
            Phrase::Expr(Expr::Symbol(Symbol(4, "s".to_string()))),
        ],
    );
    let (_, tidx) = prog.infer_types(env, tidx).unwrap();
    let t = tidx.get(EnvironmentIdentifier::AstId(4)).unwrap();
    assert!(matches!(t, DataType::HeapType(HeapType::Str)));
}

#[test]
fn fragment_signature_is_mined_from_call_sites() {
    let (env, tidx) = inference_start();
    let frag = FnFragment {
        id: 10,
        args: vec![ArgDef { id: 11, name: "x".to_string() }],
        body: Box::new(exec_call(
            12,
            13,
            vec![Expr::Symbol(Symbol(14, "x".to_string()))],
        )),
    };
    let (_, tidx) = frag.infer_types(env, tidx).unwrap();
    let t = tidx.get(EnvironmentIdentifier::AstId(10)).unwrap();
    match t {
        DataType::Callable(CallableType::FnFragment, sig) => {
            assert_eq!(sig.args.len(), 1);
            let param = sig.args[0].concrete_type().unwrap();
            assert!(matches!(param, DataType::HeapType(HeapType::Str)));
            let result = sig.result.concrete_type().unwrap();
            assert!(matches!(result, DataType::StackType(StackType::Unit)));
        }
        _ => panic!("a fragment must become a callable"),
    }
}

#[test]
fn unused_fragment_parameter_is_reported() {
    let (env, tidx) = inference_start();
    let frag = FnFragment {
        id: 20,
        args: vec![ArgDef { id: 21, name: "unused".to_string() }],
        body: Box::new(Expr::IntLit(IntLit(22, 1))),
    };
    match frag.infer_types(env, tidx) {
        Err(Error::UnusedVar(id, name)) => {
            assert_eq!(id, 21);
            assert_eq!(name, "unused");
        }
        _ => panic!("an unused parameter must be reported"),
    }
}

#[test]
fn calling_a_non_callable_is_reported() {
    let (env, tidx) = inference_start();
    let prog = Block(
        0,
        vec![
            Phrase::Expr(Expr::Let(Let {
                id: 1,
                symbol_name: "x".to_string(),
                value_expr: Box::new(Expr::IntLit(IntLit(2, 1))),
            })),
            Phrase::Expr(Expr::Call(Call {
                id: 3,
                callee: Box::new(Expr::Symbol(Symbol(4, "x".to_string()))),
                args: vec![],
            })),
        ],
    );
    match prog.infer_types(env, tidx) {
        Err(Error::NotCallable(id)) => assert_eq!(id, 3),
        _ => panic!("calling an integer must be reported"),
    }
}

#[test]
fn mining_through_a_non_callable_is_reported() {
    let (env, tidx) = inference_start();
    let prog = Block(
        0,
        vec![
            Phrase::Expr(Expr::Let(Let {
                id: 1,
                symbol_name: "x".to_string(),
                value_expr: Box::new(Expr::IntLit(IntLit(2, 1))),
            })),
            Phrase::Expr(Expr::FnFragment(FnFragment {
                id: 3,
                args: vec![ArgDef { id: 4, name: "p".to_string() }],
                body: Box::new(Expr::Call(Call {
                    id: 5,
                    callee: Box::new(Expr::Symbol(Symbol(6, "x".to_string()))),
                    args: vec![Expr::Symbol(Symbol(7, "p".to_string()))],
                })),
            })),
        ],
    );
    match prog.infer_types(env, tidx) {
        Err(Error::CallingNonCallable(_)) => {}
        _ => panic!("mining through an integer must be reported"),
    }
}

#[test]
fn int_literal_is_int() {
    let (env, tidx) = inference_start();
    let lit = IntLit(7, 42);
    let (_, tidx) = lit.infer_types(env, tidx).unwrap();
    let t = tidx.get(EnvironmentIdentifier::AstId(7)).unwrap();
    assert!(matches!(t, DataType::StackType(StackType::Int)));
}

#[test]
fn fragment_with_no_parameters_takes_the_body_type() {
    let frag = Expr::FnFragment(FnFragment {
        id: 1,
        args: vec![],
        body: Box::new(pure_str(2, 3, "hi")),
    });
    let (env, tidx) = inference_start();
    let (_, tidx) = frag.infer_types(env, tidx).unwrap();
    match tidx.get(EnvironmentIdentifier::AstId(1)) {
        Some(DataType::Callable(CallableType::FnFragment, sig)) => {
            let res = sig.result.concrete_type().expect("one result type");
            assert!(res.deep_eq(&DataType::str()));
            assert_eq!(sig.args.len(), 0);
        }
        other => panic!("expected a fragment callable, got some={:?}", other.is_some()),
    }
}
