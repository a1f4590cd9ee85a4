use leviscript::ast::Block;
use leviscript::bytecode::{encode_opcodes, ByteCode, Runner, StepResult};
use leviscript::final_bytecode::{intermediate_to_final, ImByteCode};
use leviscript::data::{ComptimeValue, CopyValue};
use leviscript::heap::Heap;
use leviscript::opcode::{DataRef, OpCode};
use leviscript::scopes::Scopes;
use leviscript::types::{DataType, Signature, TypeSet};
use leviscript::utils::{get_version, sequence_result};
use leviscript::vm::{render_i64, render_u64, Error};

fn runner_over(ops: Vec<OpCode>, data: Vec<ComptimeValue>) -> Runner {
    let (bytes, _index) = encode_opcodes(&ops).unwrap();
    let mut r = Runner::new(ByteCode { text: bytes, data });
    r.reset_pc();
    r
}

#[test]
fn offsets_accumulate_opcode_sizes() {
    let ops = vec![
        OpCode::PushPrimitive(CopyValue::Int(1)),
        OpCode::Pop,
        OpCode::Exit(0),
    ];
    let (bytes, index) = encode_opcodes(&ops).unwrap();
    assert_eq!(index, vec![(0, 0), (12, 1), (14, 2)]);
    assert_eq!(bytes.len(), 20);
}

#[test]
fn packaged_bytecode_maps_offsets_to_call_sites() {
    let im = ImByteCode {
        text: vec![OpCode::PushPrimitive(CopyValue::Int(1)), OpCode::Pop],
        data: vec![],
        ast_ids: vec![7, 8],
    };
    let fin = intermediate_to_final(im, Block(0, vec![])).unwrap();
    assert_eq!(fin.header.version, (0, 1, 0));
    assert_eq!(fin.pc_to_index(0), Some(0));
    assert_eq!(fin.pc_to_index(12), Some(1));
    assert_eq!(fin.pc_to_index(14), Some(2));
    assert_eq!(fin.pc_to_index(3), None);
    assert_eq!(fin.pc_to_ast_id(0), Some(7));
    assert_eq!(fin.pc_to_ast_id(12), Some(8));
}

#[test]
fn garbage_bytes_are_an_unexpected_opcode() {
    let mut r = Runner::new(ByteCode { text: vec![0xff, 0xff, 0, 0], data: vec![] });
    r.reset_pc();
    match r.step() {
        StepResult::Failed(Error::UnexpectedOpcode { pc }) => assert_eq!(pc, 0),
        _ => panic!("garbage must not execute"),
    }
}

#[test]
fn a_data_opcode_does_not_execute() {
    let mut r = runner_over(vec![OpCode::DataRef(DataRef::StackIdx(0))], vec![]);
    match r.step() {
        StepResult::Failed(Error::NonExecutableOpCode) => {}
        _ => panic!("data in the instruction stream must not execute"),
    }
}

#[test]
fn popping_an_empty_stack_fails() {
    let mut r = runner_over(vec![OpCode::Pop], vec![]);
    match r.step() {
        StepResult::Failed(Error::StackEmpty(_)) => {}
        _ => panic!("an empty stack has nothing to pop"),
    }
}

#[test]
fn a_data_section_reference_must_exist() {
    let mut r = runner_over(vec![OpCode::PushDataSecRef(3)], vec![]);
    match r.step() {
        StepResult::Failed(Error::Runtime(_)) => {}
        _ => panic!("a dangling data-section reference must fail"),
    }
}

#[test]
fn registers_round_a_value_through() {
    let ops = vec![
        OpCode::PushPrimitive(CopyValue::Int(9)),
        OpCode::StackTopToReg(0),
        OpCode::Pop,
        OpCode::ReadReg(0),
        OpCode::Exit(0),
    ];
    let mut r = runner_over(ops, vec![]);
    loop {
        match r.step() {
            StepResult::Stepped => {}
            StepResult::Done(code) => {
                assert_eq!(code, 0);
                break;
            }
            _ => panic!("the register program must finish cleanly"),
        }
    }
    assert_eq!(r.mem.stack.len(), 1);
}

#[test]
fn a_reference_has_no_truth_value() {
    let data = vec![leviscript::data::Value::Str("x".to_string())];
    let ops = vec![OpCode::PushDataSecRef(0), OpCode::ToBool, OpCode::Exit(0)];
    let mut r = runner_over(ops, data);
    loop {
        match r.step() {
            StepResult::Stepped => {}
            StepResult::Failed(Error::TypeError { .. }) => return,
            _ => panic!("testing a reference's truth must fail with a type error"),
        }
    }
}

#[test]
fn repushing_a_missing_entry_fails() {
    let mut r = runner_over(vec![OpCode::RepushStackEntry(2)], vec![]);
    match r.step() {
        StepResult::Failed(Error::UnexpectedStackEntry { index, .. }) => assert_eq!(index, 2),
        _ => panic!("a missing stack entry must be reported"),
    }
}

#[test]
fn heap_reuses_freed_slots() {
    let mut h: Heap<u64> = Heap::new();
    let a = h.push(10);
    let b = h.push(20);
    assert_ne!(a, b);
    assert!(h.delete(a));
    assert!(!h.delete(a));
    let c = h.push(30);
    assert_eq!(c, a);
    assert!(h.is_live(c));
    assert_eq!(*h.get(c).unwrap(), 30);
    assert_eq!(*h.get(b).unwrap(), 20);
}

#[test]
fn iteration_skips_freed_slots() {
    let mut h: Heap<u64> = Heap::new();
    let a = h.push(1);
    let _b = h.push(2);
    let _c = h.push(3);
    h.delete(a);
    let live: Vec<&u64> = h.iter();
    assert_eq!(live.len(), 2);
    assert_eq!(*live[0], 2);
    assert_eq!(*live[1], 3);
}

#[test]
fn truth_values_follow_the_entry() {
    let ops = vec![
        OpCode::PushPrimitive(CopyValue::Int(5)),
        OpCode::ToBool,
        OpCode::Exit(0),
    ];
    let mut r = runner_over(ops, vec![]);
    loop {
        match r.step() {
            StepResult::Stepped => {}
            StepResult::Done(code) => {
                assert_eq!(code, 0);
                break;
            }
            _ => panic!("the truth-value program must finish cleanly"),
        }
    }
    assert_eq!(r.mem.stack.len(), 1);
    assert!(matches!(
        r.mem.stack[0],
        leviscript::data::Data::CopyVal(CopyValue::Bool(true))
    ));
}

#[test]
fn scopes_shadow_and_restore() {
    let mut s: Scopes<usize> = Scopes::new();
    s.add_entry("x".to_string(), 1);
    s.open_new();
    s.add_entry("x".to_string(), 2);
    assert_eq!(*s.find_entry(&"x".to_string()).unwrap(), 2);
    s.collapse_innermost();
    assert_eq!(*s.find_entry(&"x".to_string()).unwrap(), 1);
    assert!(s.find_entry(&"y".to_string()).is_none());
}

#[test]
fn signatures_check_fixed_and_variadic_positions() {
    let sig = Signature::new()
        .arg(TypeSet::of_type(DataType::str()))
        .variadic(TypeSet::of_type(DataType::str()));
    assert!(sig.is_sattisfied_by(&vec![DataType::str()]));
    assert!(sig.is_sattisfied_by(&vec![DataType::str(), DataType::str()]));
    assert!(!sig.is_sattisfied_by(&vec![DataType::integer()]));
    assert!(!sig.is_sattisfied_by(&vec![DataType::str(), DataType::integer()]));

    let no_varargs = Signature::new().arg(TypeSet::AllTypes);
    assert!(no_varargs.is_sattisfied_by(&vec![DataType::integer()]));
    assert!(!no_varargs.is_sattisfied_by(&vec![DataType::integer(), DataType::integer()]));
}

#[test]
fn integer_rendering_is_decimal() {
    assert_eq!(render_u64(0), "0");
    assert_eq!(render_u64(907), "907");
    assert_eq!(render_i64(-17), "-17");
    assert_eq!(render_i64(i64::MIN), "-9223372036854775808");
    assert_eq!(render_i64(i64::MAX), "9223372036854775807");
}

#[test]
fn version_has_three_parts() {
    assert_eq!(get_version(), (0, 1, 0));
}

#[test]
fn sequence_result_collects_or_fails() {
    let ok: Vec<Result<u32, String>> = vec![Ok(1), Ok(2), Ok(3)];
    assert_eq!(sequence_result(ok).unwrap(), vec![1, 2, 3]);
    let bad: Vec<Result<u32, String>> = vec![Ok(1), Err("a".to_string()), Err("b".to_string())];
    assert_eq!(sequence_result(bad).unwrap_err(), "a");
}
