use leviscript::data::CopyValue;
use leviscript::opcode::{DataRef, OpCode};

#[test]
fn test_conversion() {
    let input = OpCode::Exec((DataRef::StackIdx(12), DataRef::DataSectionIdx(14)));
    let bytes = input.to_bytes();
    let deserialized = OpCode::from_bytes(&bytes, 0).unwrap().0;
    assert!(deserialized == input);
}

#[test]
fn test_size() {
    let input = OpCode::Exec((DataRef::StackIdx(12), DataRef::DataSectionIdx(14)));
    assert!(input.serialized_size() == 18);
}

#[test]
fn round_trip_every_opcode() {
    let ops = vec![
        OpCode::Exec((DataRef::StackIdx(3), DataRef::DataSectionIdx(9))),
        OpCode::StrCat,
        OpCode::DataRef(DataRef::DataSectionIdx(7)),
        OpCode::PushRefToStack(DataRef::StackIdx(0)),
        OpCode::PushDataSecRef(5),
        OpCode::PushPrimitive(CopyValue::Int(-12345)),
        OpCode::PushPrimitive(CopyValue::Float(0x4049_0FDB_0000_0000)),
        OpCode::PushPrimitive(CopyValue::Bool(true)),
        OpCode::PushPrimitive(CopyValue::Bool(false)),
        OpCode::PushPrimitive(CopyValue::Unit),
        OpCode::RepushStackEntry(2),
        OpCode::ToStr,
        OpCode::ToBool,
        OpCode::Pop,
        OpCode::PopFree,
        OpCode::StackTopToReg(0),
        OpCode::ReadReg(0),
        OpCode::Exit(-7),
    ];
    for op in ops {
        let bytes = op.to_bytes();
        assert_eq!(bytes.len(), op.serialized_size());
        assert_eq!(bytes.len() % 2, 0);
        let (decoded, size) = OpCode::from_bytes(&bytes, 0).unwrap();
        assert!(decoded == op);
        assert_eq!(size, bytes.len());
    }
}

#[test]
fn decoding_garbage_fails() {
    let bytes = vec![0xffu8, 0xff, 0, 0];
    assert!(OpCode::from_bytes(&bytes, 0).is_none());
    let short = vec![0u8];
    assert!(OpCode::from_bytes(&short, 0).is_none());
}

#[test]
fn offset_data_section_addr_moves_only_data_refs() {
    let mut d = DataRef::DataSectionIdx(4);
    d.offset_data_section_addr(10);
    assert!(d == DataRef::DataSectionIdx(14));
    let mut s = DataRef::StackIdx(4);
    s.offset_data_section_addr(10);
    assert!(s == DataRef::StackIdx(4));
    let mut op = OpCode::Exec((DataRef::StackIdx(1), DataRef::DataSectionIdx(2)));
    op.offset_data_section_addr(5);
    assert!(op == OpCode::Exec((DataRef::StackIdx(1), DataRef::DataSectionIdx(7))));
}

#[test]
fn tag_only_opcodes_are_two_bytes() {
    assert_eq!(OpCode::StrCat.serialized_size(), 2);
    assert_eq!(OpCode::Pop.serialized_size(), 2);
    assert_eq!(OpCode::PopFree.serialized_size(), 2);
    assert_eq!(OpCode::ToStr.serialized_size(), 2);
    assert_eq!(OpCode::ToBool.serialized_size(), 2);
}
