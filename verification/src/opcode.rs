//! The opcode set and its binary encoding.
//!
//! Every opcode is serialized as a two-byte little-endian discriminant
//! followed by the payload bytes, padded to an even total length. The
//! discriminants are assigned sequentially in declaration order; they are
//! stable for one build of the crate, not across versions.

use vstd::prelude::*;

use crate::data::CopyValue;

verus! {

/// A reference that can stand in an opcode payload: a stack slot counted
/// from the bottom, or an index into the data section.
#[derive(Debug, Clone, Copy, PartialEq, Eq, Structural)]
pub enum DataRef {
    StackIdx(usize),
    DataSectionIdx(usize),
}

/// The instruction set. Each variant carries no payload or exactly one.
#[derive(Debug, Clone, Copy, PartialEq, Eq)]
pub enum OpCode {
    /// Run an external process. Pops the variadic count, that many
    /// argument strings and the executable name from the stack. The
    /// payload records where the executable name and the argument block
    /// were placed on the stack; execution itself pops.
    Exec((DataRef, DataRef)),
    /// Pop a count and that many entries, push the concatenation of their
    /// string renderings as one owned string.
    StrCat,
    /// Not executable: data embedded in the instruction stream.
    DataRef(DataRef),
    /// Push a reference to the referenced value onto the stack.
    PushRefToStack(DataRef),
    /// Push a reference to the data-section entry at the given index.
    PushDataSecRef(usize),
    /// Push a copy value onto the stack.
    PushPrimitive(CopyValue),
    /// Push a copy of the stack entry at the given index onto the top.
    RepushStackEntry(usize),
    /// Pop a value and push its string rendering as one owned string.
    ToStr,
    /// Pop a value and push its truth value.
    ToBool,
    /// Pop the top entry.
    Pop,
    /// Pop the top entry and free the heap value it owns.
    PopFree,
    /// Copy the top entry (without popping) into the given register.
    StackTopToReg(u8),
    /// Push the given register's content onto the stack.
    ReadReg(u8),
    /// Stop execution with the given exit code.
    Exit(i32),
}

/// Payload indices must fit in the seven index bytes of an encoded
/// `DataRef`.
pub const MAX_ENCODABLE_INDEX: u64 = 0x100000000000000u64;

impl DataRef {
    /// The index carried, whichever kind of reference this is.
    pub open spec fn spec_idx(self) -> usize {
        match self {
            DataRef::StackIdx(i) => i,
            DataRef::DataSectionIdx(i) => i,
        }
    }

    /// Whether this reference fits the binary encoding.
    pub open spec fn wf(self) -> bool {
        (self.spec_idx() as u64) < MAX_ENCODABLE_INDEX
    }

    /// The encoding tag: stack references are 0, data-section ones 1.
    pub open spec fn spec_tag(self) -> u8 {
        match self {
            DataRef::StackIdx(_) => 0u8,
            DataRef::DataSectionIdx(_) => 1u8,
        }
    }

    /// Shift a data-section reference by `offset`; leave a stack
    /// reference alone. Used when chunks of code and data are joined.
    pub fn offset_data_section_addr(&mut self, offset: usize)
        requires
            (*old(self)) matches DataRef::DataSectionIdx(i) ==> i + offset <= usize::MAX,
        ensures
            *final(self) == old(self).spec_offset_data(offset),
    {
        if let DataRef::DataSectionIdx(i) = *self {
            *self = DataRef::DataSectionIdx(i + offset);
        }
    }

    /// The result of shifting a data-section reference by `offset`.
    pub open spec fn spec_offset_data(self, offset: usize) -> DataRef {
        match self {
            DataRef::StackIdx(i) => DataRef::StackIdx(i),
            DataRef::DataSectionIdx(i) => DataRef::DataSectionIdx((i + offset) as usize),
        }
    }
}

/// The two little-endian bytes of a 16-bit value.
pub open spec fn u16_le(v: u16) -> Seq<u8> {
    seq![(v & 0xff) as u8, ((v >> 8) & 0xff) as u8]
}

/// The eight little-endian bytes of a 64-bit value.
pub open spec fn u64_le(v: u64) -> Seq<u8> {
    seq![
        (v & 0xff) as u8,
        ((v >> 8) & 0xff) as u8,
        ((v >> 16) & 0xff) as u8,
        ((v >> 24) & 0xff) as u8,
        ((v >> 32) & 0xff) as u8,
        ((v >> 40) & 0xff) as u8,
        ((v >> 48) & 0xff) as u8,
        ((v >> 56) & 0xff) as u8,
    ]
}

/// The seven little-endian bytes of a value below 2^56.
pub open spec fn u56_le(v: u64) -> Seq<u8> {
    seq![
        (v & 0xff) as u8,
        ((v >> 8) & 0xff) as u8,
        ((v >> 16) & 0xff) as u8,
        ((v >> 24) & 0xff) as u8,
        ((v >> 32) & 0xff) as u8,
        ((v >> 40) & 0xff) as u8,
        ((v >> 48) & 0xff) as u8,
    ]
}

/// The 16-bit value read from two little-endian bytes.
pub open spec fn u16_of_le(b0: u8, b1: u8) -> u16 {
    (b0 as u16) | ((b1 as u16) << 8)
}

/// The 64-bit value read from eight little-endian bytes.
pub open spec fn u64_of_le(s: Seq<u8>) -> u64 {
    (s[0] as u64) | ((s[1] as u64) << 8) | ((s[2] as u64) << 16) | ((s[3] as u64) << 24) | ((
    s[4] as u64) << 32) | ((s[5] as u64) << 40) | ((s[6] as u64) << 48) | ((s[7] as u64) << 56)
}

/// The value below 2^56 read from seven little-endian bytes.
pub open spec fn u56_of_le(s: Seq<u8>) -> u64 {
    (s[0] as u64) | ((s[1] as u64) << 8) | ((s[2] as u64) << 16) | ((s[3] as u64) << 24) | ((
    s[4] as u64) << 32) | ((s[5] as u64) << 40) | ((s[6] as u64) << 48)
}

/// The eight payload bytes of a `DataRef`: one tag byte, seven index
/// bytes.
pub open spec fn dataref_bytes(d: DataRef) -> Seq<u8> {
    seq![d.spec_tag()] + u56_le(d.spec_idx() as u64)
}

/// The encoding tag of a `CopyValue`.
pub open spec fn copyvalue_tag(v: CopyValue) -> u8 {
    match v {
        CopyValue::Int(_) => 0u8,
        CopyValue::Float(_) => 1u8,
        CopyValue::Bool(_) => 2u8,
        CopyValue::Unit => 3u8,
    }
}

/// The 64-bit payload image of a `CopyValue`.
pub open spec fn copyvalue_payload(v: CopyValue) -> u64 {
    match v {
        CopyValue::Int(i) => i as u64,
        CopyValue::Float(bits) => bits,
        CopyValue::Bool(b) => if b {
            1u64
        } else {
            0u64
        },
        CopyValue::Unit => 0u64,
    }
}

/// The nine payload bytes of a `CopyValue`: one tag byte, eight value
/// bytes.
pub open spec fn copyvalue_bytes(v: CopyValue) -> Seq<u8> {
    seq![copyvalue_tag(v)] + u64_le(copyvalue_payload(v))
}

impl OpCode {
    /// The discriminant, assigned sequentially in declaration order.
    pub open spec fn spec_id(self) -> u16 {
        match self {
            OpCode::Exec(_) => 0u16,
            OpCode::StrCat => 1u16,
            OpCode::DataRef(_) => 2u16,
            OpCode::PushRefToStack(_) => 3u16,
            OpCode::PushDataSecRef(_) => 4u16,
            OpCode::PushPrimitive(_) => 5u16,
            OpCode::RepushStackEntry(_) => 6u16,
            OpCode::ToStr => 7u16,
            OpCode::ToBool => 8u16,
            OpCode::Pop => 9u16,
            OpCode::PopFree => 10u16,
            OpCode::StackTopToReg(_) => 11u16,
            OpCode::ReadReg(_) => 12u16,
            OpCode::Exit(_) => 13u16,
        }
    }

    /// The discriminant, assigned sequentially in declaration order.
    pub fn get_id(&self) -> (r: u16)
        ensures
            r == self.spec_id(),
    {
        match self {
            OpCode::Exec(_) => 0u16,
            OpCode::StrCat => 1u16,
            OpCode::DataRef(_) => 2u16,
            OpCode::PushRefToStack(_) => 3u16,
            OpCode::PushDataSecRef(_) => 4u16,
            OpCode::PushPrimitive(_) => 5u16,
            OpCode::RepushStackEntry(_) => 6u16,
            OpCode::ToStr => 7u16,
            OpCode::ToBool => 8u16,
            OpCode::Pop => 9u16,
            OpCode::PopFree => 10u16,
            OpCode::StackTopToReg(_) => 11u16,
            OpCode::ReadReg(_) => 12u16,
            OpCode::Exit(_) => 13u16,
        }
    }

    /// Whether every payload reference fits the binary encoding.
    pub open spec fn wf(self) -> bool {
        match self {
            OpCode::Exec((a, b)) => a.wf() && b.wf(),
            OpCode::DataRef(d) => d.wf(),
            OpCode::PushRefToStack(d) => d.wf(),
            OpCode::PushDataSecRef(i) => (i as u64) < MAX_ENCODABLE_INDEX,
            OpCode::RepushStackEntry(i) => (i as u64) < MAX_ENCODABLE_INDEX,
            _ => true,
        }
    }

    /// The full encoding: discriminant, payload, padding to even length.
    pub open spec fn spec_encoding(self) -> Seq<u8> {
        u16_le(self.spec_id()) + match self {
            OpCode::Exec((a, b)) => dataref_bytes(a) + dataref_bytes(b),
            OpCode::StrCat => Seq::empty(),
            OpCode::DataRef(d) => dataref_bytes(d),
            OpCode::PushRefToStack(d) => dataref_bytes(d),
            OpCode::PushDataSecRef(i) => u56_le(i as u64) + seq![0u8],
            OpCode::PushPrimitive(v) => copyvalue_bytes(v) + seq![0u8],
            OpCode::RepushStackEntry(i) => u56_le(i as u64) + seq![0u8],
            OpCode::ToStr => Seq::empty(),
            OpCode::ToBool => Seq::empty(),
            OpCode::Pop => Seq::empty(),
            OpCode::PopFree => Seq::empty(),
            OpCode::StackTopToReg(r) => seq![r, 0u8],
            OpCode::ReadReg(r) => seq![r, 0u8],
            OpCode::Exit(c) => seq![
                (c as u32 & 0xff) as u8,
                ((c as u32 >> 8) & 0xff) as u8,
                ((c as u32 >> 16) & 0xff) as u8,
                ((c as u32 >> 24) & 0xff) as u8,
            ],
        }
    }

    /// The length of the encoding of an opcode with this discriminant.
    pub open spec fn spec_size_of(disc: u16) -> int {
        if disc == 0 {
            18
        } else if disc == 2 || disc == 3 || disc == 4 || disc == 6 {
            10
        } else if disc == 5 {
            12
        } else if disc == 11 || disc == 12 {
            4
        } else if disc == 13 {
            6
        } else {
            2
        }
    }

    /// The length of this opcode's encoding.
    pub open spec fn spec_size(self) -> int {
        Self::spec_size_of(self.spec_id())
    }
}

/// Decode the eight payload bytes of a `DataRef`.
pub open spec fn spec_decode_dataref(s: Seq<u8>) -> Option<DataRef> {
    if s.len() != 8 {
        None
    } else {
        let v = u56_of_le(s.subrange(1, 8));
        if v > usize::MAX as u64 {
            None
        } else if s[0] == 0 {
            Some(DataRef::StackIdx(v as usize))
        } else if s[0] == 1 {
            Some(DataRef::DataSectionIdx(v as usize))
        } else {
            None
        }
    }
}

/// Decode the nine payload bytes of a `CopyValue`.
pub open spec fn spec_decode_copyvalue(s: Seq<u8>) -> Option<CopyValue> {
    if s.len() != 9 {
        None
    } else {
        let v = u64_of_le(s.subrange(1, 9));
        if s[0] == 0 {
            Some(CopyValue::Int(v as i64))
        } else if s[0] == 1 {
            Some(CopyValue::Float(v))
        } else if s[0] == 2 {
            if v == 0 {
                Some(CopyValue::Bool(false))
            } else if v == 1 {
                Some(CopyValue::Bool(true))
            } else {
                None
            }
        } else if s[0] == 3 {
            Some(CopyValue::Unit)
        } else {
            None
        }
    }
}

/// Decode one opcode starting at `pos`. Trailing bytes are ignored.
pub open spec fn spec_decode_at(s: Seq<u8>, pos: int) -> Option<OpCode> {
    if pos < 0 || pos + 2 > s.len() {
        None
    } else {
        let disc = u16_of_le(s[pos], s[pos + 1]);
        if pos + OpCode::spec_size_of(disc) > s.len() {
            None
        } else if disc == 0 {
            match (spec_decode_dataref(s.subrange(pos + 2, pos + 10)), spec_decode_dataref(
                s.subrange(pos + 10, pos + 18),
            )) {
                (Some(a), Some(b)) => Some(OpCode::Exec((a, b))),
                _ => None,
            }
        } else if disc == 1 {
            Some(OpCode::StrCat)
        } else if disc == 2 {
            match spec_decode_dataref(s.subrange(pos + 2, pos + 10)) {
                Some(d) => Some(OpCode::DataRef(d)),
                None => None,
            }
        } else if disc == 3 {
            match spec_decode_dataref(s.subrange(pos + 2, pos + 10)) {
                Some(d) => Some(OpCode::PushRefToStack(d)),
                None => None,
            }
        } else if disc == 4 {
            let v = u56_of_le(s.subrange(pos + 2, pos + 9));
            if v > usize::MAX as u64 {
                None
            } else {
                Some(OpCode::PushDataSecRef(v as usize))
            }
        } else if disc == 5 {
            match spec_decode_copyvalue(s.subrange(pos + 2, pos + 11)) {
                Some(v) => Some(OpCode::PushPrimitive(v)),
                None => None,
            }
        } else if disc == 6 {
            let v = u56_of_le(s.subrange(pos + 2, pos + 9));
            if v > usize::MAX as u64 {
                None
            } else {
                Some(OpCode::RepushStackEntry(v as usize))
            }
        } else if disc == 7 {
            Some(OpCode::ToStr)
        } else if disc == 8 {
            Some(OpCode::ToBool)
        } else if disc == 9 {
            Some(OpCode::Pop)
        } else if disc == 10 {
            Some(OpCode::PopFree)
        } else if disc == 11 {
            Some(OpCode::StackTopToReg(s[pos + 2]))
        } else if disc == 12 {
            Some(OpCode::ReadReg(s[pos + 2]))
        } else if disc == 13 {
            let v = (s[pos + 2] as u32) | ((s[pos + 3] as u32) << 8) | ((s[pos + 4] as u32) << 16)
                | ((s[pos + 5] as u32) << 24);
            Some(OpCode::Exit(v as i32))
        } else {
            None
        }
    }
}

/// Two little-endian bytes decode to the value they were made from.
proof fn lemma_u16_rt(v: u16)
    ensures
        u16_of_le((v & 0xff) as u8, ((v >> 8) & 0xff) as u8) == v,
{
    assert(((v & 0xff) as u8 as u16) | ((((v >> 8) & 0xff) as u8 as u16) << 8) == v)
        by (bit_vector);
}

/// Seven little-endian bytes decode to the value they were made from.
proof fn lemma_u56_rt(v: u64)
    requires
        v < MAX_ENCODABLE_INDEX,
    ensures
        u56_of_le(u56_le(v)) == v,
{
    let s = u56_le(v);
    assert(s.subrange(0, 7) =~= s);
    assert(v < 0x100000000000000u64 ==> ((v & 0xff) as u8 as u64) | (((v >> 8) & 0xff) as u8
        as u64) << 8 | (((v >> 16) & 0xff) as u8 as u64) << 16 | (((v >> 24) & 0xff) as u8 as u64)
        << 24 | (((v >> 32) & 0xff) as u8 as u64) << 32 | (((v >> 40) & 0xff) as u8 as u64) << 40
        | (((v >> 48) & 0xff) as u8 as u64) << 48 == v) by (bit_vector);
}

/// Eight little-endian bytes decode to the value they were made from.
proof fn lemma_u64_rt(v: u64)
    ensures
        u64_of_le(u64_le(v)) == v,
{
    assert(((v & 0xff) as u8 as u64) | (((v >> 8) & 0xff) as u8 as u64) << 8 | (((v >> 16)
        & 0xff) as u8 as u64) << 16 | (((v >> 24) & 0xff) as u8 as u64) << 24 | (((v >> 32)
        & 0xff) as u8 as u64) << 32 | (((v >> 40) & 0xff) as u8 as u64) << 40 | (((v >> 48)
        & 0xff) as u8 as u64) << 48 | (((v >> 56) & 0xff) as u8 as u64) << 56 == v)
        by (bit_vector);
}

/// A 64-bit round trip through the signed interpretation is lossless.
proof fn lemma_i64_rt(i: i64)
    ensures
        (i as u64) as i64 == i,
{
    assert((i as u64) as i64 == i) by (bit_vector);
}

/// A 32-bit round trip through the unsigned interpretation is lossless.
proof fn lemma_i32_rt(c: i32)
    ensures
        ((c as u32 & 0xff) as u8 as u32) | (((c as u32 >> 8) & 0xff) as u8 as u32) << 8 | (((c
            as u32 >> 16) & 0xff) as u8 as u32) << 16 | (((c as u32 >> 24) & 0xff) as u8 as u32)
            << 24 == c as u32,
        (c as u32) as i32 == c,
{
    assert(((c as u32 & 0xff) as u8 as u32) | (((c as u32 >> 8) & 0xff) as u8 as u32) << 8 | (((c
        as u32 >> 16) & 0xff) as u8 as u32) << 16 | (((c as u32 >> 24) & 0xff) as u8 as u32)
        << 24 == c as u32) by (bit_vector);
    assert((c as u32) as i32 == c) by (bit_vector);
}

/// The payload bytes of a well-formed `DataRef` decode to it.
proof fn lemma_dataref_rt(d: DataRef)
    requires
        d.wf(),
    ensures
        dataref_bytes(d).len() == 8,
        spec_decode_dataref(dataref_bytes(d)) == Some(d),
{
    let s = dataref_bytes(d);
    assert(s.subrange(1, 8) =~= u56_le(d.spec_idx() as u64));
    lemma_u56_rt(d.spec_idx() as u64);
}

/// The payload bytes of a `CopyValue` decode to it.
proof fn lemma_copyvalue_rt(v: CopyValue)
    ensures
        copyvalue_bytes(v).len() == 9,
        spec_decode_copyvalue(copyvalue_bytes(v)) == Some(v),
{
    let s = copyvalue_bytes(v);
    assert(s.subrange(1, 9) =~= u64_le(copyvalue_payload(v)));
    lemma_u64_rt(copyvalue_payload(v));
    match v {
        CopyValue::Int(i) => {
            lemma_i64_rt(i);
        }
        _ => {}
    }
}

/// Encoding then decoding yields the opcode back; the encoding's length
/// is the serialized size, and it is always even.
pub proof fn lemma_opcode_round_trip(op: OpCode)
    requires
        op.wf(),
    ensures
        op.spec_encoding().len() == op.spec_size(),
        op.spec_size() % 2 == 0,
        spec_decode_at(op.spec_encoding(), 0) == Some(op),
{
    let s = op.spec_encoding();
    lemma_u16_rt(op.spec_id());
    assert(u16_of_le(s[0], s[1]) == op.spec_id());
    match op {
        OpCode::Exec((a, b)) => {
            assert(s.subrange(2, 10) =~= dataref_bytes(a));
            assert(s.subrange(10, 18) =~= dataref_bytes(b));
            lemma_dataref_rt(a);
            lemma_dataref_rt(b);
        }
        OpCode::DataRef(d) => {
            assert(s.subrange(2, 10) =~= dataref_bytes(d));
            lemma_dataref_rt(d);
        }
        OpCode::PushRefToStack(d) => {
            assert(s.subrange(2, 10) =~= dataref_bytes(d));
            lemma_dataref_rt(d);
        }
        OpCode::PushDataSecRef(i) => {
            assert(s.subrange(2, 9) =~= u56_le(i as u64));
            lemma_u56_rt(i as u64);
        }
        OpCode::PushPrimitive(v) => {
            assert(s.subrange(2, 11) =~= copyvalue_bytes(v));
            lemma_copyvalue_rt(v);
        }
        OpCode::RepushStackEntry(i) => {
            assert(s.subrange(2, 9) =~= u56_le(i as u64));
            lemma_u56_rt(i as u64);
        }
        OpCode::Exit(c) => {
            lemma_i32_rt(c);
        }
        _ => {}
    }
}

/// Append the seven little-endian bytes of a value below 2^56.
fn push_u56_le(out: &mut Vec<u8>, v: u64)
    requires
        v < MAX_ENCODABLE_INDEX,
    ensures
        final(out)@ == old(out)@ + u56_le(v),
{
    out.push((v & 0xff) as u8);
    out.push(((v >> 8) & 0xff) as u8);
    out.push(((v >> 16) & 0xff) as u8);
    out.push(((v >> 24) & 0xff) as u8);
    out.push(((v >> 32) & 0xff) as u8);
    out.push(((v >> 40) & 0xff) as u8);
    out.push(((v >> 48) & 0xff) as u8);
    proof {
        assert(out@ =~= old(out)@ + u56_le(v));
    }
}

/// Append the eight little-endian bytes of a 64-bit value.
fn push_u64_le(out: &mut Vec<u8>, v: u64)
    ensures
        final(out)@ == old(out)@ + u64_le(v),
{
    out.push((v & 0xff) as u8);
    out.push(((v >> 8) & 0xff) as u8);
    out.push(((v >> 16) & 0xff) as u8);
    out.push(((v >> 24) & 0xff) as u8);
    out.push(((v >> 32) & 0xff) as u8);
    out.push(((v >> 40) & 0xff) as u8);
    out.push(((v >> 48) & 0xff) as u8);
    out.push(((v >> 56) & 0xff) as u8);
    proof {
        assert(out@ =~= old(out)@ + u64_le(v));
    }
}

/// Append the eight payload bytes of a `DataRef`.
fn push_dataref(out: &mut Vec<u8>, d: DataRef)
    requires
        d.wf(),
    ensures
        final(out)@ == old(out)@ + dataref_bytes(d),
{
    match d {
        DataRef::StackIdx(i) => {
            out.push(0u8);
            push_u56_le(out, i as u64);
        }
        DataRef::DataSectionIdx(i) => {
            out.push(1u8);
            push_u56_le(out, i as u64);
        }
    }
    proof {
        assert(out@ =~= old(out)@ + dataref_bytes(d));
    }
}

impl OpCode {
    /// The serialized size of an opcode with the given discriminant.
    /// Unknown discriminants answer two, the size of a bare tag.
    pub fn serialized_size_of(disc: u16) -> (r: usize)
        ensures
            r as int == Self::spec_size_of(disc),
    {
        if disc == 0 {
            18
        } else if disc == 2 || disc == 3 || disc == 4 || disc == 6 {
            10
        } else if disc == 5 {
            12
        } else if disc == 11 || disc == 12 {
            4
        } else if disc == 13 {
            6
        } else {
            2
        }
    }

    /// The length in bytes of this opcode's encoding.
    pub fn serialized_size(&self) -> (r: usize)
        ensures
            r as int == self.spec_size(),
    {
        Self::serialized_size_of(self.get_id())
    }

    /// The full binary encoding of this opcode.
    pub fn to_bytes(&self) -> (r: Vec<u8>)
        requires
            self.wf(),
        ensures
            r@ == self.spec_encoding(),
    {
        let mut out: Vec<u8> = Vec::new();
        let id = self.get_id();
        out.push((id & 0xff) as u8);
        out.push(((id >> 8) & 0xff) as u8);
        proof {
            assert(out@ =~= u16_le(self.spec_id()));
        }
        match self {
            OpCode::Exec((a, b)) => {
                push_dataref(&mut out, *a);
                push_dataref(&mut out, *b);
            }
            OpCode::DataRef(d) => {
                push_dataref(&mut out, *d);
            }
            OpCode::PushRefToStack(d) => {
                push_dataref(&mut out, *d);
            }
            OpCode::PushDataSecRef(i) => {
                push_u56_le(&mut out, *i as u64);
                out.push(0u8);
            }
            OpCode::PushPrimitive(v) => {
                match v {
                    CopyValue::Int(x) => {
                        out.push(0u8);
                        push_u64_le(&mut out, *x as u64);
                    }
                    CopyValue::Float(bits) => {
                        out.push(1u8);
                        push_u64_le(&mut out, *bits);
                    }
                    CopyValue::Bool(b) => {
                        out.push(2u8);
                        push_u64_le(&mut out, if *b { 1u64 } else { 0u64 });
                    }
                    CopyValue::Unit => {
                        out.push(3u8);
                        push_u64_le(&mut out, 0u64);
                    }
                }
                out.push(0u8);
            }
            OpCode::RepushStackEntry(i) => {
                push_u56_le(&mut out, *i as u64);
                out.push(0u8);
            }
            OpCode::StackTopToReg(r) => {
                out.push(*r);
                out.push(0u8);
            }
            OpCode::ReadReg(r) => {
                out.push(*r);
                out.push(0u8);
            }
            OpCode::Exit(c) => {
                let u = *c as u32;
                out.push((u & 0xff) as u8);
                out.push(((u >> 8) & 0xff) as u8);
                out.push(((u >> 16) & 0xff) as u8);
                out.push(((u >> 24) & 0xff) as u8);
            }
            OpCode::StrCat => {}
            OpCode::ToStr => {}
            OpCode::ToBool => {}
            OpCode::Pop => {}
            OpCode::PopFree => {}
        }
        proof {
            assert(out@ =~= self.spec_encoding());
        }
        out
    }

    /// Decode the opcode that starts at byte `pos`.
    pub fn from_bytes(bytes: &Vec<u8>, pos: usize) -> (r: Option<(OpCode, usize)>)
        ensures
            match r {
                Some((op, size)) => {
                    &&& spec_decode_at(bytes@, pos as int) == Some(op)
                    &&& size as int == op.spec_size()
                },
                None => spec_decode_at(bytes@, pos as int) is None,
            },
    {
        if pos >= bytes.len() || bytes.len() - pos < 2 {
            return None;
        }
        let disc = (bytes[pos] as u16) | ((bytes[pos + 1] as u16) << 8);
        let size = Self::serialized_size_of(disc);
        if bytes.len() - pos < size {
            return None;
        }
        let body = pos + 2;
        if disc == 0 {
            let a = Self::read_dataref(bytes, body);
            let b = Self::read_dataref(bytes, body + 8);
            proof {
                assert(bytes@.subrange(pos + 2, pos + 10) =~= bytes@.subrange(
                    body as int,
                    body + 8,
                ));
                assert(bytes@.subrange(pos + 10, pos + 18) =~= bytes@.subrange(
                    body + 8,
                    body + 16,
                ));
            }
            match (a, b) {
                (Some(a), Some(b)) => Some((OpCode::Exec((a, b)), size)),
                _ => None,
            }
        } else if disc == 1 {
            Some((OpCode::StrCat, size))
        } else if disc == 2 {
            match Self::read_dataref(bytes, body) {
                Some(d) => Some((OpCode::DataRef(d), size)),
                None => None,
            }
        } else if disc == 3 {
            match Self::read_dataref(bytes, body) {
                Some(d) => Some((OpCode::PushRefToStack(d), size)),
                None => None,
            }
        } else if disc == 4 {
            match Self::read_u56_as_usize(bytes, body) {
                Some(i) => Some((OpCode::PushDataSecRef(i), size)),
                None => None,
            }
        } else if disc == 5 {
            let tag = bytes[body];
            let v = Self::read_u64(bytes, body + 1);
            proof {
                assert(bytes@.subrange(pos + 2, pos + 11).subrange(1, 9) =~= bytes@.subrange(
                    body + 1,
                    body + 9,
                ));
                assert(bytes@.subrange(pos + 2, pos + 11)[0] == bytes@[body as int]);
            }
            if tag == 0 {
                proof {
                    lemma_i64_rt(v as i64);
                    assert((v as i64) as u64 == v) by (bit_vector);
                }
                Some((OpCode::PushPrimitive(CopyValue::Int(v as i64)), size))
            } else if tag == 1 {
                Some((OpCode::PushPrimitive(CopyValue::Float(v)), size))
            } else if tag == 2 {
                if v == 0 {
                    Some((OpCode::PushPrimitive(CopyValue::Bool(false)), size))
                } else if v == 1 {
                    Some((OpCode::PushPrimitive(CopyValue::Bool(true)), size))
                } else {
                    None
                }
            } else if tag == 3 {
                Some((OpCode::PushPrimitive(CopyValue::Unit), size))
            } else {
                None
            }
        } else if disc == 6 {
            match Self::read_u56_as_usize(bytes, body) {
                Some(i) => Some((OpCode::RepushStackEntry(i), size)),
                None => None,
            }
        } else if disc == 7 {
            Some((OpCode::ToStr, size))
        } else if disc == 8 {
            Some((OpCode::ToBool, size))
        } else if disc == 9 {
            Some((OpCode::Pop, size))
        } else if disc == 10 {
            Some((OpCode::PopFree, size))
        } else if disc == 11 {
            Some((OpCode::StackTopToReg(bytes[body]), size))
        } else if disc == 12 {
            Some((OpCode::ReadReg(bytes[body]), size))
        } else if disc == 13 {
            let v = (bytes[body] as u32) | ((bytes[body + 1] as u32) << 8) | ((bytes[body
                + 2] as u32) << 16) | ((bytes[body + 3] as u32) << 24);
            proof {
                assert((v as i32) as u32 == v) by (bit_vector);
            }
            Some((OpCode::Exit(v as i32), size))
        } else {
            None
        }
    }

    /// Read the eight payload bytes of a `DataRef` at `at`.
    fn read_dataref(bytes: &Vec<u8>, at: usize) -> (r: Option<DataRef>)
        requires
            at + 8 <= bytes@.len(),
        ensures
            r == spec_decode_dataref(bytes@.subrange(at as int, at + 8)),
    {
        let n: usize = bytes.len();
        proof {
            assert(at + 8 <= n);
        }
        let tag = bytes[at];
        let v = Self::read_u56(bytes, at + 1);
        proof {
            assert(bytes@.subrange(at as int, at + 8).subrange(1, 8) =~= bytes@.subrange(
                at + 1,
                at + 9 - 1,
            ));
            assert(bytes@.subrange(at as int, at + 8)[0] == bytes@[at as int]);
        }
        if v > usize::MAX as u64 {
            None
        } else if tag == 0 {
            Some(DataRef::StackIdx(v as usize))
        } else if tag == 1 {
            Some(DataRef::DataSectionIdx(v as usize))
        } else {
            None
        }
    }

    /// Read seven little-endian bytes at `at`.
    fn read_u56(bytes: &Vec<u8>, at: usize) -> (r: u64)
        requires
            at + 7 <= bytes@.len(),
        ensures
            r == u56_of_le(bytes@.subrange(at as int, at + 7)),
    {
        let n: usize = bytes.len();
        proof {
            assert(at + 7 <= n);
        }
        let r = (bytes[at] as u64) | ((bytes[at + 1] as u64) << 8) | ((bytes[at + 2] as u64)
            << 16) | ((bytes[at + 3] as u64) << 24) | ((bytes[at + 4] as u64) << 32) | ((bytes[at
            + 5] as u64) << 40) | ((bytes[at + 6] as u64) << 48);
        proof {
            let s = bytes@.subrange(at as int, at + 7);
            assert(s[0] == bytes@[at as int]);
            assert(s[1] == bytes@[at + 1]);
            assert(s[2] == bytes@[at + 2]);
            assert(s[3] == bytes@[at + 3]);
            assert(s[4] == bytes@[at + 4]);
            assert(s[5] == bytes@[at + 5]);
            assert(s[6] == bytes@[at + 6]);
        }
        r
    }

    /// Read seven little-endian bytes at `at`, as a `usize` if it fits.
    fn read_u56_as_usize(bytes: &Vec<u8>, at: usize) -> (r: Option<usize>)
        requires
            at + 7 <= bytes@.len(),
        ensures
            ({
                let v = u56_of_le(bytes@.subrange(at as int, at + 7));
                if v > usize::MAX as u64 {
                    r is None
                } else {
                    r == Some(v as usize)
                }
            }),
    {
        let v = Self::read_u56(bytes, at);
        if v > usize::MAX as u64 {
            None
        } else {
            Some(v as usize)
        }
    }

    /// Read eight little-endian bytes at `at`.
    fn read_u64(bytes: &Vec<u8>, at: usize) -> (r: u64)
        requires
            at + 8 <= bytes@.len(),
        ensures
            r == u64_of_le(bytes@.subrange(at as int, at + 8)),
    {
        let n: usize = bytes.len();
        proof {
            assert(at + 8 <= n);
        }
        let r = (bytes[at] as u64) | ((bytes[at + 1] as u64) << 8) | ((bytes[at + 2] as u64)
            << 16) | ((bytes[at + 3] as u64) << 24) | ((bytes[at + 4] as u64) << 32) | ((bytes[at
            + 5] as u64) << 40) | ((bytes[at + 6] as u64) << 48) | ((bytes[at + 7] as u64) << 56);
        proof {
            let s = bytes@.subrange(at as int, at + 8);
            assert(s[0] == bytes@[at as int]);
            assert(s[1] == bytes@[at + 1]);
            assert(s[2] == bytes@[at + 2]);
            assert(s[3] == bytes@[at + 3]);
            assert(s[4] == bytes@[at + 4]);
            assert(s[5] == bytes@[at + 5]);
            assert(s[6] == bytes@[at + 6]);
            assert(s[7] == bytes@[at + 7]);
        }
        r
    }

    /// Shift every data-section reference in the payload by `offset`.
    pub fn offset_data_section_addr(&mut self, offset: usize)
        requires
            old(self).offset_fits(offset),
        ensures
            *final(self) == old(self).spec_offset_data(offset),
    {
        match self {
            OpCode::Exec((a, b)) => {
                a.offset_data_section_addr(offset);
                b.offset_data_section_addr(offset);
            }
            OpCode::DataRef(d) => {
                d.offset_data_section_addr(offset);
            }
            OpCode::PushRefToStack(d) => {
                d.offset_data_section_addr(offset);
            }
            OpCode::PushDataSecRef(i) => {
                *self = OpCode::PushDataSecRef(*i + offset);
            }
            _ => {}
        }
    }

    /// Whether shifting the data-section references by `offset` stays in
    /// range.
    pub open spec fn offset_fits(self, offset: usize) -> bool {
        match self {
            OpCode::Exec((a, b)) => {
                &&& (a matches DataRef::DataSectionIdx(i) ==> i + offset <= usize::MAX)
                &&& (b matches DataRef::DataSectionIdx(i) ==> i + offset <= usize::MAX)
            },
            OpCode::DataRef(d) => d matches DataRef::DataSectionIdx(i) ==> i + offset
                <= usize::MAX,
            OpCode::PushRefToStack(d) => d matches DataRef::DataSectionIdx(i) ==> i + offset
                <= usize::MAX,
            OpCode::PushDataSecRef(i) => i + offset <= usize::MAX,
            _ => true,
        }
    }

    /// The result of shifting the data-section references by `offset`.
    pub open spec fn spec_offset_data(self, offset: usize) -> OpCode {
        match self {
            OpCode::Exec((a, b)) => OpCode::Exec(
                (a.spec_offset_data(offset), b.spec_offset_data(offset)),
            ),
            OpCode::DataRef(d) => OpCode::DataRef(d.spec_offset_data(offset)),
            OpCode::PushRefToStack(d) => OpCode::PushRefToStack(d.spec_offset_data(offset)),
            OpCode::PushDataSecRef(i) => OpCode::PushDataSecRef((i + offset) as usize),
            _ => self,
        }
    }
}

/// Every opcode's encoding takes at least the two discriminant bytes.
pub proof fn lemma_size_positive(op: OpCode)
    ensures
        op.spec_size() >= 2,
{
}

impl DataRef {
    /// Whether this reference fits the binary encoding.
    pub fn check_wf(&self) -> (r: bool)
        ensures
            r == self.wf(),
    {
        let i = match self {
            DataRef::StackIdx(i) => *i,
            DataRef::DataSectionIdx(i) => *i,
        };
        (i as u64) < MAX_ENCODABLE_INDEX
    }
}

impl OpCode {
    /// Whether every payload reference fits the binary encoding.
    pub fn check_wf(&self) -> (r: bool)
        ensures
            r == self.wf(),
    {
        match self {
            OpCode::Exec((a, b)) => a.check_wf() && b.check_wf(),
            OpCode::DataRef(d) => d.check_wf(),
            OpCode::PushRefToStack(d) => d.check_wf(),
            OpCode::PushDataSecRef(i) => (*i as u64) < MAX_ENCODABLE_INDEX,
            OpCode::RepushStackEntry(i) => (*i as u64) < MAX_ENCODABLE_INDEX,
            _ => true,
        }
    }
}

} // verus!
