//! Final bytecode, its debug information, and the runner that executes
//! it.
//!
//! The runner advances a program counter over the encoded text, decoding
//! and executing one opcode per step. Running an external process is the
//! one thing the core cannot do itself: the step hands the executable
//! name and arguments out as an external-call request, and the caller
//! performs it and decides how to go on.

use vstd::prelude::*;
use vstd::string::StringExecFns;

use crate::bytecode_builder::ByteCodeBuilder;
use crate::compiler::CompilationError;
use crate::data::{ComptimeValue, CopyValue, Data, RuntimeData, RuntimeRef, RuntimeValue, Value, ValueV};
use crate::opcode::{DataRef, OpCode};
use crate::heap::heap_live;
use crate::vm::{mem_wf, render_data, renders_concat, spec_render, to_bool, Error, Memory};

verus! {

/// Bytecode in its final form: the encoded text and the data section.
#[derive(Debug)]
pub struct ByteCode {
    pub text: Vec<u8>,
    pub data: Vec<ComptimeValue>,
}

/// What the compiler knows about the bytecode, for diagnostics: the id
/// of the node each opcode came from, and the mapping from byte offset
/// to opcode ordinal.
#[derive(Debug)]
pub struct DebugInformation {
    /// The id of the AST node the n-th opcode was generated from.
    pub ast_ids: Vec<usize>,
    /// Pairs of byte offset and opcode ordinal, in program order.
    pub index: Vec<(usize, usize)>,
}

/// The ordinal paired with `offset`, if the pairs hold one.
pub open spec fn spec_index_lookup(pairs: Seq<(usize, usize)>, offset: usize) -> Option<usize>
    decreases pairs,
{
    if pairs.len() == 0 {
        None
    } else if pairs[0].0 == offset {
        Some(pairs[0].1)
    } else {
        spec_index_lookup(pairs.subrange(1, pairs.len() as int), offset)
    }
}

/// The ordinal paired with `offset` in an offset-to-ordinal table.
#[verifier::loop_isolation(false)]
pub fn index_lookup(index: &Vec<(usize, usize)>, offset: usize) -> (r: Option<usize>)
    ensures
        r == spec_index_lookup(index@, offset),
{
    proof {
        assert(index@.subrange(0, index@.len() as int) =~= index@);
    }
    let mut i: usize = 0;
    while i < index.len()
        invariant
            i <= index@.len(),
            spec_index_lookup(index@, offset) == spec_index_lookup(
                index@.subrange(i as int, index@.len() as int),
                offset,
            ),
        decreases index@.len() - i,
    {
        proof {
            assert(index@.subrange(i as int, index@.len() as int).subrange(
                1,
                index@.len() - i,
            ) =~= index@.subrange(i + 1, index@.len() as int));
            assert(index@.subrange(i as int, index@.len() as int)[0] == index@[i as int]);
        }
        if index[i].0 == offset {
            return Some(index[i].1);
        }
        i = i + 1;
    }
    proof {
        assert(index@.subrange(index@.len() as int, index@.len() as int) =~= Seq::<
            (usize, usize),
        >::empty());
    }
    None
}

impl DebugInformation {
    /// The opcode ordinal that starts at byte `offset`.
    pub fn index_of(&self, offset: usize) -> (r: Option<usize>)
        ensures
            r == spec_index_lookup(self.index@, offset),
    {
        index_lookup(&self.index, offset)
    }
}

/// What one step of the runner can lead to.
pub enum StepResult {
    /// The instruction ran; the next one can follow.
    Stepped,
    /// The program finished with this exit code.
    Done(i32),
    /// Execution failed.
    Failed(Error),
    /// The instruction asks for an external process: the caller runs
    /// `bin` with `args`, and on failure stops with an error built from
    /// them; on success it simply keeps stepping. The unit result of
    /// the call is already on the stack.
    ExternalCall { bin: String, args: Vec<String> },
}

/// Executes final bytecode, one instruction at a time.
#[derive(Debug)]
pub struct Runner {
    pub text: Vec<u8>,
    pub mem: Memory,
    pub pc: usize,
}

/// The byte offset where opcode `i` of the sequence starts: the sum of
/// the sizes of the opcodes before it.
pub open spec fn text_offset(ops: Seq<OpCode>, i: int) -> int
    decreases i,
{
    if i <= 0 {
        0
    } else {
        text_offset(ops, i - 1) + ops[i - 1].spec_size()
    }
}

/// Offsets never shrink as the ordinal grows.
pub proof fn lemma_text_offset_mono(ops: Seq<OpCode>, i: int, j: int)
    requires
        0 <= i <= j,
    ensures
        text_offset(ops, i) <= text_offset(ops, j),
    decreases j - i,
{
    if i < j {
        lemma_text_offset_mono(ops, i, j - 1);
        crate::opcode::lemma_size_positive(ops[j - 1]);
    }
}


/// Offsets grow strictly: every opcode takes at least two bytes.
pub proof fn lemma_text_offset_strict(ops: Seq<OpCode>, i: int, j: int)
    requires
        0 <= i < j,
    ensures
        text_offset(ops, i) < text_offset(ops, j),
    decreases j - i,
{
    crate::opcode::lemma_size_positive(ops[j - 1]);
    if i < j - 1 {
        lemma_text_offset_strict(ops, i, j - 1);
    }
}

/// A first-match lookup finds the one pair that carries the offset.
proof fn lemma_lookup_unique(pairs: Seq<(usize, usize)>, off: usize, i: int)
    requires
        0 <= i < pairs.len(),
        pairs[i].0 == off,
        forall|k: int| 0 <= k < pairs.len() && k != i ==> (#[trigger] pairs[k]).0 != off,
    ensures
        spec_index_lookup(pairs, off) == Some(pairs[i].1),
    decreases pairs,
{
    if pairs[0].0 == off {
        assert(i == 0);
    } else {
        let rest = pairs.subrange(1, pairs.len() as int);
        assert forall|k: int| 0 <= k < rest.len() && k != i - 1 implies (#[trigger] rest[k]).0
            != off by {
            assert(rest[k] == pairs[k + 1]);
        }
        assert(rest[i - 1] == pairs[i]);
        lemma_lookup_unique(rest, off, i - 1);
    }
}

/// The offset index answers, for every opcode, exactly its ordinal:
/// looking up the sum of the sizes of the opcodes before opcode `i`
/// yields `i`. This is what ties the byte-addressed text back to the
/// opcode list.
pub proof fn lemma_index_finds_each_opcode(
    ops: Seq<OpCode>,
    pairs: Seq<(usize, usize)>,
    i: int,
)
    requires
        pairs.len() == ops.len(),
        forall|k: int|
            0 <= k < ops.len() ==> (#[trigger] pairs[k]) == (
            (text_offset(ops, k) as usize),
            k as usize,
        ),
        text_offset(ops, ops.len() as int) <= usize::MAX,
        0 <= i < ops.len(),
    ensures
        spec_index_lookup(pairs, (text_offset(ops, i) as usize)) == Some(i as usize),
{
    assert forall|k: int| 0 <= k < pairs.len() && k != i implies (#[trigger] pairs[k]).0 != (
    text_offset(ops, i) as usize) by {
        lemma_text_offset_mono(ops, 0, k);
        lemma_text_offset_mono(ops, 0, i);
        lemma_text_offset_mono(ops, k + 1, ops.len() as int);
        lemma_text_offset_mono(ops, i + 1, ops.len() as int);
        crate::opcode::lemma_size_positive(ops[k]);
        crate::opcode::lemma_size_positive(ops[i]);
        if k < i {
            lemma_text_offset_strict(ops, k, i);
        } else {
            lemma_text_offset_strict(ops, i, k);
        }
    }
    lemma_lookup_unique(pairs, (text_offset(ops, i) as usize), i);
}

/// Encode a sequence of opcodes: the concatenated encodings, and one
/// (byte offset, ordinal) pair per opcode. The offset of each opcode is
/// the sum of the sizes of those before it. An opcode whose payload
/// index does not fit the encoding is reported.
#[verifier::loop_isolation(false)]
pub fn encode_opcodes(ops: &Vec<OpCode>) -> (r: Result<(Vec<u8>, Vec<(usize, usize)>), usize>)
    ensures
        r matches Ok(p) ==> ({
            &&& p.1@.len() == ops@.len()
            &&& (forall|k: int|
                0 <= k < ops@.len() ==> (#[trigger] p.1@[k]) == (
                (text_offset(ops@, k) as usize),
                k as usize,
            ))
            &&& p.0@.len() == text_offset(ops@, ops@.len() as int)
            &&& (forall|k: int|
                0 <= k < ops@.len() ==> #[trigger] ops@[k].wf() && p.0@.subrange(
                    text_offset(ops@, k),
                    text_offset(ops@, k) + ops@[k].spec_size(),
                ) == ops@[k].spec_encoding())
        }),
        r matches Err(k) ==> k < ops@.len() && !ops@[k as int].wf(),
{
    let mut bytes: Vec<u8> = Vec::new();
    let mut index: Vec<(usize, usize)> = Vec::new();
    let mut k: usize = 0;
    while k < ops.len()
        invariant
            k <= ops@.len(),
            index@.len() == k,
            forall|j: int|
                0 <= j < k ==> (#[trigger] index@[j]) == (
                (text_offset(ops@, j) as usize),
                j as usize,
                ),
            bytes@.len() == text_offset(ops@, k as int),
            forall|j: int|
                0 <= j < k ==> #[trigger] ops@[j].wf() && bytes@.subrange(
                    text_offset(ops@, j),
                    text_offset(ops@, j) + ops@[j].spec_size(),
                ) == ops@[j].spec_encoding(),
        decreases ops@.len() - k,
    {
        let op = &ops[k];
        if !op.check_wf() {
            return Err(k);
        }
        let mut enc = op.to_bytes();
        proof {
            crate::opcode::lemma_opcode_round_trip(ops@[k as int]);
            lemma_text_offset_mono(ops@, 0, k as int);
        }
        index.push((bytes.len(), k));
        let ghost bytes_before = bytes@;
        bytes.append(&mut enc);
        proof {
            assert(bytes@ == bytes_before + ops@[k as int].spec_encoding());
            assert(text_offset(ops@, k + 1) == text_offset(ops@, k as int) + ops@[
                k as int
            ].spec_size());
            assert(bytes@.len() == text_offset(ops@, k + 1));
            assert forall|j: int|
                0 <= j < k + 1 implies #[trigger] ops@[j].wf() && bytes@.subrange(
                text_offset(ops@, j),
                text_offset(ops@, j) + ops@[j].spec_size(),
            ) == ops@[j].spec_encoding() by {
                if j < k {
                    lemma_text_offset_mono(ops@, 0, j);
                    lemma_text_offset_mono(ops@, j, k as int);
                    lemma_text_offset_mono(ops@, j + 1, k as int);
                    assert(bytes@.subrange(
                        text_offset(ops@, j),
                        text_offset(ops@, j) + ops@[j].spec_size(),
                    ) =~= bytes_before.subrange(
                        text_offset(ops@, j),
                        text_offset(ops@, j) + ops@[j].spec_size(),
                    ));
                } else {
                    lemma_text_offset_mono(ops@, 0, j);
                    assert(bytes@.subrange(
                        text_offset(ops@, j),
                        text_offset(ops@, j) + ops@[j].spec_size(),
                    ) =~= ops@[j].spec_encoding());
                }
            }
        }
        k = k + 1;
    }
    Ok((bytes, index))
}

impl ByteCodeBuilder {
    /// Finish building: append the final exit, encode the opcodes, and
    /// hand out the bytecode with its debug information. The offset
    /// index maps the byte offset of each opcode to its ordinal. A
    /// payload index too large for the encoding is reported.
    pub fn build(self) -> (r: Result<(ByteCode, DebugInformation), CompilationError>)
        ensures
            r matches Ok(p) ==> ({
                let ops = self.text@.push(OpCode::Exit(0));
                &&& p.1.index@.len() == ops.len()
                &&& (forall|k: int|
                    0 <= k < ops.len() ==> (#[trigger] p.1.index@[k]) == (
                    (text_offset(ops, k) as usize),
                    k as usize,
                ))
                &&& p.0.text@.len() == text_offset(ops, ops.len() as int)
                &&& (forall|k: int|
                    0 <= k < ops.len() ==> #[trigger] ops[k].wf() && p.0.text@.subrange(
                        text_offset(ops, k),
                        text_offset(ops, k) + ops[k].spec_size(),
                    ) == ops[k].spec_encoding())
                &&& p.0.data@ == self.data@
                &&& p.1.ast_ids@ == self.ast_ids@.push(0usize)
            }),
            r matches Err(e) ==> (exists|k: int|
                0 <= k < self.text@.push(OpCode::Exit(0)).len() && !(#[trigger] self.text@.push(
                    OpCode::Exit(0),
                )[k]).wf()),
    {
        let mut text = self.text;
        let mut ast_ids = self.ast_ids;
        text.push(OpCode::Exit(0));
        ast_ids.push(0);
        match encode_opcodes(&text) {
            Ok(p) => Ok(
                (
                    ByteCode { text: p.0, data: self.data },
                    DebugInformation { ast_ids, index: p.1 },
                ),
            ),
            Err(k) => {
                proof {
                    assert(!text@[k as int].wf());
                }
                let ast_id = if k < ast_ids.len() {
                    ast_ids[k]
                } else {
                    0
                };
                Err(
                    CompilationError::CompilerBug {
                        ast_id,
                        msg: "an emitted index does not fit the encoding".to_owned(),
                    },
                )
            }
        }
    }
}


/// Whether a count-led block tops the stack and every entry of it has
/// a rendering: a nonnegative integer count, enough entries below it,
/// each renderable.
pub open spec fn block_renderable(
    ds: Seq<ComptimeValue>,
    hp: Seq<RuntimeValue>,
    stack: Seq<RuntimeData>,
) -> bool {
    &&& stack.len() >= 1
    &&& (stack[stack.len() - 1] matches Data::CopyVal(CopyValue::Int(cnt)) && ({
        let n = cnt as int;
        &&& 0 <= n
        &&& stack.len() >= n + 1
        &&& (forall|k: int|
            0 <= k < n ==> (#[trigger] spec_render(ds, hp, stack[stack.len() - 2 - k]))
                is Some)
    }))
}

/// Whether an external call can pop what it needs: a renderable block
/// and, below it, a renderable executable name.
pub open spec fn exec_poppable(
    ds: Seq<ComptimeValue>,
    hp: Seq<RuntimeValue>,
    stack: Seq<RuntimeData>,
) -> bool {
    &&& block_renderable(ds, hp, stack)
    &&& (stack[stack.len() - 1] matches Data::CopyVal(CopyValue::Int(cnt)) && ({
        let n = cnt as int;
        &&& stack.len() >= n + 2
        &&& spec_render(ds, hp, stack[stack.len() - 2 - n]) is Some
    }))
}

/// What the concatenation instruction does to memory: a count and that
/// many entries leave the stack; one owned string appears on the heap,
/// holding the concatenation of the popped entries' renderings in the
/// order they were pushed; a reference to it tops the stack.
pub open spec fn strcat_effect(pre: Memory, post: Memory) -> bool {
    &&& pre.stack@.len() >= 1
    &&& (pre.stack@[pre.stack@.len() - 1] matches Data::CopyVal(CopyValue::Int(cnt)) && ({
        let n = cnt as int;
        &&& 0 <= n
        &&& pre.stack@.len() >= n + 1
        &&& post.stack@.len() == pre.stack@.len() - n
        &&& post.stack@.subrange(0, pre.stack@.len() - 1 - n) == pre.stack@.subrange(
            0,
            pre.stack@.len() - 1 - n,
        )
        &&& (post.stack@[pre.stack@.len() - 1 - n] matches Data::Ref(RuntimeRef::HeapRef(h))
            && heap_live(post.heap, h as int) && (post.heap.data@[h as int]@ matches
            ValueV::Str(sv) && sv == renders_concat(
            pre.data_seg@,
            pre.heap.data@,
            pre.stack@.subrange(pre.stack@.len() - 1 - n, pre.stack@.len() - 1),
        )))
    }))
    &&& post.data_seg == pre.data_seg
    &&& post.registers@ == pre.registers@
}

/// What the external-call instruction does to memory, and what request
/// it hands out: a count, that many argument entries and the executable
/// name leave the stack; the request carries their renderings in push
/// order; the call's unit result tops the stack.
pub open spec fn exec_effect(pre: Memory, post: Memory, bin: Seq<char>, args: Seq<String>) -> bool {
    &&& pre.stack@.len() >= 1
    &&& (pre.stack@[pre.stack@.len() - 1] matches Data::CopyVal(CopyValue::Int(cnt)) && ({
        let n = cnt as int;
        &&& 0 <= n
        &&& args.len() == n
        &&& pre.stack@.len() >= n + 2
        &&& post.stack@ == pre.stack@.subrange(0, pre.stack@.len() - 2 - n).push(
            Data::CopyVal(CopyValue::Unit),
        )
        &&& (forall|j: int|
            0 <= j < n ==> ((#[trigger] spec_render(
                pre.data_seg@,
                pre.heap.data@,
                pre.stack@[pre.stack@.len() - 1 - n + j],
            )) is Some && args[j]@ == spec_render(
                pre.data_seg@,
                pre.heap.data@,
                pre.stack@[pre.stack@.len() - 1 - n + j],
            )->0))
        &&& spec_render(
            pre.data_seg@,
            pre.heap.data@,
            pre.stack@[pre.stack@.len() - 2 - n],
        ) is Some
        &&& bin == spec_render(
            pre.data_seg@,
            pre.heap.data@,
            pre.stack@[pre.stack@.len() - 2 - n],
        )->0
    }))
    &&& post.heap == pre.heap
    &&& post.data_seg == pre.data_seg
    &&& post.registers@ == pre.registers@
}

/// What executing the decoded opcode `op` does, for the opcodes whose
/// effect is a plain stack or register move; the composite instructions
/// (`StrCat`, `Exec`) refer to their own effect predicates, and the
/// casts (`ToStr`, `ToBool`) are stated in place.
pub open spec fn step_effect(pre: Runner, post: Runner, op: OpCode, r: StepResult) -> bool {
    match op {
        OpCode::Exit(c) => r == StepResult::Done(c) && post == pre,
        OpCode::DataRef(d) => (r matches StepResult::Failed(e) && e is NonExecutableOpCode)
            && post == pre,
        OpCode::PushPrimitive(v) => ({
            &&& r is Stepped
            &&& post.pc == pre.pc + op.spec_size()
            &&& post.mem.stack@ == pre.mem.stack@.push(Data::CopyVal(v))
            &&& post.mem.heap == pre.mem.heap
            &&& post.mem.registers@ == pre.mem.registers@
        }),
        OpCode::Pop => if pre.mem.stack@.len() > 0 {
            &&& r is Stepped
            &&& post.pc == pre.pc + op.spec_size()
            &&& post.mem.stack@ == pre.mem.stack@.subrange(0, pre.mem.stack@.len() - 1)
            &&& post.mem.heap == pre.mem.heap
            &&& post.mem.registers@ == pre.mem.registers@
        } else {
            r is Failed
        },
        OpCode::PushDataSecRef(i) => if i < pre.mem.data_seg@.len() {
            &&& r is Stepped
            &&& post.pc == pre.pc + op.spec_size()
            &&& post.mem.stack@ == pre.mem.stack@.push(
                Data::Ref(RuntimeRef::DataSecRef(i)),
            )
            &&& post.mem.heap == pre.mem.heap
            &&& post.mem.registers@ == pre.mem.registers@
        } else {
            r is Failed
        },
        OpCode::RepushStackEntry(i) => if i < pre.mem.stack@.len() {
            &&& r is Stepped
            &&& post.pc == pre.pc + op.spec_size()
            &&& post.mem.stack@ == pre.mem.stack@.push(pre.mem.stack@[i as int])
            &&& post.mem.heap == pre.mem.heap
            &&& post.mem.registers@ == pre.mem.registers@
        } else {
            r is Failed
        },
        OpCode::StackTopToReg(g) => if (g as int) < pre.mem.registers@.len()
            && pre.mem.stack@.len() > 0 {
            &&& r is Stepped
            &&& post.pc == pre.pc + op.spec_size()
            &&& post.mem.stack@ == pre.mem.stack@
            &&& post.mem.heap == pre.mem.heap
            &&& post.mem.registers@ == pre.mem.registers@.update(
                g as int,
                pre.mem.stack@[pre.mem.stack@.len() - 1],
            )
        } else {
            r is Failed
        },
        OpCode::ReadReg(g) => if (g as int) < pre.mem.registers@.len() {
            &&& r is Stepped
            &&& post.pc == pre.pc + op.spec_size()
            &&& post.mem.stack@ == pre.mem.stack@.push(pre.mem.registers@[g as int])
            &&& post.mem.heap == pre.mem.heap
            &&& post.mem.registers@ == pre.mem.registers@
        } else {
            r is Failed
        },
        OpCode::ToBool => if pre.mem.stack@.len() > 0 {
            match crate::vm::truth_of(pre.mem.stack@[pre.mem.stack@.len() - 1]) {
                Some(b) => ({
                    &&& r is Stepped
                    &&& post.pc == pre.pc + op.spec_size()
                    &&& post.mem.stack@ == pre.mem.stack@.subrange(
                        0,
                        pre.mem.stack@.len() - 1,
                    ).push(Data::CopyVal(CopyValue::Bool(b)))
                    &&& post.mem.heap == pre.mem.heap
                    &&& post.mem.registers@ == pre.mem.registers@
                }),
                None => r is Failed,
            }
        } else {
            r is Failed
        },
        OpCode::ToStr => ({
            &&& (r is Stepped || r is Failed)
            &&& (r is Stepped ==> ({
                &&& pre.mem.stack@.len() > 0
                &&& post.pc == pre.pc + op.spec_size()
                &&& post.mem.stack@.len() == pre.mem.stack@.len()
                &&& post.mem.stack@.subrange(0, pre.mem.stack@.len() - 1)
                    == pre.mem.stack@.subrange(0, pre.mem.stack@.len() - 1)
                &&& (post.mem.stack@[pre.mem.stack@.len() - 1] matches Data::Ref(
                    RuntimeRef::HeapRef(h),
                ) && heap_live(post.mem.heap, h as int) && (post.mem.heap.data@[h as int]@
                    matches ValueV::Str(_)))
                &&& post.mem.registers@ == pre.mem.registers@
            }))
        }),
        OpCode::PushRefToStack(d) => match d {
            DataRef::StackIdx(i) => if i < pre.mem.stack@.len() {
                &&& r is Stepped
                &&& post.pc == pre.pc + op.spec_size()
                &&& post.mem.stack@ == pre.mem.stack@.push(pre.mem.stack@[i as int])
                &&& post.mem.heap == pre.mem.heap
                &&& post.mem.registers@ == pre.mem.registers@
            } else {
                r is Failed
            },
            DataRef::DataSectionIdx(i) => if i < pre.mem.data_seg@.len() {
                &&& r is Stepped
                &&& post.pc == pre.pc + op.spec_size()
                &&& post.mem.stack@ == pre.mem.stack@.push(
                    Data::Ref(RuntimeRef::DataSecRef(i)),
                )
                &&& post.mem.heap == pre.mem.heap
                &&& post.mem.registers@ == pre.mem.registers@
            } else {
                r is Failed
            },
        },
        OpCode::PopFree => if pre.mem.stack@.len() > 0 && (pre.mem.stack@[pre.mem.stack@.len()
            - 1] matches Data::Ref(RuntimeRef::HeapRef(h))) {
            &&& r is Stepped
            &&& post.pc == pre.pc + op.spec_size()
            &&& post.mem.stack@ == pre.mem.stack@.subrange(0, pre.mem.stack@.len() - 1)
            &&& post.mem.heap.data@ == pre.mem.heap.data@
            &&& post.mem.registers@ == pre.mem.registers@
        } else {
            r is Failed
        },
        OpCode::StrCat => if block_renderable(
            pre.mem.data_seg@,
            pre.mem.heap.data@,
            pre.mem.stack@,
        ) {
            &&& r is Stepped
            &&& post.pc == pre.pc + op.spec_size()
            &&& strcat_effect(pre.mem, post.mem)
        } else {
            r is Failed
        },
        OpCode::Exec(pay) => if exec_poppable(
            pre.mem.data_seg@,
            pre.mem.heap.data@,
            pre.mem.stack@,
        ) {
            &&& r is ExternalCall
            &&& (r matches StepResult::ExternalCall { bin, args } ==> (post.pc == pre.pc
                + op.spec_size() && exec_effect(pre.mem, post.mem, bin@, args@)))
        } else {
            r is Failed
        },
    }
}

impl Runner {
    /// A runner over the given bytecode, ready at the first
    /// instruction.
    pub fn new(bc: ByteCode) -> (r: Runner)
        ensures
            mem_wf(r.mem),
            r.pc == 0,
            r.text@ == bc.text@,
            r.mem.data_seg@ == bc.data@,
            r.mem.stack@.len() == 0,
    {
        Runner { text: bc.text, mem: Memory::new(bc.data), pc: 0 }
    }

    /// Point the program counter back at the first instruction.
    pub fn reset_pc(&mut self)
        ensures
            final(self).pc == 0,
            final(self).text@ == old(self).text@,
            final(self).mem == old(self).mem,
    {
        self.pc = 0;
    }

    /// The ordinal of the opcode under the program counter.
    pub fn current_bc_index(&self, info: &DebugInformation) -> (r: Option<usize>)
        ensures
            r == spec_index_lookup(info.index@, self.pc),
    {
        info.index_of(self.pc)
    }

    /// The id of the AST node that the opcode under the program counter
    /// was compiled from.
    pub fn pc_to_ast_id(&self, info: &DebugInformation) -> (r: Option<usize>)
        ensures
            match spec_index_lookup(info.index@, self.pc) {
                Some(i) => if (i as int) < info.ast_ids@.len() {
                    r == Some(info.ast_ids@[i as int])
                } else {
                    r is None
                },
                None => r is None,
            },
    {
        match self.current_bc_index(info) {
            Some(i) => {
                if i < info.ast_ids.len() {
                    Some(info.ast_ids[i])
                } else {
                    None
                }
            }
            None => None,
        }
    }

    /// Decode and execute the instruction under the program counter.
    /// Bytes that decode to no opcode, and every error an instruction
    /// can meet, stop execution with an error; the memory discipline is
    /// kept whatever happens.
    pub fn step(&mut self) -> (r: StepResult)
        requires
            mem_wf(old(self).mem),
        ensures
            mem_wf(final(self).mem),
            final(self).text@ == old(self).text@,
            final(self).mem.data_seg == old(self).mem.data_seg,
            match crate::opcode::spec_decode_at(old(self).text@, old(self).pc as int) {
                None => (r matches StepResult::Failed(e) && (e matches Error::UnexpectedOpcode {
                    pc,
                } && pc == old(self).pc)),
                Some(op) => step_effect(*old(self), *final(self), op, r),
            },
    {
        let decoded = OpCode::from_bytes(&self.text, self.pc);
        let (op, size) = match decoded {
            Some(p) => p,
            None => {
                return StepResult::Failed(Error::UnexpectedOpcode { pc: self.pc });
            }
        };
        let tlen: usize = self.text.len();
        proof {
            crate::opcode::lemma_size_positive(op);
            assert(self.pc + size <= tlen);
        }
        let next = self.pc + size;
        match op {
            OpCode::Exit(code) => StepResult::Done(code),
            OpCode::DataRef(_) => StepResult::Failed(Error::NonExecutableOpCode),
            OpCode::PushPrimitive(v) => {
                self.mem.push_stack(Data::CopyVal(v));
                self.pc = next;
                StepResult::Stepped
            }
            OpCode::PushDataSecRef(i) => {
                if self.mem.push_data_section_ref(i) {
                    self.pc = next;
                    StepResult::Stepped
                } else {
                    StepResult::Failed(
                        Error::Runtime("a reference left the data section".to_owned()),
                    )
                }
            }
            OpCode::RepushStackEntry(i) => {
                if self.mem.copy_stack_entry_to_top(i) {
                    self.pc = next;
                    StepResult::Stepped
                } else {
                    StepResult::Failed(
                        Error::UnexpectedStackEntry {
                            index: i,
                            msg: "no such stack entry".to_owned(),
                        },
                    )
                }
            }
            OpCode::PushRefToStack(d) => {
                let pushed = match d {
                    DataRef::StackIdx(i) => self.mem.copy_stack_entry_to_top(i),
                    DataRef::DataSectionIdx(i) => self.mem.push_data_section_ref(i),
                };
                if pushed {
                    self.pc = next;
                    StepResult::Stepped
                } else {
                    StepResult::Failed(
                        Error::Runtime("a reference points outside memory".to_owned()),
                    )
                }
            }
            OpCode::Pop => {
                match self.mem.pop_stack() {
                    Some(u) => {
                        self.pc = next;
                        StepResult::Stepped
                    }
                    None => StepResult::Failed(
                        Error::StackEmpty("nothing to pop".to_owned()),
                    ),
                }
            }
            OpCode::PopFree => {
                match self.mem.pop_free() {
                    Ok(u) => {
                        self.pc = next;
                        StepResult::Stepped
                    }
                    Err(e) => StepResult::Failed(e),
                }
            }
            OpCode::StackTopToReg(reg) => {
                if self.mem.stack_top_to_reg(reg) {
                    self.pc = next;
                    StepResult::Stepped
                } else {
                    StepResult::Failed(
                        Error::StackEmpty("no value for the register".to_owned()),
                    )
                }
            }
            OpCode::ReadReg(reg) => {
                if self.mem.read_reg(reg) {
                    self.pc = next;
                    StepResult::Stepped
                } else {
                    StepResult::Failed(Error::Runtime("no such register".to_owned()))
                }
            }
            OpCode::ToStr => {
                let top = match self.mem.pop_stack() {
                    Some(d) => d,
                    None => {
                        return StepResult::Failed(
                            Error::StackEmpty("nothing to render".to_owned()),
                        );
                    }
                };
                match render_data(&self.mem, top) {
                    Ok(s) => {
                        self.mem.push_heap(Value::Str(s));
                        self.pc = next;
                        StepResult::Stepped
                    }
                    Err(e) => StepResult::Failed(e),
                }
            }
            OpCode::ToBool => {
                let top = match self.mem.pop_stack() {
                    Some(d) => d,
                    None => {
                        return StepResult::Failed(
                            Error::StackEmpty("nothing to test".to_owned()),
                        );
                    }
                };
                match to_bool(top) {
                    Ok(b) => {
                        self.mem.push_stack(Data::CopyVal(CopyValue::Bool(b)));
                        self.pc = next;
                        StepResult::Stepped
                    }
                    Err(e) => StepResult::Failed(e),
                }
            }
            OpCode::StrCat => {
                match self.do_strcat() {
                    Ok(u) => {
                        self.pc = next;
                        StepResult::Stepped
                    }
                    Err(e) => StepResult::Failed(e),
                }
            }
            OpCode::Exec(_) => {
                match self.do_exec() {
                    Ok(p) => {
                        self.pc = next;
                        StepResult::ExternalCall { bin: p.0, args: p.1 }
                    }
                    Err(e) => StepResult::Failed(e),
                }
            }
        }
    }

    /// Pop a count from the stack, that many entries after it, and
    /// concatenate their renderings in the order they were pushed; put
    /// the result on the heap with a reference on the stack.
    #[verifier::loop_isolation(false)]
    fn do_strcat(&mut self) -> (r: Result<(), Error>)
        requires
            mem_wf(old(self).mem),
        ensures
            mem_wf(final(self).mem),
            final(self).text@ == old(self).text@,
            final(self).pc == old(self).pc,
            final(self).mem.data_seg == old(self).mem.data_seg,
            final(self).mem.registers@ == old(self).mem.registers@,
            r matches Ok(u) ==> strcat_effect(old(self).mem, final(self).mem),
            r is Ok <==> block_renderable(
                old(self).mem.data_seg@,
                old(self).mem.heap.data@,
                old(self).mem.stack@,
            ),
    {
        let ghost stack0 = self.mem.stack@;
        let ghost ds0 = self.mem.data_seg@;
        let ghost hp0 = self.mem.heap.data@;
        let parts = self.pop_rendered_block()?;
        let ghost n = parts@.len() as int;
        let ghost entries = stack0.subrange(stack0.len() - 1 - n, stack0.len() - 1);
        let mut out = String::new();
        let mut i: usize = parts.len();
        while i > 0
            invariant
                i <= parts@.len(),
                out@ == renders_concat(ds0, hp0, entries.subrange(0, n - i)),
            decreases i,
        {
            proof {
                assert(entries[n - i] == stack0[stack0.len() - 2 - (i - 1)]);
                assert(spec_render(ds0, hp0, stack0[stack0.len() - 2 - (i - 1)]) is Some);
                assert(entries.subrange(0, n - i + 1).subrange(0, n - i) =~= entries.subrange(
                    0,
                    n - i,
                ));
                assert(entries.subrange(0, n - i + 1)[n - i] == entries[n - i]);
            }
            out.append(parts[i - 1].as_str());
            proof {
                assert(out@ =~= renders_concat(ds0, hp0, entries.subrange(0, n - i + 1)));
            }
            i = i - 1;
        }
        proof {
            assert(entries.subrange(0, n) =~= entries);
        }
        self.mem.push_heap(Value::Str(out));
        proof {
            let oldlen = old(self).mem.stack@.len() as int;
            assert(self.mem.stack@.subrange(0, oldlen - 1 - n) =~= old(
                self,
            ).mem.stack@.subrange(0, oldlen - 1 - n));
        }
        Ok(())
    }

    /// Pop a count, then that many entries, rendering each; the
    /// renderings come back in pop order, so the latest-pushed part is
    /// first.
    #[verifier::loop_isolation(false)]
    fn pop_rendered_block(&mut self) -> (r: Result<Vec<String>, Error>)
        requires
            mem_wf(old(self).mem),
        ensures
            mem_wf(final(self).mem),
            final(self).text@ == old(self).text@,
            final(self).pc == old(self).pc,
            final(self).mem.heap == old(self).mem.heap,
            final(self).mem.data_seg == old(self).mem.data_seg,
            final(self).mem.registers@ == old(self).mem.registers@,
            r matches Ok(parts) ==> ({
                let oldlen = old(self).mem.stack@.len() as int;
                let n = parts@.len() as int;
                &&& n <= i64::MAX
                &&& oldlen >= n + 1
                &&& old(self).mem.stack@[oldlen - 1] == Data::<RuntimeRef>::CopyVal(
                    CopyValue::Int(parts@.len() as i64),
                )
                &&& final(self).mem.stack@ == old(self).mem.stack@.subrange(0, oldlen - 1 - n)
                &&& (forall|k: int|
                    0 <= k < n ==> ((#[trigger] spec_render(
                        old(self).mem.data_seg@,
                        old(self).mem.heap.data@,
                        old(self).mem.stack@[oldlen - 2 - k],
                    )) is Some && parts@[k]@ == spec_render(
                        old(self).mem.data_seg@,
                        old(self).mem.heap.data@,
                        old(self).mem.stack@[oldlen - 2 - k],
                    )->0))
            }),
            r is Ok <==> block_renderable(
                old(self).mem.data_seg@,
                old(self).mem.heap.data@,
                old(self).mem.stack@,
            ),
    {
        let ghost stack0 = self.mem.stack@;
        let ghost ds0 = self.mem.data_seg@;
        let ghost hp0 = self.mem.heap.data@;
        let count_entry = match self.mem.pop_stack() {
            Some(d) => d,
            None => {
                return Err(Error::StackEmpty("no count for the block".to_owned()));
            }
        };
        let count = match count_entry {
            Data::CopyVal(CopyValue::Int(n)) => {
                if n < 0 {
                    return Err(Error::Runtime("a negative count".to_owned()));
                }
                n
            }
            _ => {
                return Err(
                    Error::UnexpectedStackEntry {
                        index: self.mem.stack.len(),
                        msg: "the count must be an integer".to_owned(),
                    },
                );
            }
        };
        let ghost after_count = self.mem.stack@;
        let mut parts: Vec<String> = Vec::new();
        let mut k: i64 = 0;
        while k < count
            invariant
                0 <= k <= count,
                mem_wf(self.mem),
                self.text@ == old(self).text@,
                self.pc == old(self).pc,
                self.mem.heap == old(self).mem.heap,
                self.mem.data_seg == old(self).mem.data_seg,
                self.mem.registers@ == old(self).mem.registers@,
                self.mem.data_seg@ == ds0,
                self.mem.heap.data@ == hp0,
                after_count == stack0.subrange(0, stack0.len() - 1),
                stack0.len() >= 1,
                parts@.len() == k as int,
                after_count.len() >= k,
                self.mem.stack@ == after_count.subrange(0, after_count.len() - k),
                forall|q: int|
                    0 <= q < k ==> ((#[trigger] spec_render(
                        ds0,
                        hp0,
                        stack0[stack0.len() - 2 - q],
                    )) is Some && parts@[q]@ == spec_render(
                        ds0,
                        hp0,
                        stack0[stack0.len() - 2 - q],
                    )->0),
            decreases count - k,
        {
            proof {
                assert(self.mem.stack@.len() == after_count.len() - k);
            }
            let d = match self.mem.pop_stack() {
                Some(d) => d,
                None => {
                    return Err(Error::StackEmpty("a block ran out of entries".to_owned()));
                }
            };
            proof {
                assert(d == stack0[stack0.len() - 2 - k]);
                assert(self.mem.data_seg@ == ds0);
                assert(self.mem.heap.data@ == hp0);
            }
            let s = render_data(&self.mem, d)?;
            let ghost sv = s@;
            proof {
                assert(spec_render(ds0, hp0, stack0[stack0.len() - 2 - k]) matches Some(s2)
                    && sv == s2);
            }
            parts.push(s);
            proof {
                assert(parts@[k as int]@ == sv);
                assert(self.mem.stack@ =~= after_count.subrange(
                    0,
                    after_count.len() - (k + 1),
                ));
            }
            k = k + 1;
        }
        proof {
            assert(stack0 == old(self).mem.stack@);
            assert(self.mem.stack@ =~= old(self).mem.stack@.subrange(
                0,
                old(self).mem.stack@.len() - 1 - count,
            ));
        }
        Ok(parts)
    }

    /// Pop the variadic count, the argument strings and the executable
    /// name; put the call's unit result on the stack; hand the call out
    /// to be performed, carrying the renderings in push order.
    #[verifier::loop_isolation(false)]
    fn do_exec(&mut self) -> (r: Result<(String, Vec<String>), Error>)
        requires
            mem_wf(old(self).mem),
        ensures
            mem_wf(final(self).mem),
            final(self).text@ == old(self).text@,
            final(self).pc == old(self).pc,
            final(self).mem.heap == old(self).mem.heap,
            final(self).mem.data_seg == old(self).mem.data_seg,
            final(self).mem.registers@ == old(self).mem.registers@,
            r matches Ok(p) ==> exec_effect(old(self).mem, final(self).mem, p.0@, p.1@),
            r is Ok <==> exec_poppable(
                old(self).mem.data_seg@,
                old(self).mem.heap.data@,
                old(self).mem.stack@,
            ),
    {
        let ghost stack0 = self.mem.stack@;
        let ghost ds0 = self.mem.data_seg@;
        let ghost hp0 = self.mem.heap.data@;
        let rendered = self.pop_rendered_block()?;
        let ghost n = rendered@.len() as int;
        let mut args: Vec<String> = Vec::new();
        let mut i: usize = rendered.len();
        while i > 0
            invariant
                i <= rendered@.len(),
                args@.len() == rendered@.len() - i,
                forall|j: int|
                    0 <= j < args@.len() ==> (#[trigger] args@[j])@ == rendered@[n - 1 - j]@,
            decreases i,
        {
            let s = rendered[i - 1].clone();
            args.push(s);
            i = i - 1;
        }
        let bin_entry = match self.mem.pop_stack() {
            Some(d) => d,
            None => {
                return Err(Error::StackEmpty("no executable name".to_owned()));
            }
        };
        proof {
            assert(bin_entry == stack0[stack0.len() - 2 - n]);
            assert(self.mem.data_seg@ == ds0);
            assert(self.mem.heap.data@ == hp0);
        }
        let bin = render_data(&self.mem, bin_entry)?;
        self.mem.push_stack(Data::CopyVal(CopyValue::Unit));
        proof {
            let oldlen = old(self).mem.stack@.len() as int;
            assert(self.mem.stack@ =~= old(self).mem.stack@.subrange(0, oldlen - 2 - n).push(
                Data::CopyVal(CopyValue::Unit),
            ));
            assert forall|j: int|
                0 <= j < n implies ((#[trigger] spec_render(
                ds0,
                hp0,
                stack0[stack0.len() - 1 - n + j],
            )) is Some && args@[j]@ == spec_render(
                ds0,
                hp0,
                stack0[stack0.len() - 1 - n + j],
            )->0) by {
                assert(args@[j]@ == rendered@[n - 1 - j]@);
                assert(stack0[stack0.len() - 2 - (n - 1 - j)] == stack0[stack0.len() - 1 - n
                    + j]);
            }
        }
        Ok((bin, args))
    }
}

} // verus!
