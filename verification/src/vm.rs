//! The virtual machine's memory and the execution of single opcodes.
//!
//! Memory holds the stack, the heap arena, the immutable data section
//! and a small register file. The dispatch loop itself lives with the
//! `Runner`; everything here is the per-opcode work.

use vstd::prelude::*;
use vstd::string::StringExecFns;

use crate::data::{ComptimeValue, CopyValue, Data, RuntimeData, RuntimeRef, RuntimeValue, Value, ValueV};
use crate::heap::{heap_live, heap_wf, Heap};

verus! {

/// The errors execution can report.
#[derive(Debug)]
pub enum Error {
    /// A recoverable failure surfaced by a built-in, with its message.
    Runtime(String),
    /// A value was accessed as a type it does not have.
    TypeError { accessed_data: RuntimeData, expected_type: String },
    /// A stack slot held something unexpected.
    UnexpectedStackEntry { index: usize, msg: String },
    /// The opcode at the program counter is data, not an instruction.
    NonExecutableOpCode,
    /// The stack was empty where a value was owed.
    StackEmpty(String),
    /// The bytes at the program counter decode to no opcode.
    UnexpectedOpcode { pc: usize },
}

/// What executing one opcode leads to.
pub enum ExecOutcome {
    /// Continue at this program counter.
    Pc(usize),
    /// The program finished with this exit code.
    ExitCode(i32),
}

/// The number of registers.
pub const REGISTER_COUNT: usize = 1;

/// The three memory areas of the machine, and its registers.
#[derive(Debug)]
pub struct Memory {
    pub stack: Vec<RuntimeData>,
    pub heap: Heap<RuntimeValue>,
    pub data_seg: Vec<ComptimeValue>,
    pub registers: Vec<RuntimeData>,
}

/// The heap obeys its discipline and the register file has its fixed
/// size.
pub open spec fn mem_wf(m: Memory) -> bool {
    &&& heap_wf(m.heap)
    &&& m.registers@.len() == REGISTER_COUNT
}

impl Memory {
    /// Fresh memory over the given data section.
    pub fn new(data_seg: Vec<ComptimeValue>) -> (r: Memory)
        ensures
            mem_wf(r),
            r.stack@.len() == 0,
            r.heap.data@.len() == 0,
            r.data_seg@ == data_seg@,
    {
        let mut registers: Vec<RuntimeData> = Vec::new();
        registers.push(Data::CopyVal(CopyValue::Unit));
        Memory { stack: Vec::new(), heap: Heap::new(), data_seg, registers }
    }

    /// Put an entry on the stack.
    pub fn push_stack(&mut self, entry: RuntimeData)
        requires
            mem_wf(*old(self)),
        ensures
            mem_wf(*final(self)),
            final(self).stack@ == old(self).stack@.push(entry),
            final(self).heap == old(self).heap,
            final(self).data_seg == old(self).data_seg,
            final(self).registers@ == old(self).registers@,
    {
        self.stack.push(entry);
    }

    /// Put a value on the heap and a reference to it on the stack.
    pub fn push_heap(&mut self, entry: RuntimeValue)
        requires
            mem_wf(*old(self)),
        ensures
            mem_wf(*final(self)),
            final(self).stack@.len() == old(self).stack@.len() + 1,
            final(self).stack@.subrange(0, old(self).stack@.len() as int) == old(self).stack@,
            final(self).stack@[old(self).stack@.len() as int] matches Data::Ref(
                RuntimeRef::HeapRef(idx),
            ) && heap_live(final(self).heap, idx as int) && final(self).heap.data@[idx as int]
                == entry,
            final(self).data_seg == old(self).data_seg,
            final(self).registers@ == old(self).registers@,
    {
        let idx = self.heap.push(entry);
        self.stack.push(Data::Ref(RuntimeRef::HeapRef(idx)));
        proof {
            assert(self.stack@.subrange(0, old(self).stack@.len() as int) =~= old(self).stack@);
        }
    }

    /// The entry `ridx` slots below the stack top.
    pub fn stack_back(&self, ridx: usize) -> (r: Option<RuntimeData>)
        ensures
            match r {
                Some(d) => ridx < self.stack@.len() && d == self.stack@[self.stack@.len() - 1
                    - ridx],
                None => ridx >= self.stack@.len(),
            },
    {
        if ridx < self.stack.len() {
            Some(self.stack[self.stack.len() - 1 - ridx])
        } else {
            None
        }
    }

    /// Pop the top entry.
    pub fn pop_stack(&mut self) -> (r: Option<RuntimeData>)
        requires
            mem_wf(*old(self)),
        ensures
            mem_wf(*final(self)),
            final(self).heap == old(self).heap,
            final(self).data_seg == old(self).data_seg,
            final(self).registers@ == old(self).registers@,
            match r {
                Some(d) => old(self).stack@.len() > 0 && d == old(self).stack@[old(
                    self,
                ).stack@.len() - 1] && final(self).stack@ == old(self).stack@.subrange(
                    0,
                    old(self).stack@.len() - 1,
                ),
                None => old(self).stack@.len() == 0 && final(self).stack@ == old(self).stack@,
            },
    {
        self.stack.pop()
    }

    /// Put a reference to the data-section entry `idx` on the stack.
    /// An index outside the data section is reported.
    pub fn push_data_section_ref(&mut self, idx: usize) -> (r: bool)
        requires
            mem_wf(*old(self)),
        ensures
            mem_wf(*final(self)),
            r ==> idx < old(self).data_seg@.len() && final(self).stack@ == old(
                self,
            ).stack@.push(Data::Ref(RuntimeRef::DataSecRef(idx))),
            !r ==> idx >= old(self).data_seg@.len() && *final(self) == *old(self),
            final(self).heap == old(self).heap,
            final(self).data_seg == old(self).data_seg,
            final(self).registers@ == old(self).registers@,
    {
        if idx >= self.data_seg.len() {
            return false;
        }
        self.stack.push(Data::Ref(RuntimeRef::DataSecRef(idx)));
        true
    }

    /// Copy the stack entry at index `idx` onto the top. An index
    /// outside the stack is reported.
    pub fn copy_stack_entry_to_top(&mut self, idx: usize) -> (r: bool)
        requires
            mem_wf(*old(self)),
        ensures
            mem_wf(*final(self)),
            r ==> idx < old(self).stack@.len() && final(self).stack@ == old(self).stack@.push(
                old(self).stack@[idx as int],
            ),
            !r ==> idx >= old(self).stack@.len() && *final(self) == *old(self),
            final(self).heap == old(self).heap,
            final(self).data_seg == old(self).data_seg,
            final(self).registers@ == old(self).registers@,
    {
        if idx >= self.stack.len() {
            return false;
        }
        let entry = self.stack[idx];
        self.stack.push(entry);
        true
    }

    /// Copy the stack top, without popping it, into register `reg`.
    /// A missing register or an empty stack is reported.
    pub fn stack_top_to_reg(&mut self, reg: u8) -> (r: bool)
        requires
            mem_wf(*old(self)),
        ensures
            mem_wf(*final(self)),
            r ==> ({
                &&& (reg as int) < REGISTER_COUNT
                &&& old(self).stack@.len() > 0
                &&& final(self).registers@ == old(self).registers@.update(
                    reg as int,
                    old(self).stack@[old(self).stack@.len() - 1],
                )
                &&& final(self).stack@ == old(self).stack@
            }),
            !r ==> *final(self) == *old(self),
            r <==> ((reg as int) < REGISTER_COUNT && old(self).stack@.len() > 0),
            final(self).heap == old(self).heap,
            final(self).data_seg == old(self).data_seg,
    {
        if (reg as usize) >= REGISTER_COUNT || self.stack.len() == 0 {
            return false;
        }
        let entry = self.stack[self.stack.len() - 1];
        self.registers.set(reg as usize, entry);
        true
    }

    /// Push register `reg`'s content onto the stack. A missing register
    /// is reported.
    pub fn read_reg(&mut self, reg: u8) -> (r: bool)
        requires
            mem_wf(*old(self)),
        ensures
            mem_wf(*final(self)),
            r ==> ({
                &&& (reg as int) < REGISTER_COUNT
                &&& final(self).stack@ == old(self).stack@.push(old(self).registers@[reg as int])
            }),
            !r ==> *final(self) == *old(self),
            r <==> (reg as int) < REGISTER_COUNT,
            final(self).heap == old(self).heap,
            final(self).data_seg == old(self).data_seg,
            final(self).registers@ == old(self).registers@,
    {
        if (reg as usize) >= REGISTER_COUNT {
            return false;
        }
        let entry = self.registers[reg as usize];
        self.stack.push(entry);
        true
    }

    /// Pop the top entry, which must be a heap reference, and free the
    /// heap value it names. Anything else is reported.
    pub fn pop_free(&mut self) -> (r: Result<(), Error>)
        requires
            mem_wf(*old(self)),
        ensures
            mem_wf(*final(self)),
            final(self).data_seg == old(self).data_seg,
            final(self).registers@ == old(self).registers@,
            final(self).heap.data@ == old(self).heap.data@,
            r matches Ok(u) ==> ({
                &&& old(self).stack@.len() > 0
                &&& old(self).stack@[old(self).stack@.len() - 1] matches Data::Ref(
                    RuntimeRef::HeapRef(h),
                ) && !heap_live(final(self).heap, h as int)
                &&& final(self).stack@ == old(self).stack@.subrange(
                    0,
                    old(self).stack@.len() - 1,
                )
            }),
            r is Ok <==> (old(self).stack@.len() > 0 && old(self).stack@[old(self).stack@.len()
                - 1] matches Data::Ref(RuntimeRef::HeapRef(h2))),
    {
        let top = match self.stack.pop() {
            Some(d) => d,
            None => {
                return Err(Error::StackEmpty("nothing to free".to_owned()));
            }
        };
        let addr = match top {
            Data::Ref(RuntimeRef::HeapRef(h)) => h,
            _ => {
                return Err(
                    Error::UnexpectedStackEntry {
                        index: self.stack.len(),
                        msg: "only a heap reference can be freed".to_owned(),
                    },
                );
            }
        };
        let _ = self.heap.delete(addr);
        Ok(())
    }
}

/// The decimal digits of a number, most significant first.
pub open spec fn dec_str(n: nat) -> Seq<char>
    decreases n,
{
    if n < 10 {
        seq![digit_char(n)]
    } else {
        dec_str(n / 10).push(digit_char(n % 10))
    }
}

/// The character for one decimal digit.
pub open spec fn digit_char(d: nat) -> char {
    if d == 0 {
        '0'
    } else if d == 1 {
        '1'
    } else if d == 2 {
        '2'
    } else if d == 3 {
        '3'
    } else if d == 4 {
        '4'
    } else if d == 5 {
        '5'
    } else if d == 6 {
        '6'
    } else if d == 7 {
        '7'
    } else if d == 8 {
        '8'
    } else {
        '9'
    }
}

/// The decimal rendering of an integer, with a leading minus for a
/// negative one.
pub open spec fn int_str(i: int) -> Seq<char> {
    if i >= 0 {
        dec_str(i as nat)
    } else {
        seq!['-'] + dec_str((-i) as nat)
    }
}

/// The one-character string for a decimal digit.
fn digit_literal(d: u64) -> (r: &'static str)
    requires
        d < 10,
    ensures
        r@ == seq![digit_char(d as nat)],
{
    if d == 0 {
        proof {
            reveal_strlit("0");
        }
        "0"
    } else if d == 1 {
        proof {
            reveal_strlit("1");
        }
        "1"
    } else if d == 2 {
        proof {
            reveal_strlit("2");
        }
        "2"
    } else if d == 3 {
        proof {
            reveal_strlit("3");
        }
        "3"
    } else if d == 4 {
        proof {
            reveal_strlit("4");
        }
        "4"
    } else if d == 5 {
        proof {
            reveal_strlit("5");
        }
        "5"
    } else if d == 6 {
        proof {
            reveal_strlit("6");
        }
        "6"
    } else if d == 7 {
        proof {
            reveal_strlit("7");
        }
        "7"
    } else if d == 8 {
        proof {
            reveal_strlit("8");
        }
        "8"
    } else {
        proof {
            reveal_strlit("9");
        }
        "9"
    }
}

/// The decimal rendering of an unsigned number.
pub fn render_u64(n: u64) -> (r: String)
    ensures
        r@ == dec_str(n as nat),
    decreases n,
{
    if n < 10 {
        digit_literal(n).to_owned()
    } else {
        let mut s = render_u64(n / 10);
        s.append(digit_literal(n % 10));
        proof {
            assert(s@ =~= dec_str(n as nat));
        }
        s
    }
}

/// The decimal rendering of a signed number.
pub fn render_i64(i: i64) -> (r: String)
    ensures
        r@ == int_str(i as int),
{
    if i >= 0 {
        render_u64(i as u64)
    } else {
        let mag: u64 = if i == i64::MIN {
            9223372036854775808u64
        } else {
            (-i) as u64
        };
        proof {
            assert(mag as nat == (-(i as int)) as nat);
        }
        let mut s = "-".to_owned();
        let digits = render_u64(mag);
        s.append(digits.as_str());
        proof {
            reveal_strlit("-");
            assert(s@ =~= int_str(i as int));
        }
        s
    }
}

/// The truth value of a stack entry, if it has one: booleans are
/// themselves, integers are true unless zero, unit is false.
pub open spec fn truth_of(d: RuntimeData) -> Option<bool> {
    match d {
        Data::CopyVal(CopyValue::Bool(b)) => Some(b),
        Data::CopyVal(CopyValue::Int(i)) => Some(i != 0),
        Data::CopyVal(CopyValue::Unit) => Some(false),
        _ => None,
    }
}

/// The truth value of a stack entry: booleans are themselves, integers
/// are true unless zero, unit is false. References have no truth value.
pub fn to_bool(d: RuntimeData) -> (r: Result<bool, Error>)
    ensures
        match truth_of(d) {
            Some(b) => r matches Ok(x) && x == b,
            None => r is Err,
        },
{
    match d {
        Data::CopyVal(CopyValue::Bool(b)) => Ok(b),
        Data::CopyVal(CopyValue::Int(i)) => Ok(i != 0),
        Data::CopyVal(CopyValue::Unit) => Ok(false),
        _ => Err(
            Error::TypeError { accessed_data: d, expected_type: "a truth value".to_owned() },
        ),
    }
}

/// The rendering of a non-copy value, if it has one: a string renders
/// as itself, a keyword with a leading colon; aggregates have none.
pub open spec fn spec_render_value<RefT>(v: ValueV<RefT>) -> Option<Seq<char>> {
    match v {
        ValueV::Str(s) => Some(s),
        ValueV::Keyword(k) => Some(seq![':'] + k),
        _ => None,
    }
}

/// The rendering of a stack entry against the given data section and
/// heap, if it has one: integers in decimal, booleans as words, unit as
/// a pair of brackets, references as what they name. Floats, dangling
/// references and aggregates have none.
pub open spec fn spec_render(
    data_seg: Seq<ComptimeValue>,
    heap_data: Seq<RuntimeValue>,
    d: RuntimeData,
) -> Option<Seq<char>> {
    match d {
        Data::CopyVal(CopyValue::Int(i)) => Some(int_str(i as int)),
        Data::CopyVal(CopyValue::Bool(b)) => Some(
            if b {
                "true"@
            } else {
                "false"@
            },
        ),
        Data::CopyVal(CopyValue::Unit) => Some("()"@),
        Data::CopyVal(CopyValue::Float(bits)) => None,
        Data::Ref(RuntimeRef::DataSecRef(i)) => if i < data_seg.len() {
            spec_render_value(data_seg[i as int]@)
        } else {
            None
        },
        Data::Ref(RuntimeRef::HeapRef(h)) => if h < heap_data.len() {
            spec_render_value(heap_data[h as int]@)
        } else {
            None
        },
    }
}

/// The rendering of a compile-time value. A string renders as itself,
/// a keyword with a leading colon. Aggregate values deliberately have
/// no rendering: no opcode or surface form can build one, and chasing
/// references inside one could revisit the same heap slot without end.
pub fn render_ct_value(v: &ComptimeValue) -> (r: Result<String, Error>)
    ensures
        match spec_render_value(v@) {
            Some(s) => r matches Ok(out) && out@ == s,
            None => r is Err,
        },
{
    match v {
        Value::Str(s) => Ok(s.clone()),
        Value::Keyword(k) => {
            let mut out = ":".to_owned();
            out.append(k.as_str());
            proof {
                reveal_strlit(":");
                assert(out@ =~= seq![':'] + k@);
            }
            Ok(out)
        }
        _ => Err(Error::Runtime("an aggregate value has no rendering".to_owned())),
    }
}

/// The rendering of a stack entry: integers in decimal, booleans as
/// words, unit as a pair of brackets, references as what they name.
pub fn render_data(mem: &Memory, d: RuntimeData) -> (r: Result<String, Error>)
    ensures
        match spec_render(mem.data_seg@, mem.heap.data@, d) {
            Some(s) => r matches Ok(out) && out@ == s,
            None => r is Err,
        },
{
    match d {
        Data::CopyVal(CopyValue::Int(i)) => Ok(render_i64(i)),
        Data::CopyVal(CopyValue::Bool(b)) => {
            if b {
                Ok("true".to_owned())
            } else {
                Ok("false".to_owned())
            }
        }
        Data::CopyVal(CopyValue::Unit) => Ok("()".to_owned()),
        Data::CopyVal(CopyValue::Float(_)) => Err(
            Error::Runtime("a float has no rendering".to_owned()),
        ),
        Data::Ref(RuntimeRef::DataSecRef(i)) => {
            match mem.data_seg.get(i) {
                Some(v) => render_ct_value(v),
                None => Err(Error::Runtime("a dangling data-section reference".to_owned())),
            }
        }
        Data::Ref(RuntimeRef::HeapRef(h)) => {
            match mem.heap.get(h) {
                Some(v) => render_rt_value(v),
                None => Err(Error::Runtime("a dangling heap reference".to_owned())),
            }
        }
    }
}

/// The rendering of a heap value. A string renders as itself; aggregate
/// values have no rendering yet.
pub fn render_rt_value(v: &RuntimeValue) -> (r: Result<String, Error>)
    ensures
        match spec_render_value(v@) {
            Some(s) => r matches Ok(out) && out@ == s,
            None => r is Err,
        },
{
    match v {
        Value::Str(s) => Ok(s.clone()),
        Value::Keyword(k) => {
            let mut out = ":".to_owned();
            out.append(k.as_str());
            proof {
                reveal_strlit(":");
                assert(out@ =~= seq![':'] + k@);
            }
            Ok(out)
        }
        _ => Err(Error::Runtime("an aggregate value has no rendering".to_owned())),
    }
}

/// The concatenation of the renderings of a block of entries, in
/// stack order; an entry without a rendering contributes nothing (the
/// executable path fails on such an entry instead).
pub open spec fn renders_concat(
    ds: Seq<ComptimeValue>,
    hp: Seq<RuntimeValue>,
    entries: Seq<RuntimeData>,
) -> Seq<char>
    decreases entries,
{
    if entries.len() == 0 {
        Seq::empty()
    } else {
        renders_concat(ds, hp, entries.subrange(0, entries.len() - 1)) + (match spec_render(
            ds,
            hp,
            entries[entries.len() - 1],
        ) {
            Some(s) => s,
            None => Seq::empty(),
        })
    }
}

/// The error surfaced when an external process could not be run or did
/// not succeed: the message carries the executable's name and the
/// caller's account of what went wrong.
pub fn exec_failure_error(bin: &String, detail: &String) -> (r: Error)
    ensures
        r matches Error::Runtime(msg) && msg@ == bin@ + ": "@ + detail@,
{
    let mut msg = bin.clone();
    msg.append(": ");
    msg.append(detail.as_str());
    proof {
        assert(msg@ =~= bin@ + ": "@ + detail@);
    }
    Error::Runtime(msg)
}

} // verus!
