//! The bytecode builder: emits opcodes while mirroring, at compile time,
//! the stack the emitted code will produce at run time, and tracking which
//! stack slot owns each heap value.
//!
//! The ownership discipline: a heap value has exactly one owning slot
//! (`Owner::Me`) alive at any time, or has been given away
//! (`Owner::Disowned`); a borrowing slot (`Owner::Borrowed`) names the
//! owning slot, which lies below it on the stack. Popping an owning slot
//! frees the heap value (`PopFree`); popping any other slot does not
//! (`Pop`).

use vstd::prelude::*;

use crate::data::{ComptimeValue, CopyValue};
use crate::opcode::{DataRef, OpCode};
use crate::scopes::{scopes_lookup, Scopes};
use crate::types::{
    heap_type_view, signature_view, CallableType, DataType, HeapType, HeapTypeV, Signature,
    SignatureV, StackType, TypeSet, TypeV,
};

verus! {

/// Who is responsible for the heap value a stack slot holds.
#[derive(Debug, Clone, Copy, PartialEq, Eq, Structural)]
pub enum Owner {
    /// A non-owning reference; the named slot owns the value.
    Borrowed(usize),
    /// This slot owns the value and frees it when popped.
    Me,
    /// This slot gave its value away; popping it frees nothing.
    Disowned,
}

/// What the builder knows about one future stack slot.
#[derive(Debug)]
pub enum DataTypeInfo {
    DataSecTypeInfo { dtype: HeapType, dsec_idx: usize },
    HeapTypeInfo { dtype: HeapType, owner_idx: Owner },
    StackType(StackType),
    CallableType(CallableType, Box<Signature>),
}

/// One entry of the mirrored stack.
#[derive(Debug)]
pub struct DataInfo {
    pub ast_id: usize,
    pub type_info: DataTypeInfo,
}

/// Model of a `DataTypeInfo`.
pub enum DataTypeInfoV {
    DataSec(HeapTypeV, usize),
    Heap(HeapTypeV, Owner),
    Stack(StackType),
    Callable(CallableType, SignatureV),
}

/// Model of a `DataInfo`.
pub struct DataInfoV {
    pub ast_id: usize,
    pub type_info: DataTypeInfoV,
}

impl View for DataTypeInfo {
    type V = DataTypeInfoV;

    open spec fn view(&self) -> DataTypeInfoV {
        match self {
            DataTypeInfo::DataSecTypeInfo { dtype, dsec_idx } => DataTypeInfoV::DataSec(
                heap_type_view(*dtype),
                *dsec_idx,
            ),
            DataTypeInfo::HeapTypeInfo { dtype, owner_idx } => DataTypeInfoV::Heap(
                heap_type_view(*dtype),
                *owner_idx,
            ),
            DataTypeInfo::StackType(s) => DataTypeInfoV::Stack(*s),
            DataTypeInfo::CallableType(c, sig) => DataTypeInfoV::Callable(
                *c,
                signature_view(**sig),
            ),
        }
    }
}

impl View for DataInfo {
    type V = DataInfoV;

    open spec fn view(&self) -> DataInfoV {
        DataInfoV { ast_id: self.ast_id, type_info: self.type_info@ }
    }
}

/// The models of a sequence of stack entries, pointwise.
pub open spec fn info_views(s: Seq<DataInfo>) -> Seq<DataInfoV>
    decreases s,
{
    if s.len() == 0 {
        Seq::empty()
    } else {
        info_views(s.subrange(0, s.len() - 1)).push(s[s.len() - 1]@)
    }
}

/// A pointwise stack model has the length of its carrier.
pub broadcast proof fn lemma_info_views_len(s: Seq<DataInfo>)
    ensures
        #[trigger] info_views(s).len() == s.len(),
    decreases s,
{
    if s.len() > 0 {
        lemma_info_views_len(s.subrange(0, s.len() - 1));
    }
}

/// A pointwise stack model holds the model of each entry.
pub broadcast proof fn lemma_info_views_index(s: Seq<DataInfo>, i: int)
    requires
        0 <= i < s.len(),
    ensures
        #[trigger] info_views(s)[i] == s[i]@,
    decreases s,
{
    lemma_info_views_len(s);
    if s.len() > 0 && i < s.len() - 1 {
        lemma_info_views_index(s.subrange(0, s.len() - 1), i);
    }
}

/// The type a mirrored entry stands for.
pub open spec fn dti_as_type(v: DataTypeInfoV) -> TypeV {
    match v {
        DataTypeInfoV::DataSec(h, _) => TypeV::Heap(h),
        DataTypeInfoV::Heap(h, _) => TypeV::Heap(h),
        DataTypeInfoV::Stack(s) => TypeV::Stack(s),
        DataTypeInfoV::Callable(c, sig) => TypeV::Callable(c, sig),
    }
}

/// The ownership discipline on a mirrored stack: every borrowing entry
/// names a slot strictly below it that is a heap entry and is the owner,
/// alive (`Me`) or already transferred (`Disowned`). Together with the
/// fact that an owning slot owns exactly the value it carries, this is
/// the single-owner property: for every heap value, at most one live
/// entry referring to it is `Me`.
#[verifier::opaque]
pub open spec fn ownership_ok(s: Seq<DataInfoV>) -> bool {
    forall|i: int|
        0 <= i < s.len() ==> ((#[trigger] s[i].type_info) matches DataTypeInfoV::Heap(
            _,
            Owner::Borrowed(j),
        ) ==> j < i && (s[j as int].type_info matches DataTypeInfoV::Heap(_, o2) && (o2
            == Owner::Me || o2 == Owner::Disowned)))
}

/// The slot responsible for the heap value entry `i` refers to.
pub open spec fn owner_slot(s: Seq<DataInfoV>, i: int) -> int {
    match s[i].type_info {
        DataTypeInfoV::Heap(_, Owner::Borrowed(j)) => j as int,
        _ => i,
    }
}

/// Whether entry `i` is a live owner.
pub open spec fn is_me(s: Seq<DataInfoV>, i: int) -> bool {
    s[i].type_info matches DataTypeInfoV::Heap(_, Owner::Me)
}

/// On a stack that obeys the ownership discipline, two live owners never
/// refer to the same heap value: exactly one of the entries sharing an
/// owner slot is `Me`, namely the owner itself.
pub proof fn lemma_owner_unique(s: Seq<DataInfoV>, i: int, j: int)
    requires
        ownership_ok(s),
        0 <= i < s.len(),
        0 <= j < s.len(),
        is_me(s, i),
        is_me(s, j),
        owner_slot(s, i) == owner_slot(s, j),
    ensures
        i == j,
{
    reveal(ownership_ok);
}

/// A borrowing entry's owner slot is below it and holds a heap entry
/// that is `Me` or `Disowned`; the borrower itself is never `Me`.
pub proof fn lemma_borrower_has_owner(s: Seq<DataInfoV>, i: int)
    requires
        ownership_ok(s),
        0 <= i < s.len(),
        s[i].type_info matches DataTypeInfoV::Heap(_, Owner::Borrowed(j)),
    ensures
        owner_slot(s, i) < i,
        s[owner_slot(s, i)].type_info matches DataTypeInfoV::Heap(_, o) && (o == Owner::Me || o
            == Owner::Disowned),
        !is_me(s, i),
{
    reveal(ownership_ok);
    assert(s[i].type_info matches DataTypeInfoV::Heap(_, Owner::Borrowed(j)) ==> j < i && (
    s[j as int].type_info matches DataTypeInfoV::Heap(_, o2) && (o2 == Owner::Me || o2
        == Owner::Disowned)));
}

impl DataTypeInfo {
    /// An owned string entry.
    pub fn str() -> (r: Self)
        ensures
            r@ == DataTypeInfoV::Heap(HeapTypeV::Str, Owner::Me),
    {
        Self::HeapTypeInfo { dtype: HeapType::Str, owner_idx: Owner::Me }
    }

    /// An integer entry.
    pub fn integer() -> (r: Self)
        ensures
            r@ == DataTypeInfoV::Stack(StackType::Int),
    {
        Self::StackType(StackType::Int)
    }

    /// The type this entry stands for.
    pub fn into_datatype(self) -> (r: DataType)
        ensures
            r@ == dti_as_type(self@),
    {
        match self {
            DataTypeInfo::DataSecTypeInfo { dtype, .. } => DataType::HeapType(dtype),
            DataTypeInfo::HeapTypeInfo { dtype, .. } => DataType::HeapType(dtype),
            DataTypeInfo::StackType(st) => DataType::StackType(st),
            DataTypeInfo::CallableType(ct, sign) => DataType::Callable(ct, sign),
        }
    }

    /// The type this entry stands for, without consuming it.
    pub fn as_datatype(&self) -> (r: DataType)
        ensures
            r@ == dti_as_type(self@),
    {
        match self {
            DataTypeInfo::DataSecTypeInfo { dtype, .. } => DataType::HeapType(dtype.duplicate()),
            DataTypeInfo::HeapTypeInfo { dtype, .. } => DataType::HeapType(dtype.duplicate()),
            DataTypeInfo::StackType(st) => DataType::StackType(*st),
            DataTypeInfo::CallableType(ct, sign) => DataType::Callable(
                *ct,
                Box::new(sign.duplicate()),
            ),
        }
    }

    /// Mark a live owner as having given its value away. Anything else
    /// is left alone and reported, as the mark would be meaningless.
    pub fn disown(&mut self) -> (r: Result<(), ()>)
        ensures
            match r {
                Ok(u) => ({
                    &&& (*old(self))@ is Heap
                    &&& (*old(self))@->Heap_1 == Owner::Me
                    &&& (*final(self))@ == DataTypeInfoV::Heap(
                        (*old(self))@->Heap_0,
                        Owner::Disowned,
                    )
                }),
                Err(u) => ({
                    &&& !((*old(self))@ is Heap && (*old(self))@->Heap_1 == Owner::Me)
                    &&& (*final(self))@ == (*old(self))@
                }),
            },
    {
        match self {
            DataTypeInfo::HeapTypeInfo { owner_idx: o @ Owner::Me, .. } => {
                *o = Owner::Disowned;
                Ok(())
            }
            _ => Err(()),
        }
    }
}

impl DataTypeInfo {
    /// Structural copy.
    pub fn duplicate(&self) -> (r: Self)
        ensures
            r@ == self@,
    {
        match self {
            DataTypeInfo::DataSecTypeInfo { dtype, dsec_idx } => DataTypeInfo::DataSecTypeInfo {
                dtype: dtype.duplicate(),
                dsec_idx: *dsec_idx,
            },
            DataTypeInfo::HeapTypeInfo { dtype, owner_idx } => DataTypeInfo::HeapTypeInfo {
                dtype: dtype.duplicate(),
                owner_idx: *owner_idx,
            },
            DataTypeInfo::StackType(s) => DataTypeInfo::StackType(*s),
            DataTypeInfo::CallableType(c, sig) => DataTypeInfo::CallableType(
                *c,
                Box::new(sig.duplicate()),
            ),
        }
    }
}

impl DataInfo {
    /// Structural copy.
    pub fn duplicate(&self) -> (r: Self)
        ensures
            r@ == self@,
    {
        DataInfo { ast_id: self.ast_id, type_info: self.type_info.duplicate() }
    }
}

/// Whether the ownership step of a collapse can succeed: the result
/// entry must not already have given its value away, and a borrow
/// into the dying scope must point at a live owner.
pub open spec fn collapse_ownership_possible(s: Seq<DataInfoV>, wm: int) -> bool {
    match s[s.len() - 1].type_info {
        DataTypeInfoV::Heap(h, o) => match o {
            Owner::Disowned => false,
            Owner::Borrowed(ow) => ow < wm || (s[ow as int].type_info matches
                DataTypeInfoV::Heap(h2, o2) && o2 == Owner::Me),
            Owner::Me => true,
        },
        _ => true,
    }
}

/// The owner marks after the ownership step: an in-scope owner the
/// result borrows from is disowned; a result that is itself the
/// owner is disowned in place (it survives through the register);
/// everything else is untouched.
pub open spec fn collapse_adjusted(s: Seq<DataInfoV>, wm: int) -> Seq<DataInfoV> {
    match s[s.len() - 1].type_info {
        DataTypeInfoV::Heap(h, o) => match o {
            Owner::Borrowed(ow) => if ow >= wm {
                s.update(
                    ow as int,
                    DataInfoV {
                        ast_id: s[ow as int].ast_id,
                        type_info: DataTypeInfoV::Heap(
                            s[ow as int].type_info->Heap_0,
                            Owner::Disowned,
                        ),
                    },
                )
            } else {
                s
            },
            Owner::Me => s.update(
                s.len() - 1,
                DataInfoV {
                    ast_id: s[s.len() - 1].ast_id,
                    type_info: DataTypeInfoV::Heap(h, Owner::Disowned),
                },
            ),
            Owner::Disowned => s,
        },
        _ => s,
    }
}

/// The surviving result entry: a borrow into the dying scope
/// becomes the owner; everything else survives as it stands.
pub open spec fn collapse_result_entry(s: Seq<DataInfoV>, wm: int) -> DataInfoV {
    match s[s.len() - 1].type_info {
        DataTypeInfoV::Heap(h, o) => match o {
            Owner::Borrowed(ow) => if ow >= wm {
                DataInfoV {
                    ast_id: s[s.len() - 1].ast_id,
                    type_info: DataTypeInfoV::Heap(h, Owner::Me),
                }
            } else {
                s[s.len() - 1]
            },
            _ => s[s.len() - 1],
        },
        _ => s[s.len() - 1],
    }
}

/// Byte code while it is being built, together with the compile-time
/// mirror of the stack the emitted code will produce.
#[derive(Debug)]
pub struct ByteCodeBuilder {
    /// The program, as opcodes.
    pub text: Vec<OpCode>,
    /// The data section.
    pub data: Vec<ComptimeValue>,
    /// For each opcode, the id of the AST node it was generated from.
    pub ast_ids: Vec<usize>,
    /// Scoped table from symbol name to stack index.
    pub symbol_table: Scopes<usize>,
    /// The state the stack will have when the emitted code has run.
    pub stack_info: Vec<DataInfo>,
    /// For each open scope, the stack length at its start and the id of
    /// the node that opened it.
    pub scope_starts: Vec<(usize, usize)>,
}

/// The builder's mirrored stack, as a sequence of models.
pub open spec fn stack_v(b: ByteCodeBuilder) -> Seq<DataInfoV> {
    info_views(b.stack_info@)
}

/// What every builder in use satisfies: the mirrored stack obeys the
/// ownership discipline, and every opcode has a provenance entry.
pub open spec fn builder_wf(b: ByteCodeBuilder) -> bool {
    &&& ownership_ok(stack_v(b))
    &&& b.ast_ids@.len() == b.text@.len()
}

/// Pushing an entry whose borrow target, if any, is a live or transferred
/// owner below it keeps the discipline.
proof fn lemma_ownership_push(s: Seq<DataInfoV>, e: DataInfoV)
    requires
        ownership_ok(s),
        e.type_info matches DataTypeInfoV::Heap(_, Owner::Borrowed(j)) ==> j < s.len() && (
        s[j as int].type_info matches DataTypeInfoV::Heap(_, o2) && (o2 == Owner::Me || o2
            == Owner::Disowned)),
    ensures
        ownership_ok(s.push(e)),
{
    reveal(ownership_ok);
    let s2 = s.push(e);
    assert forall|i: int|
        0 <= i < s2.len() implies ((#[trigger] s2[i].type_info) matches DataTypeInfoV::Heap(
        _,
        Owner::Borrowed(j),
    ) ==> j < i && (s2[j as int].type_info matches DataTypeInfoV::Heap(_, o2) && (o2 == Owner::Me
        || o2 == Owner::Disowned))) by {
        if i < s.len() {
            assert(s2[i] == s[i]);
        }
    }
}

/// A prefix of a disciplined stack is disciplined.
proof fn lemma_ownership_prefix(s: Seq<DataInfoV>, n: int)
    requires
        ownership_ok(s),
        0 <= n <= s.len(),
    ensures
        ownership_ok(s.subrange(0, n)),
{
    reveal(ownership_ok);
    let s2 = s.subrange(0, n);
    assert forall|i: int|
        0 <= i < s2.len() implies ((#[trigger] s2[i].type_info) matches DataTypeInfoV::Heap(
        _,
        Owner::Borrowed(j),
    ) ==> j < i && (s2[j as int].type_info matches DataTypeInfoV::Heap(_, o2) && (o2 == Owner::Me
        || o2 == Owner::Disowned))) by {
        assert(s2[i] == s[i]);
        match s[i].type_info {
            DataTypeInfoV::Heap(ht, Owner::Borrowed(j)) => {
                assert(s2[j as int] == s[j as int]);
            }
            _ => {}
        }
    }
}

/// Marking the owner at `at` as transferred keeps the discipline.
proof fn lemma_ownership_disown(s: Seq<DataInfoV>, at: int)
    requires
        ownership_ok(s),
        0 <= at < s.len(),
        s[at].type_info matches DataTypeInfoV::Heap(_, Owner::Me),
    ensures
        ownership_ok(
            s.update(
                at,
                DataInfoV {
                    ast_id: s[at].ast_id,
                    type_info: DataTypeInfoV::Heap(s[at].type_info->Heap_0, Owner::Disowned),
                },
            ),
        ),
{
    reveal(ownership_ok);
    let s2 = s.update(
        at,
        DataInfoV {
            ast_id: s[at].ast_id,
            type_info: DataTypeInfoV::Heap(s[at].type_info->Heap_0, Owner::Disowned),
        },
    );
    assert forall|i: int|
        0 <= i < s2.len() implies ((#[trigger] s2[i].type_info) matches DataTypeInfoV::Heap(
        _,
        Owner::Borrowed(j),
    ) ==> j < i && (s2[j as int].type_info matches DataTypeInfoV::Heap(_, o2) && (o2 == Owner::Me
        || o2 == Owner::Disowned))) by {
        if i != at {
            assert(s2[i] == s[i]);
        }
        match s2[i].type_info {
            DataTypeInfoV::Heap(ht, Owner::Borrowed(j)) => {
                if j != at {
                    assert(s2[j as int] == s[j as int]);
                }
            }
            _ => {}
        }
    }
}

/// The mirrored entry a repush of `e` from slot `idx` produces: a live
/// owner is borrowed from, anything else is copied as it stands.
pub open spec fn repush_adjust(e: DataInfoV, idx: usize) -> DataInfoV {
    match e.type_info {
        DataTypeInfoV::Heap(h, Owner::Me) => (DataInfoV {
            ast_id: e.ast_id,
            type_info: DataTypeInfoV::Heap(h, Owner::Borrowed(idx)),
        }),
        _ => e,
    }
}

/// The opcode that pops an entry: owners free their heap value.
pub open spec fn pop_code(e: DataInfoV) -> OpCode {
    if e.type_info matches DataTypeInfoV::Heap(_, Owner::Me) {
        OpCode::PopFree
    } else {
        OpCode::Pop
    }
}

/// The mirrored entry for a freshly produced value of type `t`: heap
/// values are owned by their slot. Callables are never materialized.
pub open spec fn entry_for_type(t: TypeV, ast_id: usize) -> Option<DataInfoV> {
    match t {
        TypeV::Stack(st) => Some(DataInfoV { ast_id, type_info: DataTypeInfoV::Stack(st) }),
        TypeV::Heap(h) => Some(
            DataInfoV { ast_id, type_info: DataTypeInfoV::Heap(h, Owner::Me) },
        ),
        TypeV::Callable(_, _) => None,
    }
}

impl ByteCodeBuilder {
    /// An empty builder: no code, no data, one global scope.
    pub fn new() -> (r: Self)
        ensures
            builder_wf(r),
            r.text@.len() == 0,
            r.data@.len() == 0,
            r.ast_ids@.len() == 0,
            stack_v(r).len() == 0,
            r.scope_starts@.len() == 0,
            r.symbol_table@ =~= seq![Map::<Seq<char>, usize>::empty()],
    {
        let r = ByteCodeBuilder {
            text: Vec::new(),
            data: Vec::new(),
            ast_ids: Vec::new(),
            symbol_table: Scopes::new(),
            stack_info: Vec::new(),
            scope_starts: Vec::new(),
        };
        proof {
            reveal(ownership_ok);
            lemma_info_views_len(r.stack_info@);
        }
        r
    }

    /// Append one opcode with its provenance.
    fn emit(&mut self, op: OpCode, ast_id: usize)
        requires
            builder_wf(*old(self)),
        ensures
            builder_wf(*final(self)),
            final(self).text@ == old(self).text@.push(op),
            final(self).ast_ids@ == old(self).ast_ids@.push(ast_id),
            final(self).data@ == old(self).data@,
            final(self).stack_info@ == old(self).stack_info@,
            final(self).symbol_table == old(self).symbol_table,
            final(self).scope_starts@ == old(self).scope_starts@,
    {
        self.text.push(op);
        self.ast_ids.push(ast_id);
    }

    /// Append one opcode that the caller accounts for itself, with its
    /// provenance. The mirrored stack is the caller's affair: call
    /// opcodes are paired with `note_call_effect`.
    pub fn push_opcode(&mut self, op: OpCode, ast_id: usize)
        requires
            builder_wf(*old(self)),
        ensures
            builder_wf(*final(self)),
            final(self).text@ == old(self).text@.push(op),
            final(self).ast_ids@ == old(self).ast_ids@.push(ast_id),
            final(self).data@ == old(self).data@,
            final(self).stack_info@ == old(self).stack_info@,
            final(self).symbol_table == old(self).symbol_table,
            final(self).scope_starts@ == old(self).scope_starts@,
    {
        self.emit(op, ast_id);
    }

    /// Bind `symbol_name` to the current top of the mirrored stack. An
    /// empty stack is a caller's mistake and is reported.
    pub fn add_symbol_for_stack_top(&mut self, symbol_name: &String) -> (r: Result<(), ()>)
        requires
            builder_wf(*old(self)),
            old(self).symbol_table@.len() >= 1,
        ensures
            builder_wf(*final(self)),
            match r {
                Ok(u) => ({
                    &&& old(self).stack_info@.len() > 0
                    &&& final(self).symbol_table@ =~= old(self).symbol_table@.update(
                        old(self).symbol_table@.len() - 1,
                        old(self).symbol_table@[old(self).symbol_table@.len() - 1].insert(
                            symbol_name@,
                            (old(self).stack_info@.len() - 1) as usize,
                        ),
                    )
                }),
                Err(u) => old(self).stack_info@.len() == 0 && *final(self) == *old(self),
            },
            final(self).text@ == old(self).text@,
            final(self).ast_ids@ == old(self).ast_ids@,
            final(self).data@ == old(self).data@,
            final(self).stack_info@ == old(self).stack_info@,
            final(self).scope_starts@ == old(self).scope_starts@,
    {
        if self.stack_info.len() == 0 {
            return Err(());
        }
        let idx = self.stack_info.len() - 1;
        let name = symbol_name.clone();
        self.symbol_table.add_entry(name, idx);
        Ok(())
    }

    /// Bind `alias` to the slot `symbol_name` is bound to, emitting no
    /// code and leaving the mirrored stack unchanged. An unbound name is
    /// reported.
    pub fn add_symbol_alias(&mut self, symbol_name: &String, alias: &String) -> (r: Result<
        (),
        (),
    >)
        requires
            builder_wf(*old(self)),
            old(self).symbol_table@.len() >= 1,
        ensures
            builder_wf(*final(self)),
            match r {
                Ok(u) => ({
                    &&& scopes_lookup(old(self).symbol_table@, symbol_name@) matches Some(idx)
                        && final(self).symbol_table@ =~= old(self).symbol_table@.update(
                        old(self).symbol_table@.len() - 1,
                        old(self).symbol_table@[old(self).symbol_table@.len() - 1].insert(
                            alias@,
                            idx,
                        ),
                    )
                }),
                Err(u) => ({
                    &&& scopes_lookup(old(self).symbol_table@, symbol_name@) is None
                    &&& *final(self) == *old(self)
                }),
            },
            final(self).text@ == old(self).text@,
            final(self).ast_ids@ == old(self).ast_ids@,
            final(self).data@ == old(self).data@,
            final(self).stack_info@ == old(self).stack_info@,
            final(self).scope_starts@ == old(self).scope_starts@,
    {
        let idx = match self.symbol_table.find_entry(symbol_name) {
            Some(i) => *i,
            None => {
                return Err(());
            }
        };
        let name = alias.clone();
        self.symbol_table.add_entry(name, idx);
        Ok(())
    }

    /// Append a value to the data section and emit code pushing a
    /// reference to it. The mirrored entry is a non-owning data-section
    /// string reference.
    pub fn add_to_datasection_and_push_ref(&mut self, val: ComptimeValue, ast_id: usize)
        requires
            builder_wf(*old(self)),
        ensures
            builder_wf(*final(self)),
            final(self).data@ == old(self).data@.push(val),
            final(self).text@ == old(self).text@.push(
                OpCode::PushDataSecRef(old(self).data@.len() as usize),
            ),
            final(self).ast_ids@ == old(self).ast_ids@.push(ast_id),
            stack_v(*final(self)) == stack_v(*old(self)).push(
                DataInfoV {
                    ast_id,
                    type_info: DataTypeInfoV::DataSec(
                        HeapTypeV::Str,
                        old(self).data@.len() as usize,
                    ),
                },
            ),
            final(self).symbol_table == old(self).symbol_table,
            final(self).scope_starts@ == old(self).scope_starts@,
    {
        self.data.push(val);
        let dsec_idx = self.data.len() - 1;
        self.emit(OpCode::PushDataSecRef(dsec_idx), ast_id);
        self.stack_info.push(
            DataInfo {
                ast_id,
                type_info: DataTypeInfo::DataSecTypeInfo { dtype: HeapType::Str, dsec_idx },
            },
        );
        proof {
            assert(self.stack_info@.subrange(0, self.stack_info@.len() - 1) =~= old(
                self,
            ).stack_info@);
            lemma_ownership_push(
                stack_v(*old(self)),
                self.stack_info@[self.stack_info@.len() - 1]@,
            );
            lemma_info_views_len(self.stack_info@);
            assert(stack_v(*self) =~= stack_v(*old(self)).push(
                self.stack_info@[self.stack_info@.len() - 1]@,
            ));
        }
    }

    /// Emit code copying the entry `symbol` is bound to onto the top of
    /// the stack. A copy of a live owner becomes a borrower; everything
    /// else is copied as it stands. An unbound name, or a binding to a
    /// slot that no longer exists, is reported.
    pub fn copy_symbol_target_to_stack_top(&mut self, symbol: &String) -> (r: Result<(), ()>)
        requires
            builder_wf(*old(self)),
        ensures
            builder_wf(*final(self)),
            match r {
                Ok(u) => ({
                    &&& scopes_lookup(old(self).symbol_table@, symbol@) matches Some(idx)
                    &&& idx < old(self).stack_info@.len()
                    &&& final(self).text@ == old(self).text@.push(OpCode::RepushStackEntry(idx))
                    &&& stack_v(*final(self)) == stack_v(*old(self)).push(
                        repush_adjust(stack_v(*old(self))[idx as int], idx),
                    )
                }),
                Err(u) => ({
                    &&& (scopes_lookup(old(self).symbol_table@, symbol@) is None
                        || scopes_lookup(old(self).symbol_table@, symbol@)->0 >= old(
                        self,
                    ).stack_info@.len())
                    &&& *final(self) == *old(self)
                }),
            },
            final(self).data@ == old(self).data@,
            final(self).symbol_table == old(self).symbol_table,
            final(self).scope_starts@ == old(self).scope_starts@,
    {
        let entry_idx = match self.symbol_table.find_entry(symbol) {
            Some(i) => *i,
            None => {
                return Err(());
            }
        };
        if entry_idx >= self.stack_info.len() {
            return Err(());
        }
        proof {
            lemma_info_views_len(self.stack_info@);
            lemma_info_views_index(self.stack_info@, entry_idx as int);
        }
        let mut entry = self.stack_info[entry_idx].duplicate();
        if let DataTypeInfo::HeapTypeInfo { owner_idx: o @ Owner::Me, .. } = &mut entry.type_info
        {
            *o = Owner::Borrowed(entry_idx);
        }
        self.emit(OpCode::RepushStackEntry(entry_idx), entry.ast_id);
        self.stack_info.push(entry);
        proof {
            reveal(ownership_ok);
            assert(self.stack_info@.subrange(0, self.stack_info@.len() - 1) =~= old(
                self,
            ).stack_info@);
            lemma_info_views_index(self.stack_info@, self.stack_info@.len() - 1);
            assert(self.stack_info@[self.stack_info@.len() - 1]@ == repush_adjust(
                stack_v(*old(self))[entry_idx as int],
                entry_idx,
            ));
            lemma_ownership_push(
                stack_v(*old(self)),
                repush_adjust(stack_v(*old(self))[entry_idx as int], entry_idx),
            );
            lemma_info_views_len(self.stack_info@);
            assert(stack_v(*self) =~= stack_v(*old(self)).push(
                repush_adjust(stack_v(*old(self))[entry_idx as int], entry_idx),
            ));
        }
        Ok(())
    }

    /// Emit code pushing a copy value, and mirror it.
    pub fn push_primitive_to_stack(&mut self, val: CopyValue, ast_id: usize)
        requires
            builder_wf(*old(self)),
        ensures
            builder_wf(*final(self)),
            final(self).text@ == old(self).text@.push(OpCode::PushPrimitive(val)),
            final(self).ast_ids@ == old(self).ast_ids@.push(ast_id),
            stack_v(*final(self)) == stack_v(*old(self)).push(
                DataInfoV {
                    ast_id,
                    type_info: DataTypeInfoV::Stack(val.spec_stack_type()),
                },
            ),
            final(self).data@ == old(self).data@,
            final(self).symbol_table == old(self).symbol_table,
            final(self).scope_starts@ == old(self).scope_starts@,
    {
        self.emit(OpCode::PushPrimitive(val), ast_id);
        let st = val.stack_type();
        self.stack_info.push(DataInfo { ast_id, type_info: DataTypeInfo::StackType(st) });
        proof {
            assert(self.stack_info@.subrange(0, self.stack_info@.len() - 1) =~= old(
                self,
            ).stack_info@);
            lemma_ownership_push(
                stack_v(*old(self)),
                self.stack_info@[self.stack_info@.len() - 1]@,
            );
            lemma_info_views_len(self.stack_info@);
            lemma_info_views_index(self.stack_info@, self.stack_info@.len() - 1);
            assert(stack_v(*self) =~= stack_v(*old(self)).push(
                self.stack_info@[self.stack_info@.len() - 1]@,
            ));
        }
    }

    /// Remove the `n` topmost mirrored entries, emitting for each the
    /// opcode that pops it: `PopFree` for a live owner, `Pop` for
    /// everything else. Popping more than the stack holds is a caller's
    /// mistake and is reported.
    #[verifier::loop_isolation(false)]
    pub fn pop_stack_entries(&mut self, n: usize) -> (r: Result<(), ()>)
        requires
            builder_wf(*old(self)),
        ensures
            builder_wf(*final(self)),
            match r {
                Ok(u) => ({
                    &&& n <= old(self).stack_info@.len()
                    &&& stack_v(*final(self)) == stack_v(*old(self)).subrange(
                        0,
                        old(self).stack_info@.len() - n,
                    )
                    &&& final(self).text@.len() == old(self).text@.len() + n
                    &&& final(self).text@.subrange(0, old(self).text@.len() as int) == old(
                        self,
                    ).text@
                    &&& (forall|k: int|
                        0 <= k < n ==> #[trigger] final(self).text@[old(self).text@.len() + k]
                            == pop_code(
                            stack_v(*old(self))[old(self).stack_info@.len() - 1 - k],
                        ))
                    &&& final(self).ast_ids@.len() == old(self).ast_ids@.len() + n
                    &&& final(self).ast_ids@.subrange(0, old(self).ast_ids@.len() as int)
                        == old(self).ast_ids@
                }),
                Err(u) => n > old(self).stack_info@.len() && *final(self) == *old(self),
            },
            final(self).data@ == old(self).data@,
            final(self).symbol_table == old(self).symbol_table,
            final(self).scope_starts@ == old(self).scope_starts@,
    {
        if n > self.stack_info.len() {
            return Err(());
        }
        proof {
            lemma_info_views_len(old(self).stack_info@);
        }
        let mut k: usize = 0;
        while k < n
            invariant
                k <= n,
                self.stack_info@.len() == old(self).stack_info@.len() - k,
                self.stack_info@ == old(self).stack_info@.subrange(
                    0,
                    old(self).stack_info@.len() - k,
                ),
                self.text@.len() == old(self).text@.len() + k,
                self.text@.subrange(0, old(self).text@.len() as int) == old(self).text@,
                forall|q: int|
                    0 <= q < k ==> #[trigger] self.text@[old(self).text@.len() + q] == pop_code(
                        stack_v(*old(self))[old(self).stack_info@.len() - 1 - q],
                    ),
                self.ast_ids@.subrange(0, old(self).ast_ids@.len() as int) == old(self).ast_ids@,
                self.ast_ids@.len() == self.text@.len(),
                self.data@ == old(self).data@,
                self.symbol_table == old(self).symbol_table,
                self.scope_starts@ == old(self).scope_starts@,
            decreases n - k,
        {
            proof {
                lemma_info_views_len(self.stack_info@);
                lemma_info_views_index(self.stack_info@, self.stack_info@.len() - 1);
                lemma_info_views_index(
                    old(self).stack_info@,
                    old(self).stack_info@.len() - 1 - k,
                );
                assert(self.stack_info@[self.stack_info@.len() - 1] == old(
                    self,
                ).stack_info@[old(self).stack_info@.len() - 1 - k]);
            }
            let entry = match self.stack_info.pop() {
                Some(e) => e,
                None => {
                    proof {
                        assert(false);
                    }
                    return Err(());
                }
            };
            let is_owner = match &entry.type_info {
                DataTypeInfo::HeapTypeInfo { owner_idx: Owner::Me, .. } => true,
                _ => false,
            };
            let code = if is_owner {
                OpCode::PopFree
            } else {
                OpCode::Pop
            };
            let ghost text_before = self.text@;
            let ghost asts_before = self.ast_ids@;
            self.text.push(code);
            self.ast_ids.push(entry.ast_id);
            proof {
                assert(self.text@.subrange(0, old(self).text@.len() as int) =~= text_before
                    .subrange(0, old(self).text@.len() as int));
                assert(self.ast_ids@.subrange(0, old(self).ast_ids@.len() as int)
                    =~= asts_before.subrange(0, old(self).ast_ids@.len() as int));
                assert(self.stack_info@ =~= old(self).stack_info@.subrange(
                    0,
                    old(self).stack_info@.len() - (k + 1),
                ));
            }
            k = k + 1;
        }
        proof {
            lemma_ownership_prefix(
                stack_v(*old(self)),
                old(self).stack_info@.len() - n,
            );
            lemma_info_views_len(old(self).stack_info@);
            lemma_info_views_len(self.stack_info@);
            assert forall|i: int|
                0 <= i < self.stack_info@.len() implies #[trigger] stack_v(*self)[i] == stack_v(
                *old(self),
            ).subrange(0, old(self).stack_info@.len() - n)[i] by {
                lemma_info_views_index(self.stack_info@, i);
                lemma_info_views_index(old(self).stack_info@, i);
            }
            assert(stack_v(*self) =~= stack_v(*old(self)).subrange(
                0,
                old(self).stack_info@.len() - n,
            ));
        }
        Ok(())
    }

    /// Mirror a value of type `dtype` just produced by already-emitted
    /// code: a heap-typed result is owned by its slot. A callable result
    /// is a caller's mistake and is reported.
    pub fn create_value_in_memory(&mut self, dtype: &DataType, ast_id: usize) -> (r: Result<
        (),
        (),
    >)
        requires
            builder_wf(*old(self)),
        ensures
            builder_wf(*final(self)),
            match r {
                Ok(u) => ({
                    &&& entry_for_type(dtype@, ast_id) is Some
                    &&& stack_v(*final(self)) == stack_v(*old(self)).push(
                        entry_for_type(dtype@, ast_id)->0,
                    )
                }),
                Err(u) => dtype@ is Callable && *final(self) == *old(self),
            },
            final(self).text@ == old(self).text@,
            final(self).ast_ids@ == old(self).ast_ids@,
            final(self).data@ == old(self).data@,
            final(self).symbol_table == old(self).symbol_table,
            final(self).scope_starts@ == old(self).scope_starts@,
    {
        let info = match dtype {
            DataType::StackType(st) => DataInfo {
                ast_id,
                type_info: DataTypeInfo::StackType(*st),
            },
            DataType::HeapType(h) => DataInfo {
                ast_id,
                type_info: DataTypeInfo::HeapTypeInfo {
                    dtype: h.duplicate(),
                    owner_idx: Owner::Me,
                },
            },
            DataType::Callable(_, _) => {
                return Err(());
            }
        };
        self.stack_info.push(info);
        proof {
            assert(self.stack_info@.subrange(0, self.stack_info@.len() - 1) =~= old(
                self,
            ).stack_info@);
            lemma_info_views_len(self.stack_info@);
            lemma_info_views_index(self.stack_info@, self.stack_info@.len() - 1);
            lemma_ownership_push(
                stack_v(*old(self)),
                self.stack_info@[self.stack_info@.len() - 1]@,
            );
            assert(stack_v(*self) =~= stack_v(*old(self)).push(
                entry_for_type(dtype@, ast_id)->0,
            ));
        }
        Ok(())
    }

    /// Open a scope: remember the current stack length and the opening
    /// node, and open a fresh name scope.
    pub fn open_scope(&mut self, ast_id: usize)
        requires
            builder_wf(*old(self)),
        ensures
            builder_wf(*final(self)),
            final(self).scope_starts@ == old(self).scope_starts@.push(
                ((old(self).stack_info@.len() as usize), ast_id),
            ),
            final(self).symbol_table@ =~= old(self).symbol_table@.push(
                Map::<Seq<char>, usize>::empty(),
            ),
            final(self).text@ == old(self).text@,
            final(self).ast_ids@ == old(self).ast_ids@,
            final(self).data@ == old(self).data@,
            final(self).stack_info@ == old(self).stack_info@,
    {
        self.symbol_table.open_new();
        let len = self.stack_info.len();
        self.scope_starts.push((len, ast_id));
    }
}

impl ByteCodeBuilder {
    /// If the stack top does not fit the target type set, try to fix it
    /// with a cast: `ToStr` towards the string type, `ToBool` towards the
    /// boolean type. Answers whether the top now fits; a `false` answer
    /// is the caller's cue to report a type error. An empty stack is a
    /// caller's mistake and is reported.
    pub fn check_and_fix_type_of_stack_top(&mut self, target_tmpl: &TypeSet) -> (r: Result<
        bool,
        (),
    >)
        requires
            builder_wf(*old(self)),
        ensures
            builder_wf(*final(self)),
            match r {
                Ok(b) => ({
                    let len = old(self).stack_info@.len() as int;
                    let top = stack_v(*old(self))[len - 1];
                    let cur = dti_as_type(top.type_info);
                    &&& len > 0
                    &&& (if target_tmpl@.accepts(cur) {
                        b && *final(self) == *old(self)
                    } else if target_tmpl@.concrete_type() == Some(TypeV::str()) {
                        &&& b
                        &&& final(self).text@ == old(self).text@.push(OpCode::ToStr)
                        &&& stack_v(*final(self)) == stack_v(*old(self)).update(
                            len - 1,
                            DataInfoV {
                                ast_id: top.ast_id,
                                type_info: DataTypeInfoV::Heap(HeapTypeV::Str, Owner::Me),
                            },
                        )
                    } else if target_tmpl@.concrete_type() == Some(
                        TypeV::Stack(StackType::Bool),
                    ) {
                        &&& b
                        &&& final(self).text@ == old(self).text@.push(OpCode::ToBool)
                        &&& stack_v(*final(self)) == stack_v(*old(self)).update(
                            len - 1,
                            DataInfoV {
                                ast_id: top.ast_id,
                                type_info: DataTypeInfoV::Stack(StackType::Bool),
                            },
                        )
                    } else {
                        !b && *final(self) == *old(self)
                    })
                }),
                Err(u) => old(self).stack_info@.len() == 0 && *final(self) == *old(self),
            },
            final(self).data@ == old(self).data@,
            final(self).symbol_table == old(self).symbol_table,
            final(self).scope_starts@ == old(self).scope_starts@,
    {
        if self.stack_info.len() == 0 {
            return Err(());
        }
        let last = self.stack_info.len() - 1;
        proof {
            lemma_info_views_len(self.stack_info@);
            lemma_info_views_index(self.stack_info@, last as int);
        }
        let current_type = self.stack_info[last].type_info.as_datatype();
        if target_tmpl.is_sattisfied_by(&current_type) {
            return Ok(true);
        }
        let cast: Option<(OpCode, bool)> = match target_tmpl.concrete_type() {
            Some(DataType::HeapType(HeapType::Str)) => Some((OpCode::ToStr, true)),
            Some(DataType::StackType(StackType::Bool)) => Some((OpCode::ToBool, false)),
            _ => None,
        };
        match cast {
            Some((code, to_str)) => {
                let old_ast = self.stack_info[last].ast_id;
                self.emit(code, old_ast);
                let _ = self.stack_info.pop();
                let new_info = if to_str {
                    DataTypeInfo::HeapTypeInfo { dtype: HeapType::Str, owner_idx: Owner::Me }
                } else {
                    DataTypeInfo::StackType(StackType::Bool)
                };
                self.stack_info.push(DataInfo { ast_id: old_ast, type_info: new_info });
                proof {
                    let pre = stack_v(*old(self)).subrange(0, last as int);
                    assert(self.stack_info@.subrange(0, last as int) =~= old(
                        self,
                    ).stack_info@.subrange(0, last as int));
                    lemma_ownership_prefix(stack_v(*old(self)), last as int);
                    lemma_info_views_len(self.stack_info@);
                    assert forall|i: int|
                        0 <= i < last as int implies #[trigger] stack_v(*self)[i] == stack_v(
                        *old(self),
                    )[i] by {
                        lemma_info_views_index(self.stack_info@, i);
                        lemma_info_views_index(old(self).stack_info@, i);
                        assert(self.stack_info@[i] == old(self).stack_info@[i]);
                    }
                    lemma_info_views_index(self.stack_info@, last as int);
                    assert forall|i: int|
                        0 <= i < pre.len() implies pre[i] == #[trigger] stack_v(*self)[i] by {}
                    lemma_ownership_push(pre, stack_v(*self)[last as int]);
                    assert(stack_v(*self) =~= pre.push(stack_v(*self)[last as int]));
                    assert(stack_v(*self) =~= stack_v(*old(self)).update(
                        last as int,
                        self.stack_info@[last as int]@,
                    ));
                }
                Ok(true)
            }
            None => Ok(false),
        }
    }

    /// Reflect a call's stack effect on the mirror: the arguments it
    /// pops disappear, its one result appears. The already-emitted call
    /// opcode does the same at run time. Consuming more entries than the
    /// stack holds, or a callable result, is a caller's mistake and is
    /// reported.
    pub fn note_call_effect(&mut self, consumed: usize, result: &DataType, ast_id: usize) -> (r:
        Result<(), ()>)
        requires
            builder_wf(*old(self)),
        ensures
            builder_wf(*final(self)),
            match r {
                Ok(u) => ({
                    &&& consumed <= old(self).stack_info@.len()
                    &&& entry_for_type(result@, ast_id) is Some
                    &&& stack_v(*final(self)) == stack_v(*old(self)).subrange(
                        0,
                        old(self).stack_info@.len() - consumed,
                    ).push(entry_for_type(result@, ast_id)->0)
                }),
                Err(u) => ({
                    &&& (consumed > old(self).stack_info@.len() || result@ is Callable)
                    &&& *final(self) == *old(self)
                }),
            },
            final(self).text@ == old(self).text@,
            final(self).ast_ids@ == old(self).ast_ids@,
            final(self).data@ == old(self).data@,
            final(self).symbol_table == old(self).symbol_table,
            final(self).scope_starts@ == old(self).scope_starts@,
    {
        if consumed > self.stack_info.len() {
            return Err(());
        }
        let info = match result {
            DataType::StackType(st) => DataInfo {
                ast_id,
                type_info: DataTypeInfo::StackType(*st),
            },
            DataType::HeapType(h) => DataInfo {
                ast_id,
                type_info: DataTypeInfo::HeapTypeInfo {
                    dtype: h.duplicate(),
                    owner_idx: Owner::Me,
                },
            },
            DataType::Callable(_, _) => {
                return Err(());
            }
        };
        let keep = self.stack_info.len() - consumed;
        self.stack_info.truncate(keep);
        self.stack_info.push(info);
        proof {
            lemma_info_views_len(old(self).stack_info@);
            lemma_info_views_len(self.stack_info@);
            let pre = stack_v(*old(self)).subrange(0, keep as int);
            lemma_ownership_prefix(stack_v(*old(self)), keep as int);
            assert(self.stack_info@.subrange(0, keep as int) =~= old(self).stack_info@.subrange(
                0,
                keep as int,
            ));
            assert forall|i: int|
                0 <= i < keep as int implies #[trigger] stack_v(*self)[i] == pre[i] by {
                lemma_info_views_index(self.stack_info@, i);
                lemma_info_views_index(old(self).stack_info@, i);
                assert(self.stack_info@[i] == old(self).stack_info@[i]);
            }
            lemma_info_views_index(self.stack_info@, keep as int);
            assert(stack_v(*self)[keep as int] == entry_for_type(result@, ast_id)->0);
            lemma_ownership_push(pre, entry_for_type(result@, ast_id)->0);
            assert(stack_v(*self) =~= pre.push(entry_for_type(result@, ast_id)->0));
        }
        Ok(())
    }

    /// The ownership step of a scope collapse: decide how the result
    /// entry survives, transfer ownership where the owner dies with the
    /// scope, and hand back the mirrored entry the collapsed scope will
    /// show. The mirrored stack keeps its length; only owner marks at or
    /// above the watermark change.
    #[verifier::rlimit(100)]
    fn collapse_fix_ownership(&mut self, scope_start_idx: usize) -> (r: Result<DataInfo, ()>)
        requires
            builder_wf(*old(self)),
            scope_start_idx < old(self).stack_info@.len(),
        ensures
            builder_wf(*final(self)),
            final(self).text@ == old(self).text@,
            final(self).ast_ids@ == old(self).ast_ids@,
            final(self).data@ == old(self).data@,
            final(self).symbol_table == old(self).symbol_table,
            final(self).scope_starts@ == old(self).scope_starts@,
            match r {
                Ok(res) => ({
                    &&& collapse_ownership_possible(
                        stack_v(*old(self)),
                        scope_start_idx as int,
                    )
                    &&& stack_v(*final(self)) == collapse_adjusted(
                        stack_v(*old(self)),
                        scope_start_idx as int,
                    )
                    &&& res@ == collapse_result_entry(
                        stack_v(*old(self)),
                        scope_start_idx as int,
                    )
                    &&& final(self).stack_info@.len() == old(self).stack_info@.len()
                    &&& (forall|i: int|
                        0 <= i < scope_start_idx as int ==> #[trigger] stack_v(*final(self))[i]
                            == stack_v(*old(self))[i])
                    &&& dti_as_type(res@.type_info) == dti_as_type(
                        stack_v(*old(self))[old(self).stack_info@.len() - 1].type_info,
                    )
                    &&& (res@.type_info matches DataTypeInfoV::Heap(_, Owner::Borrowed(o)) ==> o
                        < scope_start_idx && (stack_v(*final(self))[o as int].type_info
                        matches DataTypeInfoV::Heap(_, o2) && (o2 == Owner::Me || o2
                        == Owner::Disowned)))
                    &&& !(res@.type_info matches DataTypeInfoV::Heap(_, Owner::Disowned))
                }),
                Err(u) => *final(self) == *old(self) && !collapse_ownership_possible(
                    stack_v(*old(self)),
                    scope_start_idx as int,
                ),
            },
    {
        let res_index = self.stack_info.len() - 1;
        proof {
            lemma_info_views_len(self.stack_info@);
            lemma_info_views_index(self.stack_info@, res_index as int);
        }
        let mut res_entry = self.stack_info[res_index].duplicate();
        match &res_entry.type_info {
            DataTypeInfo::HeapTypeInfo { owner_idx: Owner::Disowned, .. } => Err(()),
            DataTypeInfo::HeapTypeInfo { owner_idx: Owner::Borrowed(o_ref), .. } => {
                let o = *o_ref;
                proof {
                    reveal(ownership_ok);
                    assert(stack_v(*self)[res_index as int].type_info
                        matches DataTypeInfoV::Heap(_, Owner::Borrowed(oo)) && oo == o);
                    assert(o < res_index);
                }
                if o < scope_start_idx {
                    // The owner outlives the scope; the borrower can be
                    // returned as it stands.
                    proof {
                        reveal(ownership_ok);
                        lemma_info_views_index(self.stack_info@, o as int);
                    }
                    return Ok(res_entry);
                }
                // The owner dies with the scope: steal ownership.
                proof {
                    lemma_info_views_index(self.stack_info@, o as int);
                }
                let owner_is_me = match &self.stack_info[o].type_info {
                    DataTypeInfo::HeapTypeInfo { owner_idx: Owner::Me, .. } => true,
                    _ => false,
                };
                if !owner_is_me {
                    return Err(());
                }
                let ghost before = self.stack_info@;
                match self.stack_info[o].type_info.disown() {
                    Ok(u) => {}
                    Err(u) => {
                        proof {
                            assert(false);
                        }
                        return Err(());
                    }
                }
                match &mut res_entry.type_info {
                    DataTypeInfo::HeapTypeInfo { owner_idx: oi, .. } => {
                        *oi = Owner::Me;
                    }
                    _ => {}
                }
                proof {
                    reveal(ownership_ok);
                    assert(self.stack_info@ =~= before.update(
                        o as int,
                        self.stack_info@[o as int],
                    ));
                    lemma_info_views_len(self.stack_info@);
                    assert forall|i: int|
                        0 <= i < stack_v(*self).len() implies #[trigger] stack_v(*self)[i] == (
                    if i == o as int {
                        self.stack_info@[o as int]@
                    } else {
                        stack_v(*old(self))[i]
                    }) by {
                        lemma_info_views_index(self.stack_info@, i);
                        lemma_info_views_index(old(self).stack_info@, i);
                        if i != o as int {
                            assert(self.stack_info@[i] == old(self).stack_info@[i]);
                        }
                    }
                    lemma_ownership_disown(stack_v(*old(self)), o as int);
                    assert(stack_v(*self) =~= stack_v(*old(self)).update(
                        o as int,
                        DataInfoV {
                            ast_id: stack_v(*old(self))[o as int].ast_id,
                            type_info: DataTypeInfoV::Heap(
                                stack_v(*old(self))[o as int].type_info->Heap_0,
                                Owner::Disowned,
                            ),
                        },
                    ));
                }
                Ok(res_entry)
            }
            DataTypeInfo::HeapTypeInfo { owner_idx: Owner::Me, .. } => {
                // The result is the owner itself; it survives through
                // the register, so the slot about to be popped must not
                // free the value.
                let ghost before = self.stack_info@;
                match self.stack_info[res_index].type_info.disown() {
                    Ok(u) => {}
                    Err(u) => {
                        proof {
                            assert(false);
                        }
                        return Err(());
                    }
                }
                proof {
                    reveal(ownership_ok);
                    assert(self.stack_info@ =~= before.update(
                        res_index as int,
                        self.stack_info@[res_index as int],
                    ));
                    lemma_info_views_len(self.stack_info@);
                    assert forall|i: int|
                        0 <= i < stack_v(*self).len() implies #[trigger] stack_v(*self)[i] == (
                    if i == res_index as int {
                        self.stack_info@[res_index as int]@
                    } else {
                        stack_v(*old(self))[i]
                    }) by {
                        lemma_info_views_index(self.stack_info@, i);
                        lemma_info_views_index(old(self).stack_info@, i);
                        if i != res_index as int {
                            assert(self.stack_info@[i] == old(self).stack_info@[i]);
                        }
                    }
                    lemma_ownership_disown(stack_v(*old(self)), res_index as int);
                    assert(stack_v(*self) =~= stack_v(*old(self)).update(
                        res_index as int,
                        DataInfoV {
                            ast_id: stack_v(*old(self))[res_index as int].ast_id,
                            type_info: DataTypeInfoV::Heap(
                                stack_v(*old(self))[res_index as int].type_info->Heap_0,
                                Owner::Disowned,
                            ),
                        },
                    ));
                }
                Ok(res_entry)
            }
            _ => Ok(res_entry),
        }
    }

    /// Collapse the innermost scope: make code that leaves exactly the
    /// scope's result value at the scope's watermark. A scope that made
    /// no value yields unit. A result that owns its heap value, or
    /// borrows from a slot that dies with the scope, keeps the value
    /// alive: ownership is transferred before the scope's entries are
    /// popped. A result that already gave its value away means the
    /// mirror was corrupted earlier; it is reported, as is the absence
    /// of any open scope.
    #[verifier::rlimit(100)]
    pub fn collapse_scope(&mut self) -> (r: Result<(), ()>)
        requires
            builder_wf(*old(self)),
        ensures
            builder_wf(*final(self)),
            final(self).data@ == old(self).data@,
            ({
                let starts = old(self).scope_starts@;
                let can = ({
                    &&& starts.len() > 0
                    &&& old(self).symbol_table@.len() > 1
                    &&& starts[starts.len() - 1].0 <= old(self).stack_info@.len()
                    &&& (starts.len() > 0 && starts[starts.len() - 1].0 < old(
                        self,
                    ).stack_info@.len() ==> collapse_ownership_possible(
                        stack_v(*old(self)),
                        starts[starts.len() - 1].0 as int,
                    ))
                });
                r is Ok <==> can
            }),
            r matches Ok(u) ==> ({
                let starts = old(self).scope_starts@;
                let wm = starts[starts.len() - 1].0 as int;
                let scope_ast = starts[starts.len() - 1].1;
                let oldlen = old(self).stack_info@.len() as int;
                &&& (oldlen == wm ==> ({
                    &&& final(self).text@ == old(self).text@.push(
                        OpCode::PushPrimitive(CopyValue::Unit),
                    )
                    &&& final(self).ast_ids@ == old(self).ast_ids@.push(scope_ast)
                    &&& stack_v(*final(self)) == stack_v(*old(self)).push(
                        DataInfoV {
                            ast_id: scope_ast,
                            type_info: DataTypeInfoV::Stack(StackType::Unit),
                        },
                    )
                }))
                &&& (oldlen > wm ==> ({
                    let adjusted = collapse_adjusted(stack_v(*old(self)), wm);
                    &&& stack_v(*final(self)) == adjusted.subrange(0, wm).push(
                        collapse_result_entry(stack_v(*old(self)), wm),
                    )
                    &&& final(self).text@.len() == old(self).text@.len() + (oldlen - wm) + 2
                    &&& final(self).text@[old(self).text@.len() as int]
                        == OpCode::StackTopToReg(0)
                    &&& final(self).text@[final(self).text@.len() - 1] == OpCode::ReadReg(0)
                    &&& (forall|k: int|
                        0 <= k < oldlen - wm ==> #[trigger] final(self).text@[old(
                            self,
                        ).text@.len() + 1 + k] == pop_code(adjusted[oldlen - 1 - k]))
                    &&& final(self).ast_ids@[old(self).text@.len() as int] == scope_ast
                    &&& final(self).ast_ids@[final(self).ast_ids@.len() - 1] == scope_ast
                }))
            }),
            match r {
                Ok(u) => ({
                    let starts = old(self).scope_starts@;
                    let wm = starts[starts.len() - 1].0 as int;
                    let oldlen = old(self).stack_info@.len() as int;
                    &&& starts.len() > 0
                    &&& old(self).symbol_table@.len() > 1
                    &&& wm <= oldlen
                    &&& final(self).scope_starts@ == starts.subrange(0, starts.len() - 1)
                    &&& final(self).symbol_table@ =~= old(self).symbol_table@.subrange(
                        0,
                        old(self).symbol_table@.len() - 1,
                    )
                    &&& stack_v(*final(self)).len() == wm + 1
                    &&& (forall|i: int|
                        0 <= i < wm ==> #[trigger] stack_v(*final(self))[i] == stack_v(
                            *old(self),
                        )[i])
                    &&& dti_as_type(stack_v(*final(self))[wm].type_info) == (if oldlen == wm {
                        TypeV::unit()
                    } else {
                        dti_as_type(stack_v(*old(self))[oldlen - 1].type_info)
                    })
                    &&& final(self).text@.len() >= old(self).text@.len()
                    &&& final(self).text@.subrange(0, old(self).text@.len() as int) == old(
                        self,
                    ).text@
                }),
                Err(u) => *final(self) == *old(self),
            },
    {
        if self.scope_starts.len() == 0 {
            return Err(());
        }
        proof {
            crate::scopes::lemma_scope_views_len(self.symbol_table.scopes@);
        }
        if self.symbol_table.scopes.len() <= 1 {
            return Err(());
        }
        let start = self.scope_starts[self.scope_starts.len() - 1];
        let scope_start_idx = start.0;
        let scope_ast_id = start.1;
        if scope_start_idx > self.stack_info.len() {
            return Err(());
        }
        proof {
            lemma_info_views_len(self.stack_info@);
        }
        if scope_start_idx == self.stack_info.len() {
            self.push_primitive_to_stack(CopyValue::Unit, scope_ast_id);
            let _ = self.scope_starts.pop();
            let _ = self.symbol_table.collapse_innermost();
            proof {
                assert(self.scope_starts@ =~= old(self).scope_starts@.subrange(
                    0,
                    old(self).scope_starts@.len() - 1,
                ));
                lemma_info_views_len(self.stack_info@);
                lemma_info_views_len(old(self).stack_info@);
            }
            return Ok(());
        }
        let res_entry = match self.collapse_fix_ownership(scope_start_idx) {
            Ok(e) => e,
            Err(u) => {
                return Err(());
            }
        };
        let ghost res_v = res_entry@;
        let ghost fixed = *self;
        self.collapse_apply(scope_start_idx, scope_ast_id, res_entry);
        let _ = self.scope_starts.pop();
        let _ = self.symbol_table.collapse_innermost();
        proof {
            lemma_info_views_len(old(self).stack_info@);
            lemma_info_views_len(fixed.stack_info@);
            assert forall|i: int|
                0 <= i < scope_start_idx as int implies #[trigger] stack_v(*self)[i] == stack_v(
                *old(self),
            )[i] by {
                assert(stack_v(*self)[i] == stack_v(fixed).subrange(
                    0,
                    scope_start_idx as int,
                )[i]);
            }
            assert(self.scope_starts@ =~= old(self).scope_starts@.subrange(
                0,
                old(self).scope_starts@.len() - 1,
            ));
        }
        Ok(())
    }

    /// The emission step of a scope collapse: save the result in a
    /// register, pop everything the scope produced, read the register
    /// back, and mirror the surviving result entry.
    #[verifier::rlimit(100)]
    fn collapse_apply(&mut self, scope_start_idx: usize, scope_ast_id: usize, res_entry: DataInfo)
        requires
            builder_wf(*old(self)),
            scope_start_idx < old(self).stack_info@.len(),
            res_entry@.type_info matches DataTypeInfoV::Heap(_, Owner::Borrowed(o)) ==> o
                < scope_start_idx && (stack_v(*old(self))[o as int].type_info
                matches DataTypeInfoV::Heap(_, o2) && (o2 == Owner::Me || o2
                == Owner::Disowned)),
        ensures
            builder_wf(*final(self)),
            final(self).data@ == old(self).data@,
            final(self).symbol_table == old(self).symbol_table,
            final(self).scope_starts@ == old(self).scope_starts@,
            stack_v(*final(self)) == stack_v(*old(self)).subrange(0, scope_start_idx as int).push(
                res_entry@,
            ),
            final(self).text@.len() >= old(self).text@.len(),
            final(self).text@.subrange(0, old(self).text@.len() as int) == old(self).text@,
            ({
                let n = old(self).stack_info@.len() - scope_start_idx;
                &&& final(self).text@.len() == old(self).text@.len() + n + 2
                &&& final(self).text@[old(self).text@.len() as int] == OpCode::StackTopToReg(0)
                &&& final(self).text@[final(self).text@.len() - 1] == OpCode::ReadReg(0)
                &&& (forall|k: int|
                    0 <= k < n ==> #[trigger] final(self).text@[old(self).text@.len() + 1 + k]
                        == pop_code(
                        stack_v(*old(self))[old(self).stack_info@.len() - 1 - k],
                    ))
                &&& final(self).ast_ids@[old(self).text@.len() as int] == scope_ast_id
                &&& final(self).ast_ids@[final(self).ast_ids@.len() - 1] == scope_ast_id
            }),
    {
        let ghost res_v = res_entry@;
        proof {
            lemma_info_views_len(self.stack_info@);
        }
        self.emit(OpCode::StackTopToReg(0), scope_ast_id);
        let ghost after_first = *self;
        let ghost g1 = self.text@;
        let n = self.stack_info.len() - scope_start_idx;
        match self.pop_stack_entries(n) {
            Ok(u) => {}
            Err(u) => {
                proof {
                    assert(false);
                }
            }
        }
        let ghost g2 = self.text@;
        self.emit(OpCode::ReadReg(0), scope_ast_id);
        let ghost after_pop = *self;
        self.stack_info.push(res_entry);
        proof {
            let t0 = old(self).text@;
            assert(self.text@ == g2.push(OpCode::ReadReg(0)));
            assert(g2.subrange(0, g1.len() as int) == g1);
            assert(self.text@.subrange(0, t0.len() as int) =~= g2.subrange(0, t0.len() as int));
            assert(g2.subrange(0, t0.len() as int) =~= g2.subrange(0, g1.len() as int).subrange(
                0,
                t0.len() as int,
            ));
            assert(g1.subrange(0, t0.len() as int) =~= t0);
            assert(self.text@[t0.len() as int] == g1[t0.len() as int]);
            assert(g1[t0.len() as int] == OpCode::StackTopToReg(0));
            assert forall|k: int|
                0 <= k < n as int implies #[trigger] self.text@[t0.len() + 1 + k] == pop_code(
                stack_v(*old(self))[old(self).stack_info@.len() - 1 - k],
            ) by {
                assert(self.text@[t0.len() + 1 + k] == g2[g1.len() + k]);
                assert(g2[g1.len() + k] == pop_code(
                    stack_v(after_first)[after_first.stack_info@.len() - 1 - k],
                ));
            }
            assert(after_first.ast_ids@[t0.len() as int] == scope_ast_id);
            assert(self.ast_ids@.subrange(0, after_first.ast_ids@.len() as int).subrange(
                0,
                after_first.ast_ids@.len() as int,
            ) =~= self.ast_ids@.subrange(0, after_first.ast_ids@.len() as int));
            assert(self.ast_ids@[t0.len() as int] == after_first.ast_ids@[t0.len() as int]);
            assert(self.ast_ids@[self.ast_ids@.len() - 1] == scope_ast_id);
            lemma_info_views_len(self.stack_info@);
            lemma_info_views_len(after_pop.stack_info@);
            assert(self.stack_info@.subrange(0, self.stack_info@.len() - 1)
                =~= after_pop.stack_info@);
            assert forall|i: int|
                0 <= i < scope_start_idx as int implies #[trigger] stack_v(*self)[i] == stack_v(
                after_pop,
            )[i] by {
                lemma_info_views_index(self.stack_info@, i);
                lemma_info_views_index(after_pop.stack_info@, i);
                assert(self.stack_info@[i] == after_pop.stack_info@[i]);
            }
            lemma_info_views_index(self.stack_info@, scope_start_idx as int);
            assert(stack_v(*self)[scope_start_idx as int] == res_v);
            assert(stack_v(*self) =~= stack_v(*old(self)).subrange(
                0,
                scope_start_idx as int,
            ).push(res_v));
            lemma_collapse_ownership(stack_v(*old(self)), scope_start_idx as int, res_v);
        }
    }
}

/// Keeping a prefix of a disciplined stack and putting one entry on top
/// keeps the discipline, provided the entry borrows, if at all, from a
/// live or transferred owner inside the prefix.
proof fn lemma_collapse_ownership(pre: Seq<DataInfoV>, ss: int, res: DataInfoV)
    requires
        ownership_ok(pre),
        0 <= ss <= pre.len(),
        res.type_info matches DataTypeInfoV::Heap(_, Owner::Borrowed(o)) ==> o < ss && (
        pre[o as int].type_info matches DataTypeInfoV::Heap(_, o2) && (o2 == Owner::Me || o2
            == Owner::Disowned)),
    ensures
        ownership_ok(pre.subrange(0, ss).push(res)),
{
    lemma_ownership_prefix(pre, ss);
    lemma_ownership_push(pre.subrange(0, ss), res);
}

} // verus!
