//! Lowering from the AST to bytecode, through the builder.
//!
//! Each expression leaves exactly one value on the mirrored stack; the
//! one exception is a `let` whose right-hand side is a bare symbol, which
//! emits nothing and binds an alias instead. A call compiles its
//! arguments, fits each against the callee's signature (inserting casts
//! where they exist), pushes the variadic count, and emits the call
//! opcode.

use vstd::prelude::*;

use crate::ast::{
    block_contains, elems_contain, expr_contains, exprs_contain, lemma_elems_contain_elem,
    lemma_exprs_contain_elem, lemma_phrases_contain_elem, phrase_contains, phrases_contain,
    AstNode, Block, Call, Expr, FnFragment, IntLit, Let, NodeKey, Phrase, StrLit, StrLitElem,
    Symbol,
};
use crate::built_ins::{built_in_names, builtin_signature, exec_signature, strcat_signature};
use crate::bytecode_builder::{
    builder_wf, dti_as_type, repush_adjust, stack_v, ByteCodeBuilder, DataInfoV, DataTypeInfoV,
    Owner,
};
use crate::data::{CopyValue, Value};
use crate::types::DataType;
use crate::opcode::{DataRef, OpCode};
use crate::scopes::scopes_lookup;
use crate::type_inference::{EnvironmentIdentifier, TypeIndex};
use crate::types::{CallableType, HeapTypeV, Signature, SignatureV, StackType, TypeSet, TypeSetV, TypeV};

verus! {

/// The errors compilation can report.
#[derive(Debug)]
pub enum CompilationError {
    /// A name was used that no enclosing scope binds.
    UndefinedSymbol { ast_id: usize, name: String },
    /// An argument's type does not fit the callee's signature and no
    /// cast mends it.
    TypeMismatch { ast_id: usize },
    /// The compiler's own bookkeeping was violated.
    CompilerBug { ast_id: usize, msg: String },
}

impl CompilationError {
    /// The id of the node the error is about.
    pub fn get_ast_id(&self) -> (r: usize)
        ensures
            r == self.spec_ast_id(),
    {
        match self {
            CompilationError::UndefinedSymbol { ast_id, .. } => *ast_id,
            CompilationError::TypeMismatch { ast_id } => *ast_id,
            CompilationError::CompilerBug { ast_id, .. } => *ast_id,
        }
    }

    /// The id of the node the error is about.
    pub open spec fn spec_ast_id(&self) -> usize {
        match self {
            CompilationError::UndefinedSymbol { ast_id, .. } => *ast_id,
            CompilationError::TypeMismatch { ast_id } => *ast_id,
            CompilationError::CompilerBug { ast_id, .. } => *ast_id,
        }
    }
}

/// What every successful lowering step keeps: the builder discipline,
/// the scope structure, and a stack that never sinks below where it
/// started.
pub open spec fn compile_step_ok(b0: ByteCodeBuilder, b1: ByteCodeBuilder) -> bool {
    &&& builder_wf(b1)
    &&& b1.symbol_table@.len() == b0.symbol_table@.len()
    &&& b1.scope_starts@ == b0.scope_starts@
    &&& stack_v(b1).len() >= stack_v(b0).len()
    &&& b1.text@.len() >= b0.text@.len()
    &&& (forall|i: int|
        0 <= i < stack_v(b0).len() ==> #[trigger] stack_v(b1)[i] == stack_v(b0)[i])
}

/// Whether the error names a node the expression really holds: an
/// unbound symbol use or a call that could not be typed. A bookkeeping
/// violation carries no witness.
pub open spec fn compile_err_in_expr(e: Expr, er: CompilationError) -> bool {
    match er {
        CompilationError::UndefinedSymbol { ast_id, name } => expr_contains(
            e,
            NodeKey::SymbolUse(ast_id, name@),
        ),
        CompilationError::TypeMismatch { ast_id } => expr_contains(e, NodeKey::CallNode(ast_id)),
        CompilationError::CompilerBug { .. } => true,
    }
}

/// Whether the error names a node the phrase really holds.
pub open spec fn compile_err_in_phrase(p: Phrase, er: CompilationError) -> bool {
    match p {
        Phrase::Expr(e) => compile_err_in_expr(e, er),
    }
}

/// Whether the error names a node the block really holds.
pub open spec fn compile_err_in_block(b: Block, er: CompilationError) -> bool {
    match er {
        CompilationError::UndefinedSymbol { ast_id, name } => block_contains(
            b,
            NodeKey::SymbolUse(ast_id, name@),
        ),
        CompilationError::TypeMismatch { ast_id } => block_contains(b, NodeKey::CallNode(ast_id)),
        CompilationError::CompilerBug { .. } => true,
    }
}

/// An expression's error witness lifts to any phrase sequence holding
/// it.
proof fn lemma_phrases_contain_compile_err(s: Seq<Phrase>, i: int, er: CompilationError)
    requires
        0 <= i < s.len(),
        compile_err_in_phrase(s[i], er),
    ensures
        match er {
            CompilationError::UndefinedSymbol { ast_id, name } => phrases_contain(
                s,
                NodeKey::SymbolUse(ast_id, name@),
            ),
            CompilationError::TypeMismatch { ast_id } => phrases_contain(
                s,
                NodeKey::CallNode(ast_id),
            ),
            CompilationError::CompilerBug { .. } => true,
        },
{
    match er {
        CompilationError::UndefinedSymbol { ast_id, name } => {
            lemma_phrases_contain_elem(s, i, NodeKey::SymbolUse(ast_id, name@));
        }
        CompilationError::TypeMismatch { ast_id } => {
            lemma_phrases_contain_elem(s, i, NodeKey::CallNode(ast_id));
        }
        CompilationError::CompilerBug { .. } => {}
    }
}

/// An expression's error witness lifts to any expression sequence
/// holding it.
proof fn lemma_exprs_contain_compile_err(s: Seq<Expr>, i: int, er: CompilationError)
    requires
        0 <= i < s.len(),
        compile_err_in_expr(s[i], er),
    ensures
        match er {
            CompilationError::UndefinedSymbol { ast_id, name } => exprs_contain(
                s,
                NodeKey::SymbolUse(ast_id, name@),
            ),
            CompilationError::TypeMismatch { ast_id } => exprs_contain(
                s,
                NodeKey::CallNode(ast_id),
            ),
            CompilationError::CompilerBug { .. } => true,
        },
{
    match er {
        CompilationError::UndefinedSymbol { ast_id, name } => {
            lemma_exprs_contain_elem(s, i, NodeKey::SymbolUse(ast_id, name@));
        }
        CompilationError::TypeMismatch { ast_id } => {
            lemma_exprs_contain_elem(s, i, NodeKey::CallNode(ast_id));
        }
        CompilationError::CompilerBug { .. } => {}
    }
}

/// A part's inner-expression error witness lifts to any part sequence
/// holding it.
proof fn lemma_elems_contain_compile_err(s: Seq<StrLitElem>, i: int, er: CompilationError)
    requires
        0 <= i < s.len(),
        s[i] matches StrLitElem::Expr(pid, sub) && compile_err_in_expr(*sub, er),
    ensures
        match er {
            CompilationError::UndefinedSymbol { ast_id, name } => elems_contain(
                s,
                NodeKey::SymbolUse(ast_id, name@),
            ),
            CompilationError::TypeMismatch { ast_id } => elems_contain(
                s,
                NodeKey::CallNode(ast_id),
            ),
            CompilationError::CompilerBug { .. } => true,
        },
{
    match er {
        CompilationError::UndefinedSymbol { ast_id, name } => {
            lemma_elems_contain_elem(s, i, NodeKey::SymbolUse(ast_id, name@));
        }
        CompilationError::TypeMismatch { ast_id } => {
            lemma_elems_contain_elem(s, i, NodeKey::CallNode(ast_id));
        }
        CompilationError::CompilerBug { .. } => {}
    }
}

/// What lowering each expression form leaves behind: the emitted code
/// and the mirrored value, per spec of the lowering.
pub open spec fn expr_compile_effect(e: Expr, b0: ByteCodeBuilder, b1: ByteCodeBuilder) -> bool {
    match e {
        Expr::IntLit(n) => ({
            &&& b1.text@ == b0.text@.push(OpCode::PushPrimitive(CopyValue::Int(n.1)))
            &&& stack_v(b1) == stack_v(b0).push(
                DataInfoV { ast_id: n.0, type_info: DataTypeInfoV::Stack(StackType::Int) },
            )
        }),
        Expr::Symbol(s) => ({
            &&& scopes_lookup(b0.symbol_table@, s.1@) matches Some(idx) && ({
                &&& idx < stack_v(b0).len()
                &&& b1.text@ == b0.text@.push(OpCode::RepushStackEntry(idx))
                &&& stack_v(b1) == stack_v(b0).push(
                    repush_adjust(stack_v(b0)[idx as int], idx),
                )
            })
        }),
        Expr::Let(l) => if (*l.value_expr) matches Expr::Symbol(s) {
            &&& b1.text@ == b0.text@
            &&& b1.data@ == b0.data@
            &&& stack_v(b1) == stack_v(b0)
            &&& scopes_lookup(b1.symbol_table@, l.symbol_name@) is Some
        } else {
            &&& stack_v(b1).len() == stack_v(b0).len() + 1
            &&& scopes_lookup(b1.symbol_table@, l.symbol_name@) == Some(
                ((stack_v(b1).len() - 1) as usize),
            )
        },
        Expr::StrLit(sl) => ({
            &&& b1.text@.len() >= b0.text@.len() + 2
            &&& b1.text@[b1.text@.len() - 1] == OpCode::StrCat
            &&& stack_v(b1).len() == stack_v(b0).len() + 1
            &&& stack_v(b1)[stack_v(b1).len() - 1] == (DataInfoV {
                ast_id: sl.0,
                type_info: DataTypeInfoV::Heap(HeapTypeV::Str, Owner::Me),
            })
        }),
        Expr::Call(c) => ({
            &&& stack_v(b1).len() == stack_v(b0).len() + 1
            &&& b1.text@.len() > b0.text@.len()
            &&& ((*c.callee) matches Expr::Symbol(s) ==> ({
                &&& (s.1@ == "exec"@ ==> (b1.text@[b1.text@.len() - 1] matches OpCode::Exec(_))
                    && stack_v(b1)[stack_v(b1).len() - 1] == (DataInfoV {
                    ast_id: c.id,
                    type_info: DataTypeInfoV::Stack(StackType::Unit),
                }))
                &&& (s.1@ == "strcat"@ ==> b1.text@[b1.text@.len() - 1] == OpCode::StrCat
                    && stack_v(b1)[stack_v(b1).len() - 1] == (DataInfoV {
                    ast_id: c.id,
                    type_info: DataTypeInfoV::Heap(HeapTypeV::Str, Owner::Me),
                }))
            }))
        }),
        Expr::FnFragment(_) => false,
        Expr::Block(bl) => stack_v(b1).len() == stack_v(b0).len() + 1,
    }
}

/// Whether the type at argument position `i` fits the signature's type
/// set for that position.
pub open spec fn arg_fits(sig: SignatureV, i: int, t: TypeV) -> bool {
    match sig.nth_arg(i) {
        Some(ts) => ts.accepts(t),
        None => false,
    }
}

/// After fitting, every argument position fits its type set; together
/// they satisfy the whole signature.
pub proof fn lemma_fitted_args_satisfy(sig: SignatureV, args: Seq<TypeV>)
    requires
        forall|i: int| 0 <= i < args.len() ==> #[trigger] arg_fits(sig, i, args[i]),
    ensures
        sig.satisfied_by(args),
{
    assert forall|i: int|
        0 <= i < args.len() && i < sig.args.len() implies #[trigger] sig.args[i].accepts(
        args[i],
    ) by {
        assert(arg_fits(sig, i, args[i]));
    }
    match sig.var_arg {
        Some(vs) => {
            assert forall|i: int|
                sig.args.len() <= i < args.len() implies #[trigger] vs.accepts(args[i]) by {
                assert(arg_fits(sig, i, args[i]));
            }
        }
        None => {
            if args.len() > sig.args.len() {
                assert(arg_fits(sig, sig.args.len() as int, args[sig.args.len() as int]));
                assert(false);
            }
        }
    }
}

/// A name bound in the table to a slot below the given stack depth.
pub open spec fn bound_below(tbl: Seq<Map<Seq<char>, usize>>, name: Seq<char>, depth: int) -> bool {
    scopes_lookup(tbl, name) matches Some(idx) && idx < depth
}

/// An argument position whose fitting step cannot reject: a set that
/// accepts everything, or one whose single concrete type has a cast
/// (to a string or to a boolean).
pub open spec fn position_always_fits(ts: TypeSetV) -> bool {
    ||| ts is AllTypes
    ||| ts.concrete_type() == Some(TypeV::str())
    ||| ts.concrete_type() == Some(TypeV::Stack(StackType::Bool))
}

/// Whether the signature has a type set at position `i` whose fitting
/// step cannot reject.
pub open spec fn position_fits_at(sig: SignatureV, i: int) -> bool {
    sig.nth_arg(i) matches Some(ts) && position_always_fits(ts)
}

/// Whether the type index leaves the call's callee name meaning the
/// built-in: either it records nothing for the callee node, or it
/// records a built-in callable there. A recorded non-built-in type
/// means a binding shadows the name.
pub open spec fn callee_not_shadowed(c: Call, ti: Map<EnvironmentIdentifier, TypeV>) -> bool {
    ti.contains_key((*c.callee).spec_id()) ==> ti[(*c.callee).spec_id()] matches TypeV::Callable(
        CallableType::Builtin,
        sg,
    )
}

/// An expression whose lowering is guaranteed to succeed against the
/// given symbol table, type index and stack depth: an integer literal,
/// a symbol bound to a live slot, a string literal of such parts, or a
/// call of an unshadowed built-in with such arguments. The stack only
/// grows while sibling values are pushed and plain forms leave the
/// table unchanged, so plainness against the starting table and depth
/// carries through a whole run of siblings.
pub open spec fn plain_expr(
    e: Expr,
    tbl: Seq<Map<Seq<char>, usize>>,
    ti: Map<EnvironmentIdentifier, TypeV>,
    depth: int,
) -> bool
    decreases e,
{
    match e {
        Expr::IntLit(_) => true,
        Expr::Symbol(s) => bound_below(tbl, s.1@, depth),
        Expr::StrLit(sl) => plain_elems(sl.1@, tbl, ti, depth),
        Expr::Call(c) => ({
            &&& (*c.callee) matches Expr::Symbol(s) && (s.1@ == "exec"@ || s.1@ == "strcat"@)
                && (s.1@ == "exec"@ ==> c.args@.len() >= 1)
            &&& c.args@.len() <= i64::MAX as int
            &&& callee_not_shadowed(c, ti)
            &&& plain_exprs(c.args@, tbl, ti, depth)
        }),
        _ => false,
    }
}

/// Whether one string-literal part is plain.
pub open spec fn plain_elem(
    el: StrLitElem,
    tbl: Seq<Map<Seq<char>, usize>>,
    ti: Map<EnvironmentIdentifier, TypeV>,
    depth: int,
) -> bool
    decreases el,
{
    match el {
        StrLitElem::PureStrLit(_, _) => true,
        StrLitElem::Symbol(_, n) => bound_below(tbl, n@, depth),
        StrLitElem::Expr(_, sub) => plain_expr(*sub, tbl, ti, depth),
    }
}

/// Whether every part of the sequence is plain.
pub open spec fn plain_elems(
    s: Seq<StrLitElem>,
    tbl: Seq<Map<Seq<char>, usize>>,
    ti: Map<EnvironmentIdentifier, TypeV>,
    depth: int,
) -> bool
    decreases s,
{
    if s.len() == 0 {
        true
    } else {
        plain_elems(s.subrange(0, s.len() - 1), tbl, ti, depth) && plain_elem(s[s.len() - 1], tbl, ti, depth)
    }
}

/// Whether every expression of the sequence is plain.
pub open spec fn plain_exprs(
    s: Seq<Expr>,
    tbl: Seq<Map<Seq<char>, usize>>,
    ti: Map<EnvironmentIdentifier, TypeV>,
    depth: int,
) -> bool
    decreases s,
{
    if s.len() == 0 {
        true
    } else {
        plain_exprs(s.subrange(0, s.len() - 1), tbl, ti, depth) && plain_expr(s[s.len() - 1], tbl, ti, depth)
    }
}

/// Whether the phrase's expression is plain.
pub open spec fn plain_phrase(
    p: Phrase,
    tbl: Seq<Map<Seq<char>, usize>>,
    ti: Map<EnvironmentIdentifier, TypeV>,
    depth: int,
) -> bool {
    match p {
        Phrase::Expr(e) => plain_expr(e, tbl, ti, depth),
    }
}

/// Whether every phrase of the sequence is plain.
pub open spec fn plain_phrases(
    s: Seq<Phrase>,
    tbl: Seq<Map<Seq<char>, usize>>,
    ti: Map<EnvironmentIdentifier, TypeV>,
    depth: int,
) -> bool
    decreases s,
{
    if s.len() == 0 {
        true
    } else {
        plain_phrases(s.subrange(0, s.len() - 1), tbl, ti, depth) && plain_phrase(
            s[s.len() - 1],
            tbl,
            ti,
            depth,
        )
    }
}

/// Plainness is kept when the stack deepens: a slot live below `d1` is
/// live below any `d2 >= d1`.
pub proof fn lemma_plain_expr_mono(
    e: Expr,
    tbl: Seq<Map<Seq<char>, usize>>,
    ti: Map<EnvironmentIdentifier, TypeV>,
    d1: int,
    d2: int,
)
    requires
        d1 <= d2,
        plain_expr(e, tbl, ti, d1),
    ensures
        plain_expr(e, tbl, ti, d2),
    decreases e,
{
    match e {
        Expr::StrLit(sl) => {
            lemma_plain_elems_mono(sl.1@, tbl, ti, d1, d2);
        }
        Expr::Call(c) => {
            lemma_plain_exprs_mono(c.args@, tbl, ti, d1, d2);
        }
        _ => {}
    }
}

/// Plainness of a part sequence is kept when the stack deepens.
pub proof fn lemma_plain_elems_mono(
    s: Seq<StrLitElem>,
    tbl: Seq<Map<Seq<char>, usize>>,
    ti: Map<EnvironmentIdentifier, TypeV>,
    d1: int,
    d2: int,
)
    requires
        d1 <= d2,
        plain_elems(s, tbl, ti, d1),
    ensures
        plain_elems(s, tbl, ti, d2),
    decreases s,
{
    if s.len() > 0 {
        lemma_plain_elems_mono(s.subrange(0, s.len() - 1), tbl, ti, d1, d2);
        let last = s[s.len() - 1];
        assert(plain_elem(last, tbl, ti, d1));
        match last {
            StrLitElem::Expr(pid, inner) => {
                lemma_plain_expr_mono(*inner, tbl, ti, d1, d2);
            }
            _ => {}
        }
        assert(plain_elem(last, tbl, ti, d2));
    }
}

/// Plainness of an expression sequence is kept when the stack deepens.
pub proof fn lemma_plain_exprs_mono(
    s: Seq<Expr>,
    tbl: Seq<Map<Seq<char>, usize>>,
    ti: Map<EnvironmentIdentifier, TypeV>,
    d1: int,
    d2: int,
)
    requires
        d1 <= d2,
        plain_exprs(s, tbl, ti, d1),
    ensures
        plain_exprs(s, tbl, ti, d2),
    decreases s,
{
    if s.len() > 0 {
        lemma_plain_exprs_mono(s.subrange(0, s.len() - 1), tbl, ti, d1, d2);
        lemma_plain_expr_mono(s[s.len() - 1], tbl, ti, d1, d2);
    }
}

/// A plain part sequence has each part plain.
pub proof fn lemma_plain_elems_elem(
    s: Seq<StrLitElem>,
    tbl: Seq<Map<Seq<char>, usize>>,
    ti: Map<EnvironmentIdentifier, TypeV>,
    depth: int,
    i: int,
)
    requires
        plain_elems(s, tbl, ti, depth),
        0 <= i < s.len(),
    ensures
        plain_elem(s[i], tbl, ti, depth),
    decreases s,
{
    if i < s.len() - 1 {
        lemma_plain_elems_elem(s.subrange(0, s.len() - 1), tbl, ti, depth, i);
    }
}

/// A plain expression sequence has each expression plain.
pub proof fn lemma_plain_exprs_elem(
    s: Seq<Expr>,
    tbl: Seq<Map<Seq<char>, usize>>,
    ti: Map<EnvironmentIdentifier, TypeV>,
    depth: int,
    i: int,
)
    requires
        plain_exprs(s, tbl, ti, depth),
        0 <= i < s.len(),
    ensures
        plain_expr(s[i], tbl, ti, depth),
    decreases s,
{
    if i < s.len() - 1 {
        lemma_plain_exprs_elem(s.subrange(0, s.len() - 1), tbl, ti, depth, i);
    }
}

/// A plain phrase sequence has each phrase plain.
pub proof fn lemma_plain_phrases_elem(
    s: Seq<Phrase>,
    tbl: Seq<Map<Seq<char>, usize>>,
    ti: Map<EnvironmentIdentifier, TypeV>,
    depth: int,
    i: int,
)
    requires
        plain_phrases(s, tbl, ti, depth),
        0 <= i < s.len(),
    ensures
        plain_phrase(s[i], tbl, ti, depth),
    decreases s,
{
    if i < s.len() - 1 {
        lemma_plain_phrases_elem(s.subrange(0, s.len() - 1), tbl, ti, depth, i);
    }
}

impl Expr {
    /// Lower this expression; it leaves one value on the mirrored
    /// stack, except for the alias form of `let`, which leaves none.
    pub fn compile(&self, builder: ByteCodeBuilder, expr_types: &TypeIndex) -> (r: Result<
        ByteCodeBuilder,
        CompilationError,
    >)
        requires
            builder_wf(builder),
            builder.symbol_table@.len() >= 1,
        ensures
            r matches Ok(b2) ==> compile_step_ok(builder, b2) && stack_v(b2).len() <= stack_v(
                builder,
            ).len() + 1,
            r matches Ok(b2) ==> expr_compile_effect(*self, builder, b2),
            r matches Err(er) ==> compile_err_in_expr(*self, er),
            (*self) matches Expr::IntLit(n) ==> r is Ok,
            (*self) matches Expr::Symbol(s2) ==> ((scopes_lookup(
                builder.symbol_table@,
                s2.1@,
            ) matches Some(idx) && idx < stack_v(builder).len()) ==> r is Ok),
            plain_expr(*self, builder.symbol_table@, expr_types@, stack_v(builder).len() as int)
                ==> (r matches Ok(b2) && b2.symbol_table@ == builder.symbol_table@ && stack_v(
                b2,
            ).len() == stack_v(builder).len() + 1),
        decreases *self,
    {
        match self {
            Expr::IntLit(n) => n.compile(builder, expr_types),
            Expr::Symbol(n) => n.compile(builder, expr_types),
            Expr::StrLit(n) => {
                proof {
                    assert(decreases_to!(*self => self->StrLit_0));
                }
                n.compile(builder, expr_types)
            }
            Expr::Let(n) => {
                proof {
                    assert(decreases_to!(*self => self->Let_0));
                }
                n.compile(builder, expr_types)
            }
            Expr::Call(n) => {
                proof {
                    assert(decreases_to!(*self => self->Call_0));
                }
                n.compile(builder, expr_types)
            }
            Expr::FnFragment(n) => n.compile(builder, expr_types),
            Expr::Block(n) => {
                let mut b = builder;
                b.open_scope(n.0);
                proof {
                    assert(decreases_to!(*self => self->Block_0));
                }
                let mut b = match n.compile(b, expr_types) {
                    Ok(b) => b,
                    Err(e) => {
                        return Err(e);
                    }
                };
                let ghost b_mid = b;
                match b.collapse_scope() {
                    Ok(u) => {}
                    Err(u) => {
                        return Err(
                            CompilationError::CompilerBug {
                                ast_id: n.0,
                                msg: "scope collapse failed".to_owned(),
                            },
                        );
                    }
                }
                proof {
                    assert(b.scope_starts@ =~= builder.scope_starts@);
                    crate::bytecode_builder::lemma_info_views_len(builder.stack_info@);
                    assert(builder.stack_info.len() == builder.stack_info@.len());
                    assert(b_mid.scope_starts@[b_mid.scope_starts@.len() - 1].0
                        == builder.stack_info@.len());
                    assert(stack_v(b).len() == stack_v(builder).len() + 1);
                    assert forall|k: int|
                        0 <= k < stack_v(builder).len() implies #[trigger] stack_v(b)[k]
                        == stack_v(builder)[k] by {
                        assert(builder.stack_info.len() == builder.stack_info@.len());
                        let wm = b_mid.scope_starts@[b_mid.scope_starts@.len() - 1].0;
                        assert(wm == builder.stack_info@.len());
                        assert(stack_v(b)[k] == stack_v(b_mid)[k]);
                        assert(stack_v(b_mid)[k] == stack_v(builder)[k]);
                    }
                }
                Ok(b)
            }
        }
    }
}

impl Phrase {
    /// Lower the phrase's expression.
    pub fn compile(&self, builder: ByteCodeBuilder, expr_types: &TypeIndex) -> (r: Result<
        ByteCodeBuilder,
        CompilationError,
    >)
        requires
            builder_wf(builder),
            builder.symbol_table@.len() >= 1,
        ensures
            r matches Ok(b2) ==> compile_step_ok(builder, b2) && stack_v(b2).len() <= stack_v(
                builder,
            ).len() + 1,
            r matches Err(er) ==> compile_err_in_phrase(*self, er),
            plain_phrase(*self, builder.symbol_table@, expr_types@, stack_v(builder).len() as int)
                ==> (r matches Ok(b2) && b2.symbol_table@ == builder.symbol_table@ && stack_v(
                b2,
            ).len() == stack_v(builder).len() + 1),
        decreases *self,
    {
        match self {
            Phrase::Expr(e) => {
                proof {
                    assert(decreases_to!(*self => self->Expr_0));
                }
                e.compile(builder, expr_types)
            }
        }
    }
}

impl Block {
    /// Lower each phrase in order. The block's own scope, if any, is the
    /// caller's affair: a block used as an expression is wrapped in
    /// `open_scope` and `collapse_scope`; the program's root block is
    /// not.
    #[verifier::loop_isolation(false)]
    pub fn compile(&self, builder: ByteCodeBuilder, expr_types: &TypeIndex) -> (r: Result<
        ByteCodeBuilder,
        CompilationError,
    >)
        requires
            builder_wf(builder),
            builder.symbol_table@.len() >= 1,
        ensures
            r matches Ok(b2) ==> compile_step_ok(builder, b2),
            r matches Err(er) ==> compile_err_in_block(*self, er),
            self.1@.len() == 0 ==> (r matches Ok(b2) && b2 == builder),
            plain_phrases(
                self.1@,
                builder.symbol_table@,
                expr_types@,
                stack_v(builder).len() as int,
            ) ==> (r matches Ok(b2) && b2.symbol_table@ == builder.symbol_table@),
        decreases *self,
    {
        let ghost tbl0 = builder.symbol_table@;
        let ghost base = stack_v(builder).len() as int;
        let ghost plb = plain_phrases(self.1@, tbl0, expr_types@, base);
        let mut b = builder;
        let mut i: usize = 0;
        while i < self.1.len()
            invariant
                i <= self.1@.len(),
                builder_wf(b),
                b.symbol_table@.len() == builder.symbol_table@.len(),
                b.scope_starts@ == builder.scope_starts@,
                stack_v(b).len() >= stack_v(builder).len(),
                b.text@.len() >= builder.text@.len(),
                i == 0 ==> b == builder,
                plb ==> (b.symbol_table@ == tbl0 && stack_v(b).len() == base + i),
                forall|k: int|
                    0 <= k < stack_v(builder).len() ==> #[trigger] stack_v(b)[k] == stack_v(
                        builder,
                    )[k],
            decreases self.1@.len() - i,
        {
            proof {
                assert(decreases_to!(*self => self.1));
                assert(decreases_to!(self.1 => self.1@));
                assert(decreases_to!(self.1@ => self.1@[i as int]));
                if plb {
                    lemma_plain_phrases_elem(self.1@, tbl0, expr_types@, base, i as int);
                    match self.1@[i as int] {
                        Phrase::Expr(e) => {
                            lemma_plain_expr_mono(e, tbl0, expr_types@, base, base + i);
                        }
                    }
                    assert(plain_phrase(self.1@[i as int], tbl0, expr_types@, base + i));
                }
            }
            b = match self.1[i].compile(b, expr_types) {
                Ok(b) => b,
                Err(e) => {
                    proof {
                        if plb {
                            assert(false);
                        }
                        lemma_phrases_contain_compile_err(self.1@, i as int, e);
                        assert(compile_err_in_block(*self, e));
                    }
                    return Err(e);
                }
            };
            i = i + 1;
        }
        Ok(b)
    }
}

impl IntLit {
    /// Lower an integer literal: push it as a primitive.
    pub fn compile(&self, builder: ByteCodeBuilder, expr_types: &TypeIndex) -> (r: Result<
        ByteCodeBuilder,
        CompilationError,
    >)
        requires
            builder_wf(builder),
            builder.symbol_table@.len() >= 1,
        ensures
            r matches Ok(b2) ==> ({
                &&& compile_step_ok(builder, b2)
                &&& b2.text@ == builder.text@.push(OpCode::PushPrimitive(CopyValue::Int(self.1)))
                &&& stack_v(b2) == stack_v(builder).push(
                    DataInfoV {
                        ast_id: self.0,
                        type_info: DataTypeInfoV::Stack(StackType::Int),
                    },
                )
                &&& b2.symbol_table@ == builder.symbol_table@
            }),
            r is Ok,
    {
        let mut b = builder;
        b.push_primitive_to_stack(CopyValue::Int(self.1), self.0);
        proof {
            crate::bytecode_builder::lemma_info_views_len(builder.stack_info@);
        }
        Ok(b)
    }
}

impl Symbol {
    /// Lower a symbol: copy the entry it is bound to onto the stack top.
    /// An unbound name is reported with this node's id.
    pub fn compile(&self, builder: ByteCodeBuilder, expr_types: &TypeIndex) -> (r: Result<
        ByteCodeBuilder,
        CompilationError,
    >)
        requires
            builder_wf(builder),
            builder.symbol_table@.len() >= 1,
        ensures
            r matches Ok(b2) ==> ({
                &&& compile_step_ok(builder, b2)
                &&& stack_v(b2).len() == stack_v(builder).len() + 1
                &&& b2.symbol_table@ == builder.symbol_table@
                &&& scopes_lookup(builder.symbol_table@, self.1@) matches Some(idx) && ({
                    &&& idx < stack_v(builder).len()
                    &&& b2.text@ == builder.text@.push(OpCode::RepushStackEntry(idx))
                    &&& stack_v(b2) == stack_v(builder).push(
                        repush_adjust(stack_v(builder)[idx as int], idx),
                    )
                })
            }),
            r matches Err(e) ==> ({
                &&& e matches CompilationError::UndefinedSymbol { ast_id, name } && ast_id
                    == self.0 && name@ == self.1@
                &&& (scopes_lookup(builder.symbol_table@, self.1@) is None || scopes_lookup(
                    builder.symbol_table@,
                    self.1@,
                )->0 >= stack_v(builder).len())
            }),
    {
        let mut b = builder;
        proof {
            crate::bytecode_builder::lemma_info_views_len(b.stack_info@);
        }
        match b.copy_symbol_target_to_stack_top(&self.1) {
            Ok(u) => {
                proof {
                    crate::bytecode_builder::lemma_info_views_len(b.stack_info@);
                }
                Ok(b)
            }
            Err(u) => Err(
                CompilationError::UndefinedSymbol { ast_id: self.0, name: self.1.clone() },
            ),
        }
    }
}

impl Let {
    /// Lower a binding. A right-hand side that is a bare symbol emits no
    /// code and leaves the mirrored stack unchanged: the name becomes an
    /// alias of the symbol's slot. Any other right-hand side is lowered
    /// and the name bound to its value's slot.
    pub fn compile(&self, builder: ByteCodeBuilder, expr_types: &TypeIndex) -> (r: Result<
        ByteCodeBuilder,
        CompilationError,
    >)
        requires
            builder_wf(builder),
            builder.symbol_table@.len() >= 1,
        ensures
            r matches Ok(b2) ==> compile_step_ok(builder, b2) && stack_v(b2).len() <= stack_v(
                builder,
            ).len() + 1,
            r matches Err(er) ==> compile_err_in_expr(Expr::Let(*self), er),
            r matches Ok(b2) ==> (!((*self.value_expr) matches Expr::Symbol(s)) ==> ({
                &&& stack_v(b2).len() == stack_v(builder).len() + 1
                &&& scopes_lookup(b2.symbol_table@, self.symbol_name@) == Some(
                    ((stack_v(b2).len() - 1) as usize),
                )
            })),
            r matches Ok(b2) ==> ((*self.value_expr) matches Expr::Symbol(s) ==> scopes_lookup(
                b2.symbol_table@,
                self.symbol_name@,
            ) is Some),
            r matches Ok(b2) ==> ((*self.value_expr) matches Expr::Symbol(s) ==> ({
                &&& b2.text@ == builder.text@
                &&& b2.data@ == builder.data@
                &&& stack_v(b2) == stack_v(builder)
                &&& scopes_lookup(builder.symbol_table@, s.1@) matches Some(idx)
                    && b2.symbol_table@ =~= builder.symbol_table@.update(
                    builder.symbol_table@.len() - 1,
                    builder.symbol_table@[builder.symbol_table@.len() - 1].insert(
                        self.symbol_name@,
                        idx,
                    ),
                )
            })),
            ((*self.value_expr) matches Expr::Symbol(s) && scopes_lookup(
                builder.symbol_table@,
                s.1@,
            ) is Some) ==> r is Ok,
            (!((*self.value_expr) is Symbol) && plain_expr(
                *self.value_expr,
                builder.symbol_table@,
                expr_types@,
                stack_v(builder).len() as int,
            )) ==> r is Ok,
        decreases *self,
    {
        let ghost pll = !((*self.value_expr) is Symbol) && plain_expr(
            *self.value_expr,
            builder.symbol_table@,
            expr_types@,
            stack_v(builder).len() as int,
        );
        let mut b = builder;
        match &*self.value_expr {
            Expr::Symbol(s) => {
                match b.add_symbol_alias(&s.1, &self.symbol_name) {
                    Ok(u) => {
                        proof {
                            assert(scopes_lookup(b.symbol_table@, self.symbol_name@) is Some);
                        }
                        Ok(b)
                    }
                    Err(u) => {
                        proof {
                            assert((*self.value_expr) == Expr::Symbol(*s));
                            assert(expr_contains(
                                *self.value_expr,
                                NodeKey::SymbolUse(s.0, s.1@),
                            ));
                        }
                        Err(
                            CompilationError::UndefinedSymbol {
                                ast_id: s.0,
                                name: s.1.clone(),
                            },
                        )
                    }
                }
            }
            _ => {
                proof {
                    assert(decreases_to!(*self => self.value_expr));
                }
                let base = b.stack_info.len();
                proof {
                    crate::bytecode_builder::lemma_info_views_len(b.stack_info@);
                }
                let mut b = match self.value_expr.compile(b, expr_types) {
                    Ok(b) => b,
                    Err(e) => {
                        proof {
                            if pll {
                                assert(false);
                            }
                            assert(compile_err_in_expr(Expr::Let(*self), e));
                        }
                        return Err(e);
                    }
                };
                proof {
                    crate::bytecode_builder::lemma_info_views_len(b.stack_info@);
                }
                if b.stack_info.len() == base {
                    proof {
                        if pll {
                            assert(false);
                        }
                    }
                    return Err(
                        CompilationError::CompilerBug {
                            ast_id: self.id,
                            msg: "a binding's right-hand side left no value".to_owned(),
                        },
                    );
                }
                match b.add_symbol_for_stack_top(&self.symbol_name) {
                    Ok(u) => {
                        proof {
                            crate::bytecode_builder::lemma_info_views_len(b.stack_info@);
                            assert(scopes_lookup(b.symbol_table@, self.symbol_name@) == Some(
                                ((stack_v(b).len() - 1) as usize),
                            ));
                        }
                        Ok(b)
                    }
                    Err(u) => {
                        proof {
                            assert(false);
                        }
                        Err(
                            CompilationError::CompilerBug {
                                ast_id: self.id,
                                msg: "empty stack under a fresh binding".to_owned(),
                            },
                        )
                    }
                }
            }
        }
    }
}

impl StrLit {
    /// Lower a string literal: push each part, then the part count, then
    /// the concatenation opcode. The parts and the count are consumed;
    /// one owned string takes their place.
    #[verifier::loop_isolation(false)]
    pub fn compile(&self, builder: ByteCodeBuilder, expr_types: &TypeIndex) -> (r: Result<
        ByteCodeBuilder,
        CompilationError,
    >)
        requires
            builder_wf(builder),
            builder.symbol_table@.len() >= 1,
        ensures
            r matches Ok(b2) ==> ({
                &&& compile_step_ok(builder, b2)
                &&& stack_v(b2).len() == stack_v(builder).len() + 1
                &&& b2.text@.len() >= builder.text@.len() + 2
                &&& b2.text@[b2.text@.len() - 1] == OpCode::StrCat
                &&& stack_v(b2)[stack_v(b2).len() - 1] == (DataInfoV {
                    ast_id: self.0,
                    type_info: DataTypeInfoV::Heap(HeapTypeV::Str, Owner::Me),
                })
            }),
            r matches Err(er) ==> compile_err_in_expr(Expr::StrLit(*self), er),
            (forall|i: int|
                0 <= i < self.1@.len() ==> (#[trigger] self.1@[i]) matches
                    StrLitElem::PureStrLit(pid, t)) ==> r is Ok,
            plain_elems(self.1@, builder.symbol_table@, expr_types@, stack_v(builder).len() as int)
                ==> (r matches Ok(b2) && b2.symbol_table@ == builder.symbol_table@),
        decreases *self,
    {
        let mut b = builder;
        let base = b.stack_info.len();
        proof {
            crate::bytecode_builder::lemma_info_views_len(b.stack_info@);
        }
        let ghost tbl0 = builder.symbol_table@;
        let ghost pl = plain_elems(self.1@, tbl0, expr_types@, base as int);
        let n = self.1.len();
        let mut i: usize = 0;
        while i < n
            invariant
                i <= n,
                n == self.1@.len(),
                builder_wf(b),
                b.symbol_table@.len() == builder.symbol_table@.len(),
                b.scope_starts@ == builder.scope_starts@,
                b.stack_info@.len() == base + i,
                base == stack_v(builder).len(),
                b.text@.len() >= builder.text@.len(),
                pl ==> b.symbol_table@ == tbl0,
                forall|k: int|
                    0 <= k < base ==> #[trigger] stack_v(b)[k] == stack_v(builder)[k],
            decreases n - i,
        {
            proof {
                assert(decreases_to!(*self => self.1));
                assert(decreases_to!(self.1 => self.1@));
                assert(decreases_to!(self.1@ => self.1@[i as int]));
                crate::bytecode_builder::lemma_info_views_len(b.stack_info@);
                if pl {
                    lemma_plain_elems_elem(self.1@, tbl0, expr_types@, base as int, i as int);
                }
            }
            match &self.1[i] {
                StrLitElem::PureStrLit(part_id, text) => {
                    b.add_to_datasection_and_push_ref(Value::Str(text.clone()), *part_id);
                }
                StrLitElem::Symbol(part_id, name) => {
                    proof {
                        assert(self.1@[i as int] == StrLitElem::Symbol(*part_id, *name));
                    }
                    match b.copy_symbol_target_to_stack_top(name) {
                        Ok(u) => {}
                        Err(u) => {
                            proof {
                                if pl {
                                    assert(bound_below(tbl0, name@, base as int));
                                    assert(false);
                                }
                                lemma_elems_contain_elem(
                                    self.1@,
                                    i as int,
                                    NodeKey::SymbolUse(*part_id, name@),
                                );
                            }
                            return Err(
                                CompilationError::UndefinedSymbol {
                                    ast_id: *part_id,
                                    name: name.clone(),
                                },
                            );
                        }
                    }
                }
                StrLitElem::Expr(part_id, sub) => {
                    proof {
                        assert(decreases_to!(self.1@[i as int] => self.1@[i as int]->Expr_1));
                        assert(self.1@[i as int] == StrLitElem::Expr(*part_id, *sub));
                        crate::bytecode_builder::lemma_info_views_len(b.stack_info@);
                        if pl {
                            assert(plain_expr(**sub, tbl0, expr_types@, base as int));
                            lemma_plain_expr_mono(
                                **sub,
                                tbl0,
                                expr_types@,
                                base as int,
                                (base + i) as int,
                            );
                            assert(stack_v(b).len() == base + i);
                        }
                    }
                    let sub_base = b.stack_info.len();
                    b = match sub.compile(b, expr_types) {
                        Ok(b) => b,
                        Err(e) => {
                            proof {
                                if pl {
                                    assert(false);
                                }
                                lemma_elems_contain_compile_err(self.1@, i as int, e);
                            }
                            return Err(e);
                        }
                    };
                    proof {
                        crate::bytecode_builder::lemma_info_views_len(b.stack_info@);
                    }
                    if b.stack_info.len() == sub_base {
                        proof {
                            if pl {
                                assert(false);
                            }
                        }
                        return Err(
                            CompilationError::CompilerBug {
                                ast_id: *part_id,
                                msg: "an interpolated expression left no value".to_owned(),
                            },
                        );
                    }
                }
            }
            proof {
                crate::bytecode_builder::lemma_info_views_len(b.stack_info@);
            }
            i = i + 1;
        }
        let ghost b_before_push = b;
        b.push_primitive_to_stack(CopyValue::Int(n as i64), self.0);
        b.push_opcode(OpCode::StrCat, self.0);
        let cur_len: usize = b.stack_info.len();
        proof {
            crate::bytecode_builder::lemma_info_views_len(b_before_push.stack_info@);
            crate::bytecode_builder::lemma_info_views_len(b.stack_info@);
            assert(cur_len == base + n + 1);
        }
        match b.note_call_effect(n + 1, &crate::types::DataType::str(), self.0) {
            Ok(u) => {}
            Err(u) => {
                proof {
                    crate::bytecode_builder::lemma_info_views_len(b.stack_info@);
                    assert(false);
                }
                return Err(
                    CompilationError::CompilerBug {
                        ast_id: self.0,
                        msg: "the concatenation lost its parts".to_owned(),
                    },
                );
            }
        }
        proof {
            crate::bytecode_builder::lemma_info_views_len(b.stack_info@);
            crate::bytecode_builder::lemma_info_views_len(builder.stack_info@);
            assert(b.text@[b.text@.len() - 1] == OpCode::StrCat);
            assert(stack_v(b)[stack_v(b).len() - 1] == (DataInfoV {
                ast_id: self.0,
                type_info: DataTypeInfoV::Heap(HeapTypeV::Str, Owner::Me),
            }));
        }
        Ok(b)
    }
}

impl FnFragment {
    /// Fragments have no lowering yet: no call opcode exists for them.
    pub fn compile(&self, builder: ByteCodeBuilder, expr_types: &TypeIndex) -> (r: Result<
        ByteCodeBuilder,
        CompilationError,
    >)
        requires
            builder_wf(builder),
            builder.symbol_table@.len() >= 1,
        ensures
            r is Err,
            r matches Err(er) ==> er is CompilerBug,
    {
        Err(
            CompilationError::CompilerBug {
                ast_id: self.id,
                msg: "fragments cannot be lowered yet".to_owned(),
            },
        )
    }
}

/// Lower a call's arguments: each is compiled and then fitted against
/// the callee's type set for its position, with a cast where one exists.
/// On success, each argument slot's type fits the signature; this is
/// where the pipeline establishes that calls respect their callee's
/// signature.
#[verifier::loop_isolation(false)]
pub fn compile_call_args(
    builder: ByteCodeBuilder,
    args: &Vec<Expr>,
    sig: &Signature,
    expr_types: &TypeIndex,
    call_ast_id: usize,
) -> (r: Result<ByteCodeBuilder, CompilationError>)
    requires
        builder_wf(builder),
        builder.symbol_table@.len() >= 1,
    ensures
        r matches Ok(b2) ==> ({
            &&& compile_step_ok(builder, b2)
            &&& stack_v(b2).len() == stack_v(builder).len() + args@.len()
            &&& (forall|i: int|
                0 <= i < args@.len() ==> #[trigger] arg_fits(
                    sig@,
                    i,
                    dti_as_type(stack_v(b2)[stack_v(builder).len() + i].type_info),
                ))
        }),
        r matches Err(er) ==> match er {
            CompilationError::UndefinedSymbol { ast_id, name } => exprs_contain(
                args@,
                NodeKey::SymbolUse(ast_id, name@),
            ),
            CompilationError::TypeMismatch { ast_id } => ast_id == call_ast_id || exprs_contain(
                args@,
                NodeKey::CallNode(ast_id),
            ),
            CompilationError::CompilerBug { .. } => true,
        },
        args@.len() == 0 ==> (r matches Ok(b2) && b2 == builder),
        (plain_exprs(args@, builder.symbol_table@, expr_types@, stack_v(builder).len() as int)
            && (forall|i: int|
            0 <= i < args@.len() ==> #[trigger] position_fits_at(sig@, i))) ==> (
        r matches Ok(b2) && b2.symbol_table@ == builder.symbol_table@),
    decreases args@,
{
    let mut b = builder;
    let base = b.stack_info.len();
    proof {
        crate::bytecode_builder::lemma_info_views_len(b.stack_info@);
    }
    let ghost tbl0 = builder.symbol_table@;
    let ghost pl = plain_exprs(args@, tbl0, expr_types@, base as int) && (forall|i: int|
        0 <= i < args@.len() ==> #[trigger] position_fits_at(sig@, i));
    let mut i: usize = 0;
    while i < args.len()
        invariant
            i <= args@.len(),
            builder_wf(b),
            b.symbol_table@.len() == builder.symbol_table@.len(),
            b.scope_starts@ == builder.scope_starts@,
            b.stack_info@.len() == base + i,
            base == stack_v(builder).len(),
            b.text@.len() >= builder.text@.len(),
            i == 0 ==> b == builder,
            pl ==> b.symbol_table@ == tbl0,
            forall|k: int| 0 <= k < base ==> #[trigger] stack_v(b)[k] == stack_v(builder)[k],
            forall|j: int|
                0 <= j < i ==> #[trigger] arg_fits(
                    sig@,
                    j,
                    dti_as_type(stack_v(b)[base + j].type_info),
                ),
        decreases args@.len() - i,
    {
        proof {
            assert(decreases_to!(args@ => args@[i as int]));
            crate::bytecode_builder::lemma_info_views_len(b.stack_info@);
            if pl {
                lemma_plain_exprs_elem(args@, tbl0, expr_types@, base as int, i as int);
                lemma_plain_expr_mono(
                    args@[i as int],
                    tbl0,
                    expr_types@,
                    base as int,
                    (base + i) as int,
                );
                assert(stack_v(b).len() == base + i);
            }
        }
        let ghost b_prev = b;
        let arg_base = b.stack_info.len();
        b = match args[i].compile(b, expr_types) {
            Ok(b) => b,
            Err(e) => {
                proof {
                    if pl {
                        assert(false);
                    }
                    lemma_exprs_contain_compile_err(args@, i as int, e);
                }
                return Err(e);
            }
        };
        proof {
            crate::bytecode_builder::lemma_info_views_len(b.stack_info@);
        }
        if b.stack_info.len() == arg_base {
            proof {
                if pl {
                    assert(false);
                }
            }
            return Err(
                CompilationError::CompilerBug {
                    ast_id: call_ast_id,
                    msg: "an argument left no value".to_owned(),
                },
            );
        }
        let fits = match sig.get_nth_arg(i) {
            Some(ts) => {
                proof {
                    crate::bytecode_builder::lemma_info_views_len(b.stack_info@);
                }
                match b.check_and_fix_type_of_stack_top(ts) {
                    Ok(fits) => {
                        proof {
                            if pl && !fits {
                                assert(position_fits_at(sig@, i as int));
                                assert(position_always_fits(ts@));
                                assert(false);
                            }
                        }
                        fits
                    }
                    Err(u) => {
                        proof {
                            assert(false);
                        }
                        false
                    }
                }
            }
            None => {
                proof {
                    if pl {
                        assert(position_fits_at(sig@, i as int));
                        assert(false);
                    }
                }
                false
            }
        };
        if !fits {
            return Err(CompilationError::TypeMismatch { ast_id: call_ast_id });
        }
        proof {
            crate::bytecode_builder::lemma_info_views_len(b.stack_info@);
            assert(arg_fits(
                sig@,
                i as int,
                dti_as_type(stack_v(b)[base + i as int].type_info),
            ));
            assert forall|j: int|
                0 <= j < i implies #[trigger] arg_fits(
                sig@,
                j,
                dti_as_type(stack_v(b)[base + j].type_info),
            ) by {
                assert(stack_v(b)[base + j] == stack_v(b_prev)[base + j]);
            }
        }
        i = i + 1;
    }
    proof {
        crate::bytecode_builder::lemma_info_views_len(b.stack_info@);
    }
    Ok(b)
}

impl Call {
    /// Lower a call of a built-in: arguments, then the variadic count,
    /// then the call opcode; finally the mirror is adjusted to the
    /// call's pop-arguments push-result effect. Only symbols naming
    /// built-ins can be called; anything else the lowering does not
    /// support yet.
    ///
    /// This is where the pipeline makes calls respect their callee's
    /// signature: inference alone does not check argument types, so the
    /// fit is established here, position by position, by
    /// `compile_call_args`, and `lemma_fitted_args_satisfy` turns the
    /// per-position fit into satisfaction of the whole signature.
    pub fn compile(&self, builder: ByteCodeBuilder, expr_types: &TypeIndex) -> (r: Result<
        ByteCodeBuilder,
        CompilationError,
    >)
        requires
            builder_wf(builder),
            builder.symbol_table@.len() >= 1,
        ensures
            r matches Ok(b2) ==> ({
                &&& compile_step_ok(builder, b2)
                &&& stack_v(b2).len() == stack_v(builder).len() + 1
                &&& b2.text@.len() > builder.text@.len()
                &&& ((*self.callee) matches Expr::Symbol(s) ==> ({
                    &&& (s.1@ == "exec"@ ==> (b2.text@[b2.text@.len() - 1] matches
                        OpCode::Exec(pay)) && stack_v(b2)[stack_v(b2).len() - 1] == (
                    DataInfoV {
                        ast_id: self.id,
                        type_info: DataTypeInfoV::Stack(StackType::Unit),
                    }))
                    &&& (s.1@ == "strcat"@ ==> b2.text@[b2.text@.len() - 1] == OpCode::StrCat
                        && stack_v(b2)[stack_v(b2).len() - 1] == (DataInfoV {
                        ast_id: self.id,
                        type_info: DataTypeInfoV::Heap(HeapTypeV::Str, Owner::Me),
                    }))
                }))
            }),
            r matches Err(er) ==> compile_err_in_expr(Expr::Call(*self), er),
            plain_expr(
                Expr::Call(*self),
                builder.symbol_table@,
                expr_types@,
                stack_v(builder).len() as int,
            ) ==> (r matches Ok(b2) && b2.symbol_table@ == builder.symbol_table@),
        decreases *self,
    {
        let ghost tbl0 = builder.symbol_table@;
        let ghost depth0 = stack_v(builder).len() as int;
        let ghost plc = plain_expr(Expr::Call(*self), tbl0, expr_types@, depth0);
        let callee_name: &String = match &*self.callee {
            Expr::Symbol(s) => &s.1,
            _ => {
                proof {
                    if plc {
                        assert(false);
                    }
                }
                return Err(
                    CompilationError::CompilerBug {
                        ast_id: self.id,
                        msg: "only a named built-in can be called".to_owned(),
                    },
                );
            }
        };
        proof {
            assert((*self.callee) is Symbol);
            assert((*self.callee)->Symbol_0.1 == *callee_name);
        }
        let names = built_in_names();
        let builtin_idx: usize = if *callee_name == names[0] {
            0
        } else if *callee_name == names[1] {
            1
        } else {
            proof {
                if plc {
                    assert(callee_name@ == "exec"@ || callee_name@ == "strcat"@);
                    assert(false);
                }
            }
            return Err(
                CompilationError::CompilerBug {
                    ast_id: self.id,
                    msg: "only a named built-in can be called".to_owned(),
                },
            );
        };
        let callee_sym_id: usize = match &*self.callee {
            Expr::Symbol(s) => s.0,
            _ => {
                proof {
                    assert(false);
                }
                0
            }
        };
        // Inference may have bound the callee's name over the built-in;
        // a recorded type that is not a built-in callable rejects the
        // call rather than silently compiling the built-in.
        match expr_types.get(EnvironmentIdentifier::AstId(callee_sym_id)) {
            Some(t) => {
                let is_builtin_callable = match t {
                    DataType::Callable(CallableType::Builtin, sg) => true,
                    _ => false,
                };
                if !is_builtin_callable {
                    proof {
                        if plc {
                            assert((*self.callee).spec_id() == EnvironmentIdentifier::AstId(
                                callee_sym_id,
                            ));
                            assert(false);
                        }
                    }
                    return Err(
                        CompilationError::CompilerBug {
                            ast_id: self.id,
                            msg: "the callee's name is bound over the built-in".to_owned(),
                        },
                    );
                }
            }
            None => {}
        }
        let sig = match builtin_signature(builtin_idx) {
            Some(sig) => sig,
            None => {
                proof {
                    assert(false);
                }
                return Err(
                    CompilationError::CompilerBug {
                        ast_id: self.id,
                        msg: "a built-in without a signature".to_owned(),
                    },
                );
            }
        };
        let mut b = builder;
        let base = b.stack_info.len();
        proof {
            crate::bytecode_builder::lemma_info_views_len(b.stack_info@);
        }
        proof {
            assert(decreases_to!(*self => self.args));
            crate::types::lemma_type_set_views_len(sig.args@);
            assert(self.args.len() == self.args@.len());
            if plc {
                assert(plain_exprs(self.args@, tbl0, expr_types@, depth0));
                if builtin_idx == 0 {
                    assert(sig@ == exec_signature());
                } else {
                    assert(sig@ == strcat_signature());
                }
                assert forall|j: int| 0 <= j < self.args@.len() implies #[trigger] position_fits_at(
                    sig@,
                    j,
                ) by {
                    if builtin_idx == 0 {
                        if j < sig@.args.len() {
                            assert(sig@.nth_arg(j) == Some(exec_signature().args[0]));
                        } else {
                            assert(sig@.nth_arg(j) == exec_signature().var_arg);
                        }
                        assert(exec_signature().args[0].concrete_type() == Some(TypeV::str()));
                    } else {
                        assert(sig@.args.len() == 0);
                        assert(sig@.nth_arg(j) == strcat_signature().var_arg);
                    }
                }
            }
        }
        let mut b = match compile_call_args(b, &self.args, &sig, expr_types, self.id) {
            Ok(b) => b,
            Err(e) => {
                proof {
                    if plc {
                        assert(false);
                    }
                    assert(compile_err_in_expr(Expr::Call(*self), e));
                }
                return Err(e);
            }
        };
        let mut consumed = self.args.len();
        if sig.var_arg.is_some() {
            let fixed = sig.args.len();
            if self.args.len() < fixed {
                proof {
                    if plc {
                        assert(sig.args@.len() == sig@.args.len());
                        assert(false);
                    }
                }
                return Err(CompilationError::TypeMismatch { ast_id: self.id });
            }
            let var_count = self.args.len() - fixed;
            if var_count as u64 > i64::MAX as u64 {
                proof {
                    if plc {
                        assert(self.args@.len() <= i64::MAX as int);
                        assert(false);
                    }
                }
                return Err(
                    CompilationError::CompilerBug {
                        ast_id: self.id,
                        msg: "too many arguments".to_owned(),
                    },
                );
            }
            b.push_primitive_to_stack(CopyValue::Int(var_count as i64), self.id);
            let cur_len: usize = b.stack_info.len();
            proof {
                crate::bytecode_builder::lemma_info_views_len(b.stack_info@);
                assert(consumed + 1 <= cur_len);
            }
            consumed = consumed + 1;
        }
        // The payload only records where the callee name and the
        // argument block sit; execution pops them from the stack.
        let args_slot = if base < usize::MAX {
            base + 1
        } else {
            base
        };
        let op = if builtin_idx == 0 {
            OpCode::Exec((DataRef::StackIdx(base), DataRef::StackIdx(args_slot)))
        } else {
            OpCode::StrCat
        };
        b.push_opcode(op, self.id);
        proof {
            assert(b.text@[b.text@.len() - 1] == op);
        }
        let result_type = match sig.result.concrete_type() {
            Some(t) => t.duplicate(),
            None => {
                proof {
                    if plc {
                        assert(false);
                    }
                }
                return Err(
                    CompilationError::CompilerBug {
                        ast_id: self.id,
                        msg: "the callee's result is not a single type".to_owned(),
                    },
                );
            }
        };
        proof {
            crate::bytecode_builder::lemma_info_views_len(b.stack_info@);
        }
        match b.note_call_effect(consumed, &result_type, self.id) {
            Ok(u) => {}
            Err(u) => {
                proof {
                    if plc {
                        assert(!(result_type@ is Callable));
                        assert(false);
                    }
                }
                return Err(
                    CompilationError::CompilerBug {
                        ast_id: self.id,
                        msg: "the call's effect does not fit the stack".to_owned(),
                    },
                );
            }
        }
        proof {
            reveal_strlit("exec");
            reveal_strlit("strcat");
            crate::bytecode_builder::lemma_info_views_len(b.stack_info@);
            crate::bytecode_builder::lemma_info_views_len(builder.stack_info@);
            if builtin_idx == 0 {
                assert(result_type@ == TypeV::unit());
                assert(stack_v(b)[stack_v(b).len() - 1] == (DataInfoV {
                    ast_id: self.id,
                    type_info: DataTypeInfoV::Stack(StackType::Unit),
                }));
                assert(b.text@[b.text@.len() - 1] matches OpCode::Exec(pay));
            } else {
                assert(builtin_idx == 1);
                assert(op == OpCode::StrCat);
                assert(result_type@ == TypeV::str());
                assert(stack_v(b)[stack_v(b).len() - 1] == (DataInfoV {
                    ast_id: self.id,
                    type_info: DataTypeInfoV::Heap(HeapTypeV::Str, Owner::Me),
                }));
                assert(b.text@[b.text@.len() - 1] == OpCode::StrCat);
            }
            assert("exec"@.len() == 4);
            assert("strcat"@.len() == 6);
            assert(builtin_idx == 0 ==> callee_name@ == "exec"@);
            assert(builtin_idx == 1 ==> callee_name@ == "strcat"@);
        }
        Ok(b)
    }
}

} // verus!
