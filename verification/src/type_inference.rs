//! The type inference pass: a bottom-up walk over the AST that threads an
//! environment (name to defining id) and a type index (id to type), and
//! assigns a type to every visited node id.

use vstd::prelude::*;

use crate::ast::{
    argdefs_contain, block_contains, expr_contains, exprs_contain, lemma_argdefs_contain_elem,
    lemma_elems_contain_elem, lemma_exprs_contain_elem, lemma_phrases_contain_elem,
    phrase_contains, phrases_contain, ArgDef, AstNode, Block, Call, Expr, FnFragment, IntLit,
    Let, NodeKey, Phrase, StrLit, StrLitElem, Symbol,
};
use crate::built_ins::{built_in_names, builtin_signature, exec_signature, strcat_signature};
use crate::scopes::{
    lemma_scope_views_index, lemma_scope_views_len, scope_views, scopes_lookup, Scope, Scopes,
};
use crate::types::{signature_view, type_view, CallableType, DataType, Signature, TypeSet, TypeV};

verus! {

/// The id under which a name or a node is known: either an AST node id,
/// or the index of a built-in.
#[derive(Debug, Clone, Copy, PartialEq, Eq, Structural)]
pub enum EnvironmentIdentifier {
    AstId(usize),
    BuiltIn(usize),
}

impl EnvironmentIdentifier {
    /// The raw integer behind the identifier.
    pub fn raw(self) -> (r: usize)
        ensures
            r == self.spec_raw(),
    {
        match self {
            EnvironmentIdentifier::AstId(id) => id,
            EnvironmentIdentifier::BuiltIn(id) => id,
        }
    }

    /// The raw integer behind the identifier.
    pub open spec fn spec_raw(self) -> usize {
        match self {
            EnvironmentIdentifier::AstId(id) => id,
            EnvironmentIdentifier::BuiltIn(id) => id,
        }
    }
}

/// Maps a symbol name to the id of its defining node or built-in.
pub type Environment = Scopes<EnvironmentIdentifier>;

/// The type bound to `k` in an index's entry list; the last entry wins.
pub open spec fn ti_lookup(
    s: Seq<(EnvironmentIdentifier, DataType)>,
    k: EnvironmentIdentifier,
) -> Option<TypeV>
    decreases s,
{
    if s.len() == 0 {
        None
    } else if s[s.len() - 1].0 == k {
        Some(type_view(s[s.len() - 1].1))
    } else {
        ti_lookup(s.subrange(0, s.len() - 1), k)
    }
}

/// The type information for each node, keyed by its identifier.
#[derive(Debug)]
pub struct TypeIndex {
    pub entries: Vec<(EnvironmentIdentifier, DataType)>,
}

impl View for TypeIndex {
    type V = Map<EnvironmentIdentifier, TypeV>;

    open spec fn view(&self) -> Map<EnvironmentIdentifier, TypeV> {
        Map::new(
            |k: EnvironmentIdentifier| ti_lookup(self.entries@, k) is Some,
            |k: EnvironmentIdentifier| ti_lookup(self.entries@, k)->0,
        )
    }
}

/// Index lookups agree on entry lists whose ids and type models agree
/// pointwise.
proof fn lemma_ti_lookup_congruent(
    s1: Seq<(EnvironmentIdentifier, DataType)>,
    s2: Seq<(EnvironmentIdentifier, DataType)>,
    k: EnvironmentIdentifier,
)
    requires
        s1.len() == s2.len(),
        forall|i: int|
            0 <= i < s1.len() ==> #[trigger] s1[i].0 == s2[i].0 && type_view(s1[i].1)
                == type_view(s2[i].1),
    ensures
        ti_lookup(s1, k) == ti_lookup(s2, k),
    decreases s1,
{
    if s1.len() > 0 {
        lemma_ti_lookup_congruent(
            s1.subrange(0, s1.len() - 1),
            s2.subrange(0, s2.len() - 1),
            k,
        );
    }
}

impl TypeIndex {
    /// An empty index.
    pub fn new() -> (r: Self)
        ensures
            r@ =~= Map::<EnvironmentIdentifier, TypeV>::empty(),
    {
        TypeIndex { entries: Vec::new() }
    }

    /// Record the type of `k`, replacing what was there.
    pub fn insert(&mut self, k: EnvironmentIdentifier, t: DataType)
        ensures
            final(self)@ =~= old(self)@.insert(k, t@),
    {
        let ghost tv = t@;
        self.entries.push((k, t));
        proof {
            assert(self.entries@.subrange(0, self.entries@.len() - 1) =~= old(self).entries@);
        }
    }

    /// The type recorded for `k`.
    pub fn get(&self, k: EnvironmentIdentifier) -> (r: Option<&DataType>)
        ensures
            match r {
                Some(t) => self@.contains_key(k) && self@[k] == t@,
                None => !self@.contains_key(k),
            },
    {
        proof {
            assert(self.entries@.subrange(0, self.entries@.len() as int) =~= self.entries@);
        }
        let mut i: usize = self.entries.len();
        while i > 0
            invariant
                i <= self.entries@.len(),
                ti_lookup(self.entries@, k) == ti_lookup(self.entries@.subrange(0, i as int), k),
            decreases i,
        {
            proof {
                assert(self.entries@.subrange(0, i as int).subrange(0, i - 1)
                    =~= self.entries@.subrange(0, i - 1));
            }
            if self.entries[i - 1].0 == k {
                return Some(&self.entries[i - 1].1);
            }
            i = i - 1;
        }
        proof {
            assert(self.entries@.subrange(0, 0)
                =~= Seq::<(EnvironmentIdentifier, DataType)>::empty());
        }
        None
    }

    /// Structural copy, entry by entry.
    pub fn duplicate(&self) -> (r: Self)
        ensures
            r@ == self@,
    {
        let mut entries: Vec<(EnvironmentIdentifier, DataType)> = Vec::new();
        let mut i: usize = 0;
        while i < self.entries.len()
            invariant
                i <= self.entries@.len(),
                entries@.len() == i as int,
                forall|j: int|
                    0 <= j < i ==> #[trigger] entries@[j].0 == self.entries@[j].0 && type_view(
                        entries@[j].1,
                    ) == type_view(self.entries@[j].1),
            decreases self.entries.len() - i,
        {
            let e = &self.entries[i];
            entries.push((e.0, e.1.duplicate()));
            i = i + 1;
        }
        let r = TypeIndex { entries };
        proof {
            assert forall|k: EnvironmentIdentifier| #[trigger]
                ti_lookup(r.entries@, k) == ti_lookup(self.entries@, k) by {
                lemma_ti_lookup_congruent(r.entries@, self.entries@, k);
            }
            assert(r@ =~= self@);
        }
        r
    }
}

impl Default for TypeIndex {
    /// An empty index.
    fn default() -> (r: Self)
        ensures
            r@ =~= Map::<EnvironmentIdentifier, TypeV>::empty(),
    {
        TypeIndex::new()
    }
}

impl Environment {
    /// Structural copy, scope by scope.
    pub fn duplicate(&self) -> (r: Self)
        ensures
            r@ == self@,
    {
        let mut scopes: Vec<Scope<EnvironmentIdentifier>> = Vec::new();
        let mut i: usize = 0;
        while i < self.scopes.len()
            invariant
                i <= self.scopes@.len(),
                scopes@.len() == i as int,
                forall|j: int| 0 <= j < i ==> #[trigger] scopes@[j]@ == self.scopes@[j]@,
            decreases self.scopes.len() - i,
        {
            let src = &self.scopes[i];
            let mut entries: Scope<EnvironmentIdentifier> = Vec::new();
            let mut e: usize = 0;
            while e < src.len()
                invariant
                    e <= src@.len(),
                    entries@.len() == e as int,
                    forall|j: int| 0 <= j < e ==> #[trigger] entries@[j] == src@[j],
                decreases src.len() - e,
            {
                let name = src[e].0.clone();
                entries.push((name, src[e].1));
                e = e + 1;
            }
            proof {
                assert(entries@ =~= src@);
            }
            scopes.push(entries);
            i = i + 1;
        }
        let r = Scopes { scopes };
        proof {
            lemma_scope_views_len(r.scopes@);
            lemma_scope_views_len(self.scopes@);
            assert forall|j: int| 0 <= j < r.scopes@.len() implies #[trigger] scope_views(
                r.scopes@,
            )[j] == scope_views(self.scopes@)[j] by {
                lemma_scope_views_index(r.scopes@, j);
                lemma_scope_views_index(self.scopes@, j);
            }
            assert(r@ =~= self@);
        }
        r
    }
}

/// Every identifier that the environment can hand out has a type in the
/// index.
pub open spec fn env_ti_wf(
    env: Seq<Map<Seq<char>, EnvironmentIdentifier>>,
    ti: Map<EnvironmentIdentifier, TypeV>,
) -> bool {
    forall|k: Seq<char>|
        (#[trigger] scopes_lookup(env, k)) matches Some(id) ==> ti.contains_key(id)
}

/// The errors inference can report. Each carries the id of the
/// offending node.
#[derive(Debug)]
pub enum Error {
    NotCallable(usize),
    UndefinedSymbol(usize, String),
    UnusedVar(usize, String),
    CallingNonCallable(usize),
}

impl Error {
    /// The id of the node the error is about.
    pub fn get_ast_id(&self) -> (r: usize)
        ensures
            r == self.spec_ast_id(),
    {
        match self {
            Error::NotCallable(id) => *id,
            Error::CallingNonCallable(id) => *id,
            Error::UndefinedSymbol(id, _) => *id,
            Error::UnusedVar(id, _) => *id,
        }
    }

    /// The id of the node the error is about.
    pub open spec fn spec_ast_id(&self) -> usize {
        match self {
            Error::NotCallable(id) => *id,
            Error::CallingNonCallable(id) => *id,
            Error::UndefinedSymbol(id, _) => *id,
            Error::UnusedVar(id, _) => *id,
        }
    }
}

/// The second index keeps every key the first has.
pub open spec fn ti_extends(
    m2: Map<EnvironmentIdentifier, TypeV>,
    m1: Map<EnvironmentIdentifier, TypeV>,
) -> bool {
    forall|k: EnvironmentIdentifier| m1.contains_key(k) ==> #[trigger] m2.contains_key(k)
}

/// What every successful inference step guarantees: the well-formedness
/// of environment against index is kept, the scope depth is kept, no key
/// is lost, and the node's own id has a type.
pub open spec fn infer_ok(
    env0: Seq<Map<Seq<char>, EnvironmentIdentifier>>,
    ti0: Map<EnvironmentIdentifier, TypeV>,
    env1: Seq<Map<Seq<char>, EnvironmentIdentifier>>,
    ti1: Map<EnvironmentIdentifier, TypeV>,
    id: EnvironmentIdentifier,
) -> bool {
    &&& env_ti_wf(env1, ti1)
    &&& env1.len() == env0.len()
    &&& ti_extends(ti1, ti0)
    &&& ti1.contains_key(id)
}

/// Whether the error names a node the expression really holds: an
/// unbound symbol use, a call, or a fragment parameter. A mining error
/// is tied to the presence of a call.
pub open spec fn infer_err_in_expr(e: Expr, er: Error) -> bool {
    match er {
        Error::UndefinedSymbol(id, n) => expr_contains(e, NodeKey::SymbolUse(id, n@)),
        Error::NotCallable(id) => expr_contains(e, NodeKey::CallNode(id)),
        Error::UnusedVar(id, n) => expr_contains(e, NodeKey::Param(id, n@)),
        Error::CallingNonCallable(_) => expr_contains(e, NodeKey::SomeCall) && expr_contains(
            e,
            NodeKey::SomeFragment,
        ),
    }
}

/// Whether the error names a node the phrase really holds.
pub open spec fn infer_err_in_phrase(p: Phrase, er: Error) -> bool {
    match p {
        Phrase::Expr(e) => infer_err_in_expr(e, er),
    }
}

/// Whether the error names a node the block really holds.
pub open spec fn infer_err_in_block(b: Block, er: Error) -> bool {
    match er {
        Error::UndefinedSymbol(id, n) => block_contains(b, NodeKey::SymbolUse(id, n@)),
        Error::NotCallable(id) => block_contains(b, NodeKey::CallNode(id)),
        Error::UnusedVar(id, n) => block_contains(b, NodeKey::Param(id, n@)),
        Error::CallingNonCallable(_) => block_contains(b, NodeKey::SomeCall)
            && block_contains(b, NodeKey::SomeFragment),
    }
}

/// A phrase's error witness lifts to any phrase sequence holding it.
proof fn lemma_phrases_contain_elem_err(s: Seq<Phrase>, i: int, er: Error)
    requires
        0 <= i < s.len(),
        infer_err_in_phrase(s[i], er),
    ensures
        match er {
            Error::UndefinedSymbol(id, n) => phrases_contain(s, NodeKey::SymbolUse(id, n@)),
            Error::NotCallable(id) => phrases_contain(s, NodeKey::CallNode(id)),
            Error::UnusedVar(id, n) => phrases_contain(s, NodeKey::Param(id, n@)),
            Error::CallingNonCallable(_) => phrases_contain(s, NodeKey::SomeCall)
                && phrases_contain(s, NodeKey::SomeFragment),
        },
{
    match er {
        Error::UndefinedSymbol(id, n) => {
            lemma_phrases_contain_elem(s, i, NodeKey::SymbolUse(id, n@));
        }
        Error::NotCallable(id) => {
            lemma_phrases_contain_elem(s, i, NodeKey::CallNode(id));
        }
        Error::UnusedVar(id, n) => {
            lemma_phrases_contain_elem(s, i, NodeKey::Param(id, n@));
        }
        Error::CallingNonCallable(_) => {
            lemma_phrases_contain_elem(s, i, NodeKey::SomeCall);
            lemma_phrases_contain_elem(s, i, NodeKey::SomeFragment);
        }
    }
}

/// An expression's error witness lifts to any expression sequence
/// holding it.
proof fn lemma_exprs_contain_elem_err(s: Seq<Expr>, i: int, er: Error)
    requires
        0 <= i < s.len(),
        infer_err_in_expr(s[i], er),
    ensures
        match er {
            Error::UndefinedSymbol(id, n) => exprs_contain(s, NodeKey::SymbolUse(id, n@)),
            Error::NotCallable(id) => exprs_contain(s, NodeKey::CallNode(id)),
            Error::UnusedVar(id, n) => exprs_contain(s, NodeKey::Param(id, n@)),
            Error::CallingNonCallable(_) => exprs_contain(s, NodeKey::SomeCall)
                && exprs_contain(s, NodeKey::SomeFragment),
        },
{
    match er {
        Error::UndefinedSymbol(id, n) => {
            lemma_exprs_contain_elem(s, i, NodeKey::SymbolUse(id, n@));
        }
        Error::NotCallable(id) => {
            lemma_exprs_contain_elem(s, i, NodeKey::CallNode(id));
        }
        Error::UnusedVar(id, n) => {
            lemma_exprs_contain_elem(s, i, NodeKey::Param(id, n@));
        }
        Error::CallingNonCallable(_) => {
            lemma_exprs_contain_elem(s, i, NodeKey::SomeCall);
            lemma_exprs_contain_elem(s, i, NodeKey::SomeFragment);
        }
    }
}

/// A key that inferring `e` may not rewrite: a built-in's key, or an
/// ast key whose id no node of `e` carries.
pub open spec fn untouched_by_expr(e: Expr, k: EnvironmentIdentifier) -> bool {
    match k {
        EnvironmentIdentifier::AstId(x) => !expr_contains(e, NodeKey::AnyId(x)),
        EnvironmentIdentifier::BuiltIn(_) => true,
    }
}

/// A key that inferring the phrase may not rewrite.
pub open spec fn untouched_by_phrase(p: Phrase, k: EnvironmentIdentifier) -> bool {
    match p {
        Phrase::Expr(e) => untouched_by_expr(e, k),
    }
}

/// A key that inferring the block may not rewrite.
pub open spec fn untouched_by_block(b: Block, k: EnvironmentIdentifier) -> bool {
    match k {
        EnvironmentIdentifier::AstId(x) => !block_contains(b, NodeKey::AnyId(x)),
        EnvironmentIdentifier::BuiltIn(_) => true,
    }
}

/// A phrase whose expression is a literal, whose inference cannot
/// fail.
pub open spec fn literal_phrase(p: Phrase) -> bool {
    match p {
        Phrase::Expr(e) => e is IntLit || e is StrLit,
    }
}

/// Phrase `k` of the block is the first that can fail, and does: the
/// phrases before it are literals, which bind nothing, and phrase `k`
/// is a symbol the starting environment does not bind.
pub open spec fn first_unbound_phrase(
    b: Block,
    env: Seq<Map<Seq<char>, EnvironmentIdentifier>>,
    k: int,
    sy: Symbol,
) -> bool {
    &&& 0 <= k < b.1@.len()
    &&& (forall|j: int| 0 <= j < k ==> literal_phrase(#[trigger] b.1@[j]))
    &&& b.1@[k] == Phrase::Expr(Expr::Symbol(sy))
    &&& scopes_lookup(env, sy.1@) is None
}

impl Block {
    /// Infer each phrase in order; the block's type is the type of its
    /// last phrase, or unit for an empty block. Bindings made by the
    /// phrases stay in the returned environment.
    #[verifier::loop_isolation(false)]
    pub fn infer_types(&self, env: Environment, type_idx: TypeIndex) -> (r: Result<
        (Environment, TypeIndex),
        Error,
    >)
        requires
            env_ti_wf(env@, type_idx@),
            env@.len() >= 1,
        ensures
            r matches Ok(p) ==> {
                &&& infer_ok(env@, type_idx@, p.0@, p.1@, EnvironmentIdentifier::AstId(self.0))
                &&& (self.1@.len() == 0 ==> p.1@[EnvironmentIdentifier::AstId(self.0)]
                    == TypeV::unit())
                &&& (self.1@.len() > 0 ==> p.1@[EnvironmentIdentifier::AstId(self.0)]
                    == p.1@[self.1@[self.1@.len() - 1].spec_id()])
            },
            r matches Err(er) ==> infer_err_in_block(*self, er),
            self.1@.len() == 0 ==> r is Ok,
            (forall|j: int| 0 <= j < self.1@.len() ==> literal_phrase(#[trigger] self.1@[j]))
                ==> r is Ok,
            forall|k: int, sy: Symbol|
                first_unbound_phrase(*self, env@, k, sy) ==> (r is Err && r->Err_0
                    is UndefinedSymbol && r->Err_0->UndefinedSymbol_0 == sy.0
                    && r->Err_0->UndefinedSymbol_1@ == sy.1@),
            r matches Ok(p) ==> (forall|k: EnvironmentIdentifier|
                type_idx@.contains_key(k) && untouched_by_block(*self, k)
                    ==> #[trigger] p.1@[k] == type_idx@[k]),
        decreases *self,
    {
        let ghost all_lit = forall|j: int|
            0 <= j < self.1@.len() ==> literal_phrase(#[trigger] self.1@[j]);
        let mut cur_env = env;
        let mut cur_ti = type_idx;
        let mut i: usize = 0;
        while i < self.1.len()
            invariant
                i <= self.1@.len(),
                env_ti_wf(cur_env@, cur_ti@),
                cur_env@.len() == env@.len(),
                ti_extends(cur_ti@, type_idx@),
                i > 0 ==> cur_ti@.contains_key(self.1@[i - 1].spec_id()),
                (forall|j: int| 0 <= j < i ==> literal_phrase(#[trigger] self.1@[j]))
                    ==> cur_env@ == env@,
                forall|k: int, sy: Symbol|
                    first_unbound_phrase(*self, env@, k, sy) ==> k >= i,
                forall|k: EnvironmentIdentifier|
                    type_idx@.contains_key(k) && untouched_by_block(*self, k)
                        ==> #[trigger] cur_ti@[k] == type_idx@[k],
            decreases self.1@.len() - i,
        {
            proof {
                assert(decreases_to!(*self => self.1));
                assert(decreases_to!(self.1 => self.1@));
                assert(decreases_to!(self.1@ => self.1@[i as int]));
            }
            let ghost prev_ti = cur_ti@;
            match self.1[i].infer_types(cur_env, cur_ti) {
                Ok(p) => {
                    let ghost prev_env = cur_env@;
                    cur_env = p.0;
                    cur_ti = p.1;
                    proof {
                        assert forall|k: EnvironmentIdentifier|
                            type_idx@.contains_key(k) && untouched_by_block(*self, k)
                                implies #[trigger] cur_ti@[k] == type_idx@[k] by {
                            match k {
                                EnvironmentIdentifier::AstId(x) => {
                                    if phrase_contains(self.1@[i as int], NodeKey::AnyId(x)) {
                                        lemma_phrases_contain_elem(
                                            self.1@,
                                            i as int,
                                            NodeKey::AnyId(x),
                                        );
                                    }
                                    assert(untouched_by_phrase(self.1@[i as int], k));
                                }
                                EnvironmentIdentifier::BuiltIn(_) => {
                                    assert(untouched_by_phrase(self.1@[i as int], k));
                                }
                            }
                            assert(prev_ti.contains_key(k));
                            assert(cur_ti@[k] == prev_ti[k]);
                        }
                        assert forall|k: int, sy: Symbol|
                            first_unbound_phrase(*self, env@, k, sy) implies k >= i + 1 by {
                            assert(k >= i);
                            if k == i {
                                assert(forall|j: int|
                                    0 <= j < i ==> literal_phrase(#[trigger] self.1@[j]));
                                assert(prev_env == env@);
                                assert(self.1@[i as int] == Phrase::Expr(Expr::Symbol(sy)));
                                assert(false);
                            }
                        }
                    }
                }
                Err(e) => {
                    proof {
                        if all_lit {
                            assert(literal_phrase(self.1@[i as int]));
                            assert(false);
                        }
                        assert forall|k: int, sy: Symbol|
                            first_unbound_phrase(*self, env@, k, sy) implies (e
                            is UndefinedSymbol && e->UndefinedSymbol_0 == sy.0
                            && e->UndefinedSymbol_1@ == sy.1@) by {
                            assert(k >= i);
                            if k > i {
                                assert(literal_phrase(self.1@[i as int]));
                                assert(false);
                            }
                            assert(k == i);
                            assert(forall|j: int|
                                0 <= j < i ==> literal_phrase(#[trigger] self.1@[j]));
                            assert(cur_env@ == env@);
                            assert(self.1@[i as int] == Phrase::Expr(Expr::Symbol(sy)));
                        }
                        lemma_phrases_contain_elem_err(self.1@, i as int, e);
                    }
                    return Err(e);
                }
            }
            i = i + 1;
        }
        if self.1.len() == 0 {
            cur_ti.insert(EnvironmentIdentifier::AstId(self.0), DataType::unit());
            Ok((cur_env, cur_ti))
        } else {
            let last_id = self.1[self.1.len() - 1].get_id();
            match cur_ti.get(last_id) {
                Some(t) => {
                    let t2 = t.duplicate();
                    cur_ti.insert(EnvironmentIdentifier::AstId(self.0), t2);
                    Ok((cur_env, cur_ti))
                }
                None => {
                    // The phrase just inferred put its id in the index.
                    proof {
                        assert(false);
                    }
                    Err(Error::NotCallable(0))
                }
            }
        }
    }
}

impl Phrase {
    /// Infer the phrase's expression.
    pub fn infer_types(&self, env: Environment, type_idx: TypeIndex) -> (r: Result<
        (Environment, TypeIndex),
        Error,
    >)
        requires
            env_ti_wf(env@, type_idx@),
            env@.len() >= 1,
        ensures
            r matches Ok(p) ==> infer_ok(env@, type_idx@, p.0@, p.1@, self.spec_id()),
            r matches Err(er) ==> infer_err_in_phrase(*self, er),
            (*self) matches Phrase::Expr(e) ==> ((e is IntLit || e is StrLit) ==> (
            r matches Ok(p) && p.0@ == env@)),
            (*self) matches Phrase::Expr(e) ==> (e matches Expr::Symbol(sy) ==> (scopes_lookup(
                env@,
                sy.1@,
            ) is None ==> (r is Err && r->Err_0 is UndefinedSymbol
                && r->Err_0->UndefinedSymbol_0 == sy.0 && r->Err_0->UndefinedSymbol_1@
                == sy.1@))),
            r matches Ok(p) ==> (forall|k: EnvironmentIdentifier|
                type_idx@.contains_key(k) && untouched_by_phrase(*self, k)
                    ==> #[trigger] p.1@[k] == type_idx@[k]),
        decreases *self,
    {
        match self {
            Phrase::Expr(e) => {
                proof {
                    assert(decreases_to!(*self => self->Expr_0));
                }
                e.infer_types(env, type_idx)
            }
        }
    }
}

impl Expr {
    /// Infer this expression's type, threading environment and index.
    pub fn infer_types(&self, env: Environment, type_idx: TypeIndex) -> (r: Result<
        (Environment, TypeIndex),
        Error,
    >)
        requires
            env_ti_wf(env@, type_idx@),
            env@.len() >= 1,
        ensures
            r matches Ok(p) ==> infer_ok(env@, type_idx@, p.0@, p.1@, self.spec_id()),
            r matches Err(er) ==> infer_err_in_expr(*self, er),
            (*self) matches Expr::IntLit(n) ==> (r matches Ok(p) && p.0@ == env@ && p.1@
                == type_idx@.insert(EnvironmentIdentifier::AstId(n.0), TypeV::integer())),
            (*self) matches Expr::StrLit(n) ==> (r matches Ok(p) && p.0@ == env@ && p.1@
                == type_idx@.insert(EnvironmentIdentifier::AstId(n.0), TypeV::str())),
            (*self) matches Expr::Symbol(sy) ==> (scopes_lookup(env@, sy.1@) matches Some(sid)
                ==> (r matches Ok(p) && p.0@ == env@ && p.1@ == type_idx@.insert(
                EnvironmentIdentifier::AstId(sy.0),
                type_idx@[sid],
            ))),
            (*self) matches Expr::Symbol(sy) ==> (scopes_lookup(env@, sy.1@) is None ==> (
            r is Err && r->Err_0 is UndefinedSymbol && r->Err_0->UndefinedSymbol_0 == sy.0
                && r->Err_0->UndefinedSymbol_1@ == sy.1@)),
            r matches Ok(p) ==> (forall|k: EnvironmentIdentifier|
                type_idx@.contains_key(k) && untouched_by_expr(*self, k)
                    ==> #[trigger] p.1@[k] == type_idx@[k]),
        decreases *self,
    {
        match self {
            Expr::StrLit(n) => n.infer_types(env, type_idx),
            Expr::Symbol(n) => n.infer_types(env, type_idx),
            Expr::IntLit(n) => n.infer_types(env, type_idx),
            Expr::Let(n) => {
                proof {
                    assert(decreases_to!(*self => self->Let_0));
                }
                n.infer_types(env, type_idx)
            }
            Expr::Call(n) => {
                proof {
                    assert(decreases_to!(*self => self->Call_0));
                }
                n.infer_types(env, type_idx)
            }
            Expr::FnFragment(n) => {
                proof {
                    assert(decreases_to!(*self => self->FnFragment_0));
                }
                n.infer_types(env, type_idx)
            }
            Expr::Block(n) => {
                proof {
                    assert(decreases_to!(*self => self->Block_0));
                }
                n.infer_types(env, type_idx)
            }
        }
    }
}

impl IntLit {
    /// An integer literal has the integer type.
    pub fn infer_types(&self, env: Environment, type_idx: TypeIndex) -> (r: Result<
        (Environment, TypeIndex),
        Error,
    >)
        requires
            env_ti_wf(env@, type_idx@),
            env@.len() >= 1,
        ensures
            r matches Ok(p) ==> {
                &&& infer_ok(env@, type_idx@, p.0@, p.1@, EnvironmentIdentifier::AstId(self.0))
                &&& p.0@ == env@
                &&& p.1@ == type_idx@.insert(
                    EnvironmentIdentifier::AstId(self.0),
                    TypeV::integer(),
                )
            },
            r is Ok,
    {
        let mut ti = type_idx;
        ti.insert(EnvironmentIdentifier::AstId(self.0), DataType::integer());
        Ok((env, ti))
    }
}

impl StrLit {
    /// A string literal has the string type.
    pub fn infer_types(&self, env: Environment, type_idx: TypeIndex) -> (r: Result<
        (Environment, TypeIndex),
        Error,
    >)
        requires
            env_ti_wf(env@, type_idx@),
            env@.len() >= 1,
        ensures
            r matches Ok(p) ==> {
                &&& infer_ok(env@, type_idx@, p.0@, p.1@, EnvironmentIdentifier::AstId(self.0))
                &&& p.0@ == env@
                &&& p.1@ == type_idx@.insert(EnvironmentIdentifier::AstId(self.0), TypeV::str())
            },
            r is Ok,
    {
        let mut ti = type_idx;
        ti.insert(EnvironmentIdentifier::AstId(self.0), DataType::str());
        Ok((env, ti))
    }
}

impl Symbol {
    /// A symbol has the type of what its name is bound to; an unbound
    /// name is reported, with this node's id.
    pub fn infer_types(&self, env: Environment, type_idx: TypeIndex) -> (r: Result<
        (Environment, TypeIndex),
        Error,
    >)
        requires
            env_ti_wf(env@, type_idx@),
            env@.len() >= 1,
        ensures
            r matches Ok(p) ==> {
                &&& infer_ok(env@, type_idx@, p.0@, p.1@, EnvironmentIdentifier::AstId(self.0))
                &&& p.0@ == env@
                &&& scopes_lookup(env@, self.1@) matches Some(sid) && p.1@ == type_idx@.insert(
                    EnvironmentIdentifier::AstId(self.0),
                    type_idx@[sid],
                )
            },
            r matches Err(e) ==> {
                &&& scopes_lookup(env@, self.1@) is None
                &&& e matches Error::UndefinedSymbol(id, n) && id == self.0 && n@ == self.1@
            },
    {
        let found = env.find_entry(&self.1);
        match found {
            Some(sid) => {
                let sid = *sid;
                match type_idx.get(sid) {
                    Some(t) => {
                        let t2 = t.duplicate();
                        let mut ti = type_idx;
                        ti.insert(EnvironmentIdentifier::AstId(self.0), t2);
                        Ok((env, ti))
                    }
                    None => {
                        // The environment only hands out ids the index
                        // knows: that is its well-formedness.
                        proof {
                            assert(false);
                        }
                        Err(Error::UndefinedSymbol(self.0, self.1.clone()))
                    }
                }
            }
            None => Err(Error::UndefinedSymbol(self.0, self.1.clone())),
        }
    }
}

impl Let {
    /// Infer the bound expression, give this node its type, and bind the
    /// name to this node in the innermost scope.
    pub fn infer_types(&self, env: Environment, type_idx: TypeIndex) -> (r: Result<
        (Environment, TypeIndex),
        Error,
    >)
        requires
            env_ti_wf(env@, type_idx@),
            env@.len() >= 1,
        ensures
            r matches Ok(p) ==> {
                &&& infer_ok(env@, type_idx@, p.0@, p.1@, EnvironmentIdentifier::AstId(self.id))
                &&& p.0@ =~= env@.update(
                    env@.len() - 1,
                    env@[env@.len() - 1].insert(
                        self.symbol_name@,
                        EnvironmentIdentifier::AstId(self.id),
                    ),
                )
                &&& p.1@.contains_key(self.value_expr.spec_id())
                &&& p.1@[EnvironmentIdentifier::AstId(self.id)] == p.1@[self.value_expr.spec_id()]
            },
            r matches Err(er) ==> infer_err_in_expr(*self.value_expr, er),
            ((*self.value_expr) is IntLit || (*self.value_expr) is StrLit) ==> r is Ok,
            (*self.value_expr) matches Expr::Symbol(sy) ==> (scopes_lookup(env@, sy.1@) is None
                ==> (r is Err && r->Err_0 is UndefinedSymbol && r->Err_0->UndefinedSymbol_0
                == sy.0 && r->Err_0->UndefinedSymbol_1@ == sy.1@)),
            r matches Ok(p) ==> (forall|k: EnvironmentIdentifier|
                type_idx@.contains_key(k) && untouched_by_expr(Expr::Let(*self), k)
                    ==> #[trigger] p.1@[k] == type_idx@[k]),
        decreases *self,
    {
        proof {
            assert(decreases_to!(*self => self.value_expr));
        }
        let rhs = self.value_expr.infer_types(env.duplicate(), type_idx);
        match rhs {
            Ok(p) => {
                let mut ti = p.1;
                match ti.get(self.value_expr.get_id()) {
                    Some(t) => {
                        let t2 = t.duplicate();
                        ti.insert(EnvironmentIdentifier::AstId(self.id), t2);
                        let mut env = env;
                        let ghost env0 = env@;
                        env.add_entry(
                            self.symbol_name.clone(),
                            EnvironmentIdentifier::AstId(self.id),
                        );
                        proof {
                            let e2 = env@;
                            assert forall|k: Seq<char>|
                                (#[trigger] scopes_lookup(e2, k)) is Some implies ti@.contains_key(
                                scopes_lookup(e2, k)->0,
                            ) by {
                                if k != self.symbol_name@ {
                                    lemma_lookup_after_last_insert(
                                        env0,
                                        self.symbol_name@,
                                        EnvironmentIdentifier::AstId(self.id),
                                        k,
                                    );
                                }
                            }
                            assert(env_ti_wf(e2, ti@));
                        }
                        Ok((env, ti))
                    }
                    None => {
                        // The bound expression just inferred put its id
                        // in the index.
                        proof {
                            assert(false);
                        }
                        Err(Error::NotCallable(0))
                    }
                }
            }
            Err(e) => Err(e),
        }
    }
}

/// A call whose inference cannot fail: the callee is a symbol bound to
/// a callable whose result set is a single type, and every argument is
/// a literal whose node id is not the callee's. Such a call resolves
/// without consulting anything the arguments add to the index.
pub open spec fn resolved_literal_call(
    c: Call,
    env: Seq<Map<Seq<char>, EnvironmentIdentifier>>,
    ti: Map<EnvironmentIdentifier, TypeV>,
) -> bool {
    &&& (*c.callee) matches Expr::Symbol(sy) && scopes_lookup(env, sy.1@) matches Some(bid)
        && ti[bid] matches TypeV::Callable(ct, sg) && sg.result.concrete_type() is Some
    &&& (forall|j: int|
        0 <= j < c.args@.len() ==> ((#[trigger] c.args@[j]) is IntLit || c.args@[j] is StrLit))
    &&& (forall|j: int|
        0 <= j < c.args@.len() ==> (#[trigger] c.args@[j]).spec_id() != c.callee.spec_id())
}

impl Call {
    /// Infer the callee and the arguments; the call's type is the single
    /// type of the callee's result set. A callee that is not callable is
    /// reported with this node's id, as is a result set that does not
    /// collapse to one type.
    #[verifier::loop_isolation(false)]
    pub fn infer_types(&self, env: Environment, type_idx: TypeIndex) -> (r: Result<
        (Environment, TypeIndex),
        Error,
    >)
        requires
            env_ti_wf(env@, type_idx@),
            env@.len() >= 1,
        ensures
            r matches Ok(p) ==> {
                &&& infer_ok(env@, type_idx@, p.0@, p.1@, EnvironmentIdentifier::AstId(self.id))
                &&& p.0@ == env@
                &&& p.1@.contains_key(self.callee.spec_id())
                &&& (self.callee.spec_id() != EnvironmentIdentifier::AstId(self.id) ==> (
                p.1@[self.callee.spec_id()] matches TypeV::Callable(_, sig)
                    && sig.result.concrete_type() == Some(
                    p.1@[EnvironmentIdentifier::AstId(self.id)],
                )))
            },
            r matches Err(er) ==> infer_err_in_expr(Expr::Call(*self), er),
            resolved_literal_call(*self, env@, type_idx@) ==> r is Ok,
            r matches Ok(p) ==> (forall|k: EnvironmentIdentifier|
                type_idx@.contains_key(k) && untouched_by_expr(Expr::Call(*self), k)
                    ==> #[trigger] p.1@[k] == type_idx@[k]),
        decreases *self,
    {
        let ghost hc = resolved_literal_call(*self, env@, type_idx@);
        proof {
            assert(decreases_to!(*self => self.callee));
        }
        let mut ti = match self.callee.infer_types(env.duplicate(), type_idx) {
            Ok(p) => p.1,
            Err(e) => {
                proof {
                    if hc {
                        assert(false);
                    }
                    assert(infer_err_in_expr(Expr::Call(*self), e));
                }
                return Err(e);
            }
        };
        proof {
            assert(ti_extends(ti@, type_idx@));
        }
        let mut i: usize = 0;
        while i < self.args.len()
            invariant
                i <= self.args@.len(),
                env_ti_wf(env@, ti@),
                ti@.contains_key(self.callee.spec_id()),
                ti_extends(ti@, type_idx@),
                hc ==> (ti@[self.callee.spec_id()] matches TypeV::Callable(ct, sg)
                    && sg.result.concrete_type() is Some),
                forall|k: EnvironmentIdentifier|
                    type_idx@.contains_key(k) && untouched_by_expr(Expr::Call(*self), k)
                        ==> #[trigger] ti@[k] == type_idx@[k],
            decreases self.args@.len() - i,
        {
            proof {
                assert(decreases_to!(*self => self.args));
                assert(decreases_to!(self.args => self.args@));
                assert(decreases_to!(self.args@ => self.args@[i as int]));
            }
            let ghost ti_before = ti@;
            ti = match self.args[i].infer_types(env.duplicate(), ti) {
                Ok(p) => p.1,
                Err(e) => {
                    proof {
                        if hc {
                            assert(self.args@[i as int] is IntLit || self.args@[i as int]
                                is StrLit);
                            assert(false);
                        }
                        lemma_exprs_contain_elem_err(self.args@, i as int, e);
                    }
                    return Err(e);
                }
            };
            proof {
                assert forall|k: EnvironmentIdentifier|
                    type_idx@.contains_key(k) implies #[trigger] ti@.contains_key(k) by {
                    assert(ti_before.contains_key(k));
                }
                if hc {
                    assert(self.args@[i as int].spec_id() != self.callee.spec_id());
                    assert(ti@[self.callee.spec_id()] == ti_before[self.callee.spec_id()]);
                }
                assert forall|k: EnvironmentIdentifier|
                    type_idx@.contains_key(k) && untouched_by_expr(Expr::Call(*self), k)
                        implies #[trigger] ti@[k] == type_idx@[k] by {
                    match k {
                        EnvironmentIdentifier::AstId(x) => {
                            if expr_contains(self.args@[i as int], NodeKey::AnyId(x)) {
                                lemma_exprs_contain_elem(
                                    self.args@,
                                    i as int,
                                    NodeKey::AnyId(x),
                                );
                            }
                            assert(untouched_by_expr(self.args@[i as int], k));
                        }
                        EnvironmentIdentifier::BuiltIn(_) => {
                            assert(untouched_by_expr(self.args@[i as int], k));
                        }
                    }
                    assert(ti_before.contains_key(k));
                }
            }
            i = i + 1;
        }
        let callee_id = self.callee.get_id();
        let ret = match ti.get(callee_id) {
            Some(t) => t.try_get_return_type(),
            None => {
                // The callee just inferred put its id in the index.
                proof {
                    assert(false);
                }
                None
            }
        };
        match ret {
            Some(ts) => {
                match ts.concrete_type() {
                    Some(t) => {
                        let t2 = t.duplicate();
                        ti.insert(EnvironmentIdentifier::AstId(self.id), t2);
                        Ok((env, ti))
                    }
                    None => {
                        proof {
                            if hc {
                                assert(false);
                            }
                        }
                        Err(Error::NotCallable(self.id))
                    }
                }
            }
            None => {
                proof {
                    if hc {
                        assert(false);
                    }
                }
                Err(Error::NotCallable(self.id))
            }
        }
    }
}

/// Binding one more name in the innermost scope changes no lookup of
/// any other name.
proof fn lemma_lookup_after_last_insert(
    env: Seq<Map<Seq<char>, EnvironmentIdentifier>>,
    name: Seq<char>,
    id: EnvironmentIdentifier,
    k: Seq<char>,
)
    requires
        env.len() >= 1,
        k != name,
    ensures
        scopes_lookup(env.update(env.len() - 1, env[env.len() - 1].insert(name, id)), k)
            == scopes_lookup(env, k),
{
    let env2 = env.update(env.len() - 1, env[env.len() - 1].insert(name, id));
    assert(env2.subrange(0, env2.len() - 1) =~= env.subrange(0, env.len() - 1));
}

/// Collect every call node in the tree below `e`, in visit order.
/// Anything collected witnesses that the tree holds a call.
#[verifier::loop_isolation(false)]
/// Every symbol among the call's arguments occurs in `e`.
pub open spec fn call_arg_symbols_in(c: Call, e: Expr) -> bool {
    forall|q: int|
        0 <= q < c.args@.len() ==> ((#[trigger] c.args@[q]) matches Expr::Symbol(sy)
            ==> expr_contains(e, NodeKey::SymbolUse(sy.0, sy.1@)))
}

/// Whether some symbol node in `e` carries the given name.
pub open spec fn param_name_used(e: Expr, name: Seq<char>) -> bool {
    exists|sid: usize| expr_contains(e, NodeKey::SymbolUse(sid, name))
}

fn collect_calls<'a>(e: &'a Expr, out: &mut Vec<&'a Call>)
    ensures
        final(out)@.len() >= old(out)@.len(),
        final(out)@.subrange(0, old(out)@.len() as int) == old(out)@,
        final(out)@.len() > old(out)@.len() ==> expr_contains(*e, NodeKey::SomeCall),
        forall|j: int|
            old(out)@.len() <= j < final(out)@.len() ==> ((*(*(#[trigger] final(out)@[j])).callee) matches Expr::Symbol(sy) ==> (expr_contains(
                *e,
                NodeKey::SymbolUse(sy.0, sy.1@),
            ) && expr_contains(*e, NodeKey::CallNode((*final(out)@[j]).id)))),
        forall|j: int|
            old(out)@.len() <= j < final(out)@.len() ==> call_arg_symbols_in(
                *(#[trigger] final(out)@[j]),
                *e,
            ),
    decreases *e,
{
    match e {
        Expr::StrLit(n) => {
            let ghost base = out@.len();
            let mut i: usize = 0;
            while i < n.1.len()
                invariant
                    i <= n.1@.len(),
                    *e == Expr::StrLit(*n),
                    base == old(out)@.len(),
                    out@.len() >= base,
                    out@.subrange(0, base as int) == old(out)@,
                    out@.len() > base ==> expr_contains(*e, NodeKey::SomeCall),
                    forall|j: int|
                        base <= j < out@.len() ==> ((*(*(#[trigger] out@[j])).callee) matches Expr::Symbol(sy) ==> (expr_contains(
                            *e,
                            NodeKey::SymbolUse(sy.0, sy.1@),
                        ) && expr_contains(*e, NodeKey::CallNode((*out@[j]).id)))),
                    forall|j: int|
                        base <= j < out@.len() ==> call_arg_symbols_in(
                            *(#[trigger] out@[j]),
                            *e,
                        ),
                decreases n.1@.len() - i,
            {
                proof {
                    assert(decreases_to!(*e => e->StrLit_0));
                    assert(decreases_to!(e->StrLit_0 => n.1));
                    assert(decreases_to!(n.1 => n.1@));
                    assert(decreases_to!(n.1@ => n.1@[i as int]));
                }
                match &n.1[i] {
                    StrLitElem::Expr(sub_id, sub) => {
                        proof {
                            assert(decreases_to!(n.1@[i as int] => n.1@[i as int]->Expr_1));
                        }
                        let ghost len_before = out@.len();
                        let ghost prev = out@;
                        collect_calls(sub, out);
                        proof {
                            assert(n.1@[i as int] == StrLitElem::Expr(*sub_id, *sub));
                            assert forall|j: int| 0 <= j < len_before implies #[trigger] out@[j]
                                == prev[j] by {
                                assert(out@.subrange(0, len_before as int)[j] == prev[j]);
                            }
                            if out@.len() > len_before {
                                lemma_elems_contain_elem(n.1@, i as int, NodeKey::SomeCall);
                                assert(*e == Expr::StrLit(*n));
                                assert(expr_contains(*e, NodeKey::SomeCall));
                            }
                            assert forall|j: int|
                                len_before <= j < out@.len() implies ((*(*(
                            #[trigger] out@[j])).callee) matches Expr::Symbol(sy) ==> (
                            expr_contains(*e, NodeKey::SymbolUse(sy.0, sy.1@))
                                && expr_contains(
                                *e,
                                NodeKey::CallNode((*out@[j]).id),
                            ))) by {
                                match *(*out@[j]).callee {
                                    Expr::Symbol(sy) => {
                                        lemma_elems_contain_elem(
                                            n.1@,
                                            i as int,
                                            NodeKey::SymbolUse(sy.0, sy.1@),
                                        );
                                        lemma_elems_contain_elem(
                                            n.1@,
                                            i as int,
                                            NodeKey::CallNode((*out@[j]).id),
                                        );
                                    }
                                    _ => {}
                                }
                            }
                            assert forall|j: int|
                                len_before <= j < out@.len() implies call_arg_symbols_in(
                                *(#[trigger] out@[j]),
                                *e,
                            ) by {
                                assert(call_arg_symbols_in(*out@[j], **sub));
                                assert forall|q: int|
                                    0 <= q < (*out@[j]).args@.len() implies ((
                                #[trigger] (*out@[j]).args@[q]) matches Expr::Symbol(sy)
                                    ==> expr_contains(
                                    *e,
                                    NodeKey::SymbolUse(sy.0, sy.1@),
                                )) by {
                                    match (*out@[j]).args@[q] {
                                        Expr::Symbol(sy) => {
                                            lemma_elems_contain_elem(
                                                n.1@,
                                                i as int,
                                                NodeKey::SymbolUse(sy.0, sy.1@),
                                            );
                                        }
                                        _ => {}
                                    }
                                }
                            }
                        }
                    }
                    _ => {}
                }
                i = i + 1;
            }
        }
        Expr::Symbol(_) => {}
        Expr::IntLit(_) => {}
        Expr::Let(n) => {
            proof {
                assert(decreases_to!(*e => e->Let_0));
                assert(decreases_to!(e->Let_0 => n.value_expr));
            }
            collect_calls(&n.value_expr, out);
        }
        Expr::FnFragment(n) => {
            proof {
                assert(decreases_to!(*e => e->FnFragment_0));
                assert(decreases_to!(e->FnFragment_0 => n.body));
            }
            collect_calls(&n.body, out);
        }
        Expr::Call(n) => {
            out.push(n);
            proof {
                assert(decreases_to!(*e => e->Call_0));
                assert(decreases_to!(e->Call_0 => n.callee));
                assert(forall|j: int|
                    old(out)@.len() <= j < out@.len() ==> #[trigger] out@[j] == n);
            }
            let ghost before_callee = out@.len();
            let ghost prev = out@;
            collect_calls(&n.callee, out);
            proof {
                assert forall|j: int| 0 <= j < before_callee implies #[trigger] out@[j]
                    == prev[j] by {
                    assert(out@.subrange(0, before_callee as int)[j] == prev[j]);
                }
                assert forall|j: int|
                    old(out)@.len() <= j < out@.len() implies ((*(*(
                #[trigger] out@[j])).callee) matches Expr::Symbol(sy) ==> (expr_contains(
                    *e,
                    NodeKey::SymbolUse(sy.0, sy.1@),
                ) && expr_contains(*e, NodeKey::CallNode((*out@[j]).id)))) by {
                    match *(*out@[j]).callee {
                        Expr::Symbol(sy) => {
                            if j < before_callee {
                                assert(out@[j] == n);
                                assert(expr_contains(
                                    *n.callee,
                                    NodeKey::SymbolUse(sy.0, sy.1@),
                                ));
                            }
                        }
                        _ => {}
                    }
                }
                assert forall|j: int|
                    old(out)@.len() <= j < out@.len() implies call_arg_symbols_in(
                    *(#[trigger] out@[j]),
                    *e,
                ) by {
                    assert forall|q: int|
                        0 <= q < (*out@[j]).args@.len() implies ((
                    #[trigger] (*out@[j]).args@[q]) matches Expr::Symbol(sy) ==> expr_contains(
                        *e,
                        NodeKey::SymbolUse(sy.0, sy.1@),
                    )) by {
                        match (*out@[j]).args@[q] {
                            Expr::Symbol(sy) => {
                                if j < before_callee {
                                    assert(out@[j] == prev[j]);
                                    assert(out@[j] == n);
                                    assert(expr_contains(
                                        n.args@[q],
                                        NodeKey::SymbolUse(sy.0, sy.1@),
                                    ));
                                    lemma_exprs_contain_elem(
                                        n.args@,
                                        q,
                                        NodeKey::SymbolUse(sy.0, sy.1@),
                                    );
                                } else {
                                    assert(call_arg_symbols_in(*out@[j], *n.callee));
                                }
                            }
                            _ => {}
                        }
                    }
                }
            }
            let mut i: usize = 0;
            while i < n.args.len()
                invariant
                    i <= n.args@.len(),
                    out@.len() > old(out)@.len(),
                    out@.subrange(0, old(out)@.len() as int) == old(out)@,
                    *e == Expr::Call(*n),
                    forall|j: int|
                        old(out)@.len() <= j < out@.len() ==> ((*(*(#[trigger] out@[j])).callee) matches Expr::Symbol(sy) ==> (expr_contains(
                            *e,
                            NodeKey::SymbolUse(sy.0, sy.1@),
                        ) && expr_contains(*e, NodeKey::CallNode((*out@[j]).id)))),
                    forall|j: int|
                        old(out)@.len() <= j < out@.len() ==> call_arg_symbols_in(
                            *(#[trigger] out@[j]),
                            *e,
                        ),
                decreases n.args@.len() - i,
            {
                proof {
                    assert(decreases_to!(*e => e->Call_0));
                    assert(decreases_to!(e->Call_0 => n.args));
                    assert(decreases_to!(n.args => n.args@));
                    assert(decreases_to!(n.args@ => n.args@[i as int]));
                }
                let ghost before_arg = out@.len();
                let ghost prev = out@;
                collect_calls(&n.args[i], out);
                proof {
                    assert(out@.subrange(0, old(out)@.len() as int) =~= prev.subrange(
                        0,
                        old(out)@.len() as int,
                    ));
                    assert forall|j: int| 0 <= j < before_arg implies #[trigger] out@[j]
                        == prev[j] by {
                        assert(out@.subrange(0, before_arg as int)[j] == prev[j]);
                    }
                    assert forall|j: int|
                        before_arg <= j < out@.len() implies ((*(*(#[trigger] out@[j])).callee) matches Expr::Symbol(sy) ==> (expr_contains(
                        *e,
                        NodeKey::SymbolUse(sy.0, sy.1@),
                    ) && expr_contains(*e, NodeKey::CallNode((*out@[j]).id)))) by {
                        match *(*out@[j]).callee {
                            Expr::Symbol(sy) => {
                                if expr_contains(
                                    n.args@[i as int],
                                    NodeKey::SymbolUse(sy.0, sy.1@),
                                ) {
                                    lemma_exprs_contain_elem(
                                        n.args@,
                                        i as int,
                                        NodeKey::SymbolUse(sy.0, sy.1@),
                                    );
                                }
                                if expr_contains(
                                    n.args@[i as int],
                                    NodeKey::CallNode((*out@[j]).id),
                                ) {
                                    lemma_exprs_contain_elem(
                                        n.args@,
                                        i as int,
                                        NodeKey::CallNode((*out@[j]).id),
                                    );
                                }
                            }
                            _ => {}
                        }
                    }
                    assert forall|j: int|
                        before_arg <= j < out@.len() implies call_arg_symbols_in(
                        *(#[trigger] out@[j]),
                        *e,
                    ) by {
                        assert(call_arg_symbols_in(*out@[j], n.args@[i as int]));
                        assert forall|q: int|
                            0 <= q < (*out@[j]).args@.len() implies ((
                        #[trigger] (*out@[j]).args@[q]) matches Expr::Symbol(sy)
                            ==> expr_contains(*e, NodeKey::SymbolUse(sy.0, sy.1@))) by {
                            match (*out@[j]).args@[q] {
                                Expr::Symbol(sy) => {
                                    lemma_exprs_contain_elem(
                                        n.args@,
                                        i as int,
                                        NodeKey::SymbolUse(sy.0, sy.1@),
                                    );
                                }
                                _ => {}
                            }
                        }
                    }
                }
                i = i + 1;
            }
        }
        Expr::Block(n) => {
            let ghost base = out@.len();
            let mut i: usize = 0;
            while i < n.1.len()
                invariant
                    i <= n.1@.len(),
                    *e == Expr::Block(*n),
                    base == old(out)@.len(),
                    out@.len() >= base,
                    out@.subrange(0, base as int) == old(out)@,
                    out@.len() > base ==> expr_contains(*e, NodeKey::SomeCall),
                    forall|j: int|
                        base <= j < out@.len() ==> ((*(*(#[trigger] out@[j])).callee) matches Expr::Symbol(sy) ==> (expr_contains(
                            *e,
                            NodeKey::SymbolUse(sy.0, sy.1@),
                        ) && expr_contains(*e, NodeKey::CallNode((*out@[j]).id)))),
                    forall|j: int|
                        base <= j < out@.len() ==> call_arg_symbols_in(
                            *(#[trigger] out@[j]),
                            *e,
                        ),
                decreases n.1@.len() - i,
            {
                proof {
                    assert(decreases_to!(*e => e->Block_0));
                    assert(decreases_to!(e->Block_0 => n.1));
                    assert(decreases_to!(n.1 => n.1@));
                    assert(decreases_to!(n.1@ => n.1@[i as int]));
                }
                match &n.1[i] {
                    Phrase::Expr(inner) => {
                        proof {
                            assert(decreases_to!(n.1@[i as int] => n.1@[i as int]->Expr_0));
                        }
                        let ghost len_before = out@.len();
                        let ghost prev = out@;
                        collect_calls(inner, out);
                        proof {
                            assert(n.1@[i as int] == Phrase::Expr(*inner));
                            assert(out@.subrange(0, base as int) =~= prev.subrange(
                                0,
                                base as int,
                            ));
                            assert forall|j: int| 0 <= j < len_before implies #[trigger] out@[j]
                                == prev[j] by {
                                assert(out@.subrange(0, len_before as int)[j] == prev[j]);
                            }
                            if out@.len() > len_before {
                                lemma_phrases_contain_elem(n.1@, i as int, NodeKey::SomeCall);
                                assert(block_contains(*n, NodeKey::SomeCall));
                                assert(expr_contains(*e, NodeKey::SomeCall));
                            }
                            assert forall|j: int|
                                len_before <= j < out@.len() implies ((*(*(#[trigger] out@[j])).callee) matches Expr::Symbol(sy) ==> (
                            expr_contains(*e, NodeKey::SymbolUse(sy.0, sy.1@))
                                && expr_contains(
                                *e,
                                NodeKey::CallNode((*out@[j]).id),
                            ))) by {
                                match *(*out@[j]).callee {
                                    Expr::Symbol(sy) => {
                                        lemma_phrases_contain_elem(
                                            n.1@,
                                            i as int,
                                            NodeKey::SymbolUse(sy.0, sy.1@),
                                        );
                                        lemma_phrases_contain_elem(
                                            n.1@,
                                            i as int,
                                            NodeKey::CallNode((*out@[j]).id),
                                        );
                                        assert(block_contains(
                                            *n,
                                            NodeKey::SymbolUse(sy.0, sy.1@),
                                        ));
                                        assert(block_contains(
                                            *n,
                                            NodeKey::CallNode((*out@[j]).id),
                                        ));
                                    }
                                    _ => {}
                                }
                            }
                            assert forall|j: int|
                                len_before <= j < out@.len() implies call_arg_symbols_in(
                                *(#[trigger] out@[j]),
                                *e,
                            ) by {
                                assert(call_arg_symbols_in(*out@[j], *inner));
                                assert forall|q: int|
                                    0 <= q < (*out@[j]).args@.len() implies ((
                                #[trigger] (*out@[j]).args@[q]) matches Expr::Symbol(sy)
                                    ==> expr_contains(
                                    *e,
                                    NodeKey::SymbolUse(sy.0, sy.1@),
                                )) by {
                                    match (*out@[j]).args@[q] {
                                        Expr::Symbol(sy) => {
                                            lemma_phrases_contain_elem(
                                                n.1@,
                                                i as int,
                                                NodeKey::SymbolUse(sy.0, sy.1@),
                                            );
                                            assert(block_contains(
                                                *n,
                                                NodeKey::SymbolUse(sy.0, sy.1@),
                                            ));
                                        }
                                        _ => {}
                                    }
                                }
                            }
                        }
                    }
                }
                i = i + 1;
            }
        }
    }
}

/// Whether the call argument at `ca_i` is a symbol naming the parameter
/// at `an_i`.
pub open spec fn pair_matches(
    arg_names: Seq<ArgDef>,
    call_args: Seq<Expr>,
    an_i: int,
    ca_i: int,
) -> bool {
    &&& 0 <= an_i < arg_names.len()
    &&& 0 <= ca_i < call_args.len()
    &&& call_args[ca_i] matches Expr::Symbol(s) && s.1@ == arg_names[an_i].name@
}

/// For each call argument that is a symbol naming one of the fragment's
/// parameters, the pair of parameter index and argument index.
#[verifier::loop_isolation(false)]
pub fn find_matching_indices(arg_names: &[ArgDef], call_args: &[Expr]) -> (r: Vec<
    (usize, usize),
>)
    ensures
        forall|p: int|
            0 <= p < r@.len() ==> pair_matches(
                arg_names@,
                call_args@,
                #[trigger] r@[p].0 as int,
                r@[p].1 as int,
            ),
        forall|an_i: int, ca_i: int|
            pair_matches(arg_names@, call_args@, an_i, ca_i) ==> r@.contains(
                (an_i as usize, ca_i as usize),
            ),
        forall|p: int, q: int|
            0 <= p < q < r@.len() ==> ((#[trigger] r@[p]).1 < (#[trigger] r@[q]).1 || (r@[p].1
                == r@[q].1 && r@[p].0 < r@[q].0)),
{
    let mut res: Vec<(usize, usize)> = Vec::new();
    let mut ca_i: usize = 0;
    while ca_i < call_args.len()
        invariant
            ca_i <= call_args@.len(),
            forall|p: int|
                0 <= p < res@.len() ==> pair_matches(
                    arg_names@,
                    call_args@,
                    #[trigger] res@[p].0 as int,
                    res@[p].1 as int,
                ),
            forall|an_j: int, ca_j: int|
                ca_j < ca_i && pair_matches(arg_names@, call_args@, an_j, ca_j) ==> res@.contains(
                    (an_j as usize, ca_j as usize),
                ),
            forall|p: int, q: int|
                0 <= p < q < res@.len() ==> ((#[trigger] res@[p]).1 < (#[trigger] res@[q]).1 || (
                res@[p].1 == res@[q].1 && res@[p].0 < res@[q].0)),
            forall|p: int| 0 <= p < res@.len() ==> (#[trigger] res@[p]).1 < ca_i,
        decreases call_args@.len() - ca_i,
    {
        if let Expr::Symbol(sym) = &call_args[ca_i] {
            let mut an_i: usize = 0;
            while an_i < arg_names.len()
                invariant
                    an_i <= arg_names@.len(),
                    call_args@[ca_i as int] matches Expr::Symbol(s) && s.1@ == sym.1@,
                    ca_i < call_args@.len(),
                    forall|p: int|
                        0 <= p < res@.len() ==> pair_matches(
                            arg_names@,
                            call_args@,
                            #[trigger] res@[p].0 as int,
                            res@[p].1 as int,
                        ),
                    forall|an_j: int, ca_j: int|
                        ca_j < ca_i && pair_matches(arg_names@, call_args@, an_j, ca_j)
                            ==> res@.contains((an_j as usize, ca_j as usize)),
                    forall|an_j: int|
                        an_j < an_i && pair_matches(arg_names@, call_args@, an_j, ca_i as int)
                            ==> res@.contains((an_j as usize, ca_i)),
                    forall|p: int, q: int|
                        0 <= p < q < res@.len() ==> ((#[trigger] res@[p]).1 < (
                        #[trigger] res@[q]).1 || (res@[p].1 == res@[q].1 && res@[p].0
                            < res@[q].0)),
                    forall|p: int|
                        0 <= p < res@.len() ==> ((#[trigger] res@[p]).1 < ca_i || (res@[p].1
                            == ca_i && res@[p].0 < an_i)),
                decreases arg_names@.len() - an_i,
            {
                if sym.1 == arg_names[an_i].name {
                    let ghost old_res = res@;
                    res.push((an_i, ca_i));
                    proof {
                        assert(res@[res@.len() - 1] == (an_i, ca_i));
                        assert forall|an_j: int, ca_j: int|
                            ca_j < ca_i && pair_matches(arg_names@, call_args@, an_j, ca_j)
                                implies res@.contains((an_j as usize, ca_j as usize)) by {
                            assert(old_res.contains((an_j as usize, ca_j as usize)));
                            let w = choose|w: int|
                                0 <= w < old_res.len() && old_res[w] == (
                                an_j as usize,
                                ca_j as usize,
                            );
                            assert(res@[w] == (an_j as usize, ca_j as usize));
                        }
                        assert forall|an_j: int|
                            an_j < an_i + 1 && pair_matches(
                                arg_names@,
                                call_args@,
                                an_j,
                                ca_i as int,
                            ) implies res@.contains((an_j as usize, ca_i)) by {
                            if an_j < an_i {
                                assert(old_res.contains((an_j as usize, ca_i)));
                                let w = choose|w: int|
                                    0 <= w < old_res.len() && old_res[w] == (an_j as usize, ca_i);
                                assert(res@[w] == (an_j as usize, ca_i));
                            } else {
                                assert(res@[res@.len() - 1] == (an_j as usize, ca_i));
                            }
                        }
                    }
                }
                an_i = an_i + 1;
            }
        }
        ca_i = ca_i + 1;
    }
    res
}

/// The named binding's callable demands exactly `t` at argument
/// position `q`.
pub open spec fn position_demands(
    env: Seq<Map<Seq<char>, EnvironmentIdentifier>>,
    ti: Map<EnvironmentIdentifier, TypeV>,
    cn: Seq<char>,
    q: int,
    t: TypeV,
) -> bool {
    let cid = scopes_lookup(env, cn);
    &&& cid is Some
    &&& ti.contains_key(cid->0)
    &&& ti[cid->0] is Callable
    &&& ti[cid->0]->Callable_1.nth_arg(q) is Some
    &&& ti[cid->0]->Callable_1.nth_arg(q)->0.concrete_type() == Some(t)
}

/// The type is demanded at some argument position of some callable the
/// environment binds: what mining a call site can assign a parameter.
pub open spec fn demanded_type(
    env: Seq<Map<Seq<char>, EnvironmentIdentifier>>,
    ti: Map<EnvironmentIdentifier, TypeV>,
    t: TypeV,
) -> bool {
    exists|cn: Seq<char>, q: int| position_demands(env, ti, cn, q, t)
}

/// No two parameters share an id.
pub open spec fn distinct_param_ids(s: Seq<ArgDef>) -> bool {
    forall|j1: int, j2: int|
        0 <= j1 < j2 < s.len() ==> (#[trigger] s[j1]).id != (#[trigger] s[j2]).id
}

impl FnFragment {
    /// Infer the fragment's signature: mine the body's call sites for the
    /// concrete types that each parameter must have, then infer the body
    /// under those parameter bindings. A parameter no call site pins down
    /// is reported as unused.
    #[verifier::loop_isolation(false)]
    pub fn infer_types(&self, env: Environment, type_idx: TypeIndex) -> (r: Result<
        (Environment, TypeIndex),
        Error,
    >)
        requires
            env_ti_wf(env@, type_idx@),
            env@.len() >= 1,
        ensures
            r matches Ok(p) ==> {
                &&& infer_ok(env@, type_idx@, p.0@, p.1@, EnvironmentIdentifier::AstId(self.id))
                &&& p.0@ == env@
                &&& p.1@[EnvironmentIdentifier::AstId(self.id)] matches TypeV::Callable(
                    CallableType::FnFragment,
                    sig,
                ) && ({
                    &&& sig.args.len() == self.args@.len()
                    &&& sig.result.concrete_type() is Some
                    &&& (forall|i: int|
                        0 <= i < sig.args.len() ==> (#[trigger] sig.args[i]).concrete_type()
                            is Some)
                })
            },
            r matches Err(er) ==> match er {
                Error::UndefinedSymbol(id, n) => expr_contains(
                    *self.body,
                    NodeKey::SymbolUse(id, n@),
                ),
                Error::NotCallable(id) => expr_contains(*self.body, NodeKey::CallNode(id)),
                Error::UnusedVar(id, n) => argdefs_contain(self.args@, NodeKey::Param(id, n@))
                    || expr_contains(*self.body, NodeKey::Param(id, n@)),
                Error::CallingNonCallable(_) => expr_contains(*self.body, NodeKey::SomeCall),
            },
            r matches Ok(p) ==> (forall|j: int|
                0 <= j < self.args@.len() ==> param_name_used(
                    *self.body,
                    (#[trigger] self.args@[j]).name@,
                )),
            (exists|j: int|
                0 <= j < self.args@.len() && !param_name_used(
                    *self.body,
                    self.args@[j].name@,
                )) ==> r is Err,
            r matches Ok(p) ==> ((*self.body) matches Expr::IntLit(il) ==> (
            p.1@[EnvironmentIdentifier::AstId(self.id)] matches TypeV::Callable(ct2, sg2)
                && sg2.result.concrete_type() == Some(TypeV::integer()))),
            r matches Ok(p) ==> ((*self.body) matches Expr::StrLit(sl2) ==> (
            p.1@[EnvironmentIdentifier::AstId(self.id)] matches TypeV::Callable(ct3, sg3)
                && sg3.result.concrete_type() == Some(TypeV::str()))),
            r matches Ok(p) ==> (forall|k: EnvironmentIdentifier|
                type_idx@.contains_key(k) && untouched_by_expr(Expr::FnFragment(*self), k)
                    ==> #[trigger] p.1@[k] == type_idx@[k]),
            r matches Ok(p) ==> ((distinct_param_ids(self.args@) && (forall|j: int|
                0 <= j < self.args@.len() ==> !expr_contains(
                    *self.body,
                    NodeKey::AnyId((#[trigger] self.args@[j]).id),
                ))) ==> (p.1@[EnvironmentIdentifier::AstId(self.id)] matches TypeV::Callable(
                ct4,
                sg4,
            ) && (forall|j: int|
                0 <= j < sg4.args.len() ==> ((#[trigger] sg4.args[j]).concrete_type() is Some
                    && demanded_type(env@, type_idx@, sg4.args[j].concrete_type()->0))))),
        decreases *self,
    {
        let ghost sep = distinct_param_ids(self.args@) && (forall|j: int|
            0 <= j < self.args@.len() ==> !expr_contains(
                *self.body,
                NodeKey::AnyId((#[trigger] self.args@[j]).id),
            ));
        let mut calls: Vec<&Call> = Vec::new();
        proof {
            assert(decreases_to!(*self => self.body));
        }
        collect_calls(&self.body, &mut calls);

        let mut known: Vec<Option<DataType>> = Vec::new();
        let mut i: usize = 0;
        while i < self.args.len()
            invariant
                known@.len() == i as int,
                i <= self.args@.len(),
                forall|j: int| 0 <= j < i ==> (#[trigger] known@[j]) is None,
            decreases self.args@.len() - i,
        {
            known.push(None);
            i = i + 1;
        }

        let mut c: usize = 0;
        while c < calls.len()
            invariant
                known@.len() == self.args@.len(),
                forall|j: int|
                    0 <= j < known@.len() ==> ((#[trigger] known@[j]) is Some
                        ==> param_name_used(*self.body, self.args@[j].name@)),
                forall|j: int|
                    0 <= j < known@.len() ==> ((#[trigger] known@[j]) is Some
                        ==> demanded_type(env@, type_idx@, known@[j]->0@)),
            decreases calls@.len() - c,
        {
            let call = calls[c];
            proof {
                assert(expr_contains(*self.body, NodeKey::SomeCall));
                assert(call == calls@[c as int]);
            }
            let callee_info: (usize, &String) = match &*call.callee {
                Expr::Symbol(sym) => {
                    proof {
                        assert(*(*calls@[c as int]).callee == Expr::Symbol(*sym));
                        assert(expr_contains(
                            *self.body,
                            NodeKey::SymbolUse(sym.0, sym.1@),
                        ));
                    }
                    (sym.0, &sym.1)
                }
                _ => {
                    return Err(Error::CallingNonCallable(call.id));
                }
            };
            let callee_id = match env.find_entry(callee_info.1) {
                Some(id) => *id,
                None => {
                    return Err(Error::UndefinedSymbol(callee_info.0, callee_info.1.clone()));
                }
            };
            let sig = match type_idx.get(callee_id) {
                Some(DataType::Callable(_, sig)) => sig,
                Some(_) => {
                    return Err(Error::CallingNonCallable(callee_id.raw()));
                }
                None => {
                    return Err(Error::CallingNonCallable(callee_id.raw()));
                }
            };
            proof {
                assert(scopes_lookup(env@, callee_info.1@) == Some(callee_id));
                assert(type_idx@.contains_key(callee_id));
                assert(type_idx@[callee_id] matches TypeV::Callable(ct0, sg0) && sg0
                    == signature_view(**sig));
            }
            let indices = find_matching_indices(self.args.as_slice(), call.args.as_slice());
            let mut p: usize = 0;
            while p < indices.len()
                invariant
                    known@.len() == self.args@.len(),
                    forall|q: int|
                        0 <= q < indices@.len() ==> (#[trigger] indices@[q]).0
                            < self.args@.len(),
                    forall|j: int|
                        0 <= j < known@.len() ==> ((#[trigger] known@[j]) is Some
                            ==> param_name_used(*self.body, self.args@[j].name@)),
                    forall|j: int|
                        0 <= j < known@.len() ==> ((#[trigger] known@[j]) is Some
                            ==> demanded_type(env@, type_idx@, known@[j]->0@)),
                decreases indices@.len() - p,
            {
                let (a_i, ca_i) = indices[p];
                proof {
                    assert(indices@[p as int] == (a_i, ca_i));
                    assert(pair_matches(self.args@, call.args@, a_i as int, ca_i as int));
                    assert(call_arg_symbols_in(*calls@[c as int], *self.body));
                    match call.args@[ca_i as int] {
                        Expr::Symbol(sy) => {
                            assert(expr_contains(*self.body, NodeKey::SymbolUse(sy.0, sy.1@)));
                            assert(sy.1@ == self.args@[a_i as int].name@);
                            assert(param_name_used(*self.body, self.args@[a_i as int].name@));
                        }
                        _ => {}
                    }
                }
                match sig.get_nth_arg(ca_i) {
                    Some(ts) => {
                        match ts.concrete_type() {
                            Some(t) => {
                                let t2 = t.duplicate();
                                proof {
                                    assert(position_demands(
                                        env@,
                                        type_idx@,
                                        callee_info.1@,
                                        ca_i as int,
                                        t2@,
                                    ));
                                    assert(demanded_type(env@, type_idx@, t2@));
                                }
                                known.set(a_i, Some(t2));
                            }
                            None => {}
                        }
                    }
                    None => {}
                }
                p = p + 1;
            }
            c = c + 1;
        }

        let mut env_for_body = env.duplicate();
        let mut ti_for_body = type_idx.duplicate();
        let mut i: usize = 0;
        while i < self.args.len()
            invariant
                known@.len() == self.args@.len(),
                i <= self.args@.len(),
                env_ti_wf(env_for_body@, ti_for_body@),
                env_for_body@.len() == env@.len(),
                ti_extends(ti_for_body@, type_idx@),
                forall|j: int|
                    0 <= j < i ==> ti_for_body@.contains_key(
                        EnvironmentIdentifier::AstId(#[trigger] self.args@[j].id),
                    ),
                forall|j: int|
                    0 <= j < known@.len() ==> ((#[trigger] known@[j]) is Some
                        ==> param_name_used(*self.body, self.args@[j].name@)),
                forall|j: int|
                    0 <= j < i ==> param_name_used(
                        *self.body,
                        (#[trigger] self.args@[j]).name@,
                    ),
                forall|j: int| 0 <= j < i ==> (#[trigger] known@[j]) is Some,
                sep ==> (forall|j: int|
                    0 <= j < i ==> ti_for_body@[EnvironmentIdentifier::AstId(
                        (#[trigger] self.args@[j]).id,
                    )] == known@[j]->0@),
            decreases self.args@.len() - i,
        {
            let arg_def = &self.args[i];
            let t = match &known[i] {
                Some(t) => t.duplicate(),
                None => {
                    proof {
                        lemma_argdefs_contain_elem(
                            self.args@,
                            i as int,
                            NodeKey::Param(arg_def.id, arg_def.name@),
                        );
                    }
                    return Err(Error::UnusedVar(arg_def.id, arg_def.name.clone()));
                }
            };
            proof {
                assert(t@ == known@[i as int]->0@);
                if sep {
                    assert forall|j: int|
                        0 <= j < i implies self.args@[j].id != self.args@[i as int].id by {
                        assert(distinct_param_ids(self.args@));
                    }
                }
            }
            ti_for_body.insert(EnvironmentIdentifier::AstId(arg_def.id), t);
            let ghost env0 = env_for_body@;
            env_for_body.add_entry(
                arg_def.name.clone(),
                EnvironmentIdentifier::AstId(arg_def.id),
            );
            proof {
                let e2 = env_for_body@;
                assert forall|k: Seq<char>|
                    (#[trigger] scopes_lookup(e2, k)) is Some implies ti_for_body@.contains_key(
                    scopes_lookup(e2, k)->0,
                ) by {
                    if k != self.args@[i as int].name@ {
                        lemma_lookup_after_last_insert(
                            env0,
                            self.args@[i as int].name@,
                            EnvironmentIdentifier::AstId(self.args@[i as int].id),
                            k,
                        );
                    }
                }
                assert(env_ti_wf(e2, ti_for_body@));
            }
            i = i + 1;
        }

        proof {
            assert(decreases_to!(*self => self.body));
        }
        let ghost tib = ti_for_body@;
        let body_res = match self.body.infer_types(env_for_body, ti_for_body) {
            Ok(p) => p.1,
            Err(e) => {
                return Err(e);
            }
        };
        proof {
            if sep {
                assert forall|j: int|
                    0 <= j < self.args@.len() implies body_res@[EnvironmentIdentifier::AstId(
                    (#[trigger] self.args@[j]).id,
                )] == known@[j]->0@ by {
                    let k = EnvironmentIdentifier::AstId(self.args@[j].id);
                    assert(tib.contains_key(k));
                    assert(untouched_by_expr(*self.body, k));
                    assert(body_res@[k] == tib[k]);
                }
            }
        }
        let res_type = match body_res.get(self.body.get_id()) {
            Some(t) => t.duplicate(),
            None => {
                // The body just inferred put its id in the index.
                proof {
                    assert(false);
                }
                return Err(Error::NotCallable(0));
            }
        };

        let mut arg_type_vec: Vec<TypeSet> = Vec::new();
        let mut i: usize = 0;
        while i < self.args.len()
            invariant
                i <= self.args@.len(),
                arg_type_vec@.len() == i as int,
                forall|j: int|
                    0 <= j < i ==> (#[trigger] arg_type_vec@[j]@).concrete_type() is Some,
                sep ==> (forall|j: int|
                    0 <= j < i ==> demanded_type(
                        env@,
                        type_idx@,
                        (#[trigger] arg_type_vec@[j]@).concrete_type()->0,
                    )),
            decreases self.args@.len() - i,
        {
            let t = match body_res.get(self.args[i].get_id()) {
                Some(t) => t.duplicate(),
                None => {
                    proof {
                        lemma_argdefs_contain_elem(
                            self.args@,
                            i as int,
                            NodeKey::Param(self.args@[i as int].id, self.args@[i as int].name@),
                        );
                    }
                    return Err(Error::UnusedVar(self.args[i].id, self.args[i].name.clone()));
                }
            };
            let ts = TypeSet::of_type(t);
            proof {
                assert(ts@.concrete_type() is Some);
                if sep {
                    assert(t@ == body_res@[EnvironmentIdentifier::AstId(
                        self.args@[i as int].id,
                    )]);
                    assert(t@ == known@[i as int]->0@);
                    assert(demanded_type(env@, type_idx@, t@));
                    assert(ts@.concrete_type() == Some(t@));
                }
            }
            arg_type_vec.push(ts);
            i = i + 1;
        }

        let ghost atv = arg_type_vec@;
        let sig = Signature::new().args(arg_type_vec).result(TypeSet::of_type(res_type));
        let ghost sigv = sig@;
        let my_type = DataType::Callable(CallableType::FnFragment, Box::new(sig));
        let mut ti = type_idx;
        ti.insert(EnvironmentIdentifier::AstId(self.id), my_type);
        proof {
            crate::types::lemma_type_set_views_len(atv);
            assert(sigv.args.len() == self.args@.len());
            assert forall|i: int|
                0 <= i < sigv.args.len() implies (#[trigger] sigv.args[i]).concrete_type()
                is Some by {
                crate::types::lemma_type_set_views_index(atv, i);
                assert(atv[i]@.concrete_type() is Some);
            }
            assert(ti@[EnvironmentIdentifier::AstId(self.id)] == TypeV::Callable(
                CallableType::FnFragment,
                sigv,
            ));
            assert forall|k: Seq<char>|
                (#[trigger] scopes_lookup(env@, k)) is Some implies ti@.contains_key(
                scopes_lookup(env@, k)->0,
            ) by {}
            assert(env_ti_wf(env@, ti@));
            if sep {
                assert forall|j: int|
                    0 <= j < sigv.args.len() implies ((#[trigger] sigv.args[j]).concrete_type()
                    is Some && demanded_type(
                    env@,
                    type_idx@,
                    sigv.args[j].concrete_type()->0,
                )) by {
                    crate::types::lemma_type_set_views_index(atv, j);
                    assert(atv[j]@.concrete_type() is Some);
                    assert(demanded_type(env@, type_idx@, atv[j]@.concrete_type()->0));
                }
            }
            match &*self.body {
                Expr::IntLit(il) => {
                    assert(res_type@ == TypeV::integer());
                    assert(sigv.result.concrete_type() == Some(TypeV::integer()));
                }
                Expr::StrLit(sl2) => {
                    assert(res_type@ == TypeV::str());
                    assert(sigv.result.concrete_type() == Some(TypeV::str()));
                }
                _ => {}
            }
        }
        Ok((env, ti))
    }
}

/// The environment and type index holding the built-ins, as every
/// compilation starts from them.
pub fn inference_start() -> (r: (Environment, TypeIndex))
    ensures
        r.0@.len() == 1,
        r.0@[0] =~= Map::<Seq<char>, EnvironmentIdentifier>::empty().insert(
            "exec"@,
            EnvironmentIdentifier::BuiltIn(0),
        ).insert("strcat"@, EnvironmentIdentifier::BuiltIn(1)),
        r.1@ =~= Map::<EnvironmentIdentifier, TypeV>::empty().insert(
            EnvironmentIdentifier::BuiltIn(0),
            TypeV::Callable(CallableType::Builtin, exec_signature()),
        ).insert(
            EnvironmentIdentifier::BuiltIn(1),
            TypeV::Callable(CallableType::Builtin, strcat_signature()),
        ),
        env_ti_wf(r.0@, r.1@),
{
    let mut env: Environment = Scopes::new();
    let mut ti = TypeIndex::new();
    let names = built_in_names();
    let sig0 = builtin_signature(0).unwrap();
    env.add_entry(names[0].clone(), EnvironmentIdentifier::BuiltIn(0));
    ti.insert(
        EnvironmentIdentifier::BuiltIn(0),
        DataType::Callable(CallableType::Builtin, Box::new(sig0)),
    );
    let sig1 = builtin_signature(1).unwrap();
    env.add_entry(names[1].clone(), EnvironmentIdentifier::BuiltIn(1));
    ti.insert(
        EnvironmentIdentifier::BuiltIn(1),
        DataType::Callable(CallableType::Builtin, Box::new(sig1)),
    );
    let r = (env, ti);
    proof {
        assert(r.0@[0] =~= Map::<Seq<char>, EnvironmentIdentifier>::empty().insert(
            "exec"@,
            EnvironmentIdentifier::BuiltIn(0),
        ).insert("strcat"@, EnvironmentIdentifier::BuiltIn(1)));
        assert(r.1@ =~= Map::<EnvironmentIdentifier, TypeV>::empty().insert(
            EnvironmentIdentifier::BuiltIn(0),
            TypeV::Callable(CallableType::Builtin, exec_signature()),
        ).insert(
            EnvironmentIdentifier::BuiltIn(1),
            TypeV::Callable(CallableType::Builtin, strcat_signature()),
        ));
        assert forall|k: Seq<char>|
            (#[trigger] scopes_lookup(r.0@, k)) is Some implies r.1@.contains_key(
            scopes_lookup(r.0@, k)->0,
        ) by {
            assert(r.0@.len() == 1);
            let m = r.0@[0];
            if m.contains_key(k) {
                assert(k == "strcat"@ || k == "exec"@);
                assert(scopes_lookup(r.0@, k) == Some(m[k]));
            } else {
                assert(r.0@.subrange(0, 0) =~= Seq::<Map<Seq<char>, EnvironmentIdentifier>>::empty());
                assert(scopes_lookup(
                    Seq::<Map<Seq<char>, EnvironmentIdentifier>>::empty(),
                    k,
                ) is None);
                assert(scopes_lookup(r.0@, k) == scopes_lookup(r.0@.subrange(0, 0), k));
            }
        }
        assert(env_ti_wf(r.0@, r.1@));
    }
    r
}

} // verus!
