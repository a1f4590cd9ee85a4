//! The compile-time type language: stack types, heap types, callable
//! signatures, and type sets used as templates for arguments.
//!
//! Every executable type here has a mathematical model (`TypeV`,
//! `SignatureV`, `TypeSetV`), reached through the `View` trait; all
//! contracts are stated over those models.

use vstd::prelude::*;

verus! {

/// A type as the compiler sees it: either a value that lives on the stack,
/// a value that lives on the heap, or something callable.
#[derive(Debug)]
pub enum DataType {
    HeapType(HeapType),
    StackType(StackType),
    Callable(CallableType, Box<Signature>),
}

/// Types whose values live on the heap at run time.
#[derive(Debug)]
pub enum HeapType {
    Str,
    Keyword,
    Vec(Box<DataType>),
    Dict(Box<DataType>, Box<DataType>),
    SetOf(Box<DataType>),
}

/// The two kinds of callables.
#[derive(Debug, Clone, Copy, PartialEq, Eq, Structural)]
pub enum CallableType {
    FnFragment,
    Builtin,
}

/// Types whose values fit on the stack by value.
#[derive(Debug, Clone, Copy, PartialEq, Eq, Structural)]
pub enum StackType {
    Int,
    Float,
    Bool,
    Unit,
}

/// A callable's signature: one type set per fixed argument, an optional
/// variadic type set, and a result type set.
#[derive(Debug)]
pub struct Signature {
    pub args: Vec<TypeSet>,
    pub result: TypeSet,
    pub var_arg: Option<TypeSet>,
}

/// A template that a type either fits or does not: the universe of all
/// types, or a finite collection of types.
#[derive(Debug)]
pub enum TypeSet {
    SomeTypes(Vec<DataType>),
    AllTypes,
}

/// Model of a `DataType`.
pub enum TypeV {
    Heap(HeapTypeV),
    Stack(StackType),
    Callable(CallableType, SignatureV),
}

/// Model of a `HeapType`.
pub enum HeapTypeV {
    Str,
    Keyword,
    Vec(Box<TypeV>),
    Dict(Box<TypeV>, Box<TypeV>),
    SetOf(Box<TypeV>),
}

/// Model of a `Signature`.
#[verifier::ext_equal]
pub struct SignatureV {
    pub args: Seq<TypeSetV>,
    pub result: TypeSetV,
    pub var_arg: Option<TypeSetV>,
}

/// Model of a `TypeSet`. The collection is a sequence only to be
/// representable; contracts speak of membership, never of positions.
#[verifier::ext_equal]
pub enum TypeSetV {
    SomeTypes(Seq<TypeV>),
    AllTypes,
}

/// The model of a `DataType`.
pub open spec fn type_view(t: DataType) -> TypeV
    decreases t,
{
    match t {
        DataType::HeapType(h) => TypeV::Heap(heap_type_view(h)),
        DataType::StackType(s) => TypeV::Stack(s),
        DataType::Callable(c, sig) => TypeV::Callable(c, signature_view(*sig)),
    }
}

/// The model of a `HeapType`.
pub open spec fn heap_type_view(h: HeapType) -> HeapTypeV
    decreases h,
{
    match h {
        HeapType::Str => HeapTypeV::Str,
        HeapType::Keyword => HeapTypeV::Keyword,
        HeapType::Vec(t) => HeapTypeV::Vec(Box::new(type_view(*t))),
        HeapType::Dict(k, v) => HeapTypeV::Dict(Box::new(type_view(*k)), Box::new(type_view(*v))),
        HeapType::SetOf(t) => HeapTypeV::SetOf(Box::new(type_view(*t))),
    }
}

/// The models of a sequence of `DataType`s, pointwise.
pub open spec fn type_views(v: Seq<DataType>) -> Seq<TypeV>
    decreases v,
{
    if v.len() == 0 {
        Seq::empty()
    } else {
        type_views(v.subrange(0, v.len() - 1)).push(type_view(v[v.len() - 1]))
    }
}

/// The models of a sequence of `TypeSet`s, pointwise.
pub open spec fn type_set_views(v: Seq<TypeSet>) -> Seq<TypeSetV>
    decreases v,
{
    if v.len() == 0 {
        Seq::empty()
    } else {
        type_set_views(v.subrange(0, v.len() - 1)).push(type_set_view(v[v.len() - 1]))
    }
}

/// The model of a `Signature`.
pub open spec fn signature_view(s: Signature) -> SignatureV
    decreases s,
{
    SignatureV {
        args: type_set_views(s.args@),
        result: type_set_view(s.result),
        var_arg: match s.var_arg {
            Some(v) => Some(type_set_view(v)),
            None => None,
        },
    }
}

/// The model of a `TypeSet`.
pub open spec fn type_set_view(ts: TypeSet) -> TypeSetV
    decreases ts,
{
    match ts {
        TypeSet::SomeTypes(v) => TypeSetV::SomeTypes(type_views(v@)),
        TypeSet::AllTypes => TypeSetV::AllTypes,
    }
}

/// A pointwise type-sequence model has the length of its carrier.
pub broadcast proof fn lemma_type_views_len(v: Seq<DataType>)
    ensures
        #[trigger] type_views(v).len() == v.len(),
    decreases v,
{
    if v.len() > 0 {
        lemma_type_views_len(v.subrange(0, v.len() - 1));
    }
}

/// A pointwise type-sequence model holds the model of each element.
pub broadcast proof fn lemma_type_views_index(v: Seq<DataType>, i: int)
    requires
        0 <= i < v.len(),
    ensures
        #[trigger] type_views(v)[i] == type_view(v[i]),
    decreases v,
{
    lemma_type_views_len(v);
    if v.len() > 0 && i < v.len() - 1 {
        lemma_type_views_index(v.subrange(0, v.len() - 1), i);
    }
}

/// A pointwise type-set-sequence model has the length of its carrier.
pub broadcast proof fn lemma_type_set_views_len(v: Seq<TypeSet>)
    ensures
        #[trigger] type_set_views(v).len() == v.len(),
    decreases v,
{
    if v.len() > 0 {
        lemma_type_set_views_len(v.subrange(0, v.len() - 1));
    }
}

/// A pointwise type-set-sequence model holds the model of each element.
pub broadcast proof fn lemma_type_set_views_index(v: Seq<TypeSet>, i: int)
    requires
        0 <= i < v.len(),
    ensures
        #[trigger] type_set_views(v)[i] == type_set_view(v[i]),
    decreases v,
{
    lemma_type_set_views_len(v);
    if v.len() > 0 && i < v.len() - 1 {
        lemma_type_set_views_index(v.subrange(0, v.len() - 1), i);
    }
}

impl View for DataType {
    type V = TypeV;

    open spec fn view(&self) -> TypeV {
        type_view(*self)
    }
}

impl View for HeapType {
    type V = HeapTypeV;

    open spec fn view(&self) -> HeapTypeV {
        heap_type_view(*self)
    }
}

impl View for Signature {
    type V = SignatureV;

    open spec fn view(&self) -> SignatureV {
        signature_view(*self)
    }
}

impl View for TypeSet {
    type V = TypeSetV;

    open spec fn view(&self) -> TypeSetV {
        type_set_view(*self)
    }
}

impl TypeV {
    /// The string type, as a model value.
    pub open spec fn str() -> TypeV {
        TypeV::Heap(HeapTypeV::Str)
    }

    /// The unit type, as a model value.
    pub open spec fn unit() -> TypeV {
        TypeV::Stack(StackType::Unit)
    }

    /// The integer type, as a model value.
    pub open spec fn integer() -> TypeV {
        TypeV::Stack(StackType::Int)
    }
}

impl TypeSetV {
    /// Whether the type `t` fits this template.
    pub open spec fn accepts(self, t: TypeV) -> bool {
        match self {
            TypeSetV::SomeTypes(ts) => ts.contains(t),
            TypeSetV::AllTypes => true,
        }
    }

    /// Whether this template denotes exactly the single type `t`.
    pub open spec fn is_singleton(self, t: TypeV) -> bool {
        self matches TypeSetV::SomeTypes(ts) && ts =~= seq![t]
    }

    /// If this template denotes a single type, that type.
    pub open spec fn concrete_type(self) -> Option<TypeV> {
        match self {
            TypeSetV::SomeTypes(ts) => if ts.len() == 1 {
                Some(ts[0])
            } else {
                None
            },
            TypeSetV::AllTypes => None,
        }
    }
}

impl SignatureV {
    /// Whether a list of argument types fits this signature: each fixed
    /// position is checked pairwise, and the remainder must fit the
    /// variadic type set, or be absent when there is none. Fixed positions
    /// beyond the end of a short argument list are not checked.
    pub open spec fn satisfied_by(self, args: Seq<TypeV>) -> bool {
        &&& (forall|i: int|
            0 <= i < args.len() && i < self.args.len() ==> #[trigger] self.args[i].accepts(
                args[i],
            ))
        &&& match self.var_arg {
            Some(vs) => forall|i: int|
                self.args.len() <= i < args.len() ==> #[trigger] vs.accepts(args[i]),
            None => args.len() <= self.args.len(),
        }
    }

    /// The type set an argument at position `n` must fit: a fixed
    /// position's set, or the variadic set past the end of the fixed list.
    pub open spec fn nth_arg(self, n: int) -> Option<TypeSetV> {
        if 0 <= n < self.args.len() {
            Some(self.args[n])
        } else {
            self.var_arg
        }
    }
}

impl DataType {
    /// Structural copy; spelled out because the type is recursive.
    pub fn duplicate(&self) -> (r: DataType)
        ensures
            r@ == self@,
        decreases *self,
    {
        match self {
            DataType::HeapType(h) => DataType::HeapType(h.duplicate()),
            DataType::StackType(s) => DataType::StackType(*s),
            DataType::Callable(c, sig) => DataType::Callable(*c, Box::new(sig.duplicate())),
        }
    }

    /// Equality test on the models; spelled out because the type is
    /// recursive.
    pub fn deep_eq(&self, other: &DataType) -> (r: bool)
        ensures
            r <==> (self@ == other@),
        decreases *self,
    {
        match (self, other) {
            (DataType::HeapType(a), DataType::HeapType(b)) => a.deep_eq(b),
            (DataType::StackType(a), DataType::StackType(b)) => a == b,
            (DataType::Callable(c1, s1), DataType::Callable(c2, s2)) => {
                c1 == c2 && s1.deep_eq(s2)
            }
            _ => false,
        }
    }

    /// A vector type holding elements of `self`.
    pub fn vec(self) -> (r: Self)
        ensures
            r@ == TypeV::Heap(HeapTypeV::Vec(Box::new(self@))),
    {
        Self::HeapType(HeapType::Vec(Box::new(self)))
    }

    /// The string type.
    pub fn str() -> (r: Self)
        ensures
            r@ == TypeV::str(),
    {
        Self::HeapType(HeapType::Str)
    }

    /// The unit type.
    pub fn unit() -> (r: Self)
        ensures
            r@ == TypeV::unit(),
    {
        Self::StackType(StackType::Unit)
    }

    /// The integer type.
    pub fn integer() -> (r: Self)
        ensures
            r@ == TypeV::integer(),
    {
        Self::StackType(StackType::Int)
    }

    /// If `self` is callable, its result type set.
    pub fn try_get_return_type(&self) -> (r: Option<TypeSet>)
        ensures
            match r {
                Some(ts) => self@ matches TypeV::Callable(_, sig) && sig.result == ts@,
                None => !(self@ is Callable),
            },
    {
        match self {
            Self::Callable(_, sig) => Some(sig.result.duplicate()),
            _ => None,
        }
    }
}

impl HeapType {
    /// Structural copy.
    pub fn duplicate(&self) -> (r: HeapType)
        ensures
            r@ == self@,
        decreases *self,
    {
        match self {
            HeapType::Str => HeapType::Str,
            HeapType::Keyword => HeapType::Keyword,
            HeapType::Vec(t) => HeapType::Vec(Box::new(t.duplicate())),
            HeapType::Dict(k, v) => HeapType::Dict(Box::new(k.duplicate()), Box::new(v.duplicate())),
            HeapType::SetOf(t) => HeapType::SetOf(Box::new(t.duplicate())),
        }
    }

    /// Equality test on the models.
    pub fn deep_eq(&self, other: &HeapType) -> (r: bool)
        ensures
            r <==> (self@ == other@),
        decreases *self,
    {
        match (self, other) {
            (HeapType::Str, HeapType::Str) => true,
            (HeapType::Keyword, HeapType::Keyword) => true,
            (HeapType::Vec(a), HeapType::Vec(b)) => a.deep_eq(b),
            (HeapType::Dict(k1, v1), HeapType::Dict(k2, v2)) => k1.deep_eq(k2) && v1.deep_eq(v2),
            (HeapType::SetOf(a), HeapType::SetOf(b)) => a.deep_eq(b),
            _ => false,
        }
    }
}

impl Signature {
    /// Structural copy.
    #[verifier::loop_isolation(false)]
    pub fn duplicate(&self) -> (r: Signature)
        ensures
            r@ == self@,
        decreases *self,
    {
        let mut args: Vec<TypeSet> = Vec::new();
        let mut i: usize = 0;
        while i < self.args.len()
            invariant
                i <= self.args.len(),
                args@.len() == i as int,
                forall|j: int| 0 <= j < i ==> #[trigger] args@[j]@ == self.args@[j]@,
            decreases self.args.len() - i,
        {
            proof {
                assert(decreases_to!(*self => self.args));
                assert(decreases_to!(self.args => self.args@));
                assert(decreases_to!(self.args@ => self.args@[i as int]));
            }
            args.push(self.args[i].duplicate());
            i = i + 1;
        }
        let var_arg = match &self.var_arg {
            Some(v) => Some(v.duplicate()),
            None => None,
        };
        let r = Signature { args, result: self.result.duplicate(), var_arg };
        proof {
            lemma_type_set_views_len(args@);
            lemma_type_set_views_len(self.args@);
            assert forall|j: int| 0 <= j < args@.len() implies r@.args[j] == self@.args[j] by {
                lemma_type_set_views_index(args@, j);
                lemma_type_set_views_index(self.args@, j);
                assert(r.args@ == args@);
                assert(r@.args == type_set_views(args@));
                assert(r@.args[j] == type_set_view(args@[j]));
                assert(args@[j]@ == self.args@[j]@);
                assert(self@.args[j] == type_set_view(self.args@[j]));
            }
            assert(r@.args =~= self@.args);
            assert(r@ =~= self@);
        }
        r
    }

    /// Equality test on the models.
    #[verifier::loop_isolation(false)]
    pub fn deep_eq(&self, other: &Signature) -> (r: bool)
        ensures
            r <==> (self@ == other@),
        decreases *self,
    {
        if self.args.len() != other.args.len() {
            proof {
                lemma_type_set_views_len(self.args@);
                lemma_type_set_views_len(other.args@);
                assert(self@.args.len() != other@.args.len());
            }
            return false;
        }
        let mut i: usize = 0;
        while i < self.args.len()
            invariant
                i <= self.args.len(),
                self.args@.len() == other.args@.len(),
                forall|j: int| 0 <= j < i ==> #[trigger] self.args@[j]@ == other.args@[j]@,
            decreases self.args.len() - i,
        {
            proof {
                assert(decreases_to!(*self => self.args));
                assert(decreases_to!(self.args => self.args@));
                assert(decreases_to!(self.args@ => self.args@[i as int]));
            }
            if !self.args[i].deep_eq(&other.args[i]) {
                proof {
                    lemma_type_set_views_index(self.args@, i as int);
                    lemma_type_set_views_index(other.args@, i as int);
                    assert(self.args@[i as int]@ != other.args@[i as int]@);
                    assert(self@.args[i as int] != other@.args[i as int]);
                }
                return false;
            }
            i = i + 1;
        }
        proof {
            lemma_type_set_views_len(self.args@);
            lemma_type_set_views_len(other.args@);
            assert forall|j: int| 0 <= j < self.args@.len() implies self@.args[j] == other@.args[j] by {
                lemma_type_set_views_index(self.args@, j);
                lemma_type_set_views_index(other.args@, j);
                assert(self.args@[j]@ == other.args@[j]@);
            }
            assert(self@.args =~= other@.args);
        }
        let vars_eq = match (&self.var_arg, &other.var_arg) {
            (None, None) => true,
            (Some(a), Some(b)) => a.deep_eq(b),
            _ => false,
        };
        let r = vars_eq && self.result.deep_eq(&other.result);
        proof {
            if r {
                assert(self@ =~= other@);
            }
        }
        r
    }

    /// An empty signature: no arguments, unit result, no variadic part.
    pub fn new() -> (r: Self)
        ensures
            r@.args.len() == 0,
            r@.result.is_singleton(TypeV::unit()),
            r@.var_arg is None,
    {
        Self { args: Vec::new(), result: TypeSet::of_type(DataType::unit()), var_arg: None }
    }

    /// Replace the argument list.
    pub fn args(self, args: Vec<TypeSet>) -> (r: Self)
        ensures
            r@ == (SignatureV { args: type_set_views(args@), ..self@ }),
    {
        let ghost av = args@;
        let r = Self { args, ..self };
        proof {
            assert(r@ =~= (SignatureV { args: type_set_views(av), ..self@ }));
        }
        r
    }

    /// Replace the argument list with a single argument.
    pub fn arg(self, arg: TypeSet) -> (r: Self)
        ensures
            r@.args =~= seq![arg@],
            r@.result == self@.result,
            r@.var_arg == self@.var_arg,
    {
        let ghost av = arg@;
        let mut args: Vec<TypeSet> = Vec::new();
        args.push(arg);
        let r = Self { args, ..self };
        proof {
            lemma_type_set_views_len(r.args@);
            lemma_type_set_views_index(r.args@, 0);
            assert(r@.args =~= seq![av]);
        }
        r
    }

    /// Replace the result type set.
    pub fn result(self, result: TypeSet) -> (r: Self)
        ensures
            r@ == (SignatureV { result: result@, ..self@ }),
    {
        let r = Self { result, ..self };
        proof {
            assert(r@ =~= (SignatureV { result: r.result@, ..self@ }));
        }
        r
    }

    /// Set the variadic type set.
    pub fn variadic(self, var_arg: TypeSet) -> (r: Self)
        ensures
            r@ == (SignatureV { var_arg: Some(var_arg@), ..self@ }),
    {
        let r = Self { var_arg: Some(var_arg), ..self };
        proof {
            assert(r@ =~= (SignatureV { var_arg: Some(var_arg@), ..self@ }));
        }
        r
    }

    /// Whether the given argument types fit this signature.
    #[verifier::loop_isolation(false)]
    pub fn is_sattisfied_by(&self, args: &Vec<DataType>) -> (r: bool)
        ensures
            r <==> self@.satisfied_by(type_views(args@)),
    {
        proof {
            lemma_type_set_views_len(self.args@);
            lemma_type_views_len(args@);
        }
        let mut i: usize = 0;
        let fixed = if self.args.len() < args.len() {
            self.args.len()
        } else {
            args.len()
        };
        while i < fixed
            invariant
                i <= fixed,
                fixed == vstd::math::min(self.args@.len() as int, args@.len() as int),
                forall|j: int| 0 <= j < i ==> #[trigger] self@.args[j].accepts(type_views(args@)[j]),
            decreases fixed - i,
        {
            proof {
                lemma_type_set_views_index(self.args@, i as int);
                lemma_type_views_index(args@, i as int);
            }
            if !self.args[i].is_sattisfied_by(&args[i]) {
                return false;
            }
            i = i + 1;
        }
        match &self.var_arg {
            Some(vs) => {
                let mut j: usize = self.args.len();
                if j > args.len() {
                    return true;
                }
                while j < args.len()
                    invariant
                        self.args@.len() <= j <= args@.len(),
                        self.var_arg matches Some(v) && v@ == vs@,
                        self@.var_arg == Some(vs@),
                        forall|k: int|
                            self.args@.len() <= k < j ==> #[trigger] vs@.accepts(
                                type_views(args@)[k],
                            ),
                        forall|k: int|
                            0 <= k < args@.len() && k < self.args@.len()
                                ==> #[trigger] self@.args[k].accepts(type_views(args@)[k]),
                    decreases args.len() - j,
                {
                    proof {
                        lemma_type_views_index(args@, j as int);
                    }
                    if !vs.is_sattisfied_by(&args[j]) {
                        return false;
                    }
                    j = j + 1;
                }
                true
            }
            None => args.len() <= self.args.len(),
        }
    }

    /// The type set an argument at position `n` must fit.
    pub fn get_nth_arg(&self, n: usize) -> (r: Option<&TypeSet>)
        ensures
            match r {
                Some(ts) => self@.nth_arg(n as int) == Some(ts@),
                None => self@.nth_arg(n as int) is None,
            },
    {
        proof {
            lemma_type_set_views_len(self.args@);
            if n < self.args@.len() {
                lemma_type_set_views_index(self.args@, n as int);
            }
        }
        if n < self.args.len() {
            Some(&self.args[n])
        } else {
            self.var_arg.as_ref()
        }
    }
}

impl TypeSet {
    /// Structural copy.
    #[verifier::loop_isolation(false)]
    pub fn duplicate(&self) -> (r: TypeSet)
        ensures
            r@ == self@,
        decreases *self,
    {
        match self {
            TypeSet::AllTypes => TypeSet::AllTypes,
            TypeSet::SomeTypes(ts) => {
                let mut out: Vec<DataType> = Vec::new();
                let mut i: usize = 0;
                while i < ts.len()
                    invariant
                        *self == TypeSet::SomeTypes(*ts),
                        i <= ts.len(),
                        out@.len() == i as int,
                        forall|j: int| 0 <= j < i ==> #[trigger] out@[j]@ == ts@[j]@,
                    decreases ts.len() - i,
                {
                    proof {
                        assert(decreases_to!(*self => self->SomeTypes_0));
                        assert(decreases_to!(self->SomeTypes_0 => ts@));
                        assert(decreases_to!(ts@ => ts@[i as int]));
                    }
                    out.push(ts[i].duplicate());
                    i = i + 1;
                }
                let r = TypeSet::SomeTypes(out);
                proof {
                    lemma_type_views_len(out@);
                    lemma_type_views_len(ts@);
                    assert forall|j: int| 0 <= j < out@.len() implies r@->SomeTypes_0[j]
                        == self@->SomeTypes_0[j] by {
                        assert(r@ == TypeSetV::SomeTypes(type_views(out@)));
                        assert(*self == TypeSet::SomeTypes(*ts));
                        assert(self@ == TypeSetV::SomeTypes(type_views(ts@)));
                        assert(out@.len() == ts@.len());
                        lemma_type_views_index(out@, j);
                        lemma_type_views_index(ts@, j);
                        assert(out@[j]@ == ts@[j]@);
                    }
                    assert(r@->SomeTypes_0 =~= self@->SomeTypes_0);
                    assert(r@ =~= self@);
                }
                r
            }
        }
    }

    /// Equality test on the models. Equality of the underlying sequences,
    /// not of the sets they denote: all callers build type sets in a fixed
    /// order.
    #[verifier::loop_isolation(false)]
    pub fn deep_eq(&self, other: &TypeSet) -> (r: bool)
        ensures
            r <==> (self@ == other@),
        decreases *self,
    {
        match (self, other) {
            (TypeSet::AllTypes, TypeSet::AllTypes) => true,
            (TypeSet::SomeTypes(a), TypeSet::SomeTypes(b)) => {
                if a.len() != b.len() {
                    proof {
                        lemma_type_views_len(a@);
                        lemma_type_views_len(b@);
                        assert(self@->SomeTypes_0.len() != other@->SomeTypes_0.len());
                    }
                    return false;
                }
                let mut i: usize = 0;
                while i < a.len()
                    invariant
                        *self == TypeSet::SomeTypes(*a),
                        *other == TypeSet::SomeTypes(*b),
                        i <= a.len(),
                        a@.len() == b@.len(),
                        forall|j: int| 0 <= j < i ==> #[trigger] a@[j]@ == b@[j]@,
                    decreases a.len() - i,
                {
                    proof {
                        assert(decreases_to!(*self => self->SomeTypes_0));
                        assert(decreases_to!(self->SomeTypes_0 => a@));
                        assert(decreases_to!(a@ => a@[i as int]));
                    }
                    if !a[i].deep_eq(&b[i]) {
                        proof {
                            lemma_type_views_index(a@, i as int);
                            lemma_type_views_index(b@, i as int);
                            assert(a@[i as int]@ != b@[i as int]@);
                            assert(self@->SomeTypes_0[i as int] != other@->SomeTypes_0[i as int]);
                        }
                        return false;
                    }
                    i = i + 1;
                }
                proof {
                    lemma_type_views_len(a@);
                    lemma_type_views_len(b@);
                    assert forall|j: int| 0 <= j < a@.len() implies self@->SomeTypes_0[j]
                        == other@->SomeTypes_0[j] by {
                        lemma_type_views_index(a@, j);
                        lemma_type_views_index(b@, j);
                        assert(a@[j]@ == b@[j]@);
                    }
                    assert(self@->SomeTypes_0 =~= other@->SomeTypes_0);
                    assert(self@ =~= other@);
                }
                true
            }
            _ => false,
        }
    }

    /// The template holding exactly the one type `t`.
    pub fn of_type(t: DataType) -> (r: TypeSet)
        ensures
            r@.is_singleton(t@),
    {
        let mut ts: Vec<DataType> = Vec::new();
        let ghost tv = t@;
        ts.push(t);
        let r = TypeSet::SomeTypes(ts);
        proof {
            lemma_type_views_len(ts@);
            lemma_type_views_index(ts@, 0);
            assert(r@->SomeTypes_0 =~= seq![tv]);
        }
        r
    }

    /// Whether the type `t` fits this template.
    #[verifier::loop_isolation(false)]
    pub fn is_sattisfied_by(&self, t: &DataType) -> (r: bool)
        ensures
            r <==> self@.accepts(t@),
    {
        match self {
            TypeSet::AllTypes => true,
            TypeSet::SomeTypes(ts) => {
                let mut i: usize = 0;
                while i < ts.len()
                    invariant
                        *self == TypeSet::SomeTypes(*ts),
                        i <= ts.len(),
                        forall|j: int| 0 <= j < i ==> #[trigger] ts@[j]@ != t@,
                    decreases ts.len() - i,
                {
                    if ts[i].deep_eq(t) {
                        proof {
                            lemma_type_views_len(ts@);
                            lemma_type_views_index(ts@, i as int);
                            assert(ts@[i as int]@ == t@);
                            assert(self@->SomeTypes_0[i as int] == t@);
                            assert(self@.accepts(t@));
                        }
                        return true;
                    }
                    i = i + 1;
                }
                proof {
                    lemma_type_views_len(ts@);
                    assert forall|j: int| 0 <= j < self@->SomeTypes_0.len()
                        implies #[trigger] self@->SomeTypes_0[j] != t@ by {
                        lemma_type_views_index(ts@, j);
                        assert(ts@[j]@ != t@);
                    }
                    assert(!self@.accepts(t@));
                }
                false
            }
        }
    }

    /// If this template denotes a single type, that type.
    pub fn concrete_type(&self) -> (r: Option<&DataType>)
        ensures
            match r {
                Some(t) => self@.concrete_type() == Some(t@),
                None => self@.concrete_type() is None,
            },
    {
        match self {
            TypeSet::SomeTypes(ts) => {
                if ts.len() == 1 {
                    Some(&ts[0])
                } else {
                    None
                }
            }
            TypeSet::AllTypes => None,
        }
    }
}

} // verus!
