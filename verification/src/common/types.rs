use vstd::prelude::*;

verus! {

/// A type of the language, as the compiler's passes see it.
#[derive(Debug, PartialEq, Eq)]
pub enum Type {
    Int,
    Float,
    String,
    Bool,
    Void,
    Ptr,
    Unknown,
    Never,
    TypeVar(String),
    List(Box<Type>),
    Array(Box<Type>, usize),
    Tuple(Vec<Type>),
    Option(Box<Type>),
    Result { ok: Box<Type>, error: Box<Type> },
    Pointer(Box<Type>),
    Borrow(Box<Type>),
    MutBorrow(Box<Type>),
    Channel(Box<Type>),
    Function { params: Vec<Type>, return_type: Box<Type> },
    Generic { name: String, args: Vec<Type> },
}

/// The mathematical value of a `Type`: names as character sequences,
/// component lists as sequences.
pub enum Ty {
    Int,
    Float,
    Str,
    Bool,
    Void,
    Ptr,
    Unknown,
    Never,
    TypeVar(Seq<char>),
    List(Box<Ty>),
    Array(Box<Ty>, nat),
    Tuple(Seq<Ty>),
    Opt(Box<Ty>),
    Res(Box<Ty>, Box<Ty>),
    Pointer(Box<Ty>),
    Borrow(Box<Ty>),
    MutBorrow(Box<Ty>),
    Channel(Box<Ty>),
    Function(Seq<Ty>, Box<Ty>),
    Generic(Seq<char>, Seq<Ty>),
}

impl Type {
    pub open spec fn model(&self) -> Ty
        decreases self,
    {
        match self {
            Type::Int => Ty::Int,
            Type::Float => Ty::Float,
            Type::String => Ty::Str,
            Type::Bool => Ty::Bool,
            Type::Void => Ty::Void,
            Type::Ptr => Ty::Ptr,
            Type::Unknown => Ty::Unknown,
            Type::Never => Ty::Never,
            Type::TypeVar(n) => Ty::TypeVar(n@),
            Type::List(t) => Ty::List(Box::new(t.model())),
            Type::Array(t, n) => Ty::Array(Box::new(t.model()), *n as nat),
            Type::Tuple(ts) => Ty::Tuple(models(ts@)),
            Type::Option(t) => Ty::Opt(Box::new(t.model())),
            Type::Result { ok, error } => Ty::Res(Box::new(ok.model()), Box::new(error.model())),
            Type::Pointer(t) => Ty::Pointer(Box::new(t.model())),
            Type::Borrow(t) => Ty::Borrow(Box::new(t.model())),
            Type::MutBorrow(t) => Ty::MutBorrow(Box::new(t.model())),
            Type::Channel(t) => Ty::Channel(Box::new(t.model())),
            Type::Function { params, return_type } => Ty::Function(models(params@), Box::new(return_type.model())),
            Type::Generic { name, args } => Ty::Generic(name@, models(args@)),
        }
    }
}

pub open spec fn models(ts: Seq<Type>) -> Seq<Ty>
    decreases ts,
{
    if ts.len() == 0 {
        Seq::empty()
    } else {
        seq![ts[0].model()] + models(ts.drop_first())
    }
}

pub broadcast proof fn lemma_models(ts: Seq<Type>)
    ensures
        #[trigger] models(ts).len() == ts.len(),
        forall|i: int| 0 <= i < ts.len() ==> #[trigger] models(ts)[i] == ts[i].model(),
    decreases ts.len(),
{
    if ts.len() > 0 {
        lemma_models(ts.drop_first());
        assert forall|i: int| 0 <= i < ts.len() implies #[trigger] models(ts)[i] == ts[i].model() by {
            if i > 0 {
                assert(ts.drop_first()[i - 1] == ts[i]);
            }
        }
    }
}

/// Some member of `ts` mentions a type variable or `Unknown`.
pub open spec fn any_unresolved(ts: Seq<Ty>) -> bool
    decreases ts,
{
    if ts.len() == 0 {
        false
    } else {
        ts[0].unresolved() || any_unresolved(ts.drop_first())
    }
}

pub proof fn lemma_any_unresolved(ts: Seq<Ty>)
    ensures
        any_unresolved(ts) <==> exists|i: int| 0 <= i < ts.len() && #[trigger] ts[i].unresolved(),
    decreases ts.len(),
{
    if ts.len() > 0 {
        let rest = ts.drop_first();
        lemma_any_unresolved(rest);
        if ts[0].unresolved() {
            assert(0 <= 0 < ts.len() && ts[0].unresolved());
        } else if any_unresolved(rest) {
            let i = choose|i: int| 0 <= i < rest.len() && #[trigger] rest[i].unresolved();
            assert(rest[i] == ts[i + 1]);
            assert(0 <= i + 1 < ts.len() && ts[i + 1].unresolved());
        }
        if exists|i: int| 0 <= i < ts.len() && #[trigger] ts[i].unresolved() {
            let i = choose|i: int| 0 <= i < ts.len() && #[trigger] ts[i].unresolved();
            if i > 0 {
                assert(rest[i - 1] == ts[i]);
                assert(rest[i - 1].unresolved());
            }
        }
    }
}

/// Some member of `ts` mentions a type variable (in the sense of
/// `Ty::has_type_var`).
pub open spec fn any_type_var(ts: Seq<Ty>) -> bool
    decreases ts,
{
    if ts.len() == 0 {
        false
    } else {
        ts[0].has_type_var() || any_type_var(ts.drop_first())
    }
}

pub proof fn lemma_any_type_var(ts: Seq<Ty>)
    ensures
        any_type_var(ts) <==> exists|i: int| 0 <= i < ts.len() && #[trigger] ts[i].has_type_var(),
    decreases ts.len(),
{
    if ts.len() > 0 {
        let rest = ts.drop_first();
        lemma_any_type_var(rest);
        if ts[0].has_type_var() {
            assert(0 <= 0 < ts.len() && ts[0].has_type_var());
        } else if any_type_var(rest) {
            let i = choose|i: int| 0 <= i < rest.len() && #[trigger] rest[i].has_type_var();
            assert(rest[i] == ts[i + 1]);
            assert(0 <= i + 1 < ts.len() && ts[i + 1].has_type_var());
        }
        if exists|i: int| 0 <= i < ts.len() && #[trigger] ts[i].has_type_var() {
            let i = choose|i: int| 0 <= i < ts.len() && #[trigger] ts[i].has_type_var();
            if i > 0 {
                assert(rest[i - 1] == ts[i]);
                assert(rest[i - 1].has_type_var());
            }
        }
    }
}

impl Ty {
    pub open spec fn numeric(self) -> bool {
        self == Ty::Int || self == Ty::Float
    }

    pub open spec fn has_type_var(self) -> bool
        decreases self,
    {
        match self {
            Ty::TypeVar(_) => true,
            Ty::List(t) => t.has_type_var(),
            Ty::Opt(t) => t.has_type_var(),
            Ty::Pointer(t) => t.has_type_var(),
            Ty::Borrow(t) => t.has_type_var(),
            Ty::MutBorrow(t) => t.has_type_var(),
            Ty::Channel(t) => t.has_type_var(),
            Ty::Array(t, _) => t.has_type_var(),
            Ty::Res(a, b) => a.has_type_var() || b.has_type_var(),
            Ty::Tuple(ts) => any_type_var(ts),
            Ty::Function(ps, r) => any_type_var(ps) || r.has_type_var(),
            Ty::Generic(_, args) => any_type_var(args),
            _ => false,
        }
    }

    pub open spec fn unresolved(self) -> bool
        decreases self,
    {
        match self {
            Ty::TypeVar(_) => true,
            Ty::Unknown => true,
            Ty::List(t) => t.unresolved(),
            Ty::Opt(t) => t.unresolved(),
            Ty::Pointer(t) => t.unresolved(),
            Ty::Borrow(t) => t.unresolved(),
            Ty::MutBorrow(t) => t.unresolved(),
            Ty::Channel(t) => t.unresolved(),
            Ty::Array(t, _) => t.unresolved(),
            Ty::Res(a, b) => a.unresolved() || b.unresolved(),
            Ty::Tuple(ts) => any_unresolved(ts),
            Ty::Function(ps, r) => r.unresolved() || any_unresolved(ps),
            Ty::Generic(_, ts) => any_unresolved(ts),
            _ => false,
        }
    }

    fn any_type_var_in(ts: &Vec<Type>) -> (r: bool)
        ensures
            r == any_type_var(models(ts@)),
        decreases ts,
    {
        proof {
            lemma_models(ts@);
        }
        let mut i: usize = 0;
        while i < ts.len()
            invariant
                0 <= i <= ts@.len(),
                models(ts@).len() == ts@.len(),
                forall|j: int| 0 <= j < ts@.len() ==> #[trigger] models(ts@)[j] == ts@[j]@,
                forall|j: int| 0 <= j < i ==> !(#[trigger] models(ts@)[j]).has_type_var(),
            decreases ts@.len() - i,
        {
            assert(decreases_to!(ts => ts@[i as int]));
            if ts[i].contains_type_var() {
                assert(models(ts@)[i as int].has_type_var());
                proof {
                    lemma_any_type_var(models(ts@));
                }
                return true;
            }
            i = i + 1;
        }
        proof {
            lemma_any_type_var(models(ts@));
        }
        false
    }
}

} // verus!

verus! {

impl View for Type {
    type V = Ty;

    open spec fn view(&self) -> Ty {
        self.model()
    }
}

impl Type {
    /// True if the type mentions a type variable or `Unknown` anywhere
    /// in its structure: such a type is not yet concrete.
    pub fn contains_unresolved(&self) -> (r: bool)
        ensures
            r == self@.unresolved(),
        decreases self,
    {
        match self {
            Type::TypeVar(_) => true,
            Type::Unknown => true,
            Type::List(t) => t.contains_unresolved(),
            Type::Option(t) => t.contains_unresolved(),
            Type::Pointer(t) => t.contains_unresolved(),
            Type::Borrow(t) => t.contains_unresolved(),
            Type::MutBorrow(t) => t.contains_unresolved(),
            Type::Channel(t) => t.contains_unresolved(),
            Type::Array(t, _) => t.contains_unresolved(),
            Type::Result { ok, error } => ok.contains_unresolved() || error.contains_unresolved(),
            Type::Tuple(ts) => Self::any_unresolved_in(ts),
            Type::Generic { args, .. } => Self::any_unresolved_in(args),
            Type::Function { params, return_type } => return_type.contains_unresolved()
                || Self::any_unresolved_in(params),
            _ => false,
        }
    }

    pub fn any_unresolved_in(ts: &Vec<Type>) -> (r: bool)
        ensures
            r == any_unresolved(models(ts@)),
        decreases ts,
    {
        proof {
            lemma_models(ts@);
        }
        let mut i: usize = 0;
        while i < ts.len()
            invariant
                0 <= i <= ts@.len(),
                models(ts@).len() == ts@.len(),
                forall|j: int| 0 <= j < ts@.len() ==> #[trigger] models(ts@)[j] == ts@[j]@,
                forall|j: int| 0 <= j < i ==> !(#[trigger] models(ts@)[j]).unresolved(),
            decreases ts@.len() - i,
        {
            assert(decreases_to!(ts => ts@[i as int]));
            if ts[i].contains_unresolved() {
                assert(models(ts@)[i as int].unresolved());
                proof {
                    lemma_any_unresolved(models(ts@));
                }
                return true;
            }
            i = i + 1;
        }
        proof {
            lemma_any_unresolved(models(ts@));
        }
        false
    }

    /// True if the type mentions a type variable anywhere in its
    /// structure, function and generic types included.
    pub fn contains_type_var(&self) -> (r: bool)
        ensures
            r == self@.has_type_var(),
        decreases self,
    {
        match self {
            Type::TypeVar(_) => true,
            Type::List(t) => t.contains_type_var(),
            Type::Option(t) => t.contains_type_var(),
            Type::Pointer(t) => t.contains_type_var(),
            Type::Borrow(t) => t.contains_type_var(),
            Type::MutBorrow(t) => t.contains_type_var(),
            Type::Channel(t) => t.contains_type_var(),
            Type::Array(t, _) => t.contains_type_var(),
            Type::Result { ok, error } => ok.contains_type_var() || error.contains_type_var(),
            Type::Tuple(ts) => Self::any_type_var_in(ts),
            Type::Function { params, return_type } => Self::any_type_var_in(params) || return_type.contains_type_var(),
            Type::Generic { args, .. } => Self::any_type_var_in(args),
            _ => false,
        }
    }

    fn any_type_var_in(ts: &Vec<Type>) -> (r: bool)
        ensures
            r == any_type_var(models(ts@)),
        decreases ts,
    {
        proof {
            lemma_models(ts@);
        }
        let mut i: usize = 0;
        while i < ts.len()
            invariant
                0 <= i <= ts@.len(),
                models(ts@).len() == ts@.len(),
                forall|j: int| 0 <= j < ts@.len() ==> #[trigger] models(ts@)[j] == ts@[j]@,
                forall|j: int| 0 <= j < i ==> !(#[trigger] models(ts@)[j]).has_type_var(),
            decreases ts@.len() - i,
        {
            assert(decreases_to!(ts => ts@[i as int]));
            if ts[i].contains_type_var() {
                assert(models(ts@)[i as int].has_type_var());
                proof {
                    lemma_any_type_var(models(ts@));
                }
                return true;
            }
            i = i + 1;
        }
        proof {
            lemma_any_type_var(models(ts@));
        }
        false
    }
}


impl Type {
    pub fn list(t: Type) -> (r: Type)
        ensures r@ == Ty::List(Box::new(t@)),
    {
        Type::List(Box::new(t))
    }

    pub fn option(t: Type) -> (r: Type)
        ensures r@ == Ty::Opt(Box::new(t@)),
    {
        Type::Option(Box::new(t))
    }

    pub fn pointer(t: Type) -> (r: Type)
        ensures r@ == Ty::Pointer(Box::new(t@)),
    {
        Type::Pointer(Box::new(t))
    }

    pub fn borrow(t: Type) -> (r: Type)
        ensures r@ == Ty::Borrow(Box::new(t@)),
    {
        Type::Borrow(Box::new(t))
    }

    pub fn mut_borrow(t: Type) -> (r: Type)
        ensures r@ == Ty::MutBorrow(Box::new(t@)),
    {
        Type::MutBorrow(Box::new(t))
    }

    pub fn channel(t: Type) -> (r: Type)
        ensures r@ == Ty::Channel(Box::new(t@)),
    {
        Type::Channel(Box::new(t))
    }

    pub fn result(ok: Type, error: Type) -> (r: Type)
        ensures r@ == Ty::Res(Box::new(ok@), Box::new(error@)),
    {
        Type::Result { ok: Box::new(ok), error: Box::new(error) }
    }

    pub fn array(t: Type, size: usize) -> (r: Type)
        ensures r@ == Ty::Array(Box::new(t@), size as nat),
    {
        Type::Array(Box::new(t), size)
    }

    pub fn tuple(elems: Vec<Type>) -> (r: Type)
        ensures r@ == Ty::Tuple(models(elems@)),
    {
        Type::Tuple(elems)
    }

    pub fn generic(name: &str, args: Vec<Type>) -> (r: Type)
        ensures r@ == Ty::Generic(name@, models(args@)),
    {
        Type::Generic { name: name.to_string(), args }
    }

    pub fn is_unknown(&self) -> (r: bool)
        ensures r == (self@ == Ty::Unknown),
    {
        match self {
            Type::Unknown => true,
            _ => false,
        }
    }

    pub fn is_numeric(&self) -> (r: bool)
        ensures r == self@.numeric(),
    {
        match self {
            Type::Int | Type::Float => true,
            _ => false,
        }
    }

    /// Structural equality of two types.
    pub fn type_eq(&self, other: &Type) -> (r: bool)
        ensures r == (self@ == other@),
        decreases self,
    {
        match self {
            Type::Int => match other { Type::Int => true, _ => false },
            Type::Float => match other { Type::Float => true, _ => false },
            Type::String => match other { Type::String => true, _ => false },
            Type::Bool => match other { Type::Bool => true, _ => false },
            Type::Void => match other { Type::Void => true, _ => false },
            Type::Ptr => match other { Type::Ptr => true, _ => false },
            Type::Unknown => match other { Type::Unknown => true, _ => false },
            Type::Never => match other { Type::Never => true, _ => false },
            Type::TypeVar(a) => match other { Type::TypeVar(b) => *a == *b, _ => false },
            Type::List(a) => match other { Type::List(b) => a.type_eq(b), _ => false },
            Type::Option(a) => match other { Type::Option(b) => a.type_eq(b), _ => false },
            Type::Pointer(a) => match other { Type::Pointer(b) => a.type_eq(b), _ => false },
            Type::Borrow(a) => match other { Type::Borrow(b) => a.type_eq(b), _ => false },
            Type::MutBorrow(a) => match other { Type::MutBorrow(b) => a.type_eq(b), _ => false },
            Type::Channel(a) => match other { Type::Channel(b) => a.type_eq(b), _ => false },
            Type::Array(a, n) => match other {
                Type::Array(b, m) => *n == *m && a.type_eq(b),
                _ => false,
            },
            Type::Result { ok: a1, error: a2 } => match other {
                Type::Result { ok: b1, error: b2 } => a1.type_eq(b1) && a2.type_eq(b2),
                _ => false,
            },
            Type::Tuple(a) => match other { Type::Tuple(b) => Self::all_eq(a, b), _ => false },
            Type::Function { params: a, return_type: ar } => match other {
                Type::Function { params: b, return_type: br } => ar.type_eq(br) && Self::all_eq(a, b),
                _ => false,
            },
            Type::Generic { name: an, args: a } => match other {
                Type::Generic { name: bn, args: b } => *an == *bn && Self::all_eq(a, b),
                _ => false,
            },
        }
    }

    /// Element-wise structural equality of two type lists.
    pub fn all_eq(a: &Vec<Type>, b: &Vec<Type>) -> (r: bool)
        ensures r == (models(a@) == models(b@)),
        decreases a,
    {
        proof {
            lemma_models(a@);
            lemma_models(b@);
        }
        if a.len() != b.len() {
            return false;
        }
        let mut i: usize = 0;
        while i < a.len()
            invariant
                0 <= i <= a@.len(),
                a@.len() == b@.len(),
                models(a@).len() == a@.len(),
                models(b@).len() == b@.len(),
                forall|j: int| 0 <= j < a@.len() ==> #[trigger] models(a@)[j] == a@[j]@,
                forall|j: int| 0 <= j < b@.len() ==> #[trigger] models(b@)[j] == b@[j]@,
                forall|j: int| 0 <= j < i ==> #[trigger] models(a@)[j] == models(b@)[j],
            decreases a@.len() - i,
        {
            assert(decreases_to!(a => a@[i as int]));
            if !a[i].type_eq(&b[i]) {
                assert(models(a@)[i as int] != models(b@)[i as int]);
                return false;
            }
            i = i + 1;
        }
        assert(models(a@) =~= models(b@));
        true
    }

    /// A structural copy of the type.
    pub fn deep_clone(&self) -> (r: Type)
        ensures r@ == self@,
        decreases self,
    {
        match self {
            Type::Int => Type::Int,
            Type::Float => Type::Float,
            Type::String => Type::String,
            Type::Bool => Type::Bool,
            Type::Void => Type::Void,
            Type::Ptr => Type::Ptr,
            Type::Unknown => Type::Unknown,
            Type::Never => Type::Never,
            Type::TypeVar(n) => Type::TypeVar(n.clone()),
            Type::List(t) => Type::List(Box::new(t.deep_clone())),
            Type::Option(t) => Type::Option(Box::new(t.deep_clone())),
            Type::Pointer(t) => Type::Pointer(Box::new(t.deep_clone())),
            Type::Borrow(t) => Type::Borrow(Box::new(t.deep_clone())),
            Type::MutBorrow(t) => Type::MutBorrow(Box::new(t.deep_clone())),
            Type::Channel(t) => Type::Channel(Box::new(t.deep_clone())),
            Type::Array(t, n) => Type::Array(Box::new(t.deep_clone()), *n),
            Type::Result { ok, error } => Type::Result {
                ok: Box::new(ok.deep_clone()),
                error: Box::new(error.deep_clone()),
            },
            Type::Tuple(ts) => Type::Tuple(Self::clone_all(ts)),
            Type::Function { params, return_type } => Type::Function {
                params: Self::clone_all(params),
                return_type: Box::new(return_type.deep_clone()),
            },
            Type::Generic { name, args } => Type::Generic { name: name.clone(), args: Self::clone_all(args) },
        }
    }

    /// A structural copy of a type list.
    pub fn clone_all(ts: &Vec<Type>) -> (r: Vec<Type>)
        ensures models(r@) == models(ts@),
        decreases ts,
    {
        let mut out: Vec<Type> = Vec::new();
        let mut i: usize = 0;
        while i < ts.len()
            invariant
                0 <= i <= ts@.len(),
                out@.len() == i,
                forall|j: int| 0 <= j < i ==> (#[trigger] out@[j])@ == ts@[j]@,
            decreases ts@.len() - i,
        {
            assert(decreases_to!(ts => ts@[i as int]));
            out.push(ts[i].deep_clone());
            i = i + 1;
        }
        proof {
            lemma_models(out@);
            lemma_models(ts@);
            assert(models(out@) =~= models(ts@));
        }
        out
    }
}

impl Clone for Type {
    fn clone(&self) -> (r: Self)
        ensures r@ == self@,
    {
        self.deep_clone()
    }
}


// ─── Substitution ───────────────────────────────────────────────────

/// The type bound to `name`; a later binding of the same name wins.
pub open spec fn lookup(b: Seq<(Seq<char>, Ty)>, name: Seq<char>) -> Option<Ty>
    decreases b.len(),
{
    if b.len() == 0 {
        None
    } else if b.last().0 == name {
        Some(b.last().1)
    } else {
        lookup(b.drop_last(), name)
    }
}

impl Ty {
    /// `self` with every bound type variable replaced by its binding.
    pub open spec fn subst(self, b: Seq<(Seq<char>, Ty)>) -> Ty
        decreases self,
    {
        match self {
            Ty::TypeVar(n) => match lookup(b, n) {
                Some(t) => t,
                None => self,
            },
            Ty::List(t) => Ty::List(Box::new(t.subst(b))),
            Ty::Array(t, n) => Ty::Array(Box::new(t.subst(b)), n),
            Ty::Tuple(ts) => Ty::Tuple(subst_seq(ts, b)),
            Ty::Opt(t) => Ty::Opt(Box::new(t.subst(b))),
            Ty::Res(x, y) => Ty::Res(Box::new(x.subst(b)), Box::new(y.subst(b))),
            Ty::Pointer(t) => Ty::Pointer(Box::new(t.subst(b))),
            Ty::Borrow(t) => Ty::Borrow(Box::new(t.subst(b))),
            Ty::MutBorrow(t) => Ty::MutBorrow(Box::new(t.subst(b))),
            Ty::Channel(t) => Ty::Channel(Box::new(t.subst(b))),
            Ty::Function(ps, r) => Ty::Function(subst_seq(ps, b), Box::new(r.subst(b))),
            Ty::Generic(n, ts) => Ty::Generic(n, subst_seq(ts, b)),
            _ => self,
        }
    }
}

/// Substitution applied to each member of `ts`.
pub open spec fn subst_seq(ts: Seq<Ty>, b: Seq<(Seq<char>, Ty)>) -> Seq<Ty>
    decreases ts,
{
    if ts.len() == 0 {
        Seq::empty()
    } else {
        seq![ts[0].subst(b)] + subst_seq(ts.drop_first(), b)
    }
}

pub proof fn lemma_subst_seq(ts: Seq<Ty>, b: Seq<(Seq<char>, Ty)>)
    ensures
        subst_seq(ts, b).len() == ts.len(),
        forall|i: int| 0 <= i < ts.len() ==> #[trigger] subst_seq(ts, b)[i] == ts[i].subst(b),
    decreases ts.len(),
{
    if ts.len() > 0 {
        lemma_subst_seq(ts.drop_first(), b);
        assert forall|i: int| 0 <= i < ts.len() implies #[trigger] subst_seq(ts, b)[i] == ts[i].subst(b) by {
            if i > 0 {
                assert(ts.drop_first()[i - 1] == ts[i]);
            }
        }
    }
}

/// The bindings' models.
pub open spec fn binding_models(b: Seq<(String, Type)>) -> Seq<(Seq<char>, Ty)> {
    Seq::new(b.len(), |i: int| (b[i].0@, b[i].1@))
}

pub(crate) fn lookup_binding(bindings: &[(String, Type)], name: &String) -> (r: Option<usize>)
    ensures
        match r {
            Some(i) => i < bindings@.len() && lookup(binding_models(bindings@), name@) == Some(bindings@[i as int].1@),
            None => lookup(binding_models(bindings@), name@) is None,
        },
{
    let ghost bm = binding_models(bindings@);
    let mut i: usize = bindings.len();
    assert(bm.take(i as int) =~= bm);
    while i > 0
        invariant
            0 <= i <= bindings@.len(),
            bm == binding_models(bindings@),
            lookup(bm, name@) == lookup(bm.take(i as int), name@),
        decreases i,
    {
        let ghost pre = bm.take(i as int);
        assert(pre.drop_last() =~= bm.take(i - 1));
        assert(pre.last() == bm[i - 1]);
        if bindings[i - 1].0 == *name {
            return Some(i - 1);
        }
        i = i - 1;
    }
    assert(bm.take(0) =~= Seq::<(Seq<char>, Ty)>::empty());
    None
}

impl Type {
    /// The type with every bound type variable replaced by its binding
    /// (a later binding of the same name wins).
    pub fn substitute(&self, bindings: &[(String, Type)]) -> (r: Type)
        ensures
            r@ == self@.subst(binding_models(bindings@)),
        decreases self,
    {
        match self {
            Type::TypeVar(n) => match lookup_binding(bindings, n) {
                Some(i) => bindings[i].1.deep_clone(),
                None => Type::TypeVar(n.clone()),
            },
            Type::List(t) => Type::List(Box::new(t.substitute(bindings))),
            Type::Option(t) => Type::Option(Box::new(t.substitute(bindings))),
            Type::Pointer(t) => Type::Pointer(Box::new(t.substitute(bindings))),
            Type::Borrow(t) => Type::Borrow(Box::new(t.substitute(bindings))),
            Type::MutBorrow(t) => Type::MutBorrow(Box::new(t.substitute(bindings))),
            Type::Channel(t) => Type::Channel(Box::new(t.substitute(bindings))),
            Type::Array(t, n) => Type::Array(Box::new(t.substitute(bindings)), *n),
            Type::Result { ok, error } => Type::Result {
                ok: Box::new(ok.substitute(bindings)),
                error: Box::new(error.substitute(bindings)),
            },
            Type::Tuple(ts) => Type::Tuple(Self::substitute_all(ts, bindings)),
            Type::Function { params, return_type } => Type::Function {
                params: Self::substitute_all(params, bindings),
                return_type: Box::new(return_type.substitute(bindings)),
            },
            Type::Generic { name, args } => Type::Generic {
                name: name.clone(),
                args: Self::substitute_all(args, bindings),
            },
            Type::Int => Type::Int,
            Type::Float => Type::Float,
            Type::String => Type::String,
            Type::Bool => Type::Bool,
            Type::Void => Type::Void,
            Type::Ptr => Type::Ptr,
            Type::Unknown => Type::Unknown,
            Type::Never => Type::Never,
        }
    }

    /// Substitution applied to each member of a type list.
    pub fn substitute_all(ts: &Vec<Type>, bindings: &[(String, Type)]) -> (r: Vec<Type>)
        ensures
            models(r@) == subst_seq(models(ts@), binding_models(bindings@)),
        decreases ts,
    {
        let ghost b = binding_models(bindings@);
        let mut out: Vec<Type> = Vec::new();
        let mut i: usize = 0;
        while i < ts.len()
            invariant
                0 <= i <= ts@.len(),
                b == binding_models(bindings@),
                out@.len() == i,
                forall|j: int| 0 <= j < i ==> (#[trigger] out@[j])@ == ts@[j]@.subst(b),
            decreases ts@.len() - i,
        {
            assert(decreases_to!(ts => ts@[i as int]));
            out.push(ts[i].substitute(bindings));
            i = i + 1;
        }
        proof {
            lemma_models(out@);
            lemma_models(ts@);
            lemma_subst_seq(models(ts@), b);
            assert(models(out@) =~= subst_seq(models(ts@), b));
        }
        out
    }
}

} // verus!

verus! {

// ─── Coercion, casting and the common supertype ─────────────────────

impl Ty {
    /// A raw pointer or a typed pointer.
    pub open spec fn pointer_like(self) -> bool {
        self == Ty::Ptr || self is Pointer
    }

    /// A value of type `self` may stand where `target` is expected without
    /// a cast: the types agree, either is `Unknown`, `self` is `Never`, or
    /// `self` is `Int` widening to `Float`.
    pub open spec fn coerces_to(self, target: Ty) -> bool {
        ||| self == target
        ||| self == Ty::Unknown
        ||| target == Ty::Unknown
        ||| self == Ty::Never
        ||| (self == Ty::Int && target == Ty::Float)
    }

    /// An explicit cast from `self` to `target` is permitted: the types
    /// agree, either is `Unknown`, a number or `Bool` becomes a number,
    /// pointers convert among themselves, or `Int` and `Ptr` convert.
    pub open spec fn casts_to(self, target: Ty) -> bool {
        ||| self == target
        ||| self == Ty::Unknown
        ||| target == Ty::Unknown
        ||| ((self.numeric() || self == Ty::Bool) && target.numeric())
        ||| (self.pointer_like() && target.pointer_like())
        ||| (self == Ty::Int && target == Ty::Ptr)
        ||| (self == Ty::Ptr && target == Ty::Int)
    }

    /// The type that values of both `self` and `other` have: the type
    /// itself when they agree, the other one when one is `Unknown` or
    /// `Never`, `Float` for two different numbers, else `Unknown`.
    pub open spec fn supertype(self, other: Ty) -> Ty {
        if self == other {
            self
        } else if self == Ty::Unknown || self == Ty::Never {
            other
        } else if other == Ty::Unknown || other == Ty::Never {
            self
        } else if self.numeric() && other.numeric() {
            Ty::Float
        } else {
            Ty::Unknown
        }
    }
}

impl Type {
    /// See `Ty::coerces_to`.
    pub fn can_coerce_to(&self, target: &Type) -> (r: bool)
        ensures
            r == self@.coerces_to(target@),
    {
        self.type_eq(target) || self.is_unknown() || target.is_unknown()
            || matches!(self, Type::Never)
            || (matches!(self, Type::Int) && matches!(target, Type::Float))
    }

    /// See `Ty::casts_to`.
    pub fn can_cast_to(&self, target: &Type) -> (r: bool)
        ensures
            r == self@.casts_to(target@),
    {
        let self_ptr = matches!(self, Type::Ptr | Type::Pointer(_));
        let target_ptr = matches!(target, Type::Ptr | Type::Pointer(_));
        self.type_eq(target) || self.is_unknown() || target.is_unknown()
            || ((self.is_numeric() || matches!(self, Type::Bool)) && target.is_numeric())
            || (self_ptr && target_ptr)
            || (matches!(self, Type::Int) && matches!(target, Type::Ptr))
            || (matches!(self, Type::Ptr) && matches!(target, Type::Int))
    }

    /// See `Ty::supertype`.
    pub fn common_supertype(&self, other: &Type) -> (r: Type)
        ensures
            r@ == self@.supertype(other@),
    {
        if self.type_eq(other) {
            self.deep_clone()
        } else if self.is_unknown() || matches!(self, Type::Never) {
            other.deep_clone()
        } else if other.is_unknown() || matches!(other, Type::Never) {
            self.deep_clone()
        } else if self.is_numeric() && other.is_numeric() {
            Type::Float
        } else {
            Type::Unknown
        }
    }
}

} // verus!
