use vstd::prelude::*;
use crate::common::text::{dec, decimal};
use crate::common::chars::{chars_of, push_char};
use crate::common::types::{Type, Ty, models, lemma_models, any_unresolved, subst_seq, lemma_subst_seq, binding_models};
use crate::common::assoc::{map_of, keys_distinct, lemma_map_of_dom, lemma_map_of_index, lemma_keys_distinct_push, lemma_map_of_update, lemma_map_of_len};
use crate::frontend::ast::ExprId;

verus! {

// ─── Mangled names ──────────────────────────────────────────────────

/// The separator between the components of a mangled name.
pub open spec fn sep() -> Seq<char> {
    seq!['_']
}

/// The constructor tag that begins the mangled form of a type.
pub open spec fn tag(t: Ty) -> Seq<char> {
    match t {
        Ty::Int => seq!['I', 'n', 't'],
        Ty::Float => seq!['F', 'l', 'o', 'a', 't'],
        Ty::Str => seq!['S', 't', 'r', 'i', 'n', 'g'],
        Ty::Bool => seq!['B', 'o', 'o', 'l'],
        Ty::Void => seq!['V', 'o', 'i', 'd'],
        Ty::Ptr => seq!['P', 't', 'r'],
        Ty::Unknown => seq!['U', 'n', 'k', 'n', 'o', 'w', 'n'],
        Ty::Never => seq!['N', 'e', 'v', 'e', 'r'],
        Ty::TypeVar(_) => seq!['T', 'y', 'p', 'e', 'V', 'a', 'r'],
        Ty::List(_) => seq!['L', 'i', 's', 't'],
        Ty::Array(_, _) => seq!['A', 'r', 'r', 'a', 'y'],
        Ty::Tuple(_) => seq!['T', 'u', 'p', 'l', 'e'],
        Ty::Opt(_) => seq!['O', 'p', 't', 'i', 'o', 'n'],
        Ty::Res(_, _) => seq!['R', 'e', 's', 'u', 'l', 't'],
        Ty::Pointer(_) => seq!['P', 'o', 'i', 'n', 't', 'e', 'r'],
        Ty::Borrow(_) => seq!['B', 'o', 'r', 'r', 'o', 'w'],
        Ty::MutBorrow(_) => seq!['M', 'u', 't', 'B', 'o', 'r', 'r', 'o', 'w'],
        Ty::Channel(_) => seq!['C', 'h', 'a', 'n', 'n', 'e', 'l'],
        Ty::Function(_, _) => seq!['F', 'u', 'n', 'c', 't', 'i', 'o', 'n'],
        Ty::Generic(_, _) => seq!['G', 'e', 'n', 'e', 'r', 'i', 'c'],
    }
}

/// A name as it stands in a mangled name: each `$` doubled and each `_`
/// written `$u`, so that the name carries no underscore, and a name that
/// has neither character stands for itself.
pub open spec fn escape_char(c: char) -> Seq<char> {
    if c == '$' {
        seq!['$', '$']
    } else if c == '_' {
        seq!['$', 'u']
    } else {
        seq![c]
    }
}

/// `n` with each character escaped (see `escape_char`).
pub open spec fn escape(n: Seq<char>) -> Seq<char>
    decreases n.len(),
{
    if n.len() == 0 {
        Seq::empty()
    } else {
        escape_char(n[0]) + escape(n.drop_first())
    }
}

pub proof fn lemma_escape_push(n: Seq<char>, c: char)
    ensures
        escape(n.push(c)) == escape(n) + escape_char(c),
    decreases n.len(),
{
    if n.len() == 0 {
        assert(n.push(c).drop_first() =~= Seq::<char>::empty());
        assert(escape(Seq::<char>::empty()) =~= Seq::<char>::empty());
        assert(escape(n) =~= Seq::<char>::empty());
        assert(escape(n.push(c)) =~= escape_char(c));
    } else {
        assert(n.push(c).drop_first() =~= n.drop_first().push(c));
        lemma_escape_push(n.drop_first(), c);
        assert(escape(n.push(c)) =~= escape(n) + escape_char(c));
    }
}

fn escaped(name: &str) -> (r: String)
    ensures
        r@ == escape(name@),
{
    let v = chars_of(name);
    let mut r = String::new();
    let mut i: usize = 0;
    while i < v.len()
        invariant
            i <= v@.len(),
            v@ == name@,
            r@ == escape(v@.take(i as int)),
        decreases v@.len() - i,
    {
        let c = v[i];
        proof {
            assert(v@.take(i + 1) =~= v@.take(i as int).push(c));
            lemma_escape_push(v@.take(i as int), c);
        }
        if c == '$' {
            push_char(&mut r, '$');
            push_char(&mut r, '$');
        } else if c == '_' {
            push_char(&mut r, '$');
            push_char(&mut r, 'u');
        } else {
            push_char(&mut r, c);
        }
        proof {
            assert(r@ =~= escape(v@.take(i as int)) + escape_char(c));
        }
        i = i + 1;
    }
    assert(v@.take(v@.len() as int) =~= v@);
    r
}

/// The mangled form of a type: its tag, then its components, each
/// after an underscore. Lists of components (tuple elements, function
/// parameters, generic arguments) are preceded by their length; names are
/// escaped (see `escape`).
pub open spec fn mangle(t: Ty) -> Seq<char>
    decreases t,
{
    match t {
        Ty::TypeVar(n) => tag(t) + sep() + escape(n),
        Ty::List(i) => tag(t) + sep() + mangle(*i),
        Ty::Array(i, n) => tag(t) + sep() + mangle(*i) + sep() + dec(n),
        Ty::Tuple(es) => tag(t) + sep() + dec(es.len()) + sep() + mangle_seq(es),
        Ty::Opt(i) => tag(t) + sep() + mangle(*i),
        Ty::Res(a, b) => tag(t) + sep() + mangle(*a) + sep() + mangle(*b),
        Ty::Pointer(i) => tag(t) + sep() + mangle(*i),
        Ty::Borrow(i) => tag(t) + sep() + mangle(*i),
        Ty::MutBorrow(i) => tag(t) + sep() + mangle(*i),
        Ty::Channel(i) => tag(t) + sep() + mangle(*i),
        Ty::Function(ps, r) => tag(t) + sep() + dec(ps.len()) + sep() + mangle_seq(ps) + sep()
            + mangle(*r),
        Ty::Generic(n, args) => tag(t) + sep() + escape(n) + sep() + dec(args.len()) + sep()
            + mangle_seq(args),
        _ => tag(t),
    }
}

/// The mangled forms of `ts`, joined by underscores.
pub open spec fn mangle_seq(ts: Seq<Ty>) -> Seq<char>
    decreases ts,
{
    if ts.len() == 0 {
        Seq::empty()
    } else if ts.len() == 1 {
        mangle(ts[0])
    } else {
        mangle_seq(ts.drop_last()) + sep() + mangle(ts.last())
    }
}

/// The mangled name of a specialization of `function` at `args`.
pub open spec fn mangled_name_of(function: Seq<char>, args: Seq<Ty>) -> Seq<char> {
    escape(function) + sep() + mangle_seq(args)
}

fn append_sep(s: &mut String)
    ensures
        final(s)@ == old(s)@ + sep(),
{
    proof {
        reveal_strlit("_");
    }
    s.append("_");
}

/// Injective string encoding of a type, for use in mangled function
/// names (`identity<Borrow<Float>>` becomes `identity_Borrow_Float`).
pub fn mangled_type_name(ty: &Type) -> (r: String)
    ensures
        r@ == mangle(ty@),
    decreases ty, 0nat,
{
    proof {
        reveal_strlit("Int");
        reveal_strlit("Float");
        reveal_strlit("String");
        reveal_strlit("Bool");
        reveal_strlit("Void");
        reveal_strlit("Ptr");
        reveal_strlit("Unknown");
        reveal_strlit("Never");
        reveal_strlit("TypeVar");
        reveal_strlit("List");
        reveal_strlit("Array");
        reveal_strlit("Tuple");
        reveal_strlit("Option");
        reveal_strlit("Result");
        reveal_strlit("Pointer");
        reveal_strlit("Borrow");
        reveal_strlit("MutBorrow");
        reveal_strlit("Channel");
        reveal_strlit("Function");
        reveal_strlit("Generic");
        lemma_models_mangle(ty);
    }
    match ty {
        Type::Int => "Int".to_string(),
        Type::Float => "Float".to_string(),
        Type::String => "String".to_string(),
        Type::Bool => "Bool".to_string(),
        Type::Void => "Void".to_string(),
        Type::Ptr => "Ptr".to_string(),
        Type::Unknown => "Unknown".to_string(),
        Type::Never => "Never".to_string(),
        Type::TypeVar(name) => {
            let mut s = "TypeVar".to_string();
            append_sep(&mut s);
            let e = escaped(name.as_str());
            s.append(e.as_str());
            s
        },
        Type::List(inner) => wrap("List", inner),
        Type::Option(inner) => wrap("Option", inner),
        Type::Pointer(inner) => wrap("Pointer", inner),
        Type::Borrow(inner) => wrap("Borrow", inner),
        Type::MutBorrow(inner) => wrap("MutBorrow", inner),
        Type::Channel(inner) => wrap("Channel", inner),
        Type::Array(inner, size) => {
            let mut s = wrap("Array", inner);
            append_sep(&mut s);
            let d = decimal(*size);
            s.append(d.as_str());
            s
        },
        Type::Tuple(elems) => {
            let mut s = "Tuple".to_string();
            append_sep(&mut s);
            let d = decimal(elems.len());
            s.append(d.as_str());
            append_sep(&mut s);
            let parts = mangle_list(elems);
            s.append(parts.as_str());
            s
        },
        Type::Result { ok, error } => {
            let mut s = wrap("Result", ok);
            append_sep(&mut s);
            let e = mangled_type_name(error);
            s.append(e.as_str());
            s
        },
        Type::Function { params, return_type } => {
            let mut s = "Function".to_string();
            append_sep(&mut s);
            let d = decimal(params.len());
            s.append(d.as_str());
            append_sep(&mut s);
            let parts = mangle_list(params);
            s.append(parts.as_str());
            append_sep(&mut s);
            let r = mangled_type_name(return_type);
            s.append(r.as_str());
            s
        },
        Type::Generic { name, args } => {
            let mut s = "Generic".to_string();
            append_sep(&mut s);
            let e = escaped(name.as_str());
            s.append(e.as_str());
            append_sep(&mut s);
            let d = decimal(args.len());
            s.append(d.as_str());
            append_sep(&mut s);
            let parts = mangle_list(args);
            s.append(parts.as_str());
            s
        },
    }
}

proof fn lemma_models_mangle(ty: &Type)
    ensures
        match ty {
            Type::Tuple(es) => models(es@).len() == es@.len(),
            Type::Function { params, .. } => models(params@).len() == params@.len(),
            Type::Generic { args, .. } => models(args@).len() == args@.len(),
            _ => true,
        },
{
    match ty {
        Type::Tuple(es) => lemma_models(es@),
        Type::Function { params, .. } => lemma_models(params@),
        Type::Generic { args, .. } => lemma_models(args@),
        _ => {},
    }
}

/// `tag` followed by an underscore and the mangled form of `inner`.
fn wrap(tag_str: &str, inner: &Box<Type>) -> (r: String)
    ensures
        r@ == tag_str@ + sep() + mangle((**inner)@),
    decreases inner, 1nat,
{
    let mut s = tag_str.to_string();
    append_sep(&mut s);
    let m = mangled_type_name(inner);
    s.append(m.as_str());
    s
}

/// The mangled forms of `ts`, joined by underscores.
fn mangle_list(ts: &Vec<Type>) -> (r: String)
    ensures
        r@ == mangle_seq(models(ts@)),
    decreases ts, 1nat,
{
    proof {
        lemma_models(ts@);
    }
    let mut s = String::new();
    let mut i: usize = 0;
    while i < ts.len()
        invariant
            0 <= i <= ts@.len(),
            models(ts@).len() == ts@.len(),
            forall|j: int| 0 <= j < ts@.len() ==> #[trigger] models(ts@)[j] == ts@[j]@,
            s@ == mangle_seq(models(ts@).take(i as int)),
        decreases ts@.len() - i,
    {
        assert(decreases_to!(ts => ts@[i as int]));
        let ghost prefix = models(ts@).take(i as int);
        let ghost next = models(ts@).take(i + 1);
        assert(next.drop_last() =~= prefix);
        assert(next.last() == ts@[i as int]@);
        if i > 0 {
            append_sep(&mut s);
        }
        let m = mangled_type_name(&ts[i]);
        s.append(m.as_str());
        i = i + 1;
    }
    assert(models(ts@).take(ts@.len() as int) =~= models(ts@));
    s
}

/// Mangled name for a specialization: `identity_Borrow_Float`. The
/// function name is escaped (see `escape`), so the name is unique per
/// function and type arguments (`lemma_mangled_name_injective`).
/// Callers supply `type_args` in the function's declared type
/// parameter order.
pub fn mangled_name(function: &str, type_args: &[Type]) -> (r: String)
    ensures
        r@ == mangled_name_of(function@, models(type_args@)),
{
    proof {
        lemma_models(type_args@);
    }
    let mut s = escaped(function);
    append_sep(&mut s);
    let mut parts = String::new();
    let mut i: usize = 0;
    while i < type_args.len()
        invariant
            0 <= i <= type_args@.len(),
            models(type_args@).len() == type_args@.len(),
            forall|j: int| 0 <= j < type_args@.len() ==> #[trigger] models(type_args@)[j] == type_args@[j]@,
            parts@ == mangle_seq(models(type_args@).take(i as int)),
        decreases type_args@.len() - i,
    {
        let ghost prefix = models(type_args@).take(i as int);
        let ghost next = models(type_args@).take(i + 1);
        assert(next.drop_last() =~= prefix);
        assert(next.last() == type_args@[i as int]@);
        if i > 0 {
            append_sep(&mut parts);
        }
        let m = mangled_type_name(&type_args[i]);
        parts.append(m.as_str());
        i = i + 1;
    }
    assert(models(type_args@).take(type_args@.len() as int) =~= models(type_args@));
    s.append(parts.as_str());
    s
}


// ─── Strings ────────────────────────────────────────────────────────

/// The character sequences of a list of strings.
pub open spec fn strs(v: Seq<String>) -> Seq<Seq<char>> {
    Seq::new(v.len(), |i: int| v[i]@)
}

/// A copy of a list of strings.
pub fn clone_strings(v: &Vec<String>) -> (r: Vec<String>)
    ensures
        strs(r@) == strs(v@),
{
    let mut out: Vec<String> = Vec::new();
    let mut i: usize = 0;
    while i < v.len()
        invariant
            0 <= i <= v@.len(),
            out@.len() == i,
            forall|j: int| 0 <= j < i ==> (#[trigger] out@[j])@ == v@[j]@,
        decreases v@.len() - i,
    {
        out.push(v[i].clone());
        i = i + 1;
    }
    assert(strs(out@) =~= strs(v@));
    out
}

// ─── Instantiations, specializations, call sites ────────────────────

/// A generic call recorded by the analyzer: the call site, the callee,
/// its declared type parameters and the type arguments at the call.
#[derive(Debug)]
pub struct Instantiation {
    pub call_site: ExprId,
    pub function: String,
    pub type_params: Vec<String>,
    pub type_args: Vec<Type>,
}

pub struct InstModel {
    pub id: u32,
    pub function: Seq<char>,
    pub params: Seq<Seq<char>>,
    pub args: Seq<Ty>,
}

impl View for Instantiation {
    type V = InstModel;

    open spec fn view(&self) -> InstModel {
        InstModel {
            id: self.call_site.0,
            function: self.function@,
            params: strs(self.type_params@),
            args: models(self.type_args@),
        }
    }
}

/// A concrete specialization of a generic function, e.g.
/// `identity<Borrow<Float>>` mangled to `identity_Borrow_Float`.
#[derive(Debug)]
pub struct Specialization {
    /// Original function name, e.g. `identity`.
    pub function: String,
    /// Mangled name, e.g. `identity_Borrow_Float`.
    pub mangled_name: String,
    /// Declared type parameter names, in declaration order;
    /// `type_args[i]` binds `type_params[i]`.
    pub type_params: Vec<String>,
    /// The type arguments.
    pub type_args: Vec<Type>,
}

pub struct SpecModel {
    pub function: Seq<char>,
    pub mangled: Seq<char>,
    pub params: Seq<Seq<char>>,
    pub args: Seq<Ty>,
}

impl View for Specialization {
    type V = SpecModel;

    open spec fn view(&self) -> SpecModel {
        SpecModel {
            function: self.function@,
            mangled: self.mangled_name@,
            params: strs(self.type_params@),
            args: models(self.type_args@),
        }
    }
}

impl SpecModel {
    /// The mangled name is that of the function at the arguments, and
    /// every type parameter has exactly one argument.
    pub open spec fn wf(self) -> bool {
        &&& self.mangled == mangled_name_of(self.function, self.args)
        &&& self.params.len() == self.args.len()
    }
}

/// The binding of type parameter names to type arguments that a
/// specialization stands for: a later parameter of the same name wins.
pub open spec fn bindings_of(params: Seq<Seq<char>>, args: Seq<Ty>) -> Seq<(Seq<char>, Ty)> {
    Seq::new(params.len(), |i: int| (params[i], args[i]))
}

impl Specialization {
    pub fn new(function: String, type_params: Vec<String>, type_args: Vec<Type>) -> (r: Specialization)
        requires
            type_params@.len() == type_args@.len(),
        ensures
            r@.function == function@,
            r@.params == strs(type_params@),
            r@.args == models(type_args@),
            r@.wf(),
    {
        proof {
            lemma_models(type_args@);
        }
        let mangled_name = mangled_name(function.as_str(), type_args.as_slice());
        Specialization { function, mangled_name, type_params, type_args }
    }

    /// Type parameter bindings, in declaration order.
    pub fn bindings(&self) -> (r: Vec<(String, Type)>)
        requires
            self@.wf(),
        ensures
            r@.len() == self.type_params@.len(),
            forall|i: int| 0 <= i < r@.len() ==> (#[trigger] r@[i]).0@ == self@.params[i] && r@[i].1@ == self@.args[i],
    {
        proof {
            lemma_models(self.type_args@);
        }
        let mut out: Vec<(String, Type)> = Vec::new();
        let mut i: usize = 0;
        while i < self.type_params.len()
            invariant
                0 <= i <= self.type_params@.len(),
                self.type_params@.len() == self.type_args@.len(),
                models(self.type_args@).len() == self.type_args@.len(),
                forall|j: int| 0 <= j < self.type_args@.len() ==> #[trigger] models(self.type_args@)[j] == self.type_args@[j]@,
                out@.len() == i,
                forall|j: int| 0 <= j < i ==> (#[trigger] out@[j]).0@ == self@.params[j] && out@[j].1@ == self@.args[j],
            decreases self.type_params@.len() - i,
        {
            out.push((self.type_params[i].clone(), self.type_args[i].deep_clone()));
            i = i + 1;
        }
        out
    }

    /// A structural copy.
    pub fn copy(&self) -> (r: Specialization)
        ensures
            r@ == self@,
    {
        Specialization {
            function: self.function.clone(),
            mangled_name: self.mangled_name.clone(),
            type_params: clone_strings(&self.type_params),
            type_args: Type::clone_all(&self.type_args),
        }
    }
}

/// A generic call site's recorded instantiation. `type_args` may
/// contain type variables when the call is inside another generic
/// function's body.
#[derive(Debug)]
pub struct CallSiteInstantiation {
    pub function: String,
    pub type_args: Vec<Type>,
}

pub struct SiteModel {
    pub function: Seq<char>,
    pub args: Seq<Ty>,
}

impl View for CallSiteInstantiation {
    type V = SiteModel;

    open spec fn view(&self) -> SiteModel {
        SiteModel { function: self.function@, args: models(self.type_args@) }
    }
}

// ─── The plan, as a function of the analyzer's records ──────────────

pub open spec fn inst_models(s: Seq<Instantiation>) -> Seq<InstModel> {
    Seq::new(s.len(), |i: int| s[i]@)
}

pub open spec fn site_of(i: InstModel) -> SiteModel {
    SiteModel { function: i.function, args: i.args }
}

pub open spec fn spec_of(i: InstModel) -> SpecModel {
    SpecModel {
        function: i.function,
        mangled: mangled_name_of(i.function, i.args),
        params: i.params,
        args: i.args,
    }
}

/// The call-site table after recording `insts` in order.
pub open spec fn sites_from(insts: Seq<InstModel>) -> Map<u32, SiteModel>
    decreases insts.len(),
{
    if insts.len() == 0 {
        Map::empty()
    } else {
        sites_from(insts.drop_last()).insert(insts.last().id, site_of(insts.last()))
    }
}

/// The specializations after recording `insts` in order: one per
/// concrete instantiation, keyed by mangled name.
pub open spec fn specs_from(insts: Seq<InstModel>) -> Map<Seq<char>, SpecModel>
    decreases insts.len(),
{
    if insts.len() == 0 {
        Map::empty()
    } else {
        let prev = specs_from(insts.drop_last());
        let l = insts.last();
        if !any_unresolved(l.args) {
            prev.insert(spec_of(l).mangled, spec_of(l))
        } else {
            prev
        }
    }
}

/// Two records of the same call site agree on callee and arguments.
pub open spec fn sites_consistent(insts: Seq<InstModel>) -> bool {
    forall|i: int, j: int|
        0 <= i < j < insts.len() && #[trigger] insts[i].id == #[trigger] insts[j].id
            ==> site_of(insts[i]) == site_of(insts[j])
}

/// Every concrete record has as many type arguments as type parameters.
pub open spec fn arities_match(insts: Seq<InstModel>) -> bool {
    forall|i: int|
        0 <= i < insts.len() && !any_unresolved(#[trigger] insts[i].args)
            ==> insts[i].params.len() == insts[i].args.len()
}

/// Two concrete records with the same mangled name have the same arguments.
pub open spec fn no_mangle_collision(insts: Seq<InstModel>) -> bool {
    forall|i: int, j: int|
        0 <= i < insts.len() && 0 <= j < insts.len() && !any_unresolved(#[trigger] insts[i].args)
            && !any_unresolved(#[trigger] insts[j].args)
            && spec_of(insts[i]).mangled == spec_of(insts[j]).mangled ==> insts[i].args == insts[j].args
}

/// The complete set of generic specializations a program needs, plus
/// the call-site table that maps each generic call to its arguments.
#[derive(Debug)]
pub struct InstantiationPlan {
    specializations: Vec<Specialization>,
    call_sites: Vec<(ExprId, CallSiteInstantiation)>,
}

pub open spec fn spec_entries(v: Seq<Specialization>) -> Seq<(Seq<char>, SpecModel)> {
    Seq::new(v.len(), |i: int| (v[i].mangled_name@, v[i]@))
}

pub open spec fn site_entries(v: Seq<(ExprId, CallSiteInstantiation)>) -> Seq<(u32, SiteModel)> {
    Seq::new(v.len(), |i: int| (v[i].0.0, v[i].1@))
}

impl InstantiationPlan {
    /// Concrete specializations, keyed by mangled name.
    pub closed spec fn specs(self) -> Map<Seq<char>, SpecModel> {
        map_of(spec_entries(self.specializations@))
    }

    /// Every recorded generic call site, keyed by its expression id.
    pub closed spec fn sites(self) -> Map<u32, SiteModel> {
        map_of(site_entries(self.call_sites@))
    }

    /// The stored entries have distinct keys, and every specialization
    /// is keyed by its mangled name and has one argument per parameter.
    pub closed spec fn wf(self) -> bool {
        &&& keys_distinct(spec_entries(self.specializations@))
        &&& keys_distinct(site_entries(self.call_sites@))
        &&& forall|k: Seq<char>| #[trigger] self.specs().contains_key(k)
            ==> self.specs()[k].wf() && self.specs()[k].mangled == k
    }

    /// An empty plan.
    pub fn new() -> (r: InstantiationPlan)
        ensures
            r.wf(),
            r.specs() == Map::<Seq<char>, SpecModel>::empty(),
            r.sites() == Map::<u32, SiteModel>::empty(),
    {
        let r = InstantiationPlan { specializations: Vec::new(), call_sites: Vec::new() };
        assert(spec_entries(r.specializations@) =~= Seq::empty());
        assert(site_entries(r.call_sites@) =~= Seq::empty());
        assert(r.specs() =~= Map::empty());
        r
    }

    fn find_spec(&self, name: &String) -> (r: Option<usize>)
        ensures
            match r {
                Some(i) => i < self.specializations@.len() && self.specializations@[i as int].mangled_name@ == name@,
                None => forall|j: int| 0 <= j < self.specializations@.len() ==> (#[trigger] self.specializations@[j]).mangled_name@ != name@,
            },
    {
        let mut i: usize = 0;
        while i < self.specializations.len()
            invariant
                0 <= i <= self.specializations@.len(),
                forall|j: int| 0 <= j < i ==> (#[trigger] self.specializations@[j]).mangled_name@ != name@,
            decreases self.specializations@.len() - i,
        {
            if self.specializations[i].mangled_name == *name {
                return Some(i);
            }
            i = i + 1;
        }
        None
    }

    fn find_site(&self, id: ExprId) -> (r: Option<usize>)
        ensures
            match r {
                Some(i) => i < self.call_sites@.len() && self.call_sites@[i as int].0.0 == id.0,
                None => forall|j: int| 0 <= j < self.call_sites@.len() ==> (#[trigger] self.call_sites@[j]).0.0 != id.0,
            },
    {
        let mut i: usize = 0;
        while i < self.call_sites.len()
            invariant
                0 <= i <= self.call_sites@.len(),
                forall|j: int| 0 <= j < i ==> (#[trigger] self.call_sites@[j]).0.0 != id.0,
            decreases self.call_sites@.len() - i,
        {
            if self.call_sites[i].0.0 == id.0 {
                return Some(i);
            }
            i = i + 1;
        }
        None
    }

    /// Record a specialization under its mangled name, replacing an
    /// earlier one of the same name (whose arguments must agree).
    fn insert_specialization(&mut self, spec: Specialization)
        requires
            old(self).wf(),
            spec@.wf(),
            old(self).specs().contains_key(spec@.mangled) ==> old(self).specs()[spec@.mangled].args == spec@.args,
        ensures
            final(self).wf(),
            final(self).specs() == old(self).specs().insert(spec@.mangled, spec@),
            final(self).sites() == old(self).sites(),
    {
        let ghost key = spec@.mangled;
        let ghost sm = spec@;
        match self.find_spec(&spec.mangled_name) {
            Some(i) => {
                proof {
                    lemma_map_of_update(spec_entries(self.specializations@), i as int, sm);
                }
                self.specializations.set(i, spec);
                assert(spec_entries(self.specializations@) =~= spec_entries(old(self).specializations@).update(i as int, (key, sm)));
            },
            None => {
                proof {
                    lemma_keys_distinct_push(spec_entries(self.specializations@), (key, sm));
                }
                self.specializations.push(spec);
                assert(spec_entries(self.specializations@) =~= spec_entries(old(self).specializations@).push((key, sm)));
            },
        }
    }

    /// Record (or re-record) a call site.
    fn insert_call_site(&mut self, id: ExprId, site: CallSiteInstantiation)
        requires
            old(self).wf(),
        ensures
            final(self).wf(),
            final(self).sites() == old(self).sites().insert(id.0, site@),
            final(self).specs() == old(self).specs(),
    {
        let ghost sm = site@;
        let ghost old_specs = self.specializations@;
        match self.find_site(id) {
            Some(i) => {
                proof {
                    lemma_map_of_update(site_entries(self.call_sites@), i as int, sm);
                }
                self.call_sites.set(i, (id, site));
                assert(site_entries(self.call_sites@) =~= site_entries(old(self).call_sites@).update(i as int, (id.0, sm)));
            },
            None => {
                proof {
                    lemma_keys_distinct_push(site_entries(self.call_sites@), (id.0, sm));
                }
                self.call_sites.push((id, site));
                assert(site_entries(self.call_sites@) =~= site_entries(old(self).call_sites@).push((id.0, sm)));
            },
        }
        assert(self.specializations@ == old_specs);
        assert(self.specs() == old(self).specs());
    }

    /// Build a plan from the analyzer's `Instantiation` records.
    ///
    /// Every record enters the call-site table; only concrete records
    /// (no type variable or `Unknown` in their arguments) produce a
    /// specialization.
    pub fn from_instantiations(instantiations: &[Instantiation]) -> (plan: InstantiationPlan)
        requires
            sites_consistent(inst_models(instantiations@)),
            arities_match(inst_models(instantiations@)),
            no_mangle_collision(inst_models(instantiations@)),
        ensures
            plan.wf(),
            plan.specs() == specs_from(inst_models(instantiations@)),
            plan.sites() == sites_from(inst_models(instantiations@)),
    {
        let ghost all = inst_models(instantiations@);
        let mut plan = InstantiationPlan::new();
        let mut i: usize = 0;
        while i < instantiations.len()
            invariant
                0 <= i <= instantiations@.len(),
                all == inst_models(instantiations@),
                arities_match(all),
                no_mangle_collision(all),
                plan.wf(),
                plan.specs() == specs_from(all.take(i as int)),
                plan.sites() == sites_from(all.take(i as int)),
            decreases instantiations@.len() - i,
        {
            let inst = &instantiations[i];
            let ghost prefix = all.take(i as int);
            let ghost next = all.take(i + 1);
            assert(next.drop_last() =~= prefix);
            assert(next.last() == all[i as int]);
            assert(all[i as int] == inst@);
            proof {
                lemma_models(inst.type_args@);
            }
            let site = CallSiteInstantiation {
                function: inst.function.clone(),
                type_args: Type::clone_all(&inst.type_args),
            };
            plan.insert_call_site(inst.call_site, site);
            if !Type::any_unresolved_in(&inst.type_args) {
                assert(!any_unresolved(all[i as int].args));
                let params = clone_strings(&inst.type_params);
                let args = Type::clone_all(&inst.type_args);
                proof {
                    assert(all[i as int].params.len() == all[i as int].args.len());
                    lemma_models(args@);
                    assert(strs(params@).len() == params@.len());
                }
                let spec = Specialization::new(inst.function.clone(), params, args);
                proof {
                    if plan.specs().contains_key(spec@.mangled) {
                        lemma_specs_from_origin(prefix, spec@.mangled);
                        let j = choose|j: int| 0 <= j < prefix.len() && !any_unresolved(#[trigger] prefix[j].args)
                            && spec_of(prefix[j]) == specs_from(prefix)[spec@.mangled];
                        assert(prefix[j] == all[j]);
                    }
                }
                plan.insert_specialization(spec);
            }
            i = i + 1;
        }
        assert(all.take(instantiations@.len() as int) =~= all);
        plan
    }

    /// Look up the concrete specialization of `function` at `type_args`.
    pub fn specialization_for(&self, function: &str, type_args: &[Type]) -> (r: Option<&Specialization>)
        requires
            self.wf(),
        ensures
            match r {
                Some(s) => self.specs().contains_key(mangled_name_of(function@, models(type_args@)))
                    && s@ == self.specs()[mangled_name_of(function@, models(type_args@))],
                None => !self.specs().contains_key(mangled_name_of(function@, models(type_args@))),
            },
    {
        let name = mangled_name(function, type_args);
        match self.find_spec(&name) {
            Some(i) => {
                proof {
                    lemma_map_of_index(spec_entries(self.specializations@), i as int);
                }
                Some(&self.specializations[i])
            },
            None => {
                proof {
                    lemma_map_of_dom(spec_entries(self.specializations@), name@);
                }
                None
            },
        }
    }

    /// The recorded instantiation of a call site, if any.
    pub fn call_site(&self, id: ExprId) -> (r: Option<&CallSiteInstantiation>)
        requires
            self.wf(),
        ensures
            match r {
                Some(c) => self.sites().contains_key(id.0) && c@ == self.sites()[id.0],
                None => !self.sites().contains_key(id.0),
            },
    {
        match self.find_site(id) {
            Some(i) => {
                proof {
                    lemma_map_of_index(site_entries(self.call_sites@), i as int);
                }
                Some(&self.call_sites[i].1)
            },
            None => {
                proof {
                    lemma_map_of_dom(site_entries(self.call_sites@), id.0);
                }
                None
            },
        }
    }

    /// Every concrete specialization, each once.
    pub fn all_specializations(&self) -> (r: &[Specialization])
        requires
            self.wf(),
        ensures
            r@.len() == self.specs().len(),
            forall|i: int| 0 <= i < r@.len() ==> self.specs().contains_key((#[trigger] r@[i])@.mangled)
                && self.specs()[r@[i]@.mangled] == r@[i]@,
            forall|k: Seq<char>| #[trigger] self.specs().contains_key(k)
                ==> exists|i: int| 0 <= i < r@.len() && (#[trigger] r@[i])@.mangled == k,
    {
        proof {
            let e = spec_entries(self.specializations@);
            lemma_map_of_len(e);
            assert forall|i: int| 0 <= i < self.specializations@.len() implies self.specs().contains_key((#[trigger] self.specializations@[i])@.mangled)
                && self.specs()[self.specializations@[i]@.mangled] == self.specializations@[i]@ by {
                lemma_map_of_index(e, i);
                assert(self.specs()[e[i].0].mangled == e[i].0);
            }
            assert forall|k: Seq<char>| #[trigger] self.specs().contains_key(k)
                implies exists|i: int| 0 <= i < self.specializations@.len() && (#[trigger] self.specializations@[i])@.mangled == k by {
                lemma_map_of_dom(e, k);
                let i = choose|i: int| 0 <= i < e.len() && #[trigger] e[i].0 == k;
                lemma_map_of_index(e, i);
            }
        }
        self.specializations.as_slice()
    }

    /// Number of concrete specializations.
    pub fn specialization_count(&self) -> (r: usize)
        requires
            self.wf(),
        ensures
            r == self.specs().len(),
    {
        proof {
            lemma_map_of_len(spec_entries(self.specializations@));
        }
        self.specializations.len()
    }

    /// Number of recorded call sites.
    pub fn call_site_count(&self) -> (r: usize)
        requires
            self.wf(),
        ensures
            r == self.sites().len(),
    {
        proof {
            lemma_map_of_len(site_entries(self.call_sites@));
        }
        self.call_sites.len()
    }

    /// The plan holds neither specializations nor call sites.
    pub fn is_empty(&self) -> (r: bool)
        requires
            self.wf(),
        ensures
            r == (self.specs().is_empty() && self.sites().is_empty()),
    {
        proof {
            lemma_map_of_len(spec_entries(self.specializations@));
            lemma_map_of_len(site_entries(self.call_sites@));
        }
        self.specializations.len() == 0 && self.call_sites.len() == 0
    }
}

/// Every specialization built from `insts` comes from a concrete record.
pub proof fn lemma_specs_from_origin(insts: Seq<InstModel>, k: Seq<char>)
    requires
        specs_from(insts).contains_key(k),
    ensures
        exists|j: int| 0 <= j < insts.len() && !any_unresolved(#[trigger] insts[j].args)
            && spec_of(insts[j]) == specs_from(insts)[k],
    decreases insts.len(),
{
    let init = insts.drop_last();
    let l = insts.last();
    if !any_unresolved(l.args) && spec_of(l).mangled == k {
        assert(insts[insts.len() - 1] == l);
    } else {
        lemma_specs_from_origin(init, k);
        let j = choose|j: int| 0 <= j < init.len() && !any_unresolved(#[trigger] init[j].args)
            && spec_of(init[j]) == specs_from(init)[k];
        assert(init[j] == insts[j]);
    }
}


/// Every recorded call site is in the call-site table with its callee
/// and arguments.
pub proof fn lemma_sites_complete(insts: Seq<InstModel>, j: int)
    requires
        sites_consistent(insts),
        0 <= j < insts.len(),
    ensures
        sites_from(insts).contains_key(insts[j].id),
        sites_from(insts)[insts[j].id] == site_of(insts[j]),
    decreases insts.len(),
{
    let init = insts.drop_last();
    if j < insts.len() - 1 {
        assert(sites_consistent(init)) by {
            assert forall|a: int, b: int| 0 <= a < b < init.len() && #[trigger] init[a].id == #[trigger] init[b].id
                implies site_of(init[a]) == site_of(init[b]) by {
                assert(init[a] == insts[a]);
                assert(init[b] == insts[b]);
            }
        }
        lemma_sites_complete(init, j);
        assert(init[j] == insts[j]);
        if insts.last().id == insts[j].id {
            assert(insts[insts.len() - 1] == insts.last());
        }
    }
}

/// Every concrete record has its specialization in the plan, under its
/// mangled name, for the same function and arguments.
pub proof fn lemma_specs_complete(insts: Seq<InstModel>, j: int)
    requires
        no_mangle_collision(insts),
        0 <= j < insts.len(),
        !any_unresolved(insts[j].args),
    ensures
        specs_from(insts).contains_key(spec_of(insts[j]).mangled),
        specs_from(insts)[spec_of(insts[j]).mangled].args == insts[j].args,
        specs_from(insts)[spec_of(insts[j]).mangled].function == insts[j].function,
    decreases insts.len(),
{
    let init = insts.drop_last();
    let l = insts.last();
    let k = spec_of(insts[j]).mangled;
    if j == insts.len() - 1 {
        assert(insts[j] == l);
    } else {
        assert(no_mangle_collision(init)) by {
            assert forall|a: int, b: int|
                0 <= a < init.len() && 0 <= b < init.len() && !any_unresolved(#[trigger] init[a].args)
                    && !any_unresolved(#[trigger] init[b].args)
                    && spec_of(init[a]).mangled == spec_of(init[b]).mangled implies init[a].args == init[b].args by {
                assert(init[a] == insts[a]);
                assert(init[b] == insts[b]);
            }
        }
        assert(init[j] == insts[j]);
        lemma_specs_complete(init, j);
        if !any_unresolved(l.args) && spec_of(l).mangled == k {
            let n = insts.len() - 1;
            assert(insts[n] == l);
            assert(l.args == insts[j].args);
            crate::ir::mangling_laws::lemma_mangled_name_injective(l.function, l.args, insts[j].function, l.args);
        }
    }
}


// ─── Transitive closure under generic-to-generic calls ──────────────

/// What the closure reads of a generic function declaration: its name,
/// its type parameters, and the ids of the function calls in its body,
/// in preorder.
#[derive(Debug)]
pub struct GenericFunction {
    pub name: String,
    pub type_params: Vec<String>,
    pub call_ids: Vec<ExprId>,
}

pub struct FnModel {
    pub name: Seq<char>,
    pub params: Seq<Seq<char>>,
    pub calls: Seq<u32>,
}

impl View for GenericFunction {
    type V = FnModel;

    open spec fn view(&self) -> FnModel {
        FnModel {
            name: self.name@,
            params: strs(self.type_params@),
            calls: Seq::new(self.call_ids@.len(), |i: int| self.call_ids@[i].0),
        }
    }
}

pub open spec fn fn_models(fs: Seq<GenericFunction>) -> Seq<FnModel> {
    Seq::new(fs.len(), |i: int| fs[i]@)
}

/// Index of the first function named `name`, or -1.
pub open spec fn find_fn(fs: Seq<FnModel>, name: Seq<char>) -> int
    decreases fs.len(),
{
    if fs.len() == 0 {
        -1
    } else if fs[0].name == name {
        0
    } else {
        let r = find_fn(fs.drop_first(), name);
        if r < 0 { -1 } else { r + 1 }
    }
}

pub proof fn lemma_find_fn(fs: Seq<FnModel>, name: Seq<char>)
    ensures
        -1 <= find_fn(fs, name) < fs.len(),
        find_fn(fs, name) >= 0 ==> fs[find_fn(fs, name)].name == name,
        forall|i: int| 0 <= i < fs.len() && (i < find_fn(fs, name) || find_fn(fs, name) < 0)
            ==> (#[trigger] fs[i]).name != name,
    decreases fs.len(),
{
    if fs.len() > 0 && fs[0].name != name {
        lemma_find_fn(fs.drop_first(), name);
        assert forall|i: int| 0 <= i < fs.len() && (i < find_fn(fs, name) || find_fn(fs, name) < 0)
            implies (#[trigger] fs[i]).name != name by {
            if i > 0 {
                assert(fs.drop_first()[i - 1] == fs[i]);
            }
        }
    }
}

/// The specialization that the call `c` yields under the bindings `b`:
/// its recorded arguments with `b` substituted, when they are concrete
/// and the callee is declared.
pub open spec fn derived(sites: Map<u32, SiteModel>, fs: Seq<FnModel>, b: Seq<(Seq<char>, Ty)>, c: u32) -> Option<SpecModel> {
    if !sites.contains_key(c) {
        None
    } else {
        let site = sites[c];
        let args = subst_seq(site.args, b);
        let fi = find_fn(fs, site.function);
        if any_unresolved(args) || fi < 0 {
            None
        } else {
            Some(SpecModel {
                function: site.function,
                mangled: mangled_name_of(site.function, args),
                params: fs[fi].params,
                args,
            })
        }
    }
}

/// Every specialization that the calls yield under `b` is in `specs`.
pub open spec fn calls_closed(
    specs: Map<Seq<char>, SpecModel>,
    sites: Map<u32, SiteModel>,
    fs: Seq<FnModel>,
    b: Seq<(Seq<char>, Ty)>,
    calls: Seq<u32>,
) -> bool {
    forall|i: int| 0 <= i < calls.len() && (#[trigger] derived(sites, fs, b, calls[i])) is Some
        ==> specs.contains_key(derived(sites, fs, b, calls[i])->Some_0.mangled)
}

/// The calls in the body of the specialization `k`, under its
/// bindings, yield only specializations in `specs`.
pub open spec fn spec_closed(specs: Map<Seq<char>, SpecModel>, sites: Map<u32, SiteModel>, fs: Seq<FnModel>, k: Seq<char>) -> bool {
    let s = specs[k];
    let fi = find_fn(fs, s.function);
    fi >= 0 ==> calls_closed(specs, sites, fs, bindings_of(s.params, s.args), fs[fi].calls)
}

/// For every specialization in the plan, every generic call reachable
/// from its declaration body is resolved to a specialization in the plan.
pub open spec fn plan_closed(specs: Map<Seq<char>, SpecModel>, sites: Map<u32, SiteModel>, fs: Seq<FnModel>) -> bool {
    forall|k: Seq<char>| #[trigger] specs.contains_key(k) ==> spec_closed(specs, sites, fs, k)
}

/// `specs[k]` is what some call in the body of another specialization
/// of `specs` yields.
pub open spec fn generated(specs: Map<Seq<char>, SpecModel>, sites: Map<u32, SiteModel>, fs: Seq<FnModel>, k: Seq<char>) -> bool {
    exists|k0: Seq<char>, i: int|
        #[trigger] specs.contains_key(k0) && find_fn(fs, specs[k0].function) >= 0
            && 0 <= i < fs[find_fn(fs, specs[k0].function)].calls.len()
            && derived(sites, fs, bindings_of(specs[k0].params, specs[k0].args),
                #[trigger] fs[find_fn(fs, specs[k0].function)].calls[i]) == Some(specs[k])
}

/// Every recorded call of a declared function passes one type argument
/// per type parameter of the (first) declaration of that name.
pub open spec fn arity_ok(sites: Map<u32, SiteModel>, fs: Seq<FnModel>) -> bool {
    forall|c: u32| #[trigger] sites.contains_key(c) && find_fn(fs, sites[c].function) >= 0
        ==> fs[find_fn(fs, sites[c].function)].params.len() == sites[c].args.len()
}

/// `m1` is contained in `m2`, with the same values.
pub open spec fn grows<K, V>(m1: Map<K, V>, m2: Map<K, V>) -> bool {
    forall|k: K| #[trigger] m1.contains_key(k) ==> m2.contains_key(k) && m2[k] == m1[k]
}

fn find_function(functions: &[GenericFunction], name: &String) -> (r: Option<usize>)
    ensures
        match r {
            Some(i) => i < functions@.len() && find_fn(fn_models(functions@), name@) == i,
            None => find_fn(fn_models(functions@), name@) < 0,
        },
{
    let ghost fms = fn_models(functions@);
    proof {
        lemma_find_fn(fms, name@);
    }
    let mut i: usize = 0;
    while i < functions.len()
        invariant
            0 <= i <= functions@.len(),
            fms == fn_models(functions@),
            -1 <= find_fn(fms, name@) < fms.len(),
            find_fn(fms, name@) >= 0 ==> fms[find_fn(fms, name@)].name == name@,
            forall|j: int| 0 <= j < fms.len() && (j < find_fn(fms, name@) || find_fn(fms, name@) < 0)
                ==> (#[trigger] fms[j]).name != name@,
            forall|j: int| 0 <= j < i ==> (#[trigger] functions@[j]).name@ != name@,
        decreases functions@.len() - i,
    {
        if functions[i].name == *name {
            assert(fms[i as int].name == name@);
            return Some(i);
        }
        i = i + 1;
    }
    None
}

impl InstantiationPlan {
    /// One step of the closure: materialize every concrete
    /// specialization that a call in `calls` yields under `bindings`.
    /// Returns the mangled names of the newly added specializations.
    fn closure_step(
        &mut self,
        bindings: &Vec<(String, Type)>,
        calls: &Vec<ExprId>,
        functions: &[GenericFunction],
    ) -> (added: Vec<String>)
        requires
            old(self).wf(),
            arity_ok(old(self).sites(), fn_models(functions@)),
        ensures
            final(self).wf(),
            final(self).sites() == old(self).sites(),
            grows(old(self).specs(), final(self).specs()),
            calls_closed(final(self).specs(), final(self).sites(), fn_models(functions@),
                binding_models(bindings@), Seq::new(calls@.len(), |i: int| calls@[i].0)),
            forall|k: Seq<char>| #[trigger] final(self).specs().contains_key(k) && !old(self).specs().contains_key(k)
                ==> exists|i: int| 0 <= i < calls@.len()
                    && derived(final(self).sites(), fn_models(functions@), binding_models(bindings@), #[trigger] calls@[i].0)
                        == Some(final(self).specs()[k]),
            forall|j: int| 0 <= j < added@.len() ==> final(self).specs().contains_key((#[trigger] added@[j])@)
                && !old(self).specs().contains_key(added@[j]@),
            forall|k: Seq<char>| #[trigger] final(self).specs().contains_key(k) && !old(self).specs().contains_key(k)
                ==> exists|j: int| 0 <= j < added@.len() && (#[trigger] added@[j])@ == k,
            calls_closed(old(self).specs(), old(self).sites(), fn_models(functions@),
                binding_models(bindings@), Seq::new(calls@.len(), |i: int| calls@[i].0))
                ==> final(self).specs() == old(self).specs(),
    {
        let ghost fms = fn_models(functions@);
        let ghost b = binding_models(bindings@);
        let ghost cs = Seq::new(calls@.len(), |i: int| calls@[i].0);
        let ghost sites0 = self.sites();
        let ghost specs0 = self.specs();
        let mut added: Vec<String> = Vec::new();
        let mut i: usize = 0;
        while i < calls.len()
            invariant
                0 <= i <= calls@.len(),
                fms == fn_models(functions@),
                b == binding_models(bindings@),
                cs == Seq::new(calls@.len(), |i: int| calls@[i].0),
                self.wf(),
                self.sites() == sites0,
                arity_ok(sites0, fms),
                grows(specs0, self.specs()),
                forall|j: int| 0 <= j < i && (#[trigger] derived(sites0, fms, b, cs[j])) is Some
                    ==> self.specs().contains_key(derived(sites0, fms, b, cs[j])->Some_0.mangled),
                forall|k: Seq<char>| #[trigger] self.specs().contains_key(k) && !specs0.contains_key(k)
                    ==> exists|j: int| 0 <= j < i && derived(sites0, fms, b, #[trigger] calls@[j].0) == Some(self.specs()[k]),
                forall|j: int| 0 <= j < added@.len() ==> self.specs().contains_key((#[trigger] added@[j])@)
                    && !specs0.contains_key(added@[j]@),
                forall|k: Seq<char>| #[trigger] self.specs().contains_key(k) && !specs0.contains_key(k)
                    ==> exists|j: int| 0 <= j < added@.len() && (#[trigger] added@[j])@ == k,
                calls_closed(specs0, sites0, fms, b, cs) ==> self.specs() == specs0,
            decreases calls@.len() - i,
        {
            let c = calls[i];
            assert(cs[i as int] == c.0);
            let ghost d = derived(sites0, fms, b, c.0);
            let found = self.call_site(c);
            let (function, site_args) = match found {
                None => {
                    assert(d is None);
                    i = i + 1;
                    continue;
                },
                Some(csi) => (csi.function.clone(), Type::clone_all(&csi.type_args)),
            };
            let concrete_args = Type::substitute_all(&site_args, bindings);
            if Type::any_unresolved_in(&concrete_args) {
                assert(d is None);
                i = i + 1;
                continue;
            }
            let fi = match find_function(functions, &function) {
                None => {
                    assert(d is None);
                    i = i + 1;
                    continue;
                },
                Some(fi) => fi,
            };
            proof {
                lemma_models(concrete_args@);
                lemma_models(site_args@);
                lemma_subst_seq(models(site_args@), b);
                assert(fms[fi as int] == functions@[fi as int]@);
                assert(sites0.contains_key(c.0));
            }
            let params = clone_strings(&functions[fi].type_params);
            let candidate = Specialization::new(function, params, concrete_args);
            assert(d == Some(candidate@));
            if self.find_spec(&candidate.mangled_name).is_some() {
                proof {
                    let e = spec_entries(self.specializations@);
                    let idx = choose|idx: int| 0 <= idx < self.specializations@.len()
                        && self.specializations@[idx].mangled_name@ == candidate@.mangled;
                    lemma_map_of_index(e, idx);
                }
                i = i + 1;
                continue;
            }
            let key = candidate.mangled_name.clone();
            proof {
                lemma_map_of_dom(spec_entries(self.specializations@), candidate@.mangled);
                if calls_closed(specs0, sites0, fms, b, cs) {
                    assert(derived(sites0, fms, b, cs[i as int]) is Some);
                    assert(specs0.contains_key(candidate@.mangled));
                }
            }
            let ghost before = self.specs();
            let ghost added_before = added@;
            self.insert_specialization(candidate);
            added.push(key);
            proof {
                assert forall|k: Seq<char>| #[trigger] self.specs().contains_key(k) && !specs0.contains_key(k)
                    implies exists|j: int| 0 <= j < i + 1 && derived(sites0, fms, b, #[trigger] calls@[j].0) == Some(self.specs()[k]) by {
                    if k != key@ {
                        let j = choose|j: int| 0 <= j < i && derived(sites0, fms, b, #[trigger] calls@[j].0) == Some(before[k]);
                    } else {
                        assert(derived(sites0, fms, b, calls@[i as int].0) == Some(self.specs()[k]));
                    }
                }
                assert forall|k: Seq<char>| #[trigger] self.specs().contains_key(k) && !specs0.contains_key(k)
                    implies exists|j: int| 0 <= j < added@.len() && (#[trigger] added@[j])@ == k by {
                    if k != key@ {
                        assert(before.contains_key(k));
                        let j = choose|j: int| 0 <= j < added_before.len() && (#[trigger] added_before[j])@ == k;
                        assert(added@[j] == added_before[j]);
                    } else {
                        assert(added@[added@.len() - 1]@ == k);
                    }
                }
            }
            i = i + 1;
        }
        assert forall|j: int| 0 <= j < cs.len() && (#[trigger] derived(self.sites(), fms, b, cs[j])) is Some
            implies self.specs().contains_key(derived(self.sites(), fms, b, cs[j])->Some_0.mangled) by {
        }
        added
    }
}


proof fn lemma_closed_grows(
    s1: Map<Seq<char>, SpecModel>,
    s2: Map<Seq<char>, SpecModel>,
    sites: Map<u32, SiteModel>,
    fs: Seq<FnModel>,
    k: Seq<char>,
)
    requires
        grows(s1, s2),
        s1.contains_key(k),
        spec_closed(s1, sites, fs, k),
    ensures
        spec_closed(s2, sites, fs, k),
{
    assert(s2[k] == s1[k]);
    let s = s1[k];
    let fi = find_fn(fs, s.function);
    if fi >= 0 {
        let b = bindings_of(s.params, s.args);
        let calls = fs[fi].calls;
        assert forall|i: int| 0 <= i < calls.len() && (#[trigger] derived(sites, fs, b, calls[i])) is Some
            implies s2.contains_key(derived(sites, fs, b, calls[i])->Some_0.mangled) by {
            assert(s1.contains_key(derived(sites, fs, b, calls[i])->Some_0.mangled));
        }
    }
}

proof fn lemma_generated_grows(
    s1: Map<Seq<char>, SpecModel>,
    s2: Map<Seq<char>, SpecModel>,
    sites: Map<u32, SiteModel>,
    fs: Seq<FnModel>,
    k: Seq<char>,
)
    requires
        grows(s1, s2),
        s1.contains_key(k),
        generated(s1, sites, fs, k),
    ensures
        generated(s2, sites, fs, k),
{
    let (k0, i) = choose|k0: Seq<char>, i: int|
        #[trigger] s1.contains_key(k0) && find_fn(fs, s1[k0].function) >= 0
            && 0 <= i < fs[find_fn(fs, s1[k0].function)].calls.len()
            && derived(sites, fs, bindings_of(s1[k0].params, s1[k0].args),
                #[trigger] fs[find_fn(fs, s1[k0].function)].calls[i]) == Some(s1[k]);
    assert(s2.contains_key(k0) && s2[k0] == s1[k0]);
    assert(s2[k] == s1[k]);
}

impl InstantiationPlan {
    /// The mangled names of all specializations, each once.
    fn all_names(&self) -> (r: Vec<String>)
        requires
            self.wf(),
        ensures
            forall|j: int| 0 <= j < r@.len() ==> self.specs().contains_key((#[trigger] r@[j])@),
            forall|k: Seq<char>| #[trigger] self.specs().contains_key(k) ==> exists|j: int| 0 <= j < r@.len() && (#[trigger] r@[j])@ == k,
            forall|a: int, b: int| 0 <= a < b < r@.len() ==> (#[trigger] r@[a])@ != (#[trigger] r@[b])@,
    {
        let ghost e = spec_entries(self.specializations@);
        let mut out: Vec<String> = Vec::new();
        let mut i: usize = 0;
        while i < self.specializations.len()
            invariant
                0 <= i <= self.specializations@.len(),
                e == spec_entries(self.specializations@),
                keys_distinct(e),
                out@.len() == i,
                forall|j: int| 0 <= j < i ==> (#[trigger] out@[j])@ == e[j].0,
            decreases self.specializations@.len() - i,
        {
            out.push(self.specializations[i].mangled_name.clone());
            i = i + 1;
        }
        proof {
            assert forall|j: int| 0 <= j < out@.len() implies self.specs().contains_key((#[trigger] out@[j])@) by {
                lemma_map_of_index(e, j);
            }
            assert forall|k: Seq<char>| #[trigger] self.specs().contains_key(k) implies exists|j: int| 0 <= j < out@.len() && (#[trigger] out@[j])@ == k by {
                lemma_map_of_dom(e, k);
                let j = choose|j: int| 0 <= j < e.len() && #[trigger] e[j].0 == k;
                assert(out@[j]@ == k);
            }
            assert forall|a: int, b: int| 0 <= a < b < out@.len() implies (#[trigger] out@[a])@ != (#[trigger] out@[b])@ by {
                assert(e[a].0 != e[b].0);
            }
        }
        out
    }

    /// Transitively close the plan under generic-to-generic calls.
    ///
    /// Walks each concrete specialization's declaration body under that
    /// specialization's bindings, materializes every concrete
    /// specialization that a recorded call there yields, and iterates to
    /// a fixpoint, taking at most `max_steps` worklist steps (each
    /// specialization is visited once, so the walk stops short only when
    /// the plan holds at least `max_steps` specializations: generic
    /// recursion can call for ever more of them). Returns whether the
    /// fixpoint was reached; then every generic call reachable from the
    /// body of a specialization in the plan is resolved to a
    /// specialization in the plan.
    pub fn close(&mut self, functions: &[GenericFunction], max_steps: usize) -> (done: bool)
        requires
            old(self).wf(),
            arity_ok(old(self).sites(), fn_models(functions@)),
        ensures
            final(self).wf(),
            final(self).sites() == old(self).sites(),
            grows(old(self).specs(), final(self).specs()),
            done ==> plan_closed(final(self).specs(), final(self).sites(), fn_models(functions@)),
            forall|k: Seq<char>| #[trigger] final(self).specs().contains_key(k) && !old(self).specs().contains_key(k)
                ==> generated(final(self).specs(), final(self).sites(), fn_models(functions@), k),
            plan_closed(old(self).specs(), old(self).sites(), fn_models(functions@))
                ==> final(self).specs() == old(self).specs(),
            !done ==> max_steps <= final(self).specs().len(),
    {
        let ghost fms = fn_models(functions@);
        let ghost sites0 = self.sites();
        let ghost specs0 = self.specs();
        let mut queue = self.all_names();
        let mut steps: usize = 0;
        let ghost mut popped: Seq<Seq<char>> = Seq::empty();
        while queue.len() > 0 && steps < max_steps
            invariant
                popped.len() == steps,
                forall|a: int, b: int| 0 <= a < b < popped.len() ==> popped[a] != popped[b],
                forall|a: int| 0 <= a < popped.len() ==> self.specs().contains_key(#[trigger] popped[a]),
                forall|a: int, t: int| 0 <= a < popped.len() && 0 <= t < queue@.len() ==> #[trigger] popped[a] != (#[trigger] queue@[t])@,
                fms == fn_models(functions@),
                self.wf(),
                self.sites() == sites0,
                arity_ok(sites0, fms),
                grows(specs0, self.specs()),
                forall|j: int| 0 <= j < queue@.len() ==> self.specs().contains_key((#[trigger] queue@[j])@),
                forall|a: int, b: int| 0 <= a < b < queue@.len() ==> (#[trigger] queue@[a])@ != (#[trigger] queue@[b])@,
                forall|k: Seq<char>| #[trigger] self.specs().contains_key(k)
                    && !(exists|j: int| 0 <= j < queue@.len() && (#[trigger] queue@[j])@ == k)
                    ==> spec_closed(self.specs(), sites0, fms, k),
                forall|k: Seq<char>| #[trigger] self.specs().contains_key(k) && !specs0.contains_key(k)
                    ==> generated(self.specs(), sites0, fms, k),
                plan_closed(specs0, sites0, fms) ==> self.specs() == specs0,
            decreases max_steps - steps,
        {
            let ghost queue0 = queue@;
            let name = queue.pop().unwrap();
            steps = steps + 1;
            let ghost specs1 = self.specs();
            let ghost queue1 = queue@;
            assert(specs1.contains_key(name@));
            assert forall|j: int| 0 <= j < queue1.len() implies (#[trigger] queue1[j])@ != name@ by {
                assert(queue0[j] == queue1[j]);
            }
            proof {
                let p0 = popped;
                assert(queue0[queue0.len() - 1] == name);
                assert forall|a: int| 0 <= a < p0.len() implies p0[a] != name@ by {
                    assert(p0[a] != queue0[queue0.len() - 1]@);
                }
                assert forall|a: int, t: int| 0 <= a < p0.len() && 0 <= t < queue1.len() implies #[trigger] p0[a] != (#[trigger] queue1[t])@ by {
                    assert(queue1[t] == queue0[t]);
                }
                popped = p0.push(name@);
            }
            let spec = match self.find_spec(&name) {
                Some(i) => {
                    proof {
                        lemma_map_of_index(spec_entries(self.specializations@), i as int);
                    }
                    self.specializations[i].copy()
                },
                None => {
                    proof {
                        lemma_map_of_dom(spec_entries(self.specializations@), name@);
                    }
                    continue;
                },
            };
            assert(spec@ == specs1[name@]);
            let fi = match find_function(functions, &spec.function) {
                Some(fi) => fi,
                None => {
                    assert(spec_closed(specs1, sites0, fms, name@));
                    proof {
                        assert forall|k: Seq<char>| #[trigger] specs1.contains_key(k)
                            && !(exists|a: int| 0 <= a < queue@.len() && (#[trigger] queue@[a])@ == k)
                            implies spec_closed(specs1, sites0, fms, k) by {
                            if k != name@ {
                                if exists|a: int| 0 <= a < queue0.len() && (#[trigger] queue0[a])@ == k {
                                    let a = choose|a: int| 0 <= a < queue0.len() && (#[trigger] queue0[a])@ == k;
                                    if a < queue1.len() {
                                        assert(queue0[a] == queue1[a]);
                                    }
                                }
                            }
                        }
                    }
                    continue;
                },
            };
            let bindings = spec.bindings();
            proof {
                assert(binding_models(bindings@) =~= bindings_of(spec@.params, spec@.args));
                assert(fms[fi as int] == functions@[fi as int]@);
            }
            proof {
                if plan_closed(specs0, sites0, fms) {
                    assert(spec_closed(specs0, sites0, fms, name@));
                    assert(Seq::new(functions@[fi as int].call_ids@.len(), |i: int| functions@[fi as int].call_ids@[i].0)
                        =~= fms[fi as int].calls);
                }
            }
            let new_keys = self.closure_step(&bindings, &functions[fi].call_ids, functions);
            let ghost specs2 = self.specs();
            proof {
                assert(specs2[name@] == specs1[name@]);
                assert(Seq::new(functions@[fi as int].call_ids@.len(), |i: int| functions@[fi as int].call_ids@[i].0)
                    =~= fms[fi as int].calls);
                assert(spec_closed(specs2, sites0, fms, name@));
                assert forall|k: Seq<char>| #[trigger] specs2.contains_key(k) && !specs0.contains_key(k)
                    implies generated(specs2, sites0, fms, k) by {
                    if specs1.contains_key(k) {
                        lemma_generated_grows(specs1, specs2, sites0, fms, k);
                    } else {
                        let i = choose|i: int| 0 <= i < functions@[fi as int].call_ids@.len()
                            && derived(sites0, fms, binding_models(bindings@), #[trigger] functions@[fi as int].call_ids@[i].0) == Some(specs2[k]);
                        assert(fms[fi as int].calls[i] == functions@[fi as int].call_ids@[i].0);
                        assert(specs2.contains_key(name@));
                    }
                }
            }
            let mut j: usize = 0;
            while j < new_keys.len()
                invariant
                    0 <= j <= new_keys@.len(),
                    fms == fn_models(functions@),
                    self.wf(),
                    self.specs() == specs2,
                    self.sites() == sites0,
                    forall|t: int| 0 <= t < new_keys@.len() ==> specs2.contains_key((#[trigger] new_keys@[t])@)
                        && !specs1.contains_key(new_keys@[t]@),
                    forall|a: int| 0 <= a < queue@.len() ==> specs2.contains_key((#[trigger] queue@[a])@),
                    forall|a: int, b: int| 0 <= a < b < queue@.len() ==> (#[trigger] queue@[a])@ != (#[trigger] queue@[b])@,
                    forall|a: int| 0 <= a < queue1.len() ==> (#[trigger] queue@[a]) == queue1[a],
                    queue1.len() <= queue@.len(),
                    forall|a: int| 0 <= a < popped.len() ==> specs1.contains_key(#[trigger] popped[a]),
                    forall|a: int, t: int| 0 <= a < popped.len() && 0 <= t < queue@.len() ==> #[trigger] popped[a] != (#[trigger] queue@[t])@,
                    forall|t: int| 0 <= t < j ==> exists|a: int| 0 <= a < queue@.len() && (#[trigger] queue@[a])@ == (#[trigger] new_keys@[t])@,
                decreases new_keys@.len() - j,
            {
                let mut present = false;
                let mut q: usize = 0;
                while q < queue.len()
                    invariant
                        0 <= q <= queue@.len(),
                        0 <= j < new_keys@.len(),
                        present ==> exists|a: int| 0 <= a < queue@.len() && (#[trigger] queue@[a])@ == new_keys@[j as int]@,
                        !present ==> forall|a: int| 0 <= a < q ==> (#[trigger] queue@[a])@ != new_keys@[j as int]@,
                    decreases queue@.len() - q,
                {
                    if queue[q] == new_keys[j] {
                        present = true;
                    }
                    q = q + 1;
                }
                if !present {
                    let ghost qb = queue@;
                    queue.push(new_keys[j].clone());
                    proof {
                        assert forall|a: int, t: int| 0 <= a < popped.len() && 0 <= t < queue@.len() implies #[trigger] popped[a] != (#[trigger] queue@[t])@ by {
                            if t < qb.len() {
                                assert(queue@[t] == qb[t]);
                            } else {
                                assert(specs1.contains_key(popped[a]));
                                assert(!specs1.contains_key(new_keys@[j as int]@));
                            }
                        }
                        assert forall|t: int| 0 <= t < j + 1 implies exists|a: int| 0 <= a < queue@.len() && (#[trigger] queue@[a])@ == (#[trigger] new_keys@[t])@ by {
                            if t < j {
                                let a = choose|a: int| 0 <= a < qb.len() && (#[trigger] qb[a])@ == new_keys@[t]@;
                                assert(queue@[a] == qb[a]);
                            } else {
                                assert(queue@[qb.len() as int]@ == new_keys@[t]@);
                            }
                        }
                    }
                }
                j = j + 1;
            }
            proof {
                assert forall|k: Seq<char>| #[trigger] specs2.contains_key(k)
                    && !(exists|a: int| 0 <= a < queue@.len() && (#[trigger] queue@[a])@ == k)
                    implies spec_closed(specs2, sites0, fms, k) by {
                    if k == name@ {
                    } else if specs1.contains_key(k) {
                        if exists|a: int| 0 <= a < queue1.len() && (#[trigger] queue1[a])@ == k {
                            let a = choose|a: int| 0 <= a < queue1.len() && (#[trigger] queue1[a])@ == k;
                            assert(queue@[a] == queue1[a]);
                        }
                        assert(!(exists|a: int| 0 <= a < queue0.len() && (#[trigger] queue0[a])@ == k)) by {
                            if exists|a: int| 0 <= a < queue0.len() && (#[trigger] queue0[a])@ == k {
                                let a = choose|a: int| 0 <= a < queue0.len() && (#[trigger] queue0[a])@ == k;
                                if a < queue1.len() {
                                    assert(queue0[a] == queue1[a]);
                                }
                            }
                        }
                        lemma_closed_grows(specs1, specs2, sites0, fms, k);
                    } else {
                        let t = choose|t: int| 0 <= t < new_keys@.len() && (#[trigger] new_keys@[t])@ == k;
                        let a = choose|a: int| 0 <= a < queue@.len() && (#[trigger] queue@[a])@ == (#[trigger] new_keys@[t])@;
                    }
                }
            }
        }
        proof {
            if queue.len() > 0 {
                lemma_map_of_len(spec_entries(self.specializations@));
                lemma_distinct_in_dom(popped, self.specs());
            }
        }
        queue.len() == 0
    }
}

/// A sequence without repeats, all of whose members are keys of a map with
/// finitely many keys, is no longer than the map.
proof fn lemma_distinct_in_dom<V>(p: Seq<Seq<char>>, m: Map<Seq<char>, V>)
    requires
        m.dom().finite(),
        forall|a: int, b: int| 0 <= a < b < p.len() ==> p[a] != p[b],
        forall|a: int| 0 <= a < p.len() ==> m.contains_key(#[trigger] p[a]),
    ensures
        p.len() <= m.len(),
{
    assert(p.no_duplicates()) by {
        assert forall|i: int, j: int| 0 <= i < p.len() && 0 <= j < p.len() && i != j implies p[i] != p[j] by {
            if i < j {
                assert(p[i] != p[j]);
            } else {
                assert(p[j] != p[i]);
            }
        }
    }
    p.unique_seq_to_set();
    assert(p.to_set().subset_of(m.dom()));
    vstd::set_lib::lemma_len_subset(p.to_set(), m.dom());
}

} // verus!
