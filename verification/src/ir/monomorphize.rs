//! Naming of the specialized copies of generic functions.

use vstd::prelude::*;
use crate::common::types::{Type, Ty, models, lemma_models, binding_models, lookup, lookup_binding};
use crate::common::text::{trim, trim_str};
use crate::common::chars::{chars_of, push_char};
use crate::common::debug_text::{push_type, ty_debug};
use crate::frontend::ast::{Expr, ExprKind, FunctionDecl, Stmt, str_equals};

verus! {

/// The part of a specialized name that stands for one type argument.
pub open spec fn arg_name(t: Ty) -> Seq<char>
    decreases t,
{
    match t {
        Ty::Int => "Int"@,
        Ty::Float => "Float"@,
        Ty::Str => "String"@,
        Ty::Bool => "Bool"@,
        Ty::List(inner) => "List_"@ + arg_name(*inner),
        Ty::Opt(inner) => "Option_"@ + arg_name(*inner),
        Ty::TypeVar(v) => v,
        _ => "Unknown"@,
    }
}

/// The argument names of `ts`, separated by `_`.
pub open spec fn arg_names(ts: Seq<Ty>) -> Seq<char>
    decreases ts.len(),
{
    if ts.len() == 0 {
        Seq::empty()
    } else if ts.len() == 1 {
        arg_name(ts[0])
    } else {
        arg_names(ts.drop_last()) + seq!['_'] + arg_name(ts.last())
    }
}

/// The name of `func` specialized to `args`: `func_A_B...`.
pub open spec fn specialized(func: Seq<char>, args: Seq<Ty>) -> Seq<char> {
    func + seq!['_'] + arg_names(args)
}

/// What a written type becomes under `bindings`: the text trimmed; where
/// that is one byte long and an uppercase letter (a type parameter's
/// name) bound in `bindings`, the text of the type bound to it (the last
/// binding of the name counts).
pub open spec fn subst_text(s: Seq<char>, bindings: Seq<(Seq<char>, Ty)>) -> Seq<char> {
    let t = trim(s);
    if t.len() == 1 && 'A' <= t[0] <= 'Z' && lookup(bindings, t) is Some {
        ty_debug(lookup(bindings, t).unwrap())
    } else {
        t
    }
}

/// Whether a type meets a trait bound: `Comparable` and `Add` hold of
/// `Int` and `Float`, `Display` of `Int`, `Float`, `String` and `Bool`;
/// any other trait is taken to hold.
pub open spec fn implements(trait_name: Seq<char>, t: Ty) -> bool {
    if trait_name == "Comparable"@ || trait_name == "Add"@ {
        t is Int || t is Float
    } else if trait_name == "Display"@ {
        t is Int || t is Float || t is Str || t is Bool
    } else {
        true
    }
}

/// The index of the first of `ps` that is `name`.
pub open spec fn first_index(ps: Seq<String>, name: Seq<char>) -> Option<int>
    decreases ps.len(),
{
    if ps.len() == 0 {
        None
    } else if ps[0]@ == name {
        Some(0)
    } else {
        match first_index(ps.drop_first(), name) {
            Some(i) => Some(i + 1),
            None => None,
        }
    }
}

/// The `where` clause `k` of `f` is not met by the type arguments `args`:
/// its parameter is one of `f`'s, has an argument, and that argument does
/// not implement its trait.
pub open spec fn clause_fails(f: FunctionDecl, args: Seq<Type>, k: int) -> bool {
    let c = f.where_clauses@[k];
    match first_index(f.type_params@, c.type_param@) {
        Some(i) => i < args.len() && !implements(c.trait_name@, args[i]@),
        None => false,
    }
}

/// The message for clause `k` not being met.
pub open spec fn bound_message(f: FunctionDecl, args: Seq<Type>, k: int) -> Seq<char> {
    let c = f.where_clauses@[k];
    let i = first_index(f.type_params@, c.type_param@).unwrap();
    "Type '"@ + ty_debug(args[i]@) + "' does not implement trait '"@ + c.trait_name@ + "' (required by '"@
        + c.type_param@ + "')"@
}

fn find_param(ps: &Vec<String>, name: &String) -> (r: Option<usize>)
    ensures
        match r {
            Some(i) => first_index(ps@, name@) == Some(i as int) && i < ps@.len(),
            None => first_index(ps@, name@) is None,
        },
{
    let mut i: usize = 0;
    assert(ps@.skip(0) =~= ps@);
    assert(first_index(ps@, name@) == (match first_index(ps@.skip(0), name@) {
        Some(j) => Some(j + 0),
        None => None::<int>,
    }));
    while i < ps.len()
        invariant
            0 <= i <= ps@.len(),
            first_index(ps@, name@) == (match first_index(ps@.skip(i as int), name@) {
                Some(j) => Some(j + i),
                None => None::<int>,
            }),
        decreases ps@.len() - i,
    {
        assert(ps@.skip(i as int).drop_first() =~= ps@.skip(i + 1));
        assert(ps@.skip(i as int)[0] == ps@[i as int]);
        if str_equals(ps[i].as_str(), name.as_str()) {
            return Some(i);
        }
        i = i + 1;
    }
    assert(ps@.skip(i as int) =~= Seq::<String>::empty());
    None
}

fn trait_holds(trait_name: &String, t: &Type) -> (r: bool)
    ensures
        r == implements(trait_name@, t@),
{
    let is_num = match t {
        Type::Int | Type::Float => true,
        _ => false,
    };
    if str_equals(trait_name.as_str(), "Comparable") || str_equals(trait_name.as_str(), "Add") {
        is_num
    } else if str_equals(trait_name.as_str(), "Display") {
        match t {
            Type::Int | Type::Float | Type::String | Type::Bool => true,
            _ => false,
        }
    } else {
        true
    }
}

// ─── The calls of generic functions ─────────────────────────────────

/// The type an argument plainly has: that of a literal, a list by its
/// first item, an option or result by what it wraps; anything else is
/// unknown.
pub open spec fn infer(e: Expr) -> Ty
    decreases e,
{
    match e.kind {
        ExprKind::Int(_, _) => Ty::Int,
        ExprKind::Number(_, _) => Ty::Float,
        ExprKind::String(_, _) => Ty::Str,
        ExprKind::Bool(_, _) => Ty::Bool,
        ExprKind::List(items, _) => if items@.len() > 0 {
            Ty::List(Box::new(infer(items@[0])))
        } else {
            Ty::List(Box::new(Ty::Unknown))
        },
        ExprKind::SomeValue { value, .. } => Ty::Opt(Box::new(infer(*value))),
        ExprKind::NoneValue(_) => Ty::Opt(Box::new(Ty::Unknown)),
        ExprKind::OkValue { value, .. } => Ty::Res(Box::new(infer(*value)), Box::new(Ty::Unknown)),
        ExprKind::Error { value, .. } => Ty::Res(Box::new(Ty::Unknown), Box::new(infer(*value))),
        _ => Ty::Unknown,
    }
}

pub open spec fn infer_all(es: Seq<Expr>) -> Seq<Ty> {
    Seq::new(es.len(), |i: int| infer(es[i]))
}

/// `n` without every `()` at its end.
pub open spec fn strip_parens(n: Seq<char>) -> Seq<char>
    decreases n.len(),
{
    if n.len() >= 2 && n[n.len() - 2] == '(' && n[n.len() - 1] == ')' {
        strip_parens(n.subrange(0, n.len() - 2))
    } else {
        n
    }
}

/// The calls in an expression, in the order they are met: each as the
/// called name and the types of its arguments. Calls are looked for in
/// call arguments, operands, conditions and branches, blocks, lists and
/// what an option or result wraps.
pub open spec fn expr_calls(e: Expr) -> Seq<(Seq<char>, Seq<Ty>)>
    decreases e, 0nat,
{
    match e.kind {
        ExprKind::FunctionCall { name, args, .. } => seq![(strip_parens(name@), infer_all(args@))]
            + exprs_calls(args@),
        ExprKind::Binary { left, right, .. } => expr_calls(*left) + expr_calls(*right),
        ExprKind::If { condition, then_branch, else_branch, .. } => expr_calls(*condition) + expr_calls(*then_branch)
            + (match else_branch {
                Some(b) => expr_calls(*b),
                None => Seq::empty(),
            }),
        ExprKind::Block { statements, trailing_expr, .. } => stmts_calls(statements@) + (match trailing_expr {
            Some(t) => expr_calls(*t),
            None => Seq::empty(),
        }),
        ExprKind::List(items, _) => exprs_calls(items@),
        ExprKind::SomeValue { value, .. } => expr_calls(*value),
        ExprKind::OkValue { value, .. } => expr_calls(*value),
        ExprKind::Error { value, .. } => expr_calls(*value),
        _ => Seq::empty(),
    }
}

pub open spec fn exprs_calls(es: Seq<Expr>) -> Seq<(Seq<char>, Seq<Ty>)>
    decreases es, 0nat,
{
    if es.len() == 0 { Seq::empty() } else { exprs_calls(es.drop_last()) + expr_calls(es.last()) }
}

/// The calls in a statement: in the value of a declaration, assignment,
/// print or return, and in an expression statement.
pub open spec fn stmt_calls(s: Stmt) -> Seq<(Seq<char>, Seq<Ty>)>
    decreases s, 0nat,
{
    match s {
        Stmt::VarDecl { value, .. } => expr_calls(value),
        Stmt::Assign { value, .. } => expr_calls(value),
        Stmt::Expression(e) => expr_calls(e),
        Stmt::Print { expr, .. } => expr_calls(expr),
        Stmt::Return { value, .. } => match value {
            Some(e) => expr_calls(e),
            None => Seq::empty(),
        },
        _ => Seq::empty(),
    }
}

pub open spec fn stmts_calls(ss: Seq<Stmt>) -> Seq<(Seq<char>, Seq<Ty>)>
    decreases ss, 0nat,
{
    if ss.len() == 0 { Seq::empty() } else { stmts_calls(ss.drop_last()) + stmt_calls(ss.last()) }
}

pub open spec fn functions_calls(fs: Seq<FunctionDecl>) -> Seq<(Seq<char>, Seq<Ty>)>
    decreases fs.len(),
{
    if fs.len() == 0 { Seq::empty() } else { functions_calls(fs.drop_last()) + stmts_calls(fs.last().body@) }
}

/// The index of the entry for `name`, if any.
pub open spec fn key_index(m: Seq<(Seq<char>, Seq<Seq<Ty>>)>, name: Seq<char>) -> Option<int>
    decreases m.len(),
{
    if m.len() == 0 {
        None
    } else if m.last().0 == name {
        Some(m.len() - 1)
    } else {
        key_index(m.drop_last(), name)
    }
}

/// A call recorded: its argument types added to the lists of its name,
/// a new entry where the name has none yet.
pub open spec fn record(m: Seq<(Seq<char>, Seq<Seq<Ty>>)>, c: (Seq<char>, Seq<Ty>)) -> Seq<(Seq<char>, Seq<Seq<Ty>>)> {
    match key_index(m, c.0) {
        Some(k) => m.update(k, (c.0, m[k].1.push(c.1))),
        None => m.push((c.0, seq![c.1])),
    }
}

pub open spec fn record_all(m: Seq<(Seq<char>, Seq<Seq<Ty>>)>, cs: Seq<(Seq<char>, Seq<Ty>)>) -> Seq<(Seq<char>, Seq<Seq<Ty>>)>
    decreases cs.len(),
{
    if cs.len() == 0 { m } else { record(record_all(m, cs.drop_last()), cs.last()) }
}

pub open spec fn lists_model(v: Seq<Vec<Type>>) -> Seq<Seq<Ty>> {
    Seq::new(v.len(), |i: int| models(v[i]@))
}

pub open spec fn bindings_model(v: Seq<(String, Vec<Vec<Type>>)>) -> Seq<(Seq<char>, Seq<Seq<Ty>>)> {
    Seq::new(v.len(), |i: int| (v[i].0@, lists_model(v[i].1@)))
}

proof fn lemma_record_all_append(m: Seq<(Seq<char>, Seq<Seq<Ty>>)>, a: Seq<(Seq<char>, Seq<Ty>)>, b: Seq<(Seq<char>, Seq<Ty>)>)
    ensures
        record_all(m, a + b) == record_all(record_all(m, a), b),
    decreases b.len(),
{
    if b.len() == 0 {
        assert(a + b =~= a);
    } else {
        assert((a + b).drop_last() =~= a + b.drop_last());
        assert((a + b).last() == b.last());
        lemma_record_all_append(m, a, b.drop_last());
    }
}

/// `name` without every `()` at its end.
fn strip_call_parens(name: &String) -> (r: String)
    ensures
        r@ == strip_parens(name@),
{
    let v = chars_of(name.as_str());
    let mut k: usize = v.len();
    assert(v@.subrange(0, k as int) =~= name@);
    while k >= 2 && v[k - 2] == '(' && v[k - 1] == ')'
        invariant
            k <= v@.len(),
            v@ == name@,
            strip_parens(name@) == strip_parens(v@.subrange(0, k as int)),
        decreases k,
    {
        proof {
            let w = v@.subrange(0, k as int);
            assert(w.subrange(0, w.len() - 2) =~= v@.subrange(0, k - 2));
        }
        k = k - 2;
    }
    let mut out = String::new();
    let mut i: usize = 0;
    while i < k
        invariant
            i <= k <= v@.len(),
            out@ == v@.subrange(0, i as int),
        decreases k - i,
    {
        push_char(&mut out, v[i]);
        proof {
            assert(v@.subrange(0, i + 1) =~= v@.subrange(0, i as int).push(v@[i as int]));
        }
        i = i + 1;
    }
    proof {
        assert(v@.subrange(0, v@.len() as int) =~= name@);
    }
    out
}

/// Specializes generic functions; records which instantiations exist.
pub struct Monomorphizer {
    /// For each generic function, its argument lists and specialized names.
    instantiations: Vec<(String, Vec<(Vec<Type>, String)>)>,
    /// For each generic function, the argument lists it is used with.
    type_bindings: Vec<(String, Vec<Vec<Type>>)>,
}

impl Monomorphizer {
    /// A monomorphizer that has recorded nothing.
    pub fn new() -> (r: Monomorphizer)
        ensures
            r.instantiation_count() == 0,
            r.binding_count() == 0,
    {
        Monomorphizer { instantiations: Vec::new(), type_bindings: Vec::new() }
    }

    pub closed spec fn instantiation_count(&self) -> nat {
        self.instantiations@.len()
    }

    pub closed spec fn binding_count(&self) -> nat {
        self.type_bindings@.len()
    }

    /// For each called name, the argument types of each of its calls.
    pub closed spec fn bindings(&self) -> Seq<(Seq<char>, Seq<Seq<Ty>>)> {
        bindings_model(self.type_bindings@)
    }

    /// The type an argument plainly has (see `infer`).
    fn infer_expr_type(&self, e: &Expr) -> (r: Type)
        ensures
            r@ == infer(*e),
        decreases e, 1nat,
    {
        match &e.kind {
            ExprKind::Int(_, _) => Type::Int,
            ExprKind::Number(_, _) => Type::Float,
            ExprKind::String(_, _) => Type::String,
            ExprKind::Bool(_, _) => Type::Bool,
            ExprKind::List(items, _) => self.infer_list(items),
            ExprKind::SomeValue { value, .. } => Type::option(self.infer_expr_type(value)),
            ExprKind::NoneValue(_) => Type::option(Type::Unknown),
            ExprKind::OkValue { value, .. } => Type::result(self.infer_expr_type(value), Type::Unknown),
            ExprKind::Error { value, .. } => Type::result(Type::Unknown, self.infer_expr_type(value)),
            _ => Type::Unknown,
        }
    }

    fn infer_list(&self, items: &Vec<Expr>) -> (r: Type)
        ensures
            r@ == (if items@.len() > 0 { Ty::List(Box::new(infer(items@[0]))) } else { Ty::List(Box::new(Ty::Unknown)) }),
        decreases items, 0nat,
    {
        if items.len() > 0 {
            assert(decreases_to!(items => items@[0]));
            Type::list(self.infer_expr_type(&items[0]))
        } else {
            Type::list(Type::Unknown)
        }
    }

    /// Records one call of `name` with arguments of types `args`.
    fn record_call(&mut self, name: String, args: Vec<Type>)
        ensures
            final(self).bindings() == record(old(self).bindings(), (name@, models(args@))),
            final(self).instantiations == old(self).instantiations,
    {
        let ghost m = self.bindings();
        let ghost tb = self.type_bindings@;
        let mut i: usize = self.type_bindings.len();
        let mut found = false;
        assert(m.take(i as int) =~= m);
        while i > 0 && !found
            invariant
                i <= self.type_bindings@.len(),
                self.type_bindings@ == tb,
                m == bindings_model(tb),
                !found ==> key_index(m, name@) == key_index(m.take(i as int), name@),
                found ==> i > 0 && key_index(m, name@) == Some(i - 1) && tb[i - 1].0@ == name@,
            decreases i + (if found { 0int } else { 1int }),
        {
            proof {
                assert(m.take(i as int).drop_last() =~= m.take(i - 1));
                assert(m.take(i as int).last() == m[i - 1]);
            }
            if str_equals(self.type_bindings[i - 1].0.as_str(), name.as_str()) {
                found = true;
            } else {
                i = i - 1;
            }
        }
        if !found {
            proof {
                assert(m.take(0) =~= Seq::<(Seq<char>, Seq<Seq<Ty>>)>::empty());
            }
            let mut lists: Vec<Vec<Type>> = Vec::new();
            lists.push(args);
            self.type_bindings.push((name, lists));
            proof {
                assert(lists_model(lists@) =~= seq![models(args@)]);
                assert(bindings_model(self.type_bindings@) =~= m.push((name@, seq![models(args@)])));
            }
        } else {
            let k = i - 1;
            let (key, mut lists) = self.type_bindings.remove(k);
            let ghost old_lists = lists@;
            let ghost new_lists = old_lists.push(args);
            lists.push(args);
            proof {
                assert(key@ == name@);
                assert(m[k as int].1 == lists_model(old_lists));
                assert(lists_model(lists@) =~= lists_model(old_lists).push(models(args@)));
            }
            self.type_bindings.insert(k, (key, lists));
            proof {
                assert(self.type_bindings@ =~= tb.update(k as int, (key, lists)));
                assert(bindings_model(self.type_bindings@) =~= m.update(k as int, (name@, m[k as int].1.push(models(args@)))));
            }
        }
    }

    fn collect_from_expr(&mut self, e: &Expr)
        ensures
            final(self).bindings() == record_all(old(self).bindings(), expr_calls(*e)),
            final(self).instantiations == old(self).instantiations,
        decreases e, 0nat,
    {
        let ghost m0 = self.bindings();
        match &e.kind {
            ExprKind::FunctionCall { name, args, .. } => {
                let mut types: Vec<Type> = Vec::new();
                let mut i: usize = 0;
                while i < args.len()
                    invariant
                        0 <= i <= args@.len(),
                        types@.len() == i,
                        forall|j: int| 0 <= j < i ==> (#[trigger] types@[j])@ == infer(args@[j]),
                    decreases args@.len() - i,
                {
                    types.push(self.infer_expr_type(&args[i]));
                    i = i + 1;
                }
                proof {
                    lemma_models(types@);
                    assert(models(types@) =~= infer_all(args@));
                }
                let clean = strip_call_parens(name);
                self.record_call(clean, types);
                let ghost m1 = self.bindings();
                self.collect_from_exprs(args);
                proof {
                    assert(record_all(m0, seq![(strip_parens(name@), infer_all(args@))]) == m1) by {
                        let one = seq![(strip_parens(name@), infer_all(args@))];
                        assert(one.drop_last() =~= Seq::<(Seq<char>, Seq<Ty>)>::empty());
                        assert(record_all(m0, one.drop_last()) == m0);
                        assert(one.last() == (clean@, models(types@)));
                    }
                    lemma_record_all_append(m0, seq![(strip_parens(name@), infer_all(args@))], exprs_calls(args@));
                }
            },
            ExprKind::Binary { left, right, .. } => {
                self.collect_from_expr(left);
                self.collect_from_expr(right);
                proof {
                    lemma_record_all_append(m0, expr_calls(**left), expr_calls(**right));
                }
            },
            ExprKind::If { condition, then_branch, else_branch, .. } => {
                self.collect_from_expr(condition);
                self.collect_from_expr(then_branch);
                let ghost rest = match else_branch {
                    Some(b) => expr_calls(**b),
                    None => Seq::<(Seq<char>, Seq<Ty>)>::empty(),
                };
                match else_branch {
                    Some(b) => self.collect_from_expr(b),
                    None => {},
                }
                proof {
                    lemma_record_all_append(m0, expr_calls(**condition), expr_calls(**then_branch));
                    lemma_record_all_append(m0, expr_calls(**condition) + expr_calls(**then_branch), rest);
                }
            },
            ExprKind::Block { statements, trailing_expr, .. } => {
                self.collect_from_stmts(statements);
                let ghost rest = match trailing_expr {
                    Some(t) => expr_calls(**t),
                    None => Seq::<(Seq<char>, Seq<Ty>)>::empty(),
                };
                match trailing_expr {
                    Some(t) => self.collect_from_expr(t),
                    None => {},
                }
                proof {
                    lemma_record_all_append(m0, stmts_calls(statements@), rest);
                }
            },
            ExprKind::List(items, _) => self.collect_from_exprs(items),
            ExprKind::SomeValue { value, .. } => self.collect_from_expr(value),
            ExprKind::OkValue { value, .. } => self.collect_from_expr(value),
            ExprKind::Error { value, .. } => self.collect_from_expr(value),
            _ => {},
        }
    }

    fn collect_from_exprs(&mut self, es: &Vec<Expr>)
        ensures
            final(self).bindings() == record_all(old(self).bindings(), exprs_calls(es@)),
            final(self).instantiations == old(self).instantiations,
        decreases es, 0nat,
    {
        let ghost m0 = self.bindings();
        let ghost ins = self.instantiations;
        let mut i: usize = 0;
        while i < es.len()
            invariant
                0 <= i <= es@.len(),
                self.instantiations == ins,
                self.bindings() == record_all(m0, exprs_calls(es@.take(i as int))),
            decreases es@.len() - i,
        {
            assert(decreases_to!(es => es@[i as int]));
            proof {
                assert(es@.take(i + 1).drop_last() =~= es@.take(i as int));
                lemma_record_all_append(m0, exprs_calls(es@.take(i as int)), expr_calls(es@[i as int]));
            }
            self.collect_from_expr(&es[i]);
            i = i + 1;
        }
        proof {
            assert(es@.take(es@.len() as int) =~= es@);
        }
    }

    fn collect_from_stmt(&mut self, s: &Stmt)
        ensures
            final(self).bindings() == record_all(old(self).bindings(), stmt_calls(*s)),
            final(self).instantiations == old(self).instantiations,
        decreases s, 0nat,
    {
        match s {
            Stmt::VarDecl { value, .. } => self.collect_from_expr(value),
            Stmt::Assign { value, .. } => self.collect_from_expr(value),
            Stmt::Expression(e) => self.collect_from_expr(e),
            Stmt::Print { expr, .. } => self.collect_from_expr(expr),
            Stmt::Return { value, .. } => match value {
                Some(e) => self.collect_from_expr(e),
                None => {},
            },
            _ => {},
        }
    }

    fn collect_from_stmts(&mut self, ss: &Vec<Stmt>)
        ensures
            final(self).bindings() == record_all(old(self).bindings(), stmts_calls(ss@)),
            final(self).instantiations == old(self).instantiations,
        decreases ss, 0nat,
    {
        let ghost m0 = self.bindings();
        let ghost ins = self.instantiations;
        let mut i: usize = 0;
        while i < ss.len()
            invariant
                0 <= i <= ss@.len(),
                self.instantiations == ins,
                self.bindings() == record_all(m0, stmts_calls(ss@.take(i as int))),
            decreases ss@.len() - i,
        {
            assert(decreases_to!(ss => ss@[i as int]));
            proof {
                assert(ss@.take(i + 1).drop_last() =~= ss@.take(i as int));
                lemma_record_all_append(m0, stmts_calls(ss@.take(i as int)), stmt_calls(ss@[i as int]));
            }
            self.collect_from_stmt(&ss[i]);
            i = i + 1;
        }
        proof {
            assert(ss@.take(ss@.len() as int) =~= ss@);
        }
    }

    /// How many calls of `name` have been recorded.
    pub fn calls_recorded(&self, name: &str) -> (r: usize)
        ensures
            r == (match key_index(self.bindings(), name@) {
                Some(k) => self.bindings()[k].1.len(),
                None => 0,
            }),
    {
        let ghost m = self.bindings();
        let mut i: usize = self.type_bindings.len();
        assert(m.take(i as int) =~= m);
        while i > 0
            invariant
                i <= self.type_bindings@.len(),
                m == bindings_model(self.type_bindings@),
                key_index(m, name@) == key_index(m.take(i as int), name@),
            decreases i,
        {
            proof {
                assert(m.take(i as int).drop_last() =~= m.take(i - 1));
                assert(m.take(i as int).last() == m[i - 1]);
            }
            if str_equals(self.type_bindings[i - 1].0.as_str(), name) {
                return self.type_bindings[i - 1].1.len();
            }
            i = i - 1;
        }
        proof {
            assert(m.take(0) =~= Seq::<(Seq<char>, Seq<Seq<Ty>>)>::empty());
        }
        0
    }

    /// Records, for every call in the bodies of `functions` (see
    /// `functions_calls`), the argument types under the called name.
    pub fn collect_instantiations(&mut self, functions: &[FunctionDecl])
        ensures
            final(self).bindings() == record_all(old(self).bindings(), functions_calls(functions@)),
            final(self).instantiation_count() == old(self).instantiation_count(),
    {
        let ghost m0 = self.bindings();
        let ghost ins = self.instantiations;
        let mut i: usize = 0;
        while i < functions.len()
            invariant
                0 <= i <= functions@.len(),
                self.instantiations == ins,
                self.bindings() == record_all(m0, functions_calls(functions@.take(i as int))),
            decreases functions@.len() - i,
        {
            proof {
                assert(functions@.take(i + 1).drop_last() =~= functions@.take(i as int));
                lemma_record_all_append(m0, functions_calls(functions@.take(i as int)), stmts_calls(functions@[i as int].body@));
            }
            self.collect_from_stmts(&functions[i].body);
            i = i + 1;
        }
        proof {
            assert(functions@.take(functions@.len() as int) =~= functions@);
        }
    }

    /// Checks the `where` clauses of `func` against the type arguments
    /// `type_args`, in order: the first clause not met (see `clause_fails`)
    /// is reported.
    pub fn check_trait_bounds_for_instantiation(&self, func: &FunctionDecl, type_args: &[Type]) -> (r: Result<(), String>)
        ensures
            match r {
                Ok(()) => forall|k: int| 0 <= k < func.where_clauses@.len() ==> !clause_fails(*func, type_args@, k),
                Err(m) => exists|k: int| 0 <= k < func.where_clauses@.len() && clause_fails(*func, type_args@, k)
                    && (forall|j: int| 0 <= j < k ==> !clause_fails(*func, type_args@, j))
                    && m@ == bound_message(*func, type_args@, k),
            },
    {
        let mut k: usize = 0;
        while k < func.where_clauses.len()
            invariant
                0 <= k <= func.where_clauses@.len(),
                forall|j: int| 0 <= j < k ==> !clause_fails(*func, type_args@, j),
            decreases func.where_clauses@.len() - k,
        {
            let clause = &func.where_clauses[k];
            match find_param(&func.type_params, &clause.type_param) {
                Some(i) => {
                    if i < type_args.len() {
                        let concrete = &type_args[i];
                        if !trait_holds(&clause.trait_name, concrete) {
                            let mut m = String::new();
                            m.append("Type '");
                            push_type(&mut m, concrete);
                            m.append("' does not implement trait '");
                            m.append(clause.trait_name.as_str());
                            m.append("' (required by '");
                            m.append(clause.type_param.as_str());
                            m.append("')");
                            assert(clause_fails(*func, type_args@, k as int));
                            return Err(m);
                        }
                    }
                },
                None => {},
            }
            k = k + 1;
        }
        Ok(())
    }

    /// Substitutes a bound type for a written type parameter (see
    /// `subst_text`). A one-byte text is a single ASCII character, and the
    /// ASCII characters that are uppercase are `A` to `Z`.
    pub fn substitute_type_string(&self, type_str: &str, type_bindings: &Vec<(String, Type)>) -> (r: String)
        ensures
            r@ == subst_text(type_str@, binding_models(type_bindings@)),
    {
        let t = trim_str(type_str);
        if t.unicode_len() == 1 {
            let c = t.get_char(0);
            if 'A' <= c && c <= 'Z' {
                let name = String::from_str(t);
                match lookup_binding(type_bindings.as_slice(), &name) {
                    Some(i) => {
                        let mut out = String::new();
                        push_type(&mut out, &type_bindings[i].1);
                        return out;
                    },
                    None => {},
                }
            }
        }
        String::from_str(t)
    }

    /// The name of `func_name` specialized to `type_args`.
    pub fn specialized_name(&self, func_name: &str, type_args: &[Type]) -> (r: String)
        ensures
            r@ == specialized(func_name@, models(type_args@)),
    {
        proof {
            lemma_models(type_args@);
            reveal_strlit("_");
        }
        let ghost ms = models(type_args@);
        let mut out = func_name.to_string();
        out.append("_");
        let mut i: usize = 0;
        assert(ms.take(0) =~= Seq::<Ty>::empty());
        while i < type_args.len()
            invariant
                0 <= i <= type_args@.len(),
                ms == models(type_args@),
                ms.len() == type_args@.len(),
                forall|j: int| 0 <= j < type_args@.len() ==> #[trigger] ms[j] == type_args@[j]@,
                out@ == func_name@ + seq!['_'] + arg_names(ms.take(i as int)),
            decreases type_args@.len() - i,
        {
            let piece = Self::specialized_type_name(&type_args[i]);
            let ghost before = out@;
            proof { reveal_strlit("_"); }
            if i > 0 {
                out.append("_");
            }
            out.append(piece.as_str());
            let ghost t = ms.take(i + 1);
            assert(t.drop_last() =~= ms.take(i as int));
            assert(t.last() == ms[i as int]);
            if i > 0 {
                assert(out@ =~= before + seq!['_'] + piece@);
            } else {
                assert(t =~= seq![ms[0]]);
                assert(out@ =~= before + piece@);
            }
            i = i + 1;
        }
        assert(ms.take(type_args@.len() as int) =~= ms);
        out
    }

    /// The part of a specialized name that stands for `t`.
    fn specialized_type_name(t: &Type) -> (r: String)
        ensures
            r@ == arg_name(t@),
        decreases t,
    {
        proof {
            reveal_strlit("Int");
            reveal_strlit("Float");
            reveal_strlit("String");
            reveal_strlit("Bool");
            reveal_strlit("List_");
            reveal_strlit("Option_");
            reveal_strlit("Unknown");
        }
        match t {
            Type::Int => "Int".to_string(),
            Type::Float => "Float".to_string(),
            Type::String => "String".to_string(),
            Type::Bool => "Bool".to_string(),
            Type::List(inner) => {
                let mut s = "List_".to_string();
                let rest = Self::specialized_type_name(inner);
                s.append(rest.as_str());
                s
            },
            Type::Option(inner) => {
                let mut s = "Option_".to_string();
                let rest = Self::specialized_type_name(inner);
                s.append(rest.as_str());
                s
            },
            Type::TypeVar(v) => v.clone(),
            _ => "Unknown".to_string(),
        }
    }
}

impl Default for Monomorphizer {
    fn default() -> (r: Monomorphizer) {
        Monomorphizer::new()
    }
}

} // verus!
