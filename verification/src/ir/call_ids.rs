//! The function calls in a declaration's body: the ids of the
//! `FunctionCall` nodes, in preorder. The closure of the instantiation
//! plan walks these to find the generic calls inside a specialization.

use vstd::prelude::*;
use crate::frontend::ast::{Expr, ExprId, ExprKind, FunctionDecl, MatchCaseExpr, Stmt};
use crate::ir::instantiation_plan::{GenericFunction, InstantiationPlan, FnModel, fn_models, clone_strings, strs,
    plan_closed, generated, grows, arity_ok};

verus! {

/// The calls in `e`: a call's own id before those in its arguments; the
/// bodies of `match` arms are searched, their patterns are not.
pub open spec fn expr_calls(e: Expr) -> Seq<u32>
    decreases e, 0nat,
{
    match e.kind {
        ExprKind::FunctionCall { args, .. } => seq![e.id.0] + exprs_calls(args@),
        ExprKind::Block { statements, trailing_expr, .. } => stmts_calls(statements@) + opt_calls(trailing_expr),
        ExprKind::If { condition, then_branch, else_branch, .. } =>
            expr_calls(*condition) + expr_calls(*then_branch) + opt_calls(else_branch),
        ExprKind::Match { value, cases, .. } => expr_calls(*value) + cases_calls(cases@),
        ExprKind::Borrow { expr, .. } => expr_calls(*expr),
        ExprKind::MutBorrow { expr, .. } => expr_calls(*expr),
        ExprKind::Deref { expr, .. } => expr_calls(*expr),
        ExprKind::AddrOf { expr, .. } => expr_calls(*expr),
        ExprKind::Unary { expr, .. } => expr_calls(*expr),
        ExprKind::SomeValue { value, .. } => expr_calls(*value),
        ExprKind::OkValue { value, .. } => expr_calls(*value),
        ExprKind::Error { value, .. } => expr_calls(*value),
        ExprKind::List(items, _) => exprs_calls(items@),
        ExprKind::ArrayAccess { array, index, .. } => expr_calls(*array) + expr_calls(*index),
        ExprKind::Binary { left, right, .. } => expr_calls(*left) + expr_calls(*right),
        ExprKind::TryCatch { try_branch, catch_branch, finally_body, .. } =>
            expr_calls(*try_branch) + expr_calls(*catch_branch) + match finally_body {
                Some(b) => stmts_calls(b@),
                None => Seq::empty(),
            },
        ExprKind::For { iterable, body, trailing_expr, .. } =>
            expr_calls(*iterable) + stmts_calls(body@) + opt_calls(trailing_expr),
        ExprKind::While { condition, body, trailing_expr, .. } =>
            expr_calls(*condition) + stmts_calls(body@) + opt_calls(trailing_expr),
        ExprKind::Range { start, end, .. } => opt_calls(start) + opt_calls(end),
        ExprKind::FieldAccess { object, .. } => expr_calls(*object),
        _ => Seq::empty(),
    }
}

/// The calls in an optional expression.
pub open spec fn opt_calls(o: Option<Box<Expr>>) -> Seq<u32>
    decreases o, 0nat,
{
    match o {
        Some(b) => expr_calls(*b),
        None => Seq::empty(),
    }
}

/// The calls in `es`, one expression after another.
pub open spec fn exprs_calls(es: Seq<Expr>) -> Seq<u32>
    decreases es, 0nat,
{
    if es.len() == 0 {
        Seq::empty()
    } else {
        exprs_calls(es.subrange(0, es.len() - 1)) + expr_calls(es[es.len() - 1])
    }
}

/// The calls in the bodies of the arms `cs`, one after another.
pub open spec fn cases_calls(cs: Seq<MatchCaseExpr>) -> Seq<u32>
    decreases cs, 0nat,
{
    if cs.len() == 0 {
        Seq::empty()
    } else {
        cases_calls(cs.subrange(0, cs.len() - 1)) + expr_calls(cs[cs.len() - 1].body)
    }
}

/// The calls in the statements `ss`, one after another.
pub open spec fn stmts_calls(ss: Seq<Stmt>) -> Seq<u32>
    decreases ss, 0nat,
{
    if ss.len() == 0 {
        Seq::empty()
    } else {
        stmts_calls(ss.subrange(0, ss.len() - 1)) + stmt_calls(ss[ss.len() - 1])
    }
}

/// The calls in the statement blocks `bs`, one after another.
pub open spec fn blocks_calls(bs: Seq<Vec<Stmt>>) -> Seq<u32>
    decreases bs, 0nat,
{
    if bs.len() == 0 {
        Seq::empty()
    } else {
        blocks_calls(bs.subrange(0, bs.len() - 1)) + stmts_calls(bs[bs.len() - 1]@)
    }
}

/// The calls in a statement. Imports, declarations of channels, receives,
/// field assignments, `break` and `continue` hold none that are searched.
pub open spec fn stmt_calls(s: Stmt) -> Seq<u32>
    decreases s, 0nat,
{
    match s {
        Stmt::VarDecl { value, .. } => expr_calls(value),
        Stmt::Assign { value, .. } => expr_calls(value),
        Stmt::ArrayAssign { index, value, .. } => expr_calls(index) + expr_calls(value),
        Stmt::Return { value: Some(e), .. } => expr_calls(e),
        Stmt::Print { expr, .. } => expr_calls(expr),
        Stmt::Defer { stmt, .. } => stmt_calls(*stmt),
        Stmt::Spawn { body, .. } => stmts_calls(body@),
        Stmt::RegionBlock { body, .. } => stmts_calls(body@),
        Stmt::UnsafeBlock { body, .. } => stmts_calls(body@),
        Stmt::Parallel { blocks, .. } => blocks_calls(blocks@),
        Stmt::Send { value, .. } => expr_calls(value),
        Stmt::Expression(e) => expr_calls(e),
        _ => Seq::empty(),
    }
}

pub open spec fn ids(v: Seq<ExprId>) -> Seq<u32> {
    v.map_values(|x: ExprId| x.0)
}

proof fn lemma_ids_push(v: Seq<ExprId>, x: ExprId)
    ensures
        ids(v.push(x)) == ids(v).push(x.0),
{
    assert(ids(v.push(x)) =~= ids(v).push(x.0));
}

fn collect_expr_call_ids(e: &Expr, out: &mut Vec<ExprId>)
    ensures
        ids(final(out)@) == ids(old(out)@) + expr_calls(*e),
    decreases e, 1nat,
{
    let ghost o0 = ids(out@);
    match &e.kind {
        ExprKind::FunctionCall { args, .. } => {
            out.push(e.id);
            proof { lemma_ids_push(old(out)@, e.id); }
            collect_exprs(args, out);
            assert(ids(out@) =~= o0 + expr_calls(*e));
        },
        ExprKind::Block { statements, trailing_expr, .. } => {
            collect_stmts(statements, out);
            collect_opt(trailing_expr, out);
            assert(ids(out@) =~= o0 + expr_calls(*e));
        },
        ExprKind::If { condition, then_branch, else_branch, .. } => {
            collect_expr_call_ids(condition, out);
            collect_expr_call_ids(then_branch, out);
            collect_opt(else_branch, out);
            assert(ids(out@) =~= o0 + expr_calls(*e));
        },
        ExprKind::Match { value, cases, .. } => {
            collect_expr_call_ids(value, out);
            collect_cases(cases, out);
            assert(ids(out@) =~= o0 + expr_calls(*e));
        },
        ExprKind::Borrow { expr, .. } => collect_expr_call_ids(expr, out),
        ExprKind::MutBorrow { expr, .. } => collect_expr_call_ids(expr, out),
        ExprKind::Deref { expr, .. } => collect_expr_call_ids(expr, out),
        ExprKind::AddrOf { expr, .. } => collect_expr_call_ids(expr, out),
        ExprKind::Unary { expr, .. } => collect_expr_call_ids(expr, out),
        ExprKind::SomeValue { value, .. } => collect_expr_call_ids(value, out),
        ExprKind::OkValue { value, .. } => collect_expr_call_ids(value, out),
        ExprKind::Error { value, .. } => collect_expr_call_ids(value, out),
        ExprKind::List(items, _) => collect_exprs(items, out),
        ExprKind::ArrayAccess { array, index, .. } => {
            collect_expr_call_ids(array, out);
            collect_expr_call_ids(index, out);
            assert(ids(out@) =~= o0 + expr_calls(*e));
        },
        ExprKind::Binary { left, right, .. } => {
            collect_expr_call_ids(left, out);
            collect_expr_call_ids(right, out);
            assert(ids(out@) =~= o0 + expr_calls(*e));
        },
        ExprKind::TryCatch { try_branch, catch_branch, finally_body, .. } => {
            collect_expr_call_ids(try_branch, out);
            collect_expr_call_ids(catch_branch, out);
            match finally_body {
                Some(b) => collect_stmts(b, out),
                None => {},
            }
            assert(ids(out@) =~= o0 + expr_calls(*e));
        },
        ExprKind::For { iterable, body, trailing_expr, .. } => {
            collect_expr_call_ids(iterable, out);
            collect_stmts(body, out);
            collect_opt(trailing_expr, out);
            assert(ids(out@) =~= o0 + expr_calls(*e));
        },
        ExprKind::While { condition, body, trailing_expr, .. } => {
            collect_expr_call_ids(condition, out);
            collect_stmts(body, out);
            collect_opt(trailing_expr, out);
            assert(ids(out@) =~= o0 + expr_calls(*e));
        },
        ExprKind::Range { start, end, .. } => {
            collect_opt(start, out);
            collect_opt(end, out);
            assert(ids(out@) =~= o0 + expr_calls(*e));
        },
        ExprKind::FieldAccess { object, .. } => collect_expr_call_ids(object, out),
        _ => {
            assert(ids(out@) =~= o0 + expr_calls(*e));
        },
    }
}

fn collect_opt(o: &Option<Box<Expr>>, out: &mut Vec<ExprId>)
    ensures
        ids(final(out)@) == ids(old(out)@) + opt_calls(*o),
    decreases o, 1nat,
{
    match o {
        Some(b) => collect_expr_call_ids(b, out),
        None => {
            assert(ids(out@) =~= ids(out@) + opt_calls(*o));
        },
    }
}

fn collect_exprs(es: &Vec<Expr>, out: &mut Vec<ExprId>)
    ensures
        ids(final(out)@) == ids(old(out)@) + exprs_calls(es@),
    decreases es, 1nat,
{
    let ghost o0 = ids(out@);
    let mut i: usize = 0;
    assert(es@.subrange(0, 0) =~= Seq::<Expr>::empty());
    while i < es.len()
        invariant
            i <= es@.len(),
            ids(out@) == o0 + exprs_calls(es@.subrange(0, i as int)),
        decreases es@.len() - i,
    {
        assert(decreases_to!(es => es@[i as int]));
        let ghost pre = ids(out@);
        collect_expr_call_ids(&es[i], out);
        proof {
            let t = es@.subrange(0, i + 1);
            assert(t.subrange(0, t.len() - 1) =~= es@.subrange(0, i as int));
            assert(t[t.len() - 1] == es@[i as int]);
            assert(ids(out@) =~= o0 + exprs_calls(t));
        }
        i = i + 1;
    }
    assert(es@.subrange(0, es@.len() as int) =~= es@);
}

fn collect_cases(cs: &Vec<MatchCaseExpr>, out: &mut Vec<ExprId>)
    ensures
        ids(final(out)@) == ids(old(out)@) + cases_calls(cs@),
    decreases cs, 1nat,
{
    let ghost o0 = ids(out@);
    let mut i: usize = 0;
    assert(cs@.subrange(0, 0) =~= Seq::<MatchCaseExpr>::empty());
    while i < cs.len()
        invariant
            i <= cs@.len(),
            ids(out@) == o0 + cases_calls(cs@.subrange(0, i as int)),
        decreases cs@.len() - i,
    {
        assert(decreases_to!(cs => cs@[i as int]));
        collect_expr_call_ids(&cs[i].body, out);
        proof {
            let t = cs@.subrange(0, i + 1);
            assert(t.subrange(0, t.len() - 1) =~= cs@.subrange(0, i as int));
            assert(t[t.len() - 1] == cs@[i as int]);
            assert(ids(out@) =~= o0 + cases_calls(t));
        }
        i = i + 1;
    }
    assert(cs@.subrange(0, cs@.len() as int) =~= cs@);
}

fn collect_stmts(ss: &Vec<Stmt>, out: &mut Vec<ExprId>)
    ensures
        ids(final(out)@) == ids(old(out)@) + stmts_calls(ss@),
    decreases ss, 1nat,
{
    let ghost o0 = ids(out@);
    let mut i: usize = 0;
    assert(ss@.subrange(0, 0) =~= Seq::<Stmt>::empty());
    while i < ss.len()
        invariant
            i <= ss@.len(),
            ids(out@) == o0 + stmts_calls(ss@.subrange(0, i as int)),
        decreases ss@.len() - i,
    {
        assert(decreases_to!(ss => ss@[i as int]));
        collect_stmt_call_ids(&ss[i], out);
        proof {
            let t = ss@.subrange(0, i + 1);
            assert(t.subrange(0, t.len() - 1) =~= ss@.subrange(0, i as int));
            assert(t[t.len() - 1] == ss@[i as int]);
            assert(ids(out@) =~= o0 + stmts_calls(t));
        }
        i = i + 1;
    }
    assert(ss@.subrange(0, ss@.len() as int) =~= ss@);
}

fn collect_blocks(bs: &Vec<Vec<Stmt>>, out: &mut Vec<ExprId>)
    ensures
        ids(final(out)@) == ids(old(out)@) + blocks_calls(bs@),
    decreases bs, 1nat,
{
    let ghost o0 = ids(out@);
    let mut i: usize = 0;
    assert(bs@.subrange(0, 0) =~= Seq::<Vec<Stmt>>::empty());
    while i < bs.len()
        invariant
            i <= bs@.len(),
            ids(out@) == o0 + blocks_calls(bs@.subrange(0, i as int)),
        decreases bs@.len() - i,
    {
        assert(decreases_to!(bs => bs@[i as int]));
        collect_stmts(&bs[i], out);
        proof {
            let t = bs@.subrange(0, i + 1);
            assert(t.subrange(0, t.len() - 1) =~= bs@.subrange(0, i as int));
            assert(t[t.len() - 1] == bs@[i as int]);
            assert(ids(out@) =~= o0 + blocks_calls(t));
        }
        i = i + 1;
    }
    assert(bs@.subrange(0, bs@.len() as int) =~= bs@);
}

fn collect_stmt_call_ids(s: &Stmt, out: &mut Vec<ExprId>)
    ensures
        ids(final(out)@) == ids(old(out)@) + stmt_calls(*s),
    decreases s, 1nat,
{
    let ghost o0 = ids(out@);
    match s {
        Stmt::VarDecl { value, .. } => collect_expr_call_ids(value, out),
        Stmt::Assign { value, .. } => collect_expr_call_ids(value, out),
        Stmt::ArrayAssign { index, value, .. } => {
            collect_expr_call_ids(index, out);
            collect_expr_call_ids(value, out);
            assert(ids(out@) =~= o0 + stmt_calls(*s));
        },
        Stmt::Return { value: Some(e), .. } => collect_expr_call_ids(e, out),
        Stmt::Print { expr, .. } => collect_expr_call_ids(expr, out),
        Stmt::Defer { stmt, .. } => collect_stmt_call_ids(stmt, out),
        Stmt::Spawn { body, .. } => collect_stmts(body, out),
        Stmt::RegionBlock { body, .. } => collect_stmts(body, out),
        Stmt::UnsafeBlock { body, .. } => collect_stmts(body, out),
        Stmt::Parallel { blocks, .. } => collect_blocks(blocks, out),
        Stmt::Send { value, .. } => collect_expr_call_ids(value, out),
        Stmt::Expression(e) => collect_expr_call_ids(e, out),
        _ => {
            assert(ids(out@) =~= o0 + stmt_calls(*s));
        },
    }
}

/// The ids of the function calls in `body`, in preorder.
pub fn collect_function_call_ids(body: &Vec<Stmt>) -> (r: Vec<ExprId>)
    ensures
        ids(r@) == stmts_calls(body@),
{
    let mut out: Vec<ExprId> = Vec::new();
    assert(ids(out@) =~= Seq::<u32>::empty());
    collect_stmts(body, &mut out);
    assert(ids(out@) =~= stmts_calls(body@));
    out
}

/// What the closure of the plan reads of a declaration: its name, its type
/// parameters, and the calls in its body.
pub open spec fn decl_model(f: FunctionDecl) -> FnModel {
    FnModel { name: f.name@, params: strs(f.type_params@), calls: stmts_calls(f.body@) }
}

pub open spec fn decl_models(fs: Seq<FunctionDecl>) -> Seq<FnModel> {
    Seq::new(fs.len(), |i: int| decl_model(fs[i]))
}

impl GenericFunction {
    /// What the closure of the plan reads of a declaration: its name, its
    /// type parameters, and the calls in its body.
    pub fn of_decl(f: &FunctionDecl) -> (r: GenericFunction)
        ensures
            r.name@ == f.name@,
            strs(r.type_params@) == strs(f.type_params@),
            ids(r.call_ids@) == stmts_calls(f.body@),
            r@ == decl_model(*f),
    {
        let r = GenericFunction {
            name: f.name.clone(),
            type_params: clone_strings(&f.type_params),
            call_ids: collect_function_call_ids(&f.body),
        };
        assert(r@.calls =~= ids(r.call_ids@));
        r
    }
}

impl InstantiationPlan {
    /// Transitively closes the plan over the declarations themselves: the
    /// calls in each body are found (see `collect_function_call_ids`) and
    /// the closure of `close` runs over them, with its step budget.
    pub fn close_decls(&mut self, functions: &Vec<FunctionDecl>, max_steps: usize) -> (done: bool)
        requires
            old(self).wf(),
            arity_ok(old(self).sites(), decl_models(functions@)),
        ensures
            final(self).wf(),
            final(self).sites() == old(self).sites(),
            grows(old(self).specs(), final(self).specs()),
            done ==> plan_closed(final(self).specs(), final(self).sites(), decl_models(functions@)),
            forall|k: Seq<char>| #[trigger] final(self).specs().contains_key(k) && !old(self).specs().contains_key(k)
                ==> generated(final(self).specs(), final(self).sites(), decl_models(functions@), k),
            plan_closed(old(self).specs(), old(self).sites(), decl_models(functions@))
                ==> final(self).specs() == old(self).specs(),
            !done ==> max_steps <= final(self).specs().len(),
    {
        let mut gs: Vec<GenericFunction> = Vec::new();
        let mut i: usize = 0;
        while i < functions.len()
            invariant
                i <= functions@.len(),
                gs@.len() == i,
                forall|j: int| 0 <= j < i ==> (#[trigger] gs@[j])@ == decl_model(functions@[j]),
            decreases functions@.len() - i,
        {
            gs.push(GenericFunction::of_decl(&functions[i]));
            i = i + 1;
        }
        assert(fn_models(gs@) =~= decl_models(functions@));
        self.close(gs.as_slice(), max_steps)
    }
}

} // verus!
