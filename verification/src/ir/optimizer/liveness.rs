//! Which variables of a function are live: read by something observable
//! (an initializer, a call, a print, a send, a receive, an iteration, a
//! terminator) or needed, through the latest definition of a variable,
//! by one that is.

use vstd::prelude::*;
use crate::common::closure::{derivable, listed_in_order, lemma_closed_holds_derivable, lemma_listed_derivable};
use crate::common::assoc::{map_of, keys_distinct, lemma_map_of_dom, lemma_map_of_index, lemma_keys_distinct_push, lemma_map_of_update};
use crate::ir::cfg::state::string_views;
use crate::ir::semantic_ir::values::TypedIRValue;
use crate::ir::semantic_ir::instructions::Instruction;
use crate::ir::semantic_ir::terminators::Terminator;
use crate::ir::semantic_ir::program::SemanticBlock;
use super::lemma_len_bound;

verus! {

broadcast use vstd::seq_lib::group_seq_properties;

// ─── What a value reads ─────────────────────────────────────────────

/// The variables a value reads, in order.
pub open spec fn value_vars(v: TypedIRValue) -> Seq<Seq<char>>
    decreases v,
{
    match v {
        TypedIRValue::Variable(n, _) => seq![n@],
        TypedIRValue::BinaryOp { left, right, .. } => value_vars(*left) + value_vars(*right),
        TypedIRValue::List(es, _) => values_vars(es@),
        TypedIRValue::ArrayAccess { array, index, .. } => value_vars(*array) + value_vars(*index),
        TypedIRValue::Call { args, .. } => values_vars(args@),
        TypedIRValue::Cast { value, .. } => value_vars(*value),
        TypedIRValue::SomeValue(inner) => value_vars(*inner),
        TypedIRValue::OkValue { value, .. } => value_vars(*value),
        TypedIRValue::Error { value, .. } => value_vars(*value),
        TypedIRValue::Borrow { expr, .. } => value_vars(*expr),
        TypedIRValue::MutBorrow { expr, .. } => value_vars(*expr),
        TypedIRValue::Deref { expr, .. } => value_vars(*expr),
        TypedIRValue::AddrOf { expr, .. } => value_vars(*expr),
        _ => Seq::empty(),
    }
}

pub open spec fn values_vars(vs: Seq<TypedIRValue>) -> Seq<Seq<char>>
    decreases vs,
{
    if vs.len() == 0 { Seq::empty() } else { values_vars(vs.drop_last()) + value_vars(vs.last()) }
}

/// What a definition of `name` by `v` depends on.
pub open spec fn def_deps(name: Seq<char>, v: TypedIRValue) -> Set<Seq<char>> {
    value_vars(v).to_set().remove(name)
}

// ─── Definitions and observable uses ────────────────────────────────

pub type Deps = Map<Seq<char>, Set<Seq<char>>>;

pub open spec fn deps_after(m: Deps, i: Instruction) -> Deps {
    match i {
        Instruction::Declare { name, value, .. } => m.insert(name@, def_deps(name@, value)),
        Instruction::Assign { target, value } => m.insert(target@, def_deps(target@, value)),
        _ => m,
    }
}

pub open spec fn deps_in(m: Deps, is: Seq<Instruction>) -> Deps
    decreases is.len(),
{
    if is.len() == 0 { m } else { deps_after(deps_in(m, is.drop_last()), is.last()) }
}

/// Each defined variable with what its latest definition depends on.
pub open spec fn deps_of(bs: Seq<SemanticBlock>) -> Deps
    decreases bs.len(),
{
    if bs.len() == 0 { Map::empty() } else { deps_in(deps_of(bs.drop_last()), bs.last().instructions@) }
}

/// What an instruction reads observably.
pub open spec fn instr_seeds(i: Instruction) -> Set<Seq<char>> {
    match i {
        Instruction::Declare { name, value, .. } => def_deps(name@, value),
        Instruction::Assign { target, value } => def_deps(target@, value),
        Instruction::IteratorInit { iterable, .. } => value_vars(iterable).to_set(),
        Instruction::Print { value } => value_vars(value).to_set(),
        Instruction::Call { args, .. } => values_vars(args@).to_set(),
        Instruction::ArrayAssign { array, index, value } =>
            (value_vars(*array) + value_vars(*index) + value_vars(value)).to_set(),
        Instruction::Send { value, .. } => value_vars(value).to_set(),
        Instruction::ChannelSend { value, .. } => value_vars(value).to_set(),
        Instruction::Allocate { size, .. } => value_vars(size).to_set(),
        Instruction::Free { ptr } => value_vars(ptr).to_set(),
        Instruction::Receive { target, .. } => set![target@],
        _ => Set::empty(),
    }
}

/// What a terminator reads.
pub open spec fn term_seeds(t: Option<Terminator>) -> Set<Seq<char>> {
    match t {
        Some(Terminator::Return { value: Some(v), .. }) => value_vars(v).to_set(),
        Some(Terminator::Branch { condition, .. }) => value_vars(condition).to_set(),
        Some(Terminator::Switch { value, .. }) => value_vars(value).to_set(),
        _ => Set::empty(),
    }
}

pub open spec fn instrs_seeds(is: Seq<Instruction>) -> Set<Seq<char>>
    decreases is.len(),
{
    if is.len() == 0 { Set::empty() } else { instrs_seeds(is.drop_last()).union(instr_seeds(is.last())) }
}

/// Everything the blocks read observably.
pub open spec fn seeds_of(bs: Seq<SemanticBlock>) -> Set<Seq<char>>
    decreases bs.len(),
{
    if bs.len() == 0 {
        Set::empty()
    } else {
        seeds_of(bs.drop_last()).union(instrs_seeds(bs.last().instructions@)).union(term_seeds(bs.last().terminator))
    }
}

pub open spec fn deps_next(m: Deps) -> spec_fn(Seq<char>) -> Set<Seq<char>> {
    |n: Seq<char>| if m.contains_key(n) { m[n] } else { Set::empty() }
}

/// Variable `n` is live in the blocks.
pub open spec fn live(bs: Seq<SemanticBlock>, n: Seq<char>) -> bool {
    derivable(deps_next(deps_of(bs)), seeds_of(bs), n)
}

// ─── Executable pieces ──────────────────────────────────────────────

/// Appends the variables `v` reads.
fn collect_vars(v: &TypedIRValue, out: &mut Vec<String>)
    ensures
        string_views(final(out)@) == string_views(old(out)@) + value_vars(*v),
    decreases v,
{
    let ghost o0 = out@;
    match v {
        TypedIRValue::Variable(n, _) => {
            out.push(n.clone());
        },
        TypedIRValue::BinaryOp { left, right, .. } => {
            collect_vars(left, out);
            collect_vars(right, out);
        },
        TypedIRValue::List(es, _) => collect_all(es, out),
        TypedIRValue::ArrayAccess { array, index, .. } => {
            collect_vars(array, out);
            collect_vars(index, out);
        },
        TypedIRValue::Call { args, .. } => collect_all(args, out),
        TypedIRValue::Cast { value, .. } => collect_vars(value, out),
        TypedIRValue::SomeValue(inner) => collect_vars(inner, out),
        TypedIRValue::OkValue { value, .. } => collect_vars(value, out),
        TypedIRValue::Error { value, .. } => collect_vars(value, out),
        TypedIRValue::Borrow { expr, .. } => collect_vars(expr, out),
        TypedIRValue::MutBorrow { expr, .. } => collect_vars(expr, out),
        TypedIRValue::Deref { expr, .. } => collect_vars(expr, out),
        TypedIRValue::AddrOf { expr, .. } => collect_vars(expr, out),
        _ => {},
    }
    assert(string_views(out@) =~= string_views(o0) + value_vars(*v));
}

fn collect_all(vs: &Vec<TypedIRValue>, out: &mut Vec<String>)
    ensures
        string_views(final(out)@) == string_views(old(out)@) + values_vars(vs@),
    decreases vs,
{
    let ghost o0 = out@;
    let mut i: usize = 0;
    assert(string_views(out@) =~= string_views(o0) + values_vars(vs@.take(0)));
    while i < vs.len()
        invariant
            0 <= i <= vs@.len(),
            string_views(out@) == string_views(o0) + values_vars(vs@.take(i as int)),
        decreases vs@.len() - i,
    {
        assert(decreases_to!(vs => vs@[i as int]));
        proof {
            assert(vs@.take(i + 1).drop_last() =~= vs@.take(i as int));
            assert(vs@.take(i + 1).last() == vs@[i as int]);
        }
        collect_vars(&vs[i], out);
        i = i + 1;
    }
    assert(vs@.take(vs@.len() as int) =~= vs@);
}

/// Whether `n` is among `v`.
pub fn contains_name(v: &Vec<String>, n: &String) -> (r: bool)
    ensures
        r == string_views(v@).contains(n@),
{
    let mut i: usize = 0;
    while i < v.len()
        invariant
            0 <= i <= v@.len(),
            forall|k: int| 0 <= k < i ==> v@[k]@ != n@,
        decreases v@.len() - i,
    {
        if v[i] == *n {
            assert(string_views(v@)[i as int] == n@);
            return true;
        }
        i = i + 1;
    }
    assert forall|k: int| 0 <= k < string_views(v@).len() implies string_views(v@)[k] != n@ by {}
    false
}

/// The variables of `v` other than `name`.
fn without(vars: Vec<String>, name: &String) -> (r: Vec<String>)
    ensures
        string_views(r@).to_set() == string_views(vars@).to_set().remove(name@),
{
    let mut r: Vec<String> = Vec::new();
    let mut i: usize = 0;
    while i < vars.len()
        invariant
            0 <= i <= vars@.len(),
            string_views(r@).to_set() == string_views(vars@.take(i as int)).to_set().remove(name@),
        decreases vars@.len() - i,
    {
        let ghost r0 = r@;
        if vars[i] != *name {
            r.push(vars[i].clone());
        }
        proof {
            let x = vars@[i as int]@;
            let prev = string_views(vars@.take(i as int));
            assert(string_views(vars@.take(i + 1)) =~= prev + seq![x]);
            lemma_to_set_add(prev, seq![x]);
            assert(seq![x].to_set() =~= set![x]);
            if x != name@ {
                assert(string_views(r@) =~= string_views(r0) + seq![x]);
                lemma_to_set_add(string_views(r0), seq![x]);
            } else {
                assert(string_views(r@) =~= string_views(r0));
            }
            assert(string_views(r@).to_set() =~= string_views(vars@.take(i + 1)).to_set().remove(name@));
        }
        i = i + 1;
    }
    assert(vars@.take(vars@.len() as int) =~= vars@);
    r
}

/// An entry of the definition table, as a model.
pub open spec fn dep_model(e: (String, Vec<String>)) -> (Seq<char>, Set<Seq<char>>) {
    (e.0@, string_views(e.1@).to_set())
}

pub open spec fn dep_models(v: Seq<(String, Vec<String>)>) -> Seq<(Seq<char>, Set<Seq<char>>)> {
    Seq::new(v.len(), |i: int| dep_model(v[i]))
}

/// Records that `name` now depends on `d`.
fn set_dep(deps: &mut Vec<(String, Vec<String>)>, name: &String, d: Vec<String>)
    requires
        keys_distinct(dep_models(old(deps)@)),
    ensures
        keys_distinct(dep_models(final(deps)@)),
        map_of(dep_models(final(deps)@)) == map_of(dep_models(old(deps)@)).insert(name@, string_views(d@).to_set()),
{
    let ghost d0 = deps@;
    let mut i: usize = 0;
    while i < deps.len()
        invariant
            0 <= i <= deps@.len(),
            deps@ == d0,
            d0 == old(deps)@,
            keys_distinct(dep_models(d0)),
            forall|k: int| 0 <= k < i ==> deps@[k].0@ != name@,
        decreases deps@.len() - i,
    {
        if deps[i].0 == *name {
            let ghost v = string_views(d@).to_set();
            let _ = deps.remove(i);
            deps.insert(i, (name.clone(), d));
            proof {
                assert(deps@ =~= d0.update(i as int, deps@[i as int]));
                lemma_map_of_update(dep_models(d0), i as int, v);
                assert(dep_models(deps@) =~= dep_models(d0).update(i as int, (dep_models(d0)[i as int].0, v)));
                assert(dep_models(d0)[i as int].0 == name@);
                assert(map_of(dep_models(deps@)) == map_of(dep_models(d0)).insert(name@, v));
                assert(v == string_views(d@).to_set());
            }
            return;
        }
        i = i + 1;
    }
    let ghost e = (name@, string_views(d@).to_set());
    deps.push((name.clone(), d));
    proof {
        assert forall|k: int| 0 <= k < dep_models(d0).len() implies #[trigger] dep_models(d0)[k].0 != e.0 by {}
        lemma_keys_distinct_push(dep_models(d0), e);
        assert(dep_models(deps@) =~= dep_models(d0).push(e));
        assert(deps@ == d0.push(deps@.last()));
    }
}

/// The definition table of the blocks.
fn definitions(bs: &Vec<SemanticBlock>) -> (r: Vec<(String, Vec<String>)>)
    ensures
        keys_distinct(dep_models(r@)),
        map_of(dep_models(r@)) == deps_of(bs@),
{
    let mut deps: Vec<(String, Vec<String>)> = Vec::new();
    let mut i: usize = 0;
    proof {
        assert(dep_models(deps@) =~= Seq::<(Seq<char>, Set<Seq<char>>)>::empty());
        assert(map_of(dep_models(deps@)) =~= deps_of(bs@.take(0)));
    }
    while i < bs.len()
        invariant
            0 <= i <= bs@.len(),
            keys_distinct(dep_models(deps@)),
            map_of(dep_models(deps@)) == deps_of(bs@.take(i as int)),
        decreases bs@.len() - i,
    {
        let is = &bs[i].instructions;
        let ghost m0 = deps_of(bs@.take(i as int));
        let mut j: usize = 0;
        while j < is.len()
            invariant
                0 <= j <= is@.len(),
                *is == bs@[i as int].instructions,
                keys_distinct(dep_models(deps@)),
                map_of(dep_models(deps@)) == deps_in(m0, is@.take(j as int)),
            decreases is@.len() - j,
        {
            proof {
                assert(is@.take(j + 1).drop_last() =~= is@.take(j as int));
                assert(is@.take(j + 1).last() == is@[j as int]);
            }
            match &is[j] {
                Instruction::Declare { name, value, .. } => {
                    let mut vars: Vec<String> = Vec::new();
                    collect_vars(value, &mut vars);
                    assert(string_views(vars@) =~= value_vars(*value));
                    let d = without(vars, name);
                    set_dep(&mut deps, name, d);
                },
                Instruction::Assign { target, value } => {
                    let mut vars: Vec<String> = Vec::new();
                    collect_vars(value, &mut vars);
                    assert(string_views(vars@) =~= value_vars(*value));
                    let d = without(vars, target);
                    set_dep(&mut deps, target, d);
                },
                _ => {},
            }
            j = j + 1;
        }
        proof {
            assert(is@.take(is@.len() as int) =~= is@);
            assert(bs@.take(i + 1).drop_last() =~= bs@.take(i as int));
            assert(bs@.take(i + 1).last() == bs@[i as int]);
        }
        i = i + 1;
    }
    assert(bs@.take(bs@.len() as int) =~= bs@);
    deps
}

/// Appends what an instruction reads observably.
fn push_seeds(i: &Instruction, out: &mut Vec<String>)
    ensures
        string_views(final(out)@).to_set() == string_views(old(out)@).to_set().union(instr_seeds(*i)),
{
    let ghost o0 = string_views(out@);
    match i {
        Instruction::Declare { name, value, .. } => {
            let mut vars: Vec<String> = Vec::new();
            collect_vars(value, &mut vars);
            assert(string_views(vars@) =~= value_vars(*value));
            let d = without(vars, name);
            let ghost dv = string_views(d@);
            append(out, d);
            proof { lemma_to_set_add(o0, dv); }
        },
        Instruction::Assign { target, value } => {
            let mut vars: Vec<String> = Vec::new();
            collect_vars(value, &mut vars);
            assert(string_views(vars@) =~= value_vars(*value));
            let d = without(vars, target);
            let ghost dv = string_views(d@);
            append(out, d);
            proof { lemma_to_set_add(o0, dv); }
        },
        Instruction::IteratorInit { iterable, .. } => {
            collect_vars(iterable, out);
            proof { lemma_to_set_add(o0, value_vars(*iterable)); }
        },
        Instruction::Print { value } => {
            collect_vars(value, out);
            proof { lemma_to_set_add(o0, value_vars(*value)); }
        },
        Instruction::Call { args, .. } => {
            collect_all(args, out);
            proof { lemma_to_set_add(o0, values_vars(args@)); }
        },
        Instruction::ArrayAssign { array, index, value } => {
            collect_vars(array, out);
            collect_vars(index, out);
            collect_vars(value, out);
            proof {
                let all = value_vars(**array) + value_vars(**index) + value_vars(*value);
                assert(string_views(out@) =~= o0 + all);
                lemma_to_set_add(o0, all);
            }
        },
        Instruction::Send { value, .. } => {
            collect_vars(value, out);
            proof { lemma_to_set_add(o0, value_vars(*value)); }
        },
        Instruction::ChannelSend { value, .. } => {
            collect_vars(value, out);
            proof { lemma_to_set_add(o0, value_vars(*value)); }
        },
        Instruction::Allocate { size, .. } => {
            collect_vars(size, out);
            proof { lemma_to_set_add(o0, value_vars(*size)); }
        },
        Instruction::Free { ptr } => {
            collect_vars(ptr, out);
            proof { lemma_to_set_add(o0, value_vars(*ptr)); }
        },
        Instruction::Receive { target, .. } => {
            let ghost o = out@;
            out.push(target.clone());
            proof {
                assert(string_views(out@) =~= o0 + seq![target@]);
                lemma_to_set_add(o0, seq![target@]);
                assert(seq![target@].to_set() =~= set![target@]);
            }
        },
        _ => {
            assert(o0.to_set().union(instr_seeds(*i)) =~= o0.to_set());
        },
    }
}

proof fn lemma_to_set_add<A>(a: Seq<A>, b: Seq<A>)
    ensures
        (a + b).to_set() == a.to_set().union(b.to_set()),
{
    assert forall|x: A| (a + b).to_set().contains(x) <==> a.to_set().union(b.to_set()).contains(x) by {
        if (a + b).contains(x) {
            let q = choose|q: int| 0 <= q < (a + b).len() && (a + b)[q] == x;
            if q < a.len() {
                assert(a[q] == x);
            } else {
                assert(b[q - a.len()] == x);
            }
        }
        if a.contains(x) {
            let q = choose|q: int| 0 <= q < a.len() && a[q] == x;
            assert((a + b)[q] == x);
        }
        if b.contains(x) {
            let q = choose|q: int| 0 <= q < b.len() && b[q] == x;
            assert((a + b)[a.len() + q] == x);
        }
    }
    assert((a + b).to_set() =~= a.to_set().union(b.to_set()));
}

/// Appends all of `d`.
fn append(out: &mut Vec<String>, d: Vec<String>)
    ensures
        string_views(final(out)@) == string_views(old(out)@) + string_views(d@),
{
    let ghost o0 = out@;
    let ghost dv = d@;
    let mut d = d;
    out.append(&mut d);
    assert(string_views(out@) =~= string_views(o0) + string_views(dv));
}

/// Appends what a terminator reads.
fn push_term_seeds(t: &Option<Terminator>, out: &mut Vec<String>)
    ensures
        string_views(final(out)@).to_set() == string_views(old(out)@).to_set().union(term_seeds(*t)),
{
    let ghost o0 = string_views(out@);
    match t {
        Some(Terminator::Return { value: Some(v), .. }) => {
            collect_vars(v, out);
            proof { lemma_to_set_add(o0, value_vars(*v)); }
        },
        Some(Terminator::Branch { condition, .. }) => {
            collect_vars(condition, out);
            proof { lemma_to_set_add(o0, value_vars(*condition)); }
        },
        Some(Terminator::Switch { value, .. }) => {
            collect_vars(value, out);
            proof { lemma_to_set_add(o0, value_vars(*value)); }
        },
        _ => {
            assert(o0.to_set().union(term_seeds(*t)) =~= o0.to_set());
        },
    }
}

/// Everything the blocks read observably (with repeats).
fn observable_reads(bs: &Vec<SemanticBlock>) -> (r: Vec<String>)
    ensures
        string_views(r@).to_set() == seeds_of(bs@),
{
    let mut out: Vec<String> = Vec::new();
    let mut i: usize = 0;
    proof {
        assert(string_views(out@).to_set() =~= seeds_of(bs@.take(0)));
    }
    while i < bs.len()
        invariant
            0 <= i <= bs@.len(),
            string_views(out@).to_set() == seeds_of(bs@.take(i as int)),
        decreases bs@.len() - i,
    {
        let is = &bs[i].instructions;
        let ghost s0 = seeds_of(bs@.take(i as int));
        let mut j: usize = 0;
        assert(s0.union(instrs_seeds(is@.take(0))) =~= s0);
        while j < is.len()
            invariant
                0 <= j <= is@.len(),
                *is == bs@[i as int].instructions,
                string_views(out@).to_set() == s0.union(instrs_seeds(is@.take(j as int))),
            decreases is@.len() - j,
        {
            proof {
                assert(is@.take(j + 1).drop_last() =~= is@.take(j as int));
                assert(is@.take(j + 1).last() == is@[j as int]);
            }
            push_seeds(&is[j], &mut out);
            proof {
                assert(string_views(out@).to_set() =~= s0.union(instrs_seeds(is@.take(j + 1))));
            }
            j = j + 1;
        }
        assert(is@.take(is@.len() as int) =~= is@);
        push_term_seeds(&bs[i].terminator, &mut out);
        proof {
            assert(bs@.take(i + 1).drop_last() =~= bs@.take(i as int));
            assert(bs@.take(i + 1).last() == bs@[i as int]);
            assert(string_views(out@).to_set() =~= seeds_of(bs@.take(i + 1)));
        }
        i = i + 1;
    }
    assert(bs@.take(bs@.len() as int) =~= bs@);
    out
}

/// Every name some definition depends on, with repeats.
pub open spec fn dep_names(v: Seq<(String, Vec<String>)>) -> Seq<Seq<char>>
    decreases v.len(),
{
    if v.len() == 0 { Seq::empty() } else { dep_names(v.drop_last()) + string_views(v.last().1@) }
}

proof fn lemma_dep_names(v: Seq<(String, Vec<String>)>, e: int, q: int)
    requires
        0 <= e < v.len(),
        0 <= q < v[e].1@.len(),
    ensures
        dep_names(v).contains(v[e].1@[q]@),
    decreases v.len(),
{
    if e < v.len() - 1 {
        lemma_dep_names(v.drop_last(), e, q);
        let a = dep_names(v.drop_last());
        let i = choose|i: int| 0 <= i < a.len() && a[i] == v[e].1@[q]@;
        assert((a + string_views(v.last().1@))[i] == v[e].1@[q]@);
    } else {
        let a = dep_names(v.drop_last());
        assert((a + string_views(v.last().1@))[a.len() + q] == v[e].1@[q]@);
    }
}

/// The entry of `deps` for `n`.
fn find_dep(deps: &Vec<(String, Vec<String>)>, n: &String) -> (r: Option<usize>)
    requires
        keys_distinct(dep_models(deps@)),
    ensures
        match r {
            Some(e) => e < deps@.len() && deps@[e as int].0@ == n@
                && map_of(dep_models(deps@)).contains_key(n@)
                && map_of(dep_models(deps@))[n@] == string_views(deps@[e as int].1@).to_set(),
            None => !map_of(dep_models(deps@)).contains_key(n@),
        },
{
    let mut i: usize = 0;
    while i < deps.len()
        invariant
            0 <= i <= deps@.len(),
            keys_distinct(dep_models(deps@)),
            forall|k: int| 0 <= k < i ==> deps@[k].0@ != n@,
        decreases deps@.len() - i,
    {
        if deps[i].0 == *n {
            proof {
                lemma_map_of_index(dep_models(deps@), i as int);
                assert(dep_models(deps@)[i as int].0 == n@);
            }
            return Some(i);
        }
        i = i + 1;
    }
    proof {
        lemma_map_of_dom(dep_models(deps@), n@);
        assert forall|k: int| 0 <= k < dep_models(deps@).len() implies #[trigger] dep_models(deps@)[k].0 != n@ by {}
    }
    None
}

/// The live variables of the blocks, each once.
#[verifier::rlimit(80)]
#[verifier::spinoff_prover]
pub fn live_names(bs: &Vec<SemanticBlock>) -> (r: Vec<String>)
    ensures
        forall|n: Seq<char>| string_views(r@).contains(n) <==> live(bs@, n),
{
    let deps = definitions(bs);
    let seeds = observable_reads(bs);
    let ghost m = map_of(dep_models(deps@));
    let ghost next = deps_next(m);
    let ghost s0 = string_views(seeds@).to_set();
    let ghost cands = string_views(seeds@) + dep_names(deps@);
    let mut used: Vec<String> = Vec::new();
    let mut i: usize = 0;
    while i < seeds.len()
        invariant
            0 <= i <= seeds@.len(),
            s0 == string_views(seeds@).to_set(),
            cands == string_views(seeds@) + dep_names(deps@),
            string_views(used@).no_duplicates(),
            forall|k: int| 0 <= k < used@.len() ==> cands.contains(#[trigger] string_views(used@)[k]),
            forall|k: int| 0 <= k < used@.len() ==> s0.contains(#[trigger] string_views(used@)[k]),
            forall|k: int| 0 <= k < i ==> string_views(used@).contains(#[trigger] string_views(seeds@)[k]),
        decreases seeds@.len() - i,
    {
        let ghost before = string_views(used@);
        if !contains_name(&used, &seeds[i]) {
            used.push(seeds[i].clone());
            proof {
                let x = seeds@[i as int]@;
                assert(string_views(used@) =~= before.push(x));
                assert(cands[i as int] == x);
                assert(string_views(seeds@)[i as int] == x);
                assert(s0.contains(x));
            }
        }
        proof {
            let u = string_views(used@);
            assert forall|k: int| 0 <= k < i + 1 implies u.contains(#[trigger] string_views(seeds@)[k]) by {
                if k < i {
                    let q = choose|q: int| 0 <= q < before.len() && before[q] == string_views(seeds@)[k];
                    assert(u[q] == before[q]);
                } else if !before.contains(string_views(seeds@)[k]) {
                    assert(u[before.len() as int] == string_views(seeds@)[k]);
                }
            }
        }
        i = i + 1;
    }
    proof {
        let u = string_views(used@);
        assert(listed_in_order(next, s0, u));
        assert forall|x: Seq<char>| s0.contains(x) implies u.contains(x) by {
            let q = choose|q: int| 0 <= q < seeds@.len() && string_views(seeds@)[q] == x;
        }
        lemma_len_bound(u, cands);
    }
    let mut k: usize = 0;
    while k < used.len()
        invariant
            0 <= k <= used@.len(),
            used@.len() <= cands.len(),
            keys_distinct(dep_models(deps@)),
            m == map_of(dep_models(deps@)),
            next == deps_next(m),
            s0 == string_views(seeds@).to_set(),
            cands == string_views(seeds@) + dep_names(deps@),
            string_views(used@).no_duplicates(),
            forall|j: int| 0 <= j < used@.len() ==> cands.contains(#[trigger] string_views(used@)[j]),
            listed_in_order(next, s0, string_views(used@)),
            forall|x: Seq<char>| s0.contains(x) ==> string_views(used@).contains(x),
            forall|j: int, t: Seq<char>| 0 <= j < k && #[trigger] next(string_views(used@)[j]).contains(t) ==> string_views(used@).contains(t),
        decreases cands.len() - k,
    {
        let ghost u0 = string_views(used@);
        let ghost x = u0[k as int];
        match find_dep(&deps, &used[k]) {
            None => {
                assert(next(x) =~= Set::<Seq<char>>::empty());
            },
            Some(e) => {
                let ds = &deps[e].1;
                let mut j: usize = 0;
                while j < ds.len()
                    invariant
                        0 <= j <= ds@.len(),
                        e < deps@.len(),
                        *ds == deps@[e as int].1,
                        k < used@.len(),
                        string_views(used@)[k as int] == x,
                        next(x) == string_views(ds@).to_set(),
                        m == map_of(dep_models(deps@)),
                        next == deps_next(m),
                        cands == string_views(seeds@) + dep_names(deps@),
                        string_views(used@).len() >= u0.len(),
                        string_views(used@).subrange(0, u0.len() as int) == u0,
                        string_views(used@).no_duplicates(),
                        forall|q: int| 0 <= q < used@.len() ==> cands.contains(#[trigger] string_views(used@)[q]),
                        listed_in_order(next, s0, string_views(used@)),
                        forall|q: int| 0 <= q < j ==> string_views(used@).contains(#[trigger] string_views(ds@)[q]),
                    decreases ds@.len() - j,
                {
                    let ghost before = string_views(used@);
                    if !contains_name(&used, &ds[j]) {
                        used.push(ds[j].clone());
                        proof {
                            let t = ds@[j as int]@;
                            assert(string_views(used@) =~= before.push(t));
                            lemma_dep_names(deps@, e as int, j as int);
                            assert(cands.contains(t)) by {
                                let q = choose|q: int| 0 <= q < dep_names(deps@).len() && dep_names(deps@)[q] == t;
                                assert(cands[seeds@.len() + q] == t);
                            }
                            assert(string_views(ds@)[j as int] == t);
                            assert(next(x).contains(t));
                            let u = string_views(used@);
                            assert forall|q: int| 0 <= q < u.len() implies s0.contains(#[trigger] u[q])
                                || exists|p: int| 0 <= p < q && next(u[p]).contains(u[q]) by {
                                if q < before.len() {
                                    assert(u[q] == before[q]);
                                    if !s0.contains(before[q]) {
                                        let p = choose|p: int| 0 <= p < q && next(before[p]).contains(before[q]);
                                        assert(u[p] == before[p]);
                                    }
                                } else {
                                    assert(u[k as int] == x);
                                }
                            }
                            assert(u.subrange(0, u0.len() as int) =~= u0);
                        }
                    }
                    proof {
                        let u = string_views(used@);
                        assert forall|q: int| 0 <= q < j + 1 implies u.contains(#[trigger] string_views(ds@)[q]) by {
                            if q < j {
                                let p = choose|p: int| 0 <= p < before.len() && before[p] == string_views(ds@)[q];
                                assert(u[p] == before[p]);
                            } else if !before.contains(string_views(ds@)[q]) {
                                assert(u[before.len() as int] == string_views(ds@)[q]);
                            }
                        }
                    }
                    j = j + 1;
                }
                proof {
                    assert forall|t: Seq<char>| next(x).contains(t) implies string_views(used@).contains(t) by {
                        let q = choose|q: int| 0 <= q < string_views(ds@).len() && string_views(ds@)[q] == t;
                    }
                }
            },
        }
        proof {
            let u = string_views(used@);
            assert forall|j2: int, t: Seq<char>| 0 <= j2 < k + 1 && #[trigger] next(u[j2]).contains(t) implies u.contains(t) by {
                if j2 < k {
                    assert(u[j2] == u0[j2]);
                    assert(next(u0[j2]).contains(t));
                    let q = choose|q: int| 0 <= q < u0.len() && u0[q] == t;
                    assert(u[q] == t);
                } else {
                    assert(u[k as int] == x);
                }
            }
            assert forall|y: Seq<char>| s0.contains(y) implies u.contains(y) by {
                let q = choose|q: int| 0 <= q < u0.len() && u0[q] == y;
                assert(u[q] == y);
            }
            lemma_len_bound(u, cands);
        }
        k = k + 1;
    }
    proof {
        let u = string_views(used@);
        let us = u.to_set();
        assert(m == deps_of(bs@));
        assert(s0 == seeds_of(bs@));
        assert forall|y: Seq<char>, z: Seq<char>| us.contains(y) && #[trigger] next(y).contains(z) implies us.contains(z) by {
            let q = choose|q: int| 0 <= q < u.len() && u[q] == y;
            assert(next(u[q]).contains(z));
        }
        assert forall|n: Seq<char>| u.contains(n) <==> live(bs@, n) by {
            if derivable(next, s0, n) {
                lemma_closed_holds_derivable(next, s0, us, n);
            }
            if u.contains(n) {
                let q = choose|q: int| 0 <= q < u.len() && u[q] == n;
                lemma_listed_derivable(next, s0, u, q);
            }
        }
    }
    used
}

} // verus!
