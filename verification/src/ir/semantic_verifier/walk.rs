//! The depth-first walk over a function's blocks, and the checks of a
//! function and a program.

use vstd::prelude::*;
use crate::common::types::{Type, Ty};
use crate::common::assoc::map_of;
use crate::ir::cfg_verifier::{ids, program_ok, program_reports, CfgError, CFGVerifier};
use crate::ir::graph::contains;
use crate::ir::semantic_ir::program::{SemanticFunction, SemanticProgram};
use crate::ir::semantic_ir::terminators::Terminator;
use crate::ir::semantic_ir::patterns::SemanticPattern;
use super::rules::{VErr, EnvModel, instrs_check, instr_check, term_check, successors_with_envs, case_env,
    pattern_binding, with_var, iter_elem};
use super::instruction::{verify_instruction, verify_terminator, env_result};
use super::builtins::{builtin_signatures, builtin_table};
use super::{VerifyEnv, VerifyError, FunctionSignature, find_type, type_entries, flag_entries, sig_entries, sig_model};

verus! {

broadcast use vstd::seq_lib::group_seq_properties;

/// The index of the first `x` in `s` (`s.len()` if none).
pub open spec fn first_index(s: Seq<usize>, x: usize) -> int
    decreases s.len(),
{
    if s.len() == 0 {
        0
    } else if s[0] == x {
        0
    } else {
        1 + first_index(s.drop_first(), x)
    }
}

proof fn lemma_first_index(s: Seq<usize>, x: usize, k: int)
    requires
        0 <= k < s.len(),
        s[k] == x,
        forall|i: int| 0 <= i < k ==> s[i] != x,
    ensures
        first_index(s, x) == k,
    decreases s.len(),
{
    if k > 0 {
        lemma_first_index(s.drop_first(), x, k - 1);
    }
}

/// The first block with id `id`.
pub open spec fn block_at(f: SemanticFunction, id: usize) -> crate::ir::semantic_ir::program::SemanticBlock {
    f.blocks@[first_index(ids(f), id)]
}

/// The set of the members of `v`.
pub open spec fn vset(v: Seq<usize>) -> Set<usize> {
    Set::new(|x: usize| v.contains(x))
}

/// How many of `ids` are not in `v`.
pub open spec fn count_out(ids: Seq<usize>, v: Set<usize>) -> nat
    decreases ids.len(),
{
    if ids.len() == 0 {
        0
    } else {
        count_out(ids.drop_last(), v) + if v.contains(ids.last()) { 0nat } else { 1nat }
    }
}

pub proof fn lemma_count_insert(ids: Seq<usize>, v: Set<usize>, x: usize)
    ensures
        count_out(ids, v.insert(x)) <= count_out(ids, v),
        ids.contains(x) && !v.contains(x) ==> count_out(ids, v.insert(x)) < count_out(ids, v),
    decreases ids.len(),
{
    if ids.len() > 0 {
        lemma_count_insert(ids.drop_last(), v, x);
        if ids.contains(x) && !v.contains(x) && ids.last() != x {
            let i = choose|i: int| 0 <= i < ids.len() && ids[i] == x;
            assert(ids.drop_last()[i] == x);
        }
    }
}

/// The walk from a stack of blocks to check (the last on top), each with
/// the environment to check it in, having checked the `visited` blocks:
/// `Ok` when every block it reaches checks, else the first defect.
pub open spec fn walk(f: SemanticFunction, stack: Seq<(usize, EnvModel)>, visited: Set<usize>) -> Result<(), VErr>
    decreases count_out(ids(f), visited), stack.len(),
{
    if stack.len() == 0 {
        Ok(())
    } else {
        let id = stack.last().0;
        let env = stack.last().1;
        let rest = stack.drop_last();
        if visited.contains(id) {
            walk(f, rest, visited)
        } else if !ids(f).contains(id) {
            Err(VErr::BlockNotFound(id))
        } else {
            let b = block_at(f, id);
            match instrs_check(b.instructions@, env) {
                Err(e) => Err(e),
                Ok(e2) => match b.terminator {
                    None => Err(VErr::NoTerminator(id)),
                    Some(t) => match term_check(f.return_type@, t, e2) {
                        Err(e) => Err(e),
                        Ok(e3) => {
                            proof {
                                lemma_count_insert(ids(f), visited, id);
                            }
                            walk(f, rest + successors_with_envs(t, e3).reverse(), visited.insert(id))
                        },
                    },
                },
            }
        }
    }
}

/// The stack's model.
pub open spec fn stack_model(s: Seq<(usize, VerifyEnv)>) -> Seq<(usize, EnvModel)> {
    Seq::new(s.len(), |i: int| (s[i].0, s[i].1.model()))
}

impl FunctionSignature {
    pub fn copy(&self) -> (r: FunctionSignature)
        ensures
            sig_model(r) == sig_model(*self),
    {
        let mut params: Vec<(String, Type)> = Vec::new();
        let mut i: usize = 0;
        while i < self.params.len()
            invariant
                0 <= i <= self.params@.len(),
                params@.len() == i,
                forall|j: int| 0 <= j < i ==> (#[trigger] params@[j]).1@ == self.params@[j].1@,
            decreases self.params@.len() - i,
        {
            params.push((self.params[i].0.clone(), self.params[i].1.deep_clone()));
            i = i + 1;
        }
        let r = FunctionSignature { params, return_type: self.return_type.deep_clone() };
        assert(Seq::new(r.params@.len(), |j: int| r.params@[j].1@) =~= Seq::new(self.params@.len(), |j: int| self.params@[j].1@));
        r
    }
}

fn copy_types(v: &Vec<(String, Type)>) -> (r: Vec<(String, Type)>)
    ensures
        type_entries(r@) == type_entries(v@),
{
    let mut out: Vec<(String, Type)> = Vec::new();
    let mut i: usize = 0;
    while i < v.len()
        invariant
            0 <= i <= v@.len(),
            out@.len() == i,
            forall|j: int| 0 <= j < i ==> (#[trigger] out@[j]).0@ == v@[j].0@ && out@[j].1@ == v@[j].1@,
        decreases v@.len() - i,
    {
        out.push((v[i].0.clone(), v[i].1.deep_clone()));
        i = i + 1;
    }
    assert(type_entries(out@) =~= type_entries(v@));
    out
}

fn copy_flags(v: &Vec<(String, bool)>) -> (r: Vec<(String, bool)>)
    ensures
        flag_entries(r@) == flag_entries(v@),
{
    let mut out: Vec<(String, bool)> = Vec::new();
    let mut i: usize = 0;
    while i < v.len()
        invariant
            0 <= i <= v@.len(),
            out@.len() == i,
            forall|j: int| 0 <= j < i ==> (#[trigger] out@[j]).0@ == v@[j].0@ && out@[j].1 == v@[j].1,
        decreases v@.len() - i,
    {
        out.push((v[i].0.clone(), v[i].1));
        i = i + 1;
    }
    assert(flag_entries(out@) =~= flag_entries(v@));
    out
}

fn copy_sigs(v: &Vec<(String, FunctionSignature)>) -> (r: Vec<(String, FunctionSignature)>)
    ensures
        sig_entries(r@) == sig_entries(v@),
{
    let mut out: Vec<(String, FunctionSignature)> = Vec::new();
    let mut i: usize = 0;
    while i < v.len()
        invariant
            0 <= i <= v@.len(),
            out@.len() == i,
            forall|j: int| 0 <= j < i ==> (#[trigger] out@[j]).0@ == v@[j].0@ && sig_model(out@[j].1) == sig_model(v@[j].1),
        decreases v@.len() - i,
    {
        out.push((v[i].0.clone(), v[i].1.copy()));
        i = i + 1;
    }
    assert(sig_entries(out@) =~= sig_entries(v@));
    out
}

impl VerifyEnv {
    /// A copy with the same model.
    pub fn copy(&self) -> (r: VerifyEnv)
        ensures
            r.model() == self.model(),
    {
        VerifyEnv {
            variables: copy_types(&self.variables),
            mutability: copy_flags(&self.mutability),
            function_sigs: copy_sigs(&self.function_sigs),
            iterator_elem_types: copy_types(&self.iterator_elem_types),
        }
    }
}

/// Each successor of `term` with the environment it is checked in; see
/// `rules::successors_with_envs`.
fn successors_with_envs_of(term: &Terminator, env: &VerifyEnv) -> (r: Vec<(usize, VerifyEnv)>)
    ensures
        stack_model(r@) == successors_with_envs(*term, env.model()),
{
    match term {
        Terminator::Switch { cases, default_block, .. } => {
            let mut out: Vec<(usize, VerifyEnv)> = Vec::new();
            let mut i: usize = 0;
            while i < cases.len()
                invariant
                    0 <= i <= cases@.len(),
                    out@.len() == i,
                    forall|k: int| 0 <= k < i ==> (#[trigger] out@[k]).0 == cases@[k].1 && out@[k].1.model() == case_env(cases@[k].0, env.model()),
                decreases cases@.len() - i,
            {
                let mut e = env.copy();
                match &cases[i].0 {
                    SemanticPattern::SomeBinding { binding } => e.bind_var(binding, Type::Unknown, false),
                    SemanticPattern::OkBinding { binding } => e.bind_var(binding, Type::Unknown, false),
                    SemanticPattern::Error { binding } => e.bind_var(binding, Type::Unknown, false),
                    _ => {},
                }
                let ghost em = e.model();
                assert(em == case_env(cases@[i as int].0, env.model()));
                out.push((cases[i].1, e));
                i = i + 1;
            }
            assert(stack_model(out@) =~= Seq::new(cases@.len(), |k: int| (cases@[k].1, case_env(cases@[k].0, env.model()))));
            match default_block {
                Some(d) => {
                    let ghost before = stack_model(out@);
                    out.push((*d, env.copy()));
                    assert(stack_model(out@) =~= before.push((*d, env.model())));
                },
                None => {},
            }
            out
        },
        Terminator::IteratorNext { iterator, target, body_block, exit_block } => {
            let mut body_env = env.copy();
            let el = match find_type(&env.iterator_elem_types, iterator) {
                Some(k) => env.iterator_elem_types[k].1.deep_clone(),
                None => Type::Unknown,
            };
            body_env.bind_var(target, el, false);
            let out = vec![(*body_block, body_env), (*exit_block, env.copy())];
            assert(stack_model(out@) =~= successors_with_envs(*term, env.model()));
            out
        },
        _ => {
            let ss = term.successors();
            let mut out: Vec<(usize, VerifyEnv)> = Vec::new();
            let mut i: usize = 0;
            while i < ss.len()
                invariant
                    0 <= i <= ss@.len(),
                    out@.len() == i,
                    forall|k: int| 0 <= k < i ==> (#[trigger] out@[k]).0 == ss@[k] && out@[k].1.model() == env.model(),
                decreases ss@.len() - i,
            {
                out.push((ss[i], env.copy()));
                i = i + 1;
            }
            assert(stack_model(out@) =~= successors_with_envs(*term, env.model()));
            out
        },
    }
}

/// The index of the first block with id `id`, if any.
fn block_index(func: &SemanticFunction, id: usize) -> (r: Option<usize>)
    ensures
        match r {
            Some(i) => i < func.blocks@.len() && ids(*func)[i as int] == id
                && forall|j: int| 0 <= j < i ==> ids(*func)[j] != id,
            None => !ids(*func).contains(id),
        },
{
    let mut i: usize = 0;
    while i < func.blocks.len()
        invariant
            0 <= i <= func.blocks@.len(),
            forall|j: int| 0 <= j < i ==> ids(*func)[j] != id,
        decreases func.blocks@.len() - i,
    {
        if func.blocks[i].id == id {
            return Some(i);
        }
        i = i + 1;
    }
    None
}


proof fn lemma_reverse_pop(s: Seq<(usize, EnvModel)>)
    requires
        s.len() > 0,
    ensures
        s.reverse() == seq![s.last()] + s.drop_last().reverse(),
{
    assert(s.reverse() =~= seq![s.last()] + s.drop_last().reverse());
}

proof fn lemma_instrs_err(is: Seq<crate::ir::semantic_ir::instructions::Instruction>, env: EnvModel, k: int)
    requires
        0 <= k < is.len(),
        instrs_check(is.take(k + 1), env) is Err,
    ensures
        instrs_check(is, env) == instrs_check(is.take(k + 1), env),
    decreases is.len(),
{
    if is.len() > k + 1 {
        let init = is.drop_last();
        assert(init.take(k + 1) =~= is.take(k + 1));
        lemma_instrs_err(init, env, k);
    } else {
        assert(is.take(k + 1) =~= is);
    }
}

/// Checks a block's instructions and then its terminator, from `env`:
/// the environment after them, or the first defect.
fn check_block(func: &SemanticFunction, bi: usize, start: &VerifyEnv) -> (r: Result<VerifyEnv, VerifyError>)
    requires
        bi < func.blocks@.len(),
    ensures
        match r {
            Ok(e) => {
                &&& func.blocks@[bi as int].terminator is Some
                &&& match instrs_check(func.blocks@[bi as int].instructions@, start.model()) {
                    Ok(e2) => term_check(func.return_type@, func.blocks@[bi as int].terminator->Some_0, e2) == Ok::<EnvModel, VErr>(e.model()),
                    Err(_) => false,
                }
            },
            Err(err) => match instrs_check(func.blocks@[bi as int].instructions@, start.model()) {
                Err(e) => err@ == e,
                Ok(e2) => match func.blocks@[bi as int].terminator {
                    None => err@ == VErr::NoTerminator(func.blocks@[bi as int].id),
                    Some(t) => term_check(func.return_type@, t, e2) == Err::<EnvModel, VErr>(err@),
                },
            },
        },
{
    let block = &func.blocks[bi];
    let ghost env_in = start.model();
    let mut env = start.copy();
    let mut k: usize = 0;
    assert(block.instructions@.take(0) =~= Seq::<crate::ir::semantic_ir::instructions::Instruction>::empty());
    while k < block.instructions.len()
        invariant
            0 <= k <= block.instructions@.len(),
            bi < func.blocks@.len(),
            *block == func.blocks@[bi as int],
            env_in == start.model(),
            instrs_check(block.instructions@.take(k as int), env_in) == Ok::<EnvModel, VErr>(env.model()),
        decreases block.instructions@.len() - k,
    {
        assert(block.instructions@.take(k + 1).drop_last() =~= block.instructions@.take(k as int));
        assert(block.instructions@.take(k + 1).last() == block.instructions@[k as int]);
        let ghost before = env.model();
        match verify_instruction(&block.instructions[k], &mut env) {
            Err(e) => {
                assert(instr_check(block.instructions@[k as int], before) == Err::<EnvModel, VErr>(e@));
                assert(instrs_check(block.instructions@.take(k + 1), env_in) == Err::<EnvModel, VErr>(e@));
                proof { lemma_instrs_err(block.instructions@, env_in, k as int); }
                assert(instrs_check(func.blocks@[bi as int].instructions@, env_in) == Err::<EnvModel, VErr>(e@));
                return Err(e);
            },
            Ok(()) => {},
        }
        k = k + 1;
    }
    assert(block.instructions@.take(block.instructions@.len() as int) =~= block.instructions@);
    let t = match &block.terminator {
        None => {
            return Err(VerifyError::NoTerminator(block.id));
        },
        Some(t) => t,
    };
    match verify_terminator(&func.return_type, t, &mut env) {
        Err(e) => Err(e),
        Ok(()) => Ok(env),
    }
}

/// Pushes `succs` onto `stack` in reverse, so that the first ends on top.
fn push_reversed(stack: &mut Vec<(usize, VerifyEnv)>, succs: Vec<(usize, VerifyEnv)>)
    ensures
        stack_model(final(stack)@) == stack_model(old(stack)@) + stack_model(succs@).reverse(),
{
    let ghost sm = stack_model(succs@);
    let ghost st = stack_model(stack@);
    let mut succs = succs;
    while succs.len() > 0
        invariant
            stack_model(stack@) + stack_model(succs@).reverse() == st + sm.reverse(),
        decreases succs@.len(),
    {
        let ghost before_s = stack_model(succs@);
        let ghost before_t = stack_model(stack@);
        let x = succs.pop();
        match x {
            Some(x) => {
                proof { lemma_reverse_pop(before_s); }
                assert(stack_model(succs@) =~= before_s.drop_last());
                assert(before_s.last() == (x.0, x.1.model()));
                stack.push(x);
                assert(stack_model(stack@) =~= before_t.push((x.0, x.1.model())));
                assert(stack_model(stack@) + stack_model(succs@).reverse() =~= before_t + before_s.reverse());
            },
            None => {},
        }
    }
    assert(stack_model(succs@).reverse() =~= Seq::<(usize, EnvModel)>::empty());
    assert(stack_model(stack@) =~= st + sm.reverse());
}

/// Walks the blocks reachable from `entry`, starting in `env0`; see `walk`.
#[verifier::spinoff_prover]
#[verifier::rlimit(60)]
fn walk_blocks(func: &SemanticFunction, entry: usize, env0: &VerifyEnv) -> (r: Result<(), VerifyError>)
    ensures
        match r {
            Ok(_) => walk(*func, seq![(entry, env0.model())], Set::empty()) == Ok::<(), VErr>(()),
            Err(e) => walk(*func, seq![(entry, env0.model())], Set::empty()) == Err::<(), VErr>(e@),
        },
{
    let ghost target = walk(*func, seq![(entry, env0.model())], Set::empty());
    let mut stack: Vec<(usize, VerifyEnv)> = Vec::new();
    stack.push((entry, env0.copy()));
    let mut visited: Vec<usize> = Vec::new();
    assert(stack_model(stack@) =~= seq![(entry, env0.model())]);
    assert(vset(visited@) =~= Set::<usize>::empty());
    while stack.len() > 0
        invariant
            target == walk(*func, seq![(entry, env0.model())], Set::empty()),
            walk(*func, stack_model(stack@), vset(visited@)) == target,
        decreases count_out(ids(*func), vset(visited@)), stack@.len(),
    {
        let ghost cur = stack_model(stack@);
        let ghost vs = vset(visited@);
        let top = stack.pop();
        let (id, env) = match top {
            Some(x) => x,
            None => {
                return Ok(());
            },
        };
        assert(stack_model(stack@) =~= cur.drop_last());
        assert(cur.last() == (id, env.model()));
        if contains(&visited, id) {
            assert(vs.contains(id));
            continue;
        }
        assert(!vs.contains(id));
        let bi = match block_index(func, id) {
            None => {
                assert(walk(*func, cur, vs) == Err::<(), VErr>(VErr::BlockNotFound(id)));
                return Err(VerifyError::BlockNotFound(id));
            },
            Some(bi) => bi,
        };
        proof {
            lemma_first_index(ids(*func), id, bi as int);
            lemma_count_insert(ids(*func), vs, id);
        }
        assert(block_at(*func, id) == func.blocks@[bi as int]);
        visited.push(id);
        assert(vset(visited@) =~= vs.insert(id));
        let ghost env_in = env.model();
        let env2 = match check_block(func, bi, &env) {
            Err(e) => {
                assert(walk(*func, cur, vs) == Err::<(), VErr>(e@));
                return Err(e);
            },
            Ok(e) => e,
        };
        let t = match &func.blocks[bi].terminator {
            Some(t) => t,
            None => {
                return Err(VerifyError::NoTerminator(id));
            },
        };
        let succs = successors_with_envs_of(t, &env2);
        push_reversed(&mut stack, succs);
    }
    assert(stack_model(stack@) =~= Seq::<(usize, EnvModel)>::empty());
    Ok(())
}


/// The environment a function's entry block starts in: its parameters
/// (mutable), the signatures, no iterator.
pub open spec fn initial_env(f: SemanticFunction, sigs: Map<Seq<char>, (Seq<Ty>, Ty)>) -> EnvModel {
    EnvModel {
        vars: map_of(type_entries(f.params@)),
        muts: map_of(Seq::new(f.params@.len(), |i: int| (f.params@[i].0@, true))),
        sigs: sigs,
        iters: Map::empty(),
    }
}

/// The id of the first block without a terminator, if any.
pub open spec fn first_unterminated(bs: Seq<crate::ir::semantic_ir::program::SemanticBlock>) -> Option<usize>
    decreases bs.len(),
{
    if bs.len() == 0 {
        None
    } else if bs[0].terminator is None {
        Some(bs[0].id)
    } else {
        first_unterminated(bs.drop_first())
    }
}

/// Some block returns.
pub open spec fn has_return(f: SemanticFunction) -> bool {
    exists|i: int| 0 <= i < f.blocks@.len() && (#[trigger] f.blocks@[i]).terminator matches Some(Terminator::Return { .. })
}

/// The check of one function against the signatures `sigs`.
#[verifier::opaque]
pub open spec fn function_check(f: SemanticFunction, sigs: Map<Seq<char>, (Seq<Ty>, Ty)>) -> Result<(), VErr> {
    if f.is_extern {
        Ok(())
    } else if f.blocks@.len() == 0 {
        Err(VErr::NoBlocks)
    } else if f.return_type@ != Ty::Void && first_unterminated(f.blocks@) is Some {
        Err(VErr::NoTerminator(first_unterminated(f.blocks@)->Some_0))
    } else if f.return_type@ != Ty::Void && !has_return(f) {
        Err(VErr::MissingReturn)
    } else {
        walk(f, seq![(f.entry_block, initial_env(f, sigs))], Set::empty())
    }
}

/// The signature of a function as a callee: parameter types and return type.
pub open spec fn fn_sig(f: SemanticFunction) -> (Seq<Ty>, Ty) {
    (Seq::new(f.params@.len(), |i: int| f.params@[i].1@), f.return_type@)
}

/// The signatures a program's calls resolve against: the built-ins, then
/// the program's functions, a later entry replacing an earlier one.
pub open spec fn program_sigs(p: SemanticProgram) -> Map<Seq<char>, (Seq<Ty>, Ty)> {
    map_of(builtin_table() + Seq::new(p.functions@.len(), |i: int| (p.functions@[i].name@, fn_sig(p.functions@[i]))))
}

/// The checks of `fs`, in order: the first defect, if any.
pub open spec fn functions_check(fs: Seq<SemanticFunction>, sigs: Map<Seq<char>, (Seq<Ty>, Ty)>) -> Result<(), VErr>
    decreases fs.len(),
{
    if fs.len() == 0 {
        Ok(())
    } else {
        match functions_check(fs.drop_last(), sigs) {
            Err(e) => Err(e),
            Ok(_) => function_check(fs.last(), sigs),
        }
    }
}

/// The semantic check of a program: its graphs must be well formed, then
/// each function must check.
pub open spec fn program_check(p: SemanticProgram) -> Result<(), VErr> {
    if !program_ok(p) {
        Err(VErr::Structure)
    } else {
        functions_check(p.functions@, program_sigs(p))
    }
}

fn first_unterminated_of(func: &SemanticFunction) -> (r: Option<usize>)
    ensures
        match r {
            Some(id) => first_unterminated(func.blocks@) == Some(id),
            None => first_unterminated(func.blocks@) is None,
        },
{
    let mut i: usize = 0;
    assert(func.blocks@.skip(0) =~= func.blocks@);
    while i < func.blocks.len()
        invariant
            0 <= i <= func.blocks@.len(),
            first_unterminated(func.blocks@) == first_unterminated(func.blocks@.skip(i as int)),
        decreases func.blocks@.len() - i,
    {
        assert(func.blocks@.skip(i as int)[0] == func.blocks@[i as int]);
        assert(func.blocks@.skip(i as int).drop_first() =~= func.blocks@.skip(i + 1));
        if func.blocks[i].terminator.is_none() {
            return Some(func.blocks[i].id);
        }
        i = i + 1;
    }
    assert(func.blocks@.skip(i as int).len() == 0);
    None
}

fn has_return_of(func: &SemanticFunction) -> (r: bool)
    ensures
        r == has_return(*func),
{
    let mut i: usize = 0;
    while i < func.blocks.len()
        invariant
            0 <= i <= func.blocks@.len(),
            forall|j: int| 0 <= j < i ==> !((#[trigger] func.blocks@[j]).terminator matches Some(Terminator::Return { .. })),
        decreases func.blocks@.len() - i,
    {
        if matches!(func.blocks[i].terminator, Some(Terminator::Return { .. })) {
            return true;
        }
        i = i + 1;
    }
    false
}

/// Checks one function against the signatures `sigs`; see `function_check`.
pub fn verify_function(func: &SemanticFunction, sigs: &Vec<(String, FunctionSignature)>) -> (r: Result<(), VerifyError>)
    ensures
        match r {
            Ok(_) => function_check(*func, map_of(sig_entries(sigs@))) == Ok::<(), VErr>(()),
            Err(e) => function_check(*func, map_of(sig_entries(sigs@))) == Err::<(), VErr>(e@),
        },
{
    proof { reveal(function_check); }
    if func.is_extern {
        return Ok(());
    }
    if func.blocks.len() == 0 {
        return Err(VerifyError::NoBlocks);
    }
    if !matches!(func.return_type, Type::Void) {
        match first_unterminated_of(func) {
            Some(id) => {
                return Err(VerifyError::NoTerminator(id));
            },
            None => {},
        }
        if !has_return_of(func) {
            return Err(VerifyError::MissingReturn);
        }
    }
    let env = VerifyEnv {
        variables: copy_types(&func.params),
        mutability: param_flags(&func.params),
        function_sigs: copy_sigs(sigs),
        iterator_elem_types: Vec::new(),
    };
    assert(type_entries(env.iterator_elem_types@) =~= Seq::<(Seq<char>, Ty)>::empty());
    assert(map_of(type_entries(env.iterator_elem_types@)) =~= Map::<Seq<char>, Ty>::empty());
    assert(env.model() == initial_env(*func, map_of(sig_entries(sigs@))));
    walk_blocks(func, func.entry_block, &env)
}

/// Every parameter, mutable.
fn param_flags(params: &Vec<(String, Type)>) -> (r: Vec<(String, bool)>)
    ensures
        flag_entries(r@) == Seq::new(params@.len(), |i: int| (params@[i].0@, true)),
{
    let mut out: Vec<(String, bool)> = Vec::new();
    let mut i: usize = 0;
    while i < params.len()
        invariant
            0 <= i <= params@.len(),
            out@.len() == i,
            forall|j: int| 0 <= j < i ==> (#[trigger] out@[j]).0@ == params@[j].0@ && out@[j].1,
        decreases params@.len() - i,
    {
        out.push((params[i].0.clone(), true));
        i = i + 1;
    }
    assert(flag_entries(out@) =~= Seq::new(params@.len(), |i: int| (params@[i].0@, true)));
    out
}

/// Semantic verification of a program: first the structure of its
/// control-flow graphs, then every function in order; see
/// `program_check`.
/// The signatures calls resolve against; see `program_sigs`.
fn program_signatures(program: &SemanticProgram) -> (r: Vec<(String, FunctionSignature)>)
    ensures
        map_of(sig_entries(r@)) == program_sigs(*program),
{
    let mut sigs = builtin_signatures();
    let ghost b = sig_entries(sigs@);
    let ghost us = Seq::new(program.functions@.len(), |i: int| (program.functions@[i].name@, fn_sig(program.functions@[i])));
    let mut i: usize = 0;
    assert(us.take(0) =~= Seq::<(Seq<char>, (Seq<Ty>, Ty))>::empty());
    assert(b + us.take(0) =~= b);
    while i < program.functions.len()
        invariant
            0 <= i <= program.functions@.len(),
            b == builtin_table(),
            us == Seq::new(program.functions@.len(), |i: int| (program.functions@[i].name@, fn_sig(program.functions@[i]))),
            sig_entries(sigs@) == b + us.take(i as int),
        decreases program.functions@.len() - i,
    {
        let f = &program.functions[i];
        let params = copy_types(&f.params);
        let sig = FunctionSignature { params, return_type: f.return_type.deep_clone() };
        assert(type_entries(sig.params@).len() == sig.params@.len());
        assert(sig.params@.len() == f.params@.len());
        assert forall|j: int| 0 <= j < f.params@.len() implies sig.params@[j].1@ == f.params@[j].1@ by {
            assert(type_entries(sig.params@)[j] == type_entries(f.params@)[j]);
        }
        assert(Seq::new(sig.params@.len(), |j: int| sig.params@[j].1@) =~= Seq::new(f.params@.len(), |j: int| f.params@[j].1@));
        assert(sig_model(sig) == fn_sig(program.functions@[i as int]));
        let ghost before = sig_entries(sigs@);
        sigs.push((f.name.clone(), sig));
        assert(sig_entries(sigs@) =~= before.push(us[i as int]));
        assert(us.take(i + 1) =~= us.take(i as int).push(us[i as int]));
        i = i + 1;
    }
    assert(us.take(us.len() as int) =~= us);
    sigs
}

/// Checks every function in order against `sigs`.
fn check_functions(program: &SemanticProgram, sigs: &Vec<(String, FunctionSignature)>) -> (r: Result<(), VerifyError>)
    ensures
        match r {
            Ok(_) => functions_check(program.functions@, map_of(sig_entries(sigs@))) == Ok::<(), VErr>(()),
            Err(e) => functions_check(program.functions@, map_of(sig_entries(sigs@))) == Err::<(), VErr>(e@),
        },
{
    let ghost sm = map_of(sig_entries(sigs@));
    let mut i: usize = 0;
    assert(program.functions@.take(0) =~= Seq::<SemanticFunction>::empty());
    while i < program.functions.len()
        invariant
            0 <= i <= program.functions@.len(),
            sm == map_of(sig_entries(sigs@)),
            functions_check(program.functions@.take(i as int), sm) == Ok::<(), VErr>(()),
        decreases program.functions@.len() - i,
    {
        proof { lemma_functions_step(program.functions@, sm, i as int); }
        match verify_function(&program.functions[i], sigs) {
            Err(e) => {
                proof { lemma_functions_err(program.functions@, sm, i as int); }
                return Err(e);
            },
            Ok(()) => {},
        }
        i = i + 1;
    }
    assert(program.functions@.take(program.functions@.len() as int) =~= program.functions@);
    Ok(())
}

/// Semantic verification of a program: first the structure of its
/// control-flow graphs, then every function in order; see
/// `program_check`.
pub fn verify(program: &SemanticProgram) -> (r: Result<(), VerifyError>)
    ensures
        match r {
            Ok(_) => program_check(*program) == Ok::<(), VErr>(()),
            Err(e) => program_check(*program) == Err::<(), VErr>(e@)
                && (!program_ok(*program) ==> (e matches VerifyError::Structure(c) && program_reports(*program, c))),
        },
{
    match CFGVerifier::verify(program) {
        Err(c) => {
            return Err(VerifyError::Structure(c));
        },
        Ok(()) => {},
    }
    let sigs = program_signatures(program);
    check_functions(program, &sigs)
}

proof fn lemma_functions_step(fs: Seq<SemanticFunction>, sigs: Map<Seq<char>, (Seq<Ty>, Ty)>, k: int)
    requires
        0 <= k < fs.len(),
    ensures
        functions_check(fs.take(k + 1), sigs) == match functions_check(fs.take(k), sigs) {
            Err(e) => Err(e),
            Ok(_) => function_check(fs[k], sigs),
        },
{
    assert(fs.take(k + 1).drop_last() =~= fs.take(k));
    assert(fs.take(k + 1).last() == fs[k]);
}

proof fn lemma_functions_err(fs: Seq<SemanticFunction>, sigs: Map<Seq<char>, (Seq<Ty>, Ty)>, k: int)
    requires
        0 <= k < fs.len(),
        functions_check(fs.take(k + 1), sigs) is Err,
    ensures
        functions_check(fs, sigs) == functions_check(fs.take(k + 1), sigs),
    decreases fs.len(),
{
    if fs.len() > k + 1 {
        let init = fs.drop_last();
        assert(init.take(k + 1) =~= fs.take(k + 1));
        lemma_functions_err(init, sigs, k);
    } else {
        assert(fs.take(k + 1) =~= fs);
    }
}

} // verus!
