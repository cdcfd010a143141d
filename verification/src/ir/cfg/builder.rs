//! Lowering of the semantic IR to the graphs of the ownership analysis:
//! one graph per non-extern function, its blocks keeping their ids, each
//! instruction lowered to the ownership operations it performs.

use vstd::prelude::*;
use super::dataflow::{BlockId, Cfg, CfgBlock, CfgInstruction, FunctionCfg, succs_of, preds_of, edges_agree, text3, text4, add_edges};
use super::state::{string_views, lemma_filter_step};
use crate::common::text::{dec, decimal};
use crate::ir::semantic_ir::values::{TypedIRValue, typed_value_debug, value_text};
use crate::ir::semantic_ir::instructions::Instruction;
use crate::ir::semantic_ir::terminators::Terminator;
use crate::ir::semantic_ir::program::{SemanticBlock, SemanticFunction, SemanticProgram, block_succs};

verus! {

broadcast use vstd::seq_lib::group_seq_properties;

// ─── The model of an operation ──────────────────────────────────────

/// The mathematical form of a `CfgInstruction`.
pub enum CfgOp {
    Declare(Seq<char>),
    Assign(Seq<char>),
    Move(Seq<char>),
    Borrow(Seq<char>, Seq<char>, bool),
    Call(Seq<char>, Seq<Seq<char>>),
    Use(Seq<char>),
    RegionEnter(Seq<char>),
    RegionExit(Seq<char>),
    ReturnRef(Seq<char>),
    Escape(Seq<char>, Seq<char>),
    Unsupported(Seq<char>),
    Return,
    Branch(Seq<char>),
    Nop,
}

pub open spec fn op_of(i: CfgInstruction) -> CfgOp {
    match i {
        CfgInstruction::Declare { name } => CfgOp::Declare(name@),
        CfgInstruction::Assign { name } => CfgOp::Assign(name@),
        CfgInstruction::Move { name } => CfgOp::Move(name@),
        CfgInstruction::Borrow { borrower, place, mutable } => CfgOp::Borrow(borrower@, place@, mutable),
        CfgInstruction::Call { name, args } => CfgOp::Call(name@, string_views(args@)),
        CfgInstruction::Use { name } => CfgOp::Use(name@),
        CfgInstruction::RegionEnter { name } => CfgOp::RegionEnter(name@),
        CfgInstruction::RegionExit { name } => CfgOp::RegionExit(name@),
        CfgInstruction::ReturnRef { place } => CfgOp::ReturnRef(place@),
        CfgInstruction::Escape { from, to } => CfgOp::Escape(from@, to@),
        CfgInstruction::Unsupported { op } => CfgOp::Unsupported(op@),
        CfgInstruction::Return => CfgOp::Return,
        CfgInstruction::Branch { condition } => CfgOp::Branch(condition@),
        CfgInstruction::Nop => CfgOp::Nop,
    }
}

pub open spec fn ops_of(s: Seq<CfgInstruction>) -> Seq<CfgOp> {
    Seq::new(s.len(), |k: int| op_of(s[k]))
}

// ─── What a value reads ─────────────────────────────────────────────

/// The variable a value names, through any borrows of it.
pub open spec fn var_name(v: TypedIRValue) -> Option<Seq<char>>
    decreases v,
{
    match v {
        TypedIRValue::Variable(n, _) => Some(n@),
        TypedIRValue::Borrow { expr, .. } => var_name(*expr),
        TypedIRValue::MutBorrow { expr, .. } => var_name(*expr),
        _ => None,
    }
}

/// The variables a value reads: the one it names, if any.
pub open spec fn vars_in(v: TypedIRValue) -> Seq<Seq<char>> {
    match var_name(v) {
        Some(n) => seq![n],
        None => Seq::empty(),
    }
}

/// The place a borrow borrows, and whether mutably.
pub open spec fn borrow_of(v: TypedIRValue) -> Option<(Seq<char>, bool)> {
    match v {
        TypedIRValue::Borrow { expr, .. } => match var_name(*expr) {
            Some(p) => Some((p, false)),
            None => None,
        },
        TypedIRValue::MutBorrow { expr, .. } => match var_name(*expr) {
            Some(p) => Some((p, true)),
            None => None,
        },
        _ => None,
    }
}

/// A use of each variable the value reads.
pub open spec fn reads(v: TypedIRValue) -> Seq<CfgOp> {
    Seq::new(vars_in(v).len(), |k: int| CfgOp::Use(vars_in(v)[k]))
}

// ─── Lowering ───────────────────────────────────────────────────────

/// The borrower that stands for a call's borrow of `place` in block `b`.
pub open spec fn call_temp(b: BlockId, place: Seq<char>) -> Seq<char> {
    "__tmp_call_"@ + dec(b as nat) + "_"@ + place
}

pub open spec fn call_arg_ops(a: TypedIRValue, b: BlockId) -> Seq<CfgOp> {
    match borrow_of(a) {
        Some((p, m)) => seq![CfgOp::Borrow(call_temp(b, p), p, m)],
        None => reads(a),
    }
}

pub open spec fn call_args_ops(args: Seq<TypedIRValue>, b: BlockId) -> Seq<CfgOp>
    decreases args.len(),
{
    if args.len() == 0 {
        Seq::empty()
    } else {
        call_args_ops(args.drop_last(), b) + call_arg_ops(args.last(), b)
    }
}

/// The variables the arguments name, in order.
pub open spec fn arg_names(args: Seq<TypedIRValue>) -> Seq<Seq<char>>
    decreases args.len(),
{
    if args.len() == 0 {
        Seq::empty()
    } else {
        arg_names(args.drop_last()) + vars_in(args.last())
    }
}

/// Sending a value: each variable it reads is used and escapes to the channel.
pub open spec fn send_ops(v: TypedIRValue) -> Seq<CfgOp> {
    match var_name(v) {
        Some(n) => seq![CfgOp::Use(n), CfgOp::Escape(n, "channel"@)],
        None => Seq::empty(),
    }
}

/// The operations of one instruction in block `b`.
pub open spec fn lower_instr(i: Instruction, b: BlockId) -> Seq<CfgOp> {
    match i {
        Instruction::Declare { name, value, .. } => match borrow_of(value) {
            Some((p, m)) => seq![CfgOp::Declare(name@), CfgOp::Borrow(name@, p, m)],
            None => reads(value).push(CfgOp::Declare(name@)),
        },
        Instruction::Assign { target, value } => match borrow_of(value) {
            Some((p, m)) => seq![CfgOp::Borrow(target@, p, m)],
            None => reads(value).push(CfgOp::Assign(target@)),
        },
        Instruction::ArrayAssign { array, value, .. } => reads(*array) + reads(value) + match var_name(*array) {
            Some(n) => seq![CfgOp::Assign(n)],
            None => seq![CfgOp::Unsupported("ArrayAssign non-var "@ + typed_value_debug(*array))],
        },
        Instruction::RegionEnter { name } => seq![CfgOp::RegionEnter(name@)],
        Instruction::RegionExit { name } => seq![CfgOp::RegionExit(name@)],
        Instruction::Allocate { target, .. } => seq![CfgOp::Declare(target@)],
        Instruction::Free { ptr } => match var_name(ptr) {
            Some(n) => seq![CfgOp::Use(n), CfgOp::Move(n)],
            None => seq![CfgOp::Unsupported("Free non-var "@ + typed_value_debug(ptr))],
        },
        Instruction::Call { func, args, result } => call_args_ops(args@, b) + match result {
            Some(r) => seq![CfgOp::Declare(r@)],
            None => Seq::empty(),
        } + seq![CfgOp::Call(func@, arg_names(args@))],
        Instruction::Send { channel, value } => send_ops(value).push(CfgOp::Use(channel@)),
        Instruction::ChannelSend { channel, value } => send_ops(value).push(CfgOp::Use(channel@)),
        Instruction::IteratorInit { iterator, iterable } => reads(iterable).push(CfgOp::Declare(iterator@)),
        Instruction::ChannelDecl { name, .. } => seq![CfgOp::Declare(name@)],
        Instruction::Receive { channel, target } => seq![CfgOp::Use(channel@), CfgOp::Declare(target@)],
        Instruction::ChannelReceive { channel, target } => seq![CfgOp::Use(channel@), CfgOp::Declare(target@)],
        Instruction::Print { value } => reads(value),
        Instruction::Nop => seq![CfgOp::Nop],
    }
}

pub open spec fn lower_instrs(is: Seq<Instruction>, b: BlockId) -> Seq<CfgOp>
    decreases is.len(),
{
    if is.len() == 0 {
        Seq::empty()
    } else {
        lower_instrs(is.drop_last(), b) + lower_instr(is.last(), b)
    }
}

/// What a block's terminator reads.
pub open spec fn lower_term(t: Option<Terminator>) -> Seq<CfgOp> {
    match t {
        Some(Terminator::Return { value: Some(v), .. }) => match borrow_of(v) {
            Some((p, _)) => seq![CfgOp::ReturnRef(p)],
            None => reads(v),
        },
        Some(Terminator::Branch { condition, .. }) => reads(condition),
        Some(Terminator::Switch { value, .. }) => reads(value),
        _ => Seq::empty(),
    }
}

/// The operations of a block: its instructions', then its terminator's.
pub open spec fn lower_block(sb: SemanticBlock) -> Seq<CfgOp> {
    lower_instrs(sb.instructions@, sb.id) + lower_term(sb.terminator)
}

/// The edges of a function's blocks, in order.
pub open spec fn edges_of(bs: Seq<SemanticBlock>) -> Seq<(BlockId, BlockId)>
    decreases bs.len(),
{
    if bs.len() == 0 {
        Seq::empty()
    } else {
        edges_of(bs.drop_last()) + Seq::new(block_succs(bs.last()).len(), |k: int| (bs.last().id, block_succs(bs.last())[k]))
    }
}

/// Block `bs[j]` is the last of `bs` with its id.
pub open spec fn last_with_id(bs: Seq<SemanticBlock>, j: int) -> bool {
    forall|k: int| j < k < bs.len() ==> #[trigger] bs[k].id != bs[j].id
}

/// The graph of function `f`.
pub open spec fn lowered_function(f: SemanticFunction, fc: FunctionCfg) -> bool {
    let bs = f.blocks@;
    let es = edges_of(bs);
    &&& fc.name@ == f.name@
    &&& string_views(fc.params@) == Seq::new(f.params@.len(), |k: int| f.params@[k].0@)
    &&& fc.cfg.entry == f.entry_block
    &&& forall|id: BlockId| #[trigger] fc.cfg.blocks@.contains_key(id) <==> exists|j: int| 0 <= j < bs.len() && bs[j].id == id
    &&& forall|j: int| 0 <= j < bs.len() && #[trigger] last_with_id(bs, j) ==> {
        &&& fc.cfg.blocks@[bs[j].id].id == bs[j].id
        &&& ops_of(fc.cfg.blocks@[bs[j].id].instructions@) == lower_block(bs[j])
    }
    &&& edges_agree(fc.cfg)
    &&& forall|x: BlockId| #[trigger] succs_of(fc.cfg, x) == es.filter(|e: (BlockId, BlockId)| e.0 == x).map_values(|e: (BlockId, BlockId)| e.1)
    &&& forall|x: BlockId| #[trigger] preds_of(fc.cfg, x) == es.filter(|e: (BlockId, BlockId)| e.1 == x).map_values(|e: (BlockId, BlockId)| e.0)
}

// ─── The lowering ───────────────────────────────────────────────────

proof fn lemma_push_op(v: Seq<CfgInstruction>, i: CfgInstruction)
    ensures
        ops_of(v.push(i)) == ops_of(v).push(op_of(i)),
{
    assert(ops_of(v.push(i)) =~= ops_of(v).push(op_of(i)));
}

/// `a` followed by `x`.
fn concat(a: &str, x: &String) -> (r: String)
    ensures
        r@ == a@ + x@,
{
    let mut s = a.to_string();
    s.append(x.as_str());
    s
}

/// The variable a value names, through any borrows of it.
fn extract_var_name(v: &TypedIRValue) -> (r: Option<String>)
    ensures
        match r {
            Some(n) => var_name(*v) == Some(n@),
            None => var_name(*v) is None,
        },
    decreases v,
{
    match v {
        TypedIRValue::Variable(name, _) => Some(name.clone()),
        TypedIRValue::Borrow { expr, .. } => extract_var_name(expr),
        TypedIRValue::MutBorrow { expr, .. } => extract_var_name(expr),
        _ => None,
    }
}

/// The place a borrow borrows, and whether mutably.
fn is_borrow(v: &TypedIRValue) -> (r: Option<(String, bool)>)
    ensures
        match r {
            Some((p, m)) => borrow_of(*v) == Some((p@, m)),
            None => borrow_of(*v) is None,
        },
{
    match v {
        TypedIRValue::Borrow { expr, .. } => match extract_var_name(expr) {
            Some(p) => Some((p, false)),
            None => None,
        },
        TypedIRValue::MutBorrow { expr, .. } => match extract_var_name(expr) {
            Some(p) => Some((p, true)),
            None => None,
        },
        _ => None,
    }
}

/// Appends a use of each variable `v` reads.
fn push_reads(out: &mut Vec<CfgInstruction>, v: &TypedIRValue)
    ensures
        ops_of(final(out)@) == ops_of(old(out)@) + reads(*v),
{
    let ghost o0 = out@;
    match extract_var_name(v) {
        Some(n) => {
            out.push(CfgInstruction::Use { name: n });
            proof {
                lemma_push_op(o0, out@.last());
                assert(ops_of(out@) =~= ops_of(o0) + reads(*v));
            }
        },
        None => {
            assert(ops_of(out@) =~= ops_of(o0) + reads(*v));
        },
    }
}

/// Appends `i` to `out`.
fn emit(out: &mut Vec<CfgInstruction>, i: CfgInstruction)
    ensures
        ops_of(final(out)@) == ops_of(old(out)@).push(op_of(i)),
{
    let ghost o0 = out@;
    out.push(i);
    proof {
        lemma_push_op(o0, i);
    }
}

/// Appends the operations of a call's arguments, and returns the
/// variables they name.
fn lower_call_args(args: &Vec<TypedIRValue>, b: BlockId, out: &mut Vec<CfgInstruction>) -> (names: Vec<String>)
    ensures
        ops_of(final(out)@) == ops_of(old(out)@) + call_args_ops(args@, b),
        string_views(names@) == arg_names(args@),
{
    let ghost o0 = out@;
    let mut names: Vec<String> = Vec::new();
    let mut i: usize = 0;
    assert(ops_of(out@) =~= ops_of(o0) + call_args_ops(args@.take(0), b));
    assert(string_views(names@) =~= arg_names(args@.take(0)));
    while i < args.len()
        invariant
            0 <= i <= args@.len(),
            ops_of(out@) == ops_of(o0) + call_args_ops(args@.take(i as int), b),
            string_views(names@) == arg_names(args@.take(i as int)),
        decreases args@.len() - i,
    {
        let a = &args[i];
        let ghost o1 = out@;
        proof {
            assert(args@.take(i + 1).drop_last() =~= args@.take(i as int));
            assert(args@.take(i + 1).last() == *a);
        }
        match is_borrow(a) {
            Some((place, mutable)) => {
                let d = decimal(b);
                let borrower = text4("__tmp_call_", &d, "_", &place);
                emit(out, CfgInstruction::Borrow { borrower, place, mutable });
                assert(ops_of(out@) =~= ops_of(o1) + call_arg_ops(*a, b));
            },
            None => {
                push_reads(out, a);
            },
        }
        let ghost n0 = names@;
        match extract_var_name(a) {
            Some(n) => {
                names.push(n);
                assert(string_views(names@) =~= string_views(n0) + vars_in(*a));
            },
            None => {
                assert(string_views(names@) =~= string_views(n0) + vars_in(*a));
            },
        }
        i = i + 1;
    }
    assert(args@.take(args@.len() as int) =~= args@);
    names
}

/// Appends the operations of instruction `instr` of block `b`.
#[verifier::rlimit(40)]
fn lower_instruction(instr: &Instruction, b: BlockId, out: &mut Vec<CfgInstruction>)
    ensures
        ops_of(final(out)@) == ops_of(old(out)@) + lower_instr(*instr, b),
{
    let ghost o0 = out@;
    match instr {
        Instruction::Declare { name, value, .. } => {
            match is_borrow(value) {
                Some((place, mutable)) => {
                    emit(out, CfgInstruction::Declare { name: name.clone() });
                    emit(out, CfgInstruction::Borrow { borrower: name.clone(), place, mutable });
                },
                None => {
                    push_reads(out, value);
                    emit(out, CfgInstruction::Declare { name: name.clone() });
                },
            }
        },
        Instruction::Assign { target, value } => {
            match is_borrow(value) {
                Some((place, mutable)) => {
                    emit(out, CfgInstruction::Borrow { borrower: target.clone(), place, mutable });
                },
                None => {
                    push_reads(out, value);
                    emit(out, CfgInstruction::Assign { name: target.clone() });
                },
            }
        },
        Instruction::ArrayAssign { array, value, .. } => {
            push_reads(out, array);
            push_reads(out, value);
            match extract_var_name(array) {
                Some(n) => emit(out, CfgInstruction::Assign { name: n }),
                None => {
                    let text = concat("ArrayAssign non-var ", &value_text(array));
                    emit(out, CfgInstruction::Unsupported { op: text });
                },
            }
        },
        Instruction::RegionEnter { name } => emit(out, CfgInstruction::RegionEnter { name: name.clone() }),
        Instruction::RegionExit { name } => emit(out, CfgInstruction::RegionExit { name: name.clone() }),
        Instruction::Allocate { target, .. } => emit(out, CfgInstruction::Declare { name: target.clone() }),
        Instruction::Free { ptr } => {
            match extract_var_name(ptr) {
                Some(n) => {
                    emit(out, CfgInstruction::Use { name: n.clone() });
                    emit(out, CfgInstruction::Move { name: n });
                },
                None => {
                    let text = concat("Free non-var ", &value_text(ptr));
                    emit(out, CfgInstruction::Unsupported { op: text });
                },
            }
        },
        Instruction::Call { func, args, result } => {
            let names = lower_call_args(args, b, out);
            match result {
                Some(r) => emit(out, CfgInstruction::Declare { name: r.clone() }),
                None => {},
            }
            emit(out, CfgInstruction::Call { name: func.clone(), args: names });
        },
        Instruction::Send { channel, value } | Instruction::ChannelSend { channel, value } => {
            match extract_var_name(value) {
                Some(n) => {
                    emit(out, CfgInstruction::Use { name: n.clone() });
                    emit(out, CfgInstruction::Escape { from: n, to: "channel".to_string() });
                },
                None => {},
            }
            emit(out, CfgInstruction::Use { name: channel.clone() });
        },
        Instruction::IteratorInit { iterator, iterable } => {
            push_reads(out, iterable);
            emit(out, CfgInstruction::Declare { name: iterator.clone() });
        },
        Instruction::ChannelDecl { name, .. } => emit(out, CfgInstruction::Declare { name: name.clone() }),
        Instruction::Receive { channel, target } | Instruction::ChannelReceive { channel, target } => {
            emit(out, CfgInstruction::Use { name: channel.clone() });
            emit(out, CfgInstruction::Declare { name: target.clone() });
        },
        Instruction::Print { value } => push_reads(out, value),
        Instruction::Nop => emit(out, CfgInstruction::Nop),
    }
    proof {
        reveal_strlit("channel");
        assert(ops_of(out@) =~= ops_of(o0) + lower_instr(*instr, b));
    }
}

/// Appends what a terminator reads.
fn lower_terminator(t: &Option<Terminator>, out: &mut Vec<CfgInstruction>)
    ensures
        ops_of(final(out)@) == ops_of(old(out)@) + lower_term(*t),
{
    let ghost o0 = out@;
    match t {
        Some(Terminator::Return { value: Some(v), .. }) => {
            match is_borrow(v) {
                Some((place, _)) => emit(out, CfgInstruction::ReturnRef { place }),
                None => push_reads(out, v),
            }
        },
        Some(Terminator::Branch { condition, .. }) => push_reads(out, condition),
        Some(Terminator::Switch { value, .. }) => push_reads(out, value),
        _ => {},
    }
    assert(ops_of(out@) =~= ops_of(o0) + lower_term(*t));
}

/// The analysis block of a semantic block.
fn lower_semantic_block(sb: &SemanticBlock) -> (r: CfgBlock)
    ensures
        r.id == sb.id,
        ops_of(r.instructions@) == lower_block(*sb),
{
    let mut out: Vec<CfgInstruction> = Vec::new();
    let mut i: usize = 0;
    assert(ops_of(out@) =~= lower_instrs(sb.instructions@.take(0), sb.id));
    while i < sb.instructions.len()
        invariant
            0 <= i <= sb.instructions@.len(),
            ops_of(out@) == lower_instrs(sb.instructions@.take(i as int), sb.id),
        decreases sb.instructions@.len() - i,
    {
        proof {
            assert(sb.instructions@.take(i + 1).drop_last() =~= sb.instructions@.take(i as int));
            assert(sb.instructions@.take(i + 1).last() == sb.instructions@[i as int]);
        }
        lower_instruction(&sb.instructions[i], sb.id, &mut out);
        i = i + 1;
    }
    assert(sb.instructions@.take(sb.instructions@.len() as int) =~= sb.instructions@);
    lower_terminator(&sb.terminator, &mut out);
    CfgBlock { id: sb.id, instructions: out }
}

/// The analysis graph of one function.
#[verifier::rlimit(60)]
#[verifier::spinoff_prover]
fn lower_function(f: &SemanticFunction) -> (fc: FunctionCfg)
    ensures
        lowered_function(*f, fc),
{
    let ghost bs = f.blocks@;
    let mut cfg = Cfg::new(f.entry_block);
    let mut i: usize = 0;
    while i < f.blocks.len()
        invariant
            0 <= i <= bs.len(),
            bs == f.blocks@,
            cfg.entry == f.entry_block,
            forall|id: BlockId| #[trigger] cfg.blocks@.contains_key(id) <==> exists|j: int| 0 <= j < i && bs[j].id == id,
            forall|j: int| 0 <= j < i && #[trigger] last_with_id(bs.take(i as int), j) ==> {
                &&& cfg.blocks@[bs[j].id].id == bs[j].id
                &&& ops_of(cfg.blocks@[bs[j].id].instructions@) == lower_block(bs[j])
            },
            edges_agree(cfg),
            forall|x: BlockId| #[trigger] succs_of(cfg, x) == Seq::<BlockId>::empty(),
            forall|x: BlockId| #[trigger] preds_of(cfg, x) == Seq::<BlockId>::empty(),
        decreases bs.len() - i,
    {
        let blk = lower_semantic_block(&f.blocks[i]);
        cfg.add_block(blk);
        proof {
            let t1 = bs.take(i + 1);
            assert forall|id: BlockId| #[trigger] cfg.blocks@.contains_key(id) <==> exists|j: int| 0 <= j < i + 1 && bs[j].id == id by {
                if id == bs[i as int].id {
                    assert(0 <= i < i + 1 && bs[i as int].id == id);
                }
            }
            assert forall|j: int| 0 <= j < i + 1 && #[trigger] last_with_id(t1, j) implies {
                &&& cfg.blocks@[bs[j].id].id == bs[j].id
                &&& ops_of(cfg.blocks@[bs[j].id].instructions@) == lower_block(bs[j])
            } by {
                if j < i {
                    assert(t1[i as int].id != t1[j].id);
                    assert(last_with_id(bs.take(i as int), j)) by {
                        assert forall|k: int| j < k < bs.take(i as int).len() implies #[trigger] bs.take(i as int)[k].id != bs.take(i as int)[j].id by {
                            assert(t1[k].id != t1[j].id);
                        }
                    }
                }
            }
        }
        i = i + 1;
    }
    assert(bs.take(bs.len() as int) =~= bs);
    let mut edges: Vec<(BlockId, BlockId)> = Vec::new();
    let mut i: usize = 0;
    assert(edges@ =~= edges_of(bs.take(0)));
    while i < f.blocks.len()
        invariant
            0 <= i <= bs.len(),
            bs == f.blocks@,
            edges@ == edges_of(bs.take(i as int)),
        decreases bs.len() - i,
    {
        let sb = &f.blocks[i];
        let targets = sb.successors();
        let ghost e0 = edges@;
        let mut k: usize = 0;
        while k < targets.len()
            invariant
                0 <= k <= targets@.len(),
                targets@ == block_succs(*sb),
                edges@ == e0 + Seq::new(k as nat, |m: int| (sb.id, targets@[m])),
            decreases targets@.len() - k,
        {
            edges.push((sb.id, targets[k]));
            k = k + 1;
            assert(edges@ =~= e0 + Seq::new(k as nat, |m: int| (sb.id, targets@[m])));
        }
        proof {
            assert(bs.take(i + 1).drop_last() =~= bs.take(i as int));
            assert(bs.take(i + 1).last() == *sb);
            assert(edges@ =~= edges_of(bs.take(i + 1)));
        }
        i = i + 1;
    }
    add_edges(&mut cfg, edges.as_slice());
    let mut params: Vec<String> = Vec::new();
    let mut i: usize = 0;
    while i < f.params.len()
        invariant
            0 <= i <= f.params@.len(),
            string_views(params@) == Seq::new(i as nat, |k: int| f.params@[k].0@),
        decreases f.params@.len() - i,
    {
        let ghost p0 = params@;
        let name = f.params[i].0.clone();
        params.push(name);
        proof {
            assert(string_views(params@) =~= string_views(p0).push(f.params@[i as int].0@));
            assert(Seq::new((i + 1) as nat, |k: int| f.params@[k].0@) =~= Seq::new(i as nat, |k: int| f.params@[k].0@).push(f.params@[i as int].0@));
        }
        i = i + 1;
    }
    FunctionCfg { name: f.name.clone(), cfg, params }
}

/// The functions of `fs` that are not extern, in order.
pub open spec fn non_extern(fs: Seq<SemanticFunction>) -> Seq<SemanticFunction> {
    fs.filter(|f: SemanticFunction| !f.is_extern)
}

/// One analysis graph per non-extern function of the program, in order.
pub fn build_cfgs_from_semantic_program(program: &SemanticProgram) -> (r: Vec<FunctionCfg>)
    ensures
        r@.len() == non_extern(program.functions@).len(),
        forall|i: int| 0 <= i < r@.len() ==> #[trigger] lowered_function(non_extern(program.functions@)[i], r@[i]),
{
    let ghost fs = program.functions@;
    let ghost keep = |f: SemanticFunction| !f.is_extern;
    let mut out: Vec<FunctionCfg> = Vec::new();
    let mut i: usize = 0;
    proof {
        reveal(Seq::filter);
        assert(non_extern(fs.take(0)) =~= Seq::<SemanticFunction>::empty());
    }
    while i < program.functions.len()
        invariant
            0 <= i <= fs.len(),
            fs == program.functions@,
            keep == (|f: SemanticFunction| !f.is_extern),
            out@.len() == non_extern(fs.take(i as int)).len(),
            forall|k: int| 0 <= k < out@.len() ==> #[trigger] lowered_function(non_extern(fs.take(i as int))[k], out@[k]),
        decreases fs.len() - i,
    {
        let f = &program.functions[i];
        proof {
            lemma_filter_step(fs, keep, i as int);
        }
        if !f.is_extern {
            let fc = lower_function(f);
            out.push(fc);
        }
        i = i + 1;
    }
    assert(fs.take(fs.len() as int) =~= fs);
    out
}

} // verus!
