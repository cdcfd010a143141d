//! Signatures of the functions the language provides.

use vstd::prelude::*;
use crate::common::types::{Type, Ty};
use super::{FunctionSignature, sig_entries, sig_model};

verus! {

/// The built-in functions: name, parameter types, return type.
pub open spec fn builtin_table() -> Seq<(Seq<char>, (Seq<Ty>, Ty))> {
    seq![
        ("Math.sqrt"@, (seq![Ty::Float], Ty::Float)),
        ("Math.sin"@, (seq![Ty::Float], Ty::Float)),
        ("Math.cos"@, (seq![Ty::Float], Ty::Float)),
        ("Math.tan"@, (seq![Ty::Float], Ty::Float)),
        ("Math.abs"@, (seq![Ty::Float], Ty::Float)),
        ("Math.floor"@, (seq![Ty::Float], Ty::Float)),
        ("Math.ceil"@, (seq![Ty::Float], Ty::Float)),
        ("Math.exp"@, (seq![Ty::Float], Ty::Float)),
        ("Math.log"@, (seq![Ty::Float], Ty::Float)),
        ("Math.pow"@, (seq![Ty::Float, Ty::Float], Ty::Float)),
        ("String.length"@, (seq![Ty::Str], Ty::Int)),
        ("String.concat"@, (seq![Ty::Str, Ty::Str], Ty::Str)),
        ("String.substring"@, (seq![Ty::Str, Ty::Int, Ty::Int], Ty::Str)),
        ("String.to_upper"@, (seq![Ty::Str], Ty::Str)),
        ("String.to_lower"@, (seq![Ty::Str], Ty::Str)),
        ("File.read"@, (seq![Ty::Str], Ty::Str)),
        ("File.write"@, (seq![Ty::Str, Ty::Str], Ty::Int)),
        ("File.append"@, (seq![Ty::Str, Ty::Str], Ty::Int)),
        ("List.length"@, (seq![Ty::List(Box::new(Ty::Unknown))], Ty::Int)),
        ("List.sum"@, (seq![Ty::List(Box::new(Ty::Unknown))], Ty::Float)),
        ("List.max"@, (seq![Ty::List(Box::new(Ty::Unknown))], Ty::Float)),
        ("List.min"@, (seq![Ty::List(Box::new(Ty::Unknown))], Ty::Float)),
        ("alloc"@, (seq![Ty::Int], Ty::Pointer(Box::new(Ty::Unknown)))),
        ("free"@, (seq![Ty::Pointer(Box::new(Ty::Unknown))], Ty::Void))
    ]
}

fn reg1(m: &mut Vec<(String, FunctionSignature)>, name: &str, p1: &str, t1: Type, ret: Type)
    ensures
        sig_entries(final(m)@) == sig_entries(old(m)@).push((name@, (seq![t1@], ret@))),
{
    let ghost e = (name@, (seq![t1@], ret@));
    let sig = FunctionSignature { params: vec![(p1.to_string(), t1)], return_type: ret };
    assert(sig_model(sig) == (seq![t1@], ret@)) by {
        assert(Seq::new(sig.params@.len(), |i: int| sig.params@[i].1@) =~= seq![t1@]);
    }
    m.push((name.to_string(), sig));
    assert(sig_entries(m@) =~= sig_entries(old(m)@).push(e));
}

fn reg2(m: &mut Vec<(String, FunctionSignature)>, name: &str, p1: &str, t1: Type, p2: &str, t2: Type, ret: Type)
    ensures
        sig_entries(final(m)@) == sig_entries(old(m)@).push((name@, (seq![t1@, t2@], ret@))),
{
    let ghost e = (name@, (seq![t1@, t2@], ret@));
    let sig = FunctionSignature { params: vec![(p1.to_string(), t1), (p2.to_string(), t2)], return_type: ret };
    assert(sig_model(sig) == (seq![t1@, t2@], ret@)) by {
        assert(Seq::new(sig.params@.len(), |i: int| sig.params@[i].1@) =~= seq![t1@, t2@]);
    }
    m.push((name.to_string(), sig));
    assert(sig_entries(m@) =~= sig_entries(old(m)@).push(e));
}

fn reg3(m: &mut Vec<(String, FunctionSignature)>, name: &str, p1: &str, t1: Type, p2: &str, t2: Type, p3: &str, t3: Type, ret: Type)
    ensures
        sig_entries(final(m)@) == sig_entries(old(m)@).push((name@, (seq![t1@, t2@, t3@], ret@))),
{
    let ghost e = (name@, (seq![t1@, t2@, t3@], ret@));
    let sig = FunctionSignature { params: vec![(p1.to_string(), t1), (p2.to_string(), t2), (p3.to_string(), t3)], return_type: ret };
    assert(sig_model(sig) == (seq![t1@, t2@, t3@], ret@)) by {
        assert(Seq::new(sig.params@.len(), |i: int| sig.params@[i].1@) =~= seq![t1@, t2@, t3@]);
    }
    m.push((name.to_string(), sig));
    assert(sig_entries(m@) =~= sig_entries(old(m)@).push(e));
}

/// The signatures of the built-in functions, in `builtin_table` order.
pub fn builtin_signatures() -> (r: Vec<(String, FunctionSignature)>)
    ensures
        sig_entries(r@) == builtin_table(),
{
    let mut m: Vec<(String, FunctionSignature)> = Vec::new();
    assert(sig_entries(m@) =~= Seq::<(Seq<char>, (Seq<Ty>, Ty))>::empty());
    reg1(&mut m, "Math.sqrt", "x", Type::Float, Type::Float);
    reg1(&mut m, "Math.sin", "x", Type::Float, Type::Float);
    reg1(&mut m, "Math.cos", "x", Type::Float, Type::Float);
    reg1(&mut m, "Math.tan", "x", Type::Float, Type::Float);
    reg1(&mut m, "Math.abs", "x", Type::Float, Type::Float);
    reg1(&mut m, "Math.floor", "x", Type::Float, Type::Float);
    reg1(&mut m, "Math.ceil", "x", Type::Float, Type::Float);
    reg1(&mut m, "Math.exp", "x", Type::Float, Type::Float);
    reg1(&mut m, "Math.log", "x", Type::Float, Type::Float);
    reg2(&mut m, "Math.pow", "x", Type::Float, "y", Type::Float, Type::Float);
    reg1(&mut m, "String.length", "s", Type::String, Type::Int);
    reg2(&mut m, "String.concat", "s1", Type::String, "s2", Type::String, Type::String);
    reg3(&mut m, "String.substring", "s", Type::String, "start", Type::Int, "length", Type::Int, Type::String);
    reg1(&mut m, "String.to_upper", "s", Type::String, Type::String);
    reg1(&mut m, "String.to_lower", "s", Type::String, Type::String);
    reg1(&mut m, "File.read", "path", Type::String, Type::String);
    reg2(&mut m, "File.write", "path", Type::String, "content", Type::String, Type::Int);
    reg2(&mut m, "File.append", "path", Type::String, "content", Type::String, Type::Int);
    reg1(&mut m, "List.length", "arr", Type::list(Type::Unknown), Type::Int);
    reg1(&mut m, "List.sum", "arr", Type::list(Type::Unknown), Type::Float);
    reg1(&mut m, "List.max", "arr", Type::list(Type::Unknown), Type::Float);
    reg1(&mut m, "List.min", "arr", Type::list(Type::Unknown), Type::Float);
    reg1(&mut m, "alloc", "size", Type::Int, Type::pointer(Type::Unknown));
    reg1(&mut m, "free", "ptr", Type::pointer(Type::Unknown), Type::Void);
    assert(sig_entries(m@) =~= builtin_table());
    m
}

} // verus!
