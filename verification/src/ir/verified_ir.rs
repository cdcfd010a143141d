//! A program that has passed verification. A `VerifiedIR` exists only
//! for a program the verifier accepts, so code that takes one needs no
//! check of its own.

use vstd::prelude::*;
use crate::common::text::{dec, decimal};
use crate::ir::semantic_ir::program::{SemanticFunction, SemanticProgram};
use crate::ir::semantic_verifier::VerifyError;
use crate::ir::semantic_verifier::rules::VErr;
use crate::ir::semantic_verifier::walk::{verify, program_check};

verus! {

/// The verifier accepts `p`.
pub open spec fn accepted(p: SemanticProgram) -> bool {
    program_check(p) == Ok::<(), VErr>(())
}

/// How many blocks the functions hold.
pub open spec fn total_blocks(fs: Seq<SemanticFunction>) -> nat
    decreases fs.len(),
{
    if fs.len() == 0 { 0 } else { total_blocks(fs.drop_last()) + fs.last().blocks@.len() }
}

pub struct VerifiedIR {
    program: SemanticProgram,
}

/// What back ends take.
pub type BackendInput = VerifiedIR;

impl VerifiedIR {
    #[verifier::type_invariant]
    spec fn passed(&self) -> bool {
        accepted(self.program)
    }

    /// The program held.
    pub closed spec fn prog(&self) -> SemanticProgram {
        self.program
    }

    /// Verifies `program`, and holds it if it passes.
    pub fn new(program: SemanticProgram) -> (r: Result<VerifiedIR, VerifyError>)
        ensures
            match r {
                Ok(v) => v.prog() == program && accepted(program),
                Err(e) => program_check(program) == Err::<(), VErr>(e@),
            },
    {
        match verify(&program) {
            Ok(()) => Ok(VerifiedIR { program }),
            Err(e) => Err(e),
        }
    }

    /// The program held, which the verifier accepts.
    pub fn program(&self) -> (r: &SemanticProgram)
        ensures
            *r == self.prog(),
            accepted(*r),
    {
        proof { use_type_invariant(self); }
        &self.program
    }

    /// The program held; it is no longer known to stay verified.
    pub fn into_program(self) -> (r: SemanticProgram)
        ensures
            r == self.prog(),
            accepted(r),
    {
        proof { use_type_invariant(&self); }
        self.program
    }

    /// Runs the verifier again; a held program always passes.
    pub fn verify(&self) -> (r: Result<(), VerifyError>)
        ensures
            r is Ok,
    {
        proof { use_type_invariant(self); }
        verify(&self.program)
    }

    pub fn function_count(&self) -> (r: usize)
        ensures
            r == self.prog().functions@.len(),
    {
        self.program.functions.len()
    }

    /// The number of blocks over all functions.
    pub fn block_count(&self) -> (r: usize)
        requires
            total_blocks(self.prog().functions@) <= usize::MAX,
        ensures
            r == total_blocks(self.prog().functions@),
    {
        let fs = &self.program.functions;
        let mut n: usize = 0;
        let mut i: usize = 0;
        while i < fs.len()
            invariant
                0 <= i <= fs@.len(),
                *fs == self.prog().functions,
                total_blocks(fs@) <= usize::MAX,
                n == total_blocks(fs@.take(i as int)),
            decreases fs@.len() - i,
        {
            proof {
                assert(fs@.take(i + 1).drop_last() =~= fs@.take(i as int));
                lemma_total_prefix(fs@, i + 1);
            }
            n = n + fs[i].blocks.len();
            i = i + 1;
        }
        assert(fs@.take(fs@.len() as int) =~= fs@);
        n
    }

    /// `VerifiedIR(functions: {f}, blocks: {b})`.
    pub fn to_string(&self) -> (r: String)
        requires
            total_blocks(self.prog().functions@) <= usize::MAX,
        ensures
            r@ == "VerifiedIR(functions: "@ + dec(self.prog().functions@.len()) + ", blocks: "@
                + dec(total_blocks(self.prog().functions@)) + ")"@,
    {
        let mut s = "VerifiedIR(functions: ".to_string();
        s.append(decimal(self.function_count()).as_str());
        s.append(", blocks: ");
        s.append(decimal(self.block_count()).as_str());
        s.append(")");
        s
    }
}

proof fn lemma_total_prefix(fs: Seq<SemanticFunction>, i: int)
    requires
        0 <= i <= fs.len(),
    ensures
        total_blocks(fs.take(i)) <= total_blocks(fs),
    decreases fs.len() - i,
{
    if i < fs.len() {
        lemma_total_prefix(fs, i + 1);
        assert(fs.take(i + 1).drop_last() =~= fs.take(i));
    } else {
        assert(fs.take(i) =~= fs);
    }
}

} // verus!
