//! What the ownership analysis promises of moves out of borrowed places.

use vstd::prelude::*;
use super::dataflow::{BlockId, CfgInstruction, step, err, use_findings};
use super::state::{StateModel, BorrowKind, OwnershipState, InitState};

verus! {

/// The finding for a move of `name` while it is borrowed.
pub open spec fn move_while_borrowed(name: Seq<char>, b: BlockId) -> (Seq<char>, BlockId, bool) {
    err("E-MOVE-002: Cannot move '"@ + name + "' while borrowed"@, b)
}

/// Moving a variable while any borrow of it is recorded, shared or
/// mutable, is reported first among the move's findings; with no borrow
/// of it recorded, that finding is not made.
pub proof fn lemma_move_of_borrowed(m: StateModel, name: String, b: BlockId)
    ensures
        (exists|k: int| 0 <= k < m.borrows.len() && #[trigger] m.borrows[k].place == name@) ==> {
            let d = step(m, CfgInstruction::Move { name }, b).1;
            d.len() > 0 && d[0] == move_while_borrowed(name@, b)
        },
        (forall|k: int| 0 <= k < m.borrows.len() ==> #[trigger] m.borrows[k].place != name@) ==> {
            let d = step(m, CfgInstruction::Move { name }, b).1;
            forall|j: int| 0 <= j < d.len() ==> d[j] != move_while_borrowed(name@, b)
        },
{
    let d = step(m, CfgInstruction::Move { name }, b).1;
    if forall|k: int| 0 <= k < m.borrows.len() ==> #[trigger] m.borrows[k].place != name@ {
        assert forall|j: int| 0 <= j < d.len() implies d[j] != move_while_borrowed(name@, b) by {
            reveal_strlit("E-MOVE-002: Cannot move '");
            reveal_strlit("E-MOVE-002: Cannot assign to moved variable '");
            reveal_strlit("E-MOVE-002: Cannot assign to maybe-moved variable '");
            reveal_strlit("E-INIT-001: Cannot assign to uninitialized variable '");
            let x = move_while_borrowed(name@, b).0;
            assert(x[12] == 'C' && x[19] == 'm');
            let y = d[j].0;
            assert(y[19] != 'm' || y[7] != '0' || y[9] != '2' || y[18] != ' ' || y[2] != 'M');
        }
    }
}

/// Borrowing a place, shared or mutably, and then moving it is reported:
/// whatever the state before, the move's first finding is that the place
/// is borrowed.
pub proof fn lemma_borrow_then_move(m: StateModel, borrower: String, place: String, mutable: bool, name: String, b: BlockId)
    requires
        name@ == place@,
    ensures
        ({
            let m1 = step(m, CfgInstruction::Borrow { borrower, place, mutable }, b).0;
            let d = step(m1, CfgInstruction::Move { name }, b).1;
            d.len() > 0 && d[0] == move_while_borrowed(place@, b)
        }),
{
    let m1 = step(m, CfgInstruction::Borrow { borrower, place, mutable }, b).0;
    let k = m1.borrows.len() - 1;
    assert(m1.borrows[k].place == name@);
    lemma_move_of_borrowed(m1, name, b);
}

/// After a declared variable is moved, using it is reported as a use of
/// a moved value.
pub proof fn lemma_use_after_move(m: StateModel, name: String, user: String, b: BlockId)
    requires
        m.vars.contains_key(name@),
        user@ == name@,
    ensures
        ({
            let m1 = step(m, CfgInstruction::Move { name }, b).0;
            step(m1, CfgInstruction::Use { name: user }, b).1.contains(err("E-MOVE-001: Use of moved '"@ + name@ + "'"@, b))
        }),
{
    let m1 = step(m, CfgInstruction::Move { name }, b).0;
    assert(m1.vars[name@].ownership == OwnershipState::Moved);
    let d = step(m1, CfgInstruction::Use { name: user }, b).1;
    let e = err("E-MOVE-001: Use of moved '"@ + name@ + "'"@, b);
    if m1.vars[name@].init == InitState::Uninitialized || m1.vars[name@].init == InitState::MaybeUninitialized {
        assert(d[1] == e);
    } else {
        assert(d[0] == e);
    }
}

/// While a mutable borrow of a place is recorded, using it or assigning
/// to it is reported; a mutable borrow makes that so whatever the state
/// before it.
pub proof fn lemma_mutable_borrow_blocks(m: StateModel, borrower: String, place: String, name: String, b: BlockId)
    requires
        name@ == place@,
    ensures
        ({
            let m1 = step(m, CfgInstruction::Borrow { borrower, place, mutable: true }, b).0;
            &&& step(m1, CfgInstruction::Use { name }, b).1.contains(
                err("E-BORROW-004: Cannot use '"@ + name@ + "' while mutably borrowed"@, b))
            &&& step(m1, CfgInstruction::Assign { name }, b).1.len() > 0
            &&& step(m1, CfgInstruction::Assign { name }, b).1[0]
                == err("E-BORROW-004: Cannot assign to '"@ + name@ + "' while mutably borrowed"@, b)
        }),
{
    let m1 = step(m, CfgInstruction::Borrow { borrower, place, mutable: true }, b).0;
    let k = m1.borrows.len() - 1;
    assert(m1.borrows[k].place == name@ && m1.borrows[k].kind == BorrowKind::Mutable);
    let d = step(m1, CfgInstruction::Use { name }, b).1;
    let d1 = if m1.vars.contains_key(name@) { use_findings(m1.vars[name@], name@, b) } else { Seq::empty() };
    assert(d[d1.len() as int] == err("E-BORROW-004: Cannot use '"@ + name@ + "' while mutably borrowed"@, b));
}

} // verus!
