//! The tile spawner: fills one uniformly chosen empty cell with a new
//! tile, of value 1 nine times out of ten and value 2 otherwise.

use vstd::prelude::*;

use crate::board::Board;

verus! {

/// The board has no empty cell left.
pub open spec fn full(b: Seq<u16>) -> bool {
    forall|k: int| 0 <= k < 16 ==> b[k] != 0
}

/// How a spawned board relates to the board it came from: one formerly
/// empty cell now holds a new tile of value 1 or 2, and every other
/// cell is unchanged.
pub open spec fn spawn_rel(b: Seq<u16>, r: Seq<u16>) -> bool {
    exists|k: int|
        0 <= k < 16 && b[k] == 0 && (r[k] == 1 || r[k] == 2) && (forall|m: int|
            0 <= m < 16 && m != k ==> r[m] == b[m])
}

/// Relies on rand::random_range over `0..n`: a sample drawn uniformly
/// from the range by the thread-local generator. The call panics on an
/// empty range, so the bound must be positive; nothing more than the
/// bound can be promised of a random result.
#[verifier::external_body]
fn random_below(n: usize) -> (r: usize)
    requires
        n > 0,
    ensures
        r < n,
{
    rand::random_range(0..n)
}

/// Randomly place a new tile on an empty cell, uniformly chosen, or
/// return the board unchanged if no cell is empty. The new tile is 1
/// with probability 9/10 and 2 otherwise.
pub fn place(b: &Board) -> (res: Board)
    ensures
        full(b@) ==> res@ == b@,
        !full(b@) ==> spawn_rel(b@, res@),
{
    let mut ret = [0u16; 16];
    let mut acc: Vec<usize> = Vec::new();
    let mut i: usize = 0;
    while i < 16
        invariant
            i <= 16,
            ret@.len() == 16,
            forall|k: int| 0 <= k < i ==> ret@[k] == b[k],
            forall|j: int| 0 <= j < acc@.len() ==> 0 <= #[trigger] acc@[j] < i && b[acc@[j] as int] == 0,
            forall|k: int| 0 <= k < i && b[k] == 0 ==> acc@.contains(k as usize),
        decreases 16 - i,
    {
        ret[i] = b[i];
        let ghost acc0 = acc@;
        if b[i] == 0 {
            acc.push(i);
        }
        i += 1;
        proof {
            assert forall|k: int| 0 <= k < i && b@[k] == 0 implies acc@.contains(k as usize) by {
                if k < i - 1 {
                    assert(acc0.contains(k as usize));
                    let j = choose|j: int| 0 <= j < acc0.len() && acc0[j] == k as usize;
                    assert(acc@[j] == k as usize);
                } else {
                    assert(acc@[acc@.len() - 1] == k as usize);
                }
            }
        }
    }
    proof {
        assert(ret@ =~= b@);
    }
    if acc.len() == 0 {
        proof {
            assert forall|k: int| 0 <= k < 16 implies b@[k] != 0 by {
                if b@[k] == 0 {
                    assert(acc@.contains(k as usize));
                }
            }
        }
        return ret;
    }
    let idx = random_below(acc.len());
    let cell = acc[idx];
    let t = random_below(10);
    let v: u16 = if t < 9 {
        1
    } else {
        2
    };
    ret[cell] = v;
    proof {
        assert(b@[cell as int] == 0);
        assert(ret@[cell as int] == 1 || ret@[cell as int] == 2);
        assert(forall|m: int| 0 <= m < 16 && m != cell ==> ret@[m] == b@[m]);
        assert(spawn_rel(b@, ret@));
    }
    ret
}

/// A spawn onto a board with exactly one empty cell fills that exact
/// cell, and touches nothing else.
pub proof fn lemma_spawn_single_empty(b: Seq<u16>, r: Seq<u16>, e: int)
    requires
        spawn_rel(b, r),
        0 <= e < 16,
        b[e] == 0,
        forall|k: int| 0 <= k < 16 && k != e ==> b[k] != 0,
    ensures
        r[e] == 1 || r[e] == 2,
        forall|k: int| 0 <= k < 16 && k != e ==> r[k] == b[k],
{
    let k = choose|k: int|
        0 <= k < 16 && b[k] == 0 && (r[k] == 1 || r[k] == 2) && (forall|m: int|
            0 <= m < 16 && m != k ==> r[m] == b[m]);
    assert(k == e);
}

} // verus!
