//! How identifiers are handed out.

use vstd::prelude::*;

verus! {

/// The identifier after `id`: ids count upwards, and behind the largest comes 1, so
/// that 0 stays reserved.
pub open spec fn id_after(id: u32) -> u32 {
    if id == u32::MAX {
        1
    } else {
        (id + 1) as u32
    }
}

/// The identifier that is handed out `n` ids after `id`.
pub open spec fn id_later(id: u32, n: nat) -> u32
    decreases n,
{
    if n == 0 {
        id
    } else {
        id_after(id_later(id, (n - 1) as nat))
    }
}

/// The identifier after `id`.
pub fn next_id(id: u32) -> (next: u32)
    ensures
        next == id_after(id),
{
    if id == u32::MAX {
        1
    } else {
        id + 1
    }
}

/// Handing out ids from `id` on, none is 0, and none comes twice before all others
/// had their turn.
pub proof fn ids_are_distinct(id: u32, n: nat, m: nat)
    requires
        id != 0,
        n < m < n + u32::MAX,
    ensures
        id_later(id, n) != 0,
        id_later(id, m) != 0,
        id_later(id, n) != id_later(id, m),
{
    id_counts(id, n);
    id_counts(id, m);
    let all = u32::MAX as int;
    assert((id - 1 + n) % all != (id - 1 + m) % all) by {
        let a = (id - 1 + n) as int;
        let d = m - n;
        if a % all == (a + d) % all {
            vstd::arithmetic::div_mod::lemma_sub_mod_noop(a + d, a, all);
            assert((a + d - a) % all == ((a + d) % all - a % all) % all);
            vstd::arithmetic::div_mod::lemma_small_mod(d as nat, all as nat);
        }
    }
}

/// Ids go round in steps of one, from 1 to the largest.
pub proof fn id_counts(id: u32, n: nat)
    requires
        id != 0,
    ensures
        id_later(id, n) == (id - 1 + n) % (u32::MAX as int) + 1,
    decreases n,
{
    if n > 0 {
        id_counts(id, (n - 1) as nat);
    }
}

} // verus!
