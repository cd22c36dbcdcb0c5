//! The window of pslice indices that belongs to a cycle.

use vstd::prelude::*;

verus! {

/// White paper mu ~= 4: max pslices a proposer emits per cycle.
pub const MU: u64 = 4;

/// Equation (1) of the white paper: `(c - 1) * mu < t <= c * mu`.
pub open spec fn equation_1(c: int, t: int) -> bool {
    (c - 1) * MU < t <= c * MU
}

/// Cycles count from 1, and Equation (1) says which pslice indices are theirs.
pub open spec fn in_cycle(c: int, t: int) -> bool {
    c >= 1 && equation_1(c, t)
}

/// The pslice at position `k`, counted from 0, of cycle `c`.
pub open spec fn nth_pslice(c: int, k: int) -> int {
    (c - 1) * MU + 1 + k
}

/// The product, held at `u64::MAX` where it is larger.
fn saturating_mul(x: u64, y: u64) -> (r: u64)
    ensures
        r == if x * y > u64::MAX { u64::MAX as int } else { x * y },
{
    match x.checked_mul(y) {
        Some(product) => product,
        None => u64::MAX,
    }
}

/// Validate Equation (1) from the white paper: `(c - 1) * mu < t <= c * mu`.
///
/// `t` is the *global* pslice index; for a given cycle `c` it falls in the
/// half-open window `((c-1)*mu, c*mu]`. The bounds saturate at the `u64`
/// extremes. At the upper end this loses nothing. At the lower end it leaves
/// cycle 0 with the empty window `(0, 0]`.
pub fn validate_cycle_bounds(cycle: u64, pslice_index: u64) -> (r: bool)
    ensures
        r == in_cycle(cycle as int, pslice_index as int),
        cycle >= 1 ==> r == equation_1(cycle as int, pslice_index as int),
        r <==> cycle >= 1 && (cycle - 1) * 4 < pslice_index && pslice_index <= cycle * 4,
{
    let lo: u64 = saturating_mul(cycle.saturating_sub(1), MU);
    let hi: u64 = saturating_mul(cycle, MU);
    pslice_index > lo && pslice_index <= hi
}

/// Every pslice index from 1 on belongs to one cycle and to no other.
pub proof fn law_one_cycle_per_pslice(t: int)
    requires
        t >= 1,
    ensures
        in_cycle((t + MU - 1) / MU as int, t),
        forall|c: int| #[trigger] in_cycle(c, t) ==> c == (t + MU - 1) / MU as int,
{
}

/// The window of cycle `c` is the four indices `4c - 3` to `4c`, for `c` from 1 on.
pub proof fn law_cycle_window(c: int, t: int)
    ensures
        MU == 4,
        in_cycle(c, t) <==> c >= 1 && 4 * c - 4 < t && t <= 4 * c,
{
}

/// Going one cycle on moves the window by four indices, and does nothing else
/// to it.
pub proof fn law_next_cycle_is_four_on(c: int, t: int)
    requires
        c >= 1,
    ensures
        in_cycle(c + 1, t + 4) <==> in_cycle(c, t),
{
}

/// Index 0 belongs to no cycle.
pub proof fn law_pslice_zero_has_no_cycle(c: int)
    ensures
        !in_cycle(c, 0),
{
}

/// A cycle holds the `MU` consecutive indices that end in `c * MU`.
pub proof fn law_cycle_holds_mu_pslices(c: int, t: int)
    requires
        c >= 1,
    ensures
        in_cycle(c, t) <==> exists|k: int| 0 <= k < MU && t == #[trigger] nth_pslice(c, k),
{
    if in_cycle(c, t) {
        assert(t == nth_pslice(c, t - nth_pslice(c, 0)));
    }
}

} // verus!
