//! Procedural surface patterns: variant tags and cell-parity color selection.
//!
//! A pattern maps a point in pattern space to one of its two colors. For the
//! stripe, ring and three-dimensional checker variants the choice depends only
//! on the integer cell the point falls in (the floor of one or more
//! coordinates); the floating-point work ends at taking those floors, and the
//! selection rule itself is exact: the first color is used on even cells.

use vstd::prelude::*;

verus! {

/// The pattern variants a material can carry. `Solid` paints the material's
/// flat color everywhere; `Gradient` blends the two colors; `Test` echoes the
/// pattern-space point and exists for diagnostics.
#[derive(Copy, Clone, Debug, PartialEq, Eq, Structural)]
pub enum PatternType {
    Solid,
    Stripe,
    Gradient,
    Ring,
    Checker3d,
    Test,
}

impl PatternType {
    /// A solid pattern short-circuits pattern-space transformation: the
    /// material's flat color is used directly.
    pub fn is_solid(&self) -> (r: bool)
        ensures
            r == (*self is Solid),
    {
        matches!(*self, PatternType::Solid)
    }

    /// Whether this variant picks a color from the integer cell alone, so
    /// that `stripe_uses_first`, `ring_uses_first` or `checker_uses_first`
    /// decides it.
    pub fn is_cell_parity(&self) -> (r: bool)
        ensures
            r == (*self is Stripe || *self is Ring || *self is Checker3d),
    {
        matches!(*self, PatternType::Stripe | PatternType::Ring | PatternType::Checker3d)
    }
}

/// A stripe shows its first color on cells with an even x-floor.
pub fn stripe_uses_first(cell: i64) -> (r: bool)
    ensures
        r == (cell % 2 == 0),
{
    cell % 2 == 0
}

/// A ring shows its first color when the floor of the point's distance from
/// the y-axis is even. That floor is never negative, hence the unsigned cell.
pub fn ring_uses_first(cell: u64) -> (r: bool)
    ensures
        r == (cell % 2 == 0),
{
    cell % 2 == 0
}

/// A three-dimensional checker shows its first color when the sum of the
/// three coordinate floors is even. The sum is taken over the unbounded
/// integers: the parities are combined instead of the values, so no cell
/// coordinate can overflow the decision.
pub fn checker_uses_first(x: i64, y: i64, z: i64) -> (r: bool)
    ensures
        r == ((x + y + z) % 2 == 0),
{
    let ex = x % 2 == 0;
    let ey = y % 2 == 0;
    let ez = z % 2 == 0;
    let r = if ex { ey == ez } else { ey != ez };
    proof {
        lemma_parity_of_sum(x as int, y as int, z as int);
    }
    r
}

/// Parity of a three-way sum follows from the parities of its parts.
proof fn lemma_parity_of_sum(x: int, y: int, z: int)
    ensures
        ((x + y + z) % 2 == 0) == (if x % 2 == 0 {
            (y % 2 == 0) == (z % 2 == 0)
        } else {
            (y % 2 == 0) != (z % 2 == 0)
        }),
{
    assert(((x + y + z) % 2) == ((x % 2 + y % 2 + z % 2) % 2)) by (nonlinear_arith);
    assert(0 <= x % 2 < 2 && 0 <= y % 2 < 2 && 0 <= z % 2 < 2) by (nonlinear_arith);
}

} // verus!
