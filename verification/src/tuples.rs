//! The point/vector discipline of four-component tuples.
//!
//! A tuple carries x, y, z and a kind flag w: 1 marks a point, 0 a vector.
//! The flag propagates through addition and subtraction and must be checked
//! before vector-only operations (magnitude, normalization, dot and cross
//! products, negation, scaling): using a point there is a programming error
//! and is rejected loudly rather than producing wrong geometry. These rules
//! are exact integer bookkeeping, proved here; the coordinate arithmetic is
//! the caller's floating-point work.

use vstd::prelude::*;

verus! {

/// Why an operation on a tuple was rejected.
#[derive(Copy, Clone, Debug, PartialEq, Eq, Structural)]
pub enum TupleError {
    /// A vector-only operation was attempted on a point.
    UsedPointAsVector,
    /// A point-only position was given a vector.
    UsedVectorAsPoint,
    /// A kind flag other than 0 (vector) or 1 (point) arose.
    WrongVal,
}

/// A kind flag names a point or a vector; anything else is rejected.
pub fn tuple_kind_valid(w: i8) -> (r: Result<(), TupleError>)
    ensures
        r is Ok <==> (w == 0 || w == 1),
        r is Err ==> r->Err_0 == TupleError::WrongVal,
{
    if w == 0 || w == 1 {
        Ok(())
    } else {
        Err(TupleError::WrongVal)
    }
}

/// Guard for vector-only operations: magnitude, normalization, dot and cross
/// products, negation, scalar multiplication and division.
pub fn vector_op_allowed(w: i8) -> (r: Result<(), TupleError>)
    ensures
        r is Ok <==> w == 0,
        r is Err ==> r->Err_0 == TupleError::UsedPointAsVector,
{
    if w == 0 {
        Ok(())
    } else {
        Err(TupleError::UsedPointAsVector)
    }
}

/// Guard for positions that must be points, such as a ray's origin.
pub fn point_op_allowed(w: i8) -> (r: Result<(), TupleError>)
    ensures
        r is Ok <==> w == 1,
        r is Err ==> r->Err_0 == TupleError::UsedVectorAsPoint,
{
    if w == 1 {
        Ok(())
    } else {
        Err(TupleError::UsedVectorAsPoint)
    }
}

/// Kind of a tuple sum. Adding two well-formed tuples is meaningful unless
/// both are points (a point plus a vector moves the point; two vectors add).
pub fn kind_after_add(w1: i8, w2: i8) -> (r: Result<i8, TupleError>)
    requires
        w1 == 0 || w1 == 1,
        w2 == 0 || w2 == 1,
    ensures
        r is Ok <==> w1 + w2 <= 1,
        r is Ok ==> r->Ok_0 == w1 + w2,
        r is Err ==> r->Err_0 == TupleError::WrongVal,
{
    if w1 + w2 <= 1 {
        Ok(w1 + w2)
    } else {
        Err(TupleError::WrongVal)
    }
}

/// Kind of a tuple difference. Subtracting is meaningful unless a point is
/// taken away from a vector (two points give the vector between them; a
/// vector off a point moves the point; two vectors subtract).
pub fn kind_after_sub(w1: i8, w2: i8) -> (r: Result<i8, TupleError>)
    requires
        w1 == 0 || w1 == 1,
        w2 == 0 || w2 == 1,
    ensures
        r is Ok <==> w1 - w2 >= 0,
        r is Ok ==> r->Ok_0 == w1 - w2,
        r is Err ==> r->Err_0 == TupleError::WrongVal,
{
    if w1 >= w2 {
        Ok(w1 - w2)
    } else {
        Err(TupleError::WrongVal)
    }
}

} // verus!
