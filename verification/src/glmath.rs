//! The boundary to the linear-algebra collaborator.
//!
//! The renderer composes 4x4 homogeneous transforms but never looks inside
//! one: matrices and vectors are opaque values of `nalgebra_glm`, and what
//! each outside call returns is given a name (`translation_of`, `mul4_of`,
//! ...).  Every contract in the library speaks of those names, so a node's
//! world matrix is pinned down as the exact composition of the exact calls
//! the renderer makes, while the floating-point arithmetic itself stays
//! with the collaborator.

use vstd::prelude::*;
use nalgebra_glm::{Mat4, Vec1, Vec2, Vec3};

verus! {

#[verifier::external_type_specification]
#[verifier::external_body]
#[verifier::reject_recursive_types(T)]
#[verifier::reject_recursive_types(R)]
#[verifier::reject_recursive_types(C)]
#[verifier::reject_recursive_types(S)]
pub struct ExMatrix<T, R, C, S>(nalgebra::Matrix<T, R, C, S>);

#[verifier::external_type_specification]
#[verifier::external_body]
pub struct ExConst<const R: usize>(nalgebra::Const<R>);

#[verifier::external_type_specification]
#[verifier::external_body]
#[verifier::reject_recursive_types(T)]
pub struct ExArrayStorage<T, const R: usize, const C: usize>(nalgebra::ArrayStorage<T, R, C>);

/// The matrix product `a * b`.
pub uninterp spec fn mul4_of(a: Mat4, b: Mat4) -> Mat4;

/// The 4x4 translation matrix built from `v`.
pub uninterp spec fn translation_of(v: Vec3) -> Mat4;

/// The 4x4 non-uniform scaling matrix built from `v`.
pub uninterp spec fn scaling_of(v: Vec3) -> Mat4;

/// The 4x4 rotation matrix about the x axis by the first component of `r`.
pub uninterp spec fn rot_x_of(r: Vec3) -> Mat4;

/// The 4x4 rotation matrix about the y axis by the second component of `r`.
pub uninterp spec fn rot_y_of(r: Vec3) -> Mat4;

/// The 4x4 rotation matrix about the z axis by the third component of `r`.
pub uninterp spec fn rot_z_of(r: Vec3) -> Mat4;

/// The componentwise negation of `v`.
pub uninterp spec fn neg3_of(v: Vec3) -> Vec3;

/// `v` scaled by the scalar carried in `s`.
pub uninterp spec fn scale3_of(v: Vec3, s: Vec1) -> Vec3;

/// The componentwise sum of `a` and `b`.
pub uninterp spec fn add2_of(a: Vec2, b: Vec2) -> Vec2;

/// Relies on the `Mul` impl for `nalgebra::Matrix`: the matrix product of
/// `a` and `b`, a pure function of the two operands.
#[verifier::external_body]
pub(crate) fn mul4(a: &Mat4, b: &Mat4) -> (m: Mat4)
    ensures
        m == mul4_of(*a, *b),
{
    a * b
}

/// Relies on `nalgebra_glm::translation`: the translation matrix built from
/// `v`, a pure function of `v` alone.
#[verifier::external_body]
pub(crate) fn translation(v: &Vec3) -> (m: Mat4)
    ensures
        m == translation_of(*v),
{
    nalgebra_glm::translation(v)
}

/// Relies on `nalgebra_glm::scaling`: the non-uniform scaling matrix built
/// from `v`, a pure function of `v` alone.
#[verifier::external_body]
pub(crate) fn scaling(v: &Vec3) -> (m: Mat4)
    ensures
        m == scaling_of(*v),
{
    nalgebra_glm::scaling(v)
}

/// Relies on `nalgebra_glm::rotation` with the unit x axis: the rotation
/// matrix by angle `r[0]`, a pure function of `r` alone.
#[verifier::external_body]
pub(crate) fn rot_x(r: &Vec3) -> (m: Mat4)
    ensures
        m == rot_x_of(*r),
{
    let axis: Vec3 = nalgebra::Vector3::x_axis().into_inner();
    nalgebra_glm::rotation(r[0], &axis)
}

/// Relies on `nalgebra_glm::rotation` with the unit y axis: the rotation
/// matrix by angle `r[1]`, a pure function of `r` alone.
#[verifier::external_body]
pub(crate) fn rot_y(r: &Vec3) -> (m: Mat4)
    ensures
        m == rot_y_of(*r),
{
    let axis: Vec3 = nalgebra::Vector3::y_axis().into_inner();
    nalgebra_glm::rotation(r[1], &axis)
}

/// Relies on `nalgebra_glm::rotation` with the unit z axis: the rotation
/// matrix by angle `r[2]`, a pure function of `r` alone.
#[verifier::external_body]
pub(crate) fn rot_z(r: &Vec3) -> (m: Mat4)
    ensures
        m == rot_z_of(*r),
{
    let axis: Vec3 = nalgebra::Vector3::z_axis().into_inner();
    nalgebra_glm::rotation(r[2], &axis)
}

/// Relies on the `Neg` impl for `nalgebra::Matrix`: the componentwise
/// negation of `v`, a pure function of `v` alone.
#[verifier::external_body]
pub(crate) fn neg3(v: &Vec3) -> (r: Vec3)
    ensures
        r == neg3_of(*v),
{
    -v
}

/// Relies on the `Mul<f32>` impl for `nalgebra::Matrix`: `v` scaled by the
/// scalar carried in `s`, a pure function of the two operands.
#[verifier::external_body]
pub(crate) fn scale3(v: &Vec3, s: &Vec1) -> (r: Vec3)
    ensures
        r == scale3_of(*v, *s),
{
    v * s[0]
}

/// Relies on the `Add` impl for `nalgebra::Matrix`: the componentwise sum of
/// `a` and `b`, a pure function of the two operands.
#[verifier::external_body]
pub(crate) fn add2(a: &Vec2, b: &Vec2) -> (r: Vec2)
    ensures
        r == add2_of(*a, *b),
{
    a + b
}

/// Relies on the `Clone` impl derived for `nalgebra::Matrix`: the clone
/// carries the very same value.
#[verifier::external_body]
pub(crate) fn clone4(m: &Mat4) -> (r: Mat4)
    ensures
        r == *m,
{
    m.clone()
}

/// Relies on the `Clone` impl derived for `nalgebra::Matrix`: the clone
/// carries the very same value.
#[verifier::external_body]
pub(crate) fn clone2(v: &Vec2) -> (r: Vec2)
    ensures
        r == *v,
{
    v.clone()
}

/// Relies on the `Clone` impl derived for `nalgebra::Matrix`: the clone
/// carries the very same value.
#[verifier::external_body]
pub(crate) fn clone3(v: &Vec3) -> (r: Vec3)
    ensures
        r == *v,
{
    v.clone()
}

/// Relies on `nalgebra_glm::zero`: the all-zero 3-vector.
#[verifier::external_body]
pub(crate) fn zero3() -> Vec3 {
    nalgebra_glm::zero()
}

/// Relies on `nalgebra::Vector3::repeat` with the scalar one: the all-one
/// 3-vector.
#[verifier::external_body]
pub(crate) fn one3() -> Vec3 {
    nalgebra::Vector3::repeat(nalgebra::one())
}

/// Relies on `nalgebra_glm::identity`: the 4x4 identity matrix.
#[verifier::external_body]
pub(crate) fn identity4() -> Mat4 {
    nalgebra_glm::identity()
}

} // verus!
