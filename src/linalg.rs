//! The transform values of the scene.
//!
//! Vectors, quaternions and matrices are `glam` values. The library never looks
//! inside them: it composes and decomposes them through the few `glam`
//! functions below, each named by a spec function so that contracts can say
//! which matrix ends up where.
use vstd::prelude::*;

verus! {

#[verifier::external_type_specification]
#[verifier::external_body]
pub struct ExVec3(glam::Vec3);

#[verifier::external_type_specification]
#[verifier::external_body]
pub struct ExQuat(glam::Quat);

#[verifier::external_type_specification]
#[verifier::external_body]
pub struct ExMat4(glam::Mat4);

/// The product `a * b` of two matrices, as `glam::Mat4::mul_mat4` computes it.
pub uninterp spec fn mat_mul(a: glam::Mat4, b: glam::Mat4) -> glam::Mat4;

/// The affine matrix that scales by `s`, then rotates by `r`, then translates
/// by `t`, as `glam::Mat4::from_scale_rotation_translation` builds it.
pub uninterp spec fn srt_matrix(s: glam::Vec3, r: glam::Quat, t: glam::Vec3) -> glam::Mat4;

/// The (scale, rotation, translation) split of a matrix, as
/// `glam::Mat4::to_scale_rotation_translation` computes it.
pub uninterp spec fn decomposition(m: glam::Mat4) -> (glam::Vec3, glam::Quat, glam::Vec3);

/// The pure rotation matrix of a quaternion, as `glam::Mat4::from_quat` builds it.
pub uninterp spec fn quat_matrix(q: glam::Quat) -> glam::Mat4;

/// The quaternion of the Euler angles `a.x`, `a.y`, `a.z` applied in X, Y, Z
/// order, as `glam::Quat::from_euler` builds it.
pub uninterp spec fn euler_xyz(a: glam::Vec3) -> glam::Quat;

/// The translation component of an affine matrix.
pub open spec fn translation_of(m: glam::Mat4) -> glam::Vec3 {
    decomposition(m).2
}

/// The rotation component of an affine matrix.
pub open spec fn rotation_of(m: glam::Mat4) -> glam::Quat {
    decomposition(m).1
}

/// Relies on `glam::Mat4::mul_mat4`: a deterministic product of its two operands.
#[verifier::external_body]
pub(crate) fn multiply(a: &glam::Mat4, b: &glam::Mat4) -> (r: glam::Mat4)
    ensures
        r == mat_mul(*a, *b),
{
    a.mul_mat4(b)
}

/// Relies on `glam::Mat4::from_scale_rotation_translation`, which depends on its
/// three arguments alone.
#[verifier::external_body]
pub(crate) fn compose_srt(s: glam::Vec3, r: glam::Quat, t: glam::Vec3) -> (m: glam::Mat4)
    ensures
        m == srt_matrix(s, r, t),
{
    glam::Mat4::from_scale_rotation_translation(s, r, t)
}

/// Relies on `glam::Mat4::to_scale_rotation_translation`, which depends on the
/// matrix alone; its translation is the matrix's fourth column.
#[verifier::external_body]
pub(crate) fn decompose(m: &glam::Mat4) -> (r: (glam::Vec3, glam::Quat, glam::Vec3))
    ensures
        r == decomposition(*m),
{
    m.to_scale_rotation_translation()
}

/// Relies on `glam::Mat4::from_quat`, which depends on the quaternion alone.
#[verifier::external_body]
pub(crate) fn rotation_matrix(q: glam::Quat) -> (m: glam::Mat4)
    ensures
        m == quat_matrix(q),
{
    glam::Mat4::from_quat(q)
}

/// Relies on `glam::Quat::from_euler` with `glam::EulerRot::XYZ`, which depends
/// on the three angles alone.
#[verifier::external_body]
pub(crate) fn quat_from_euler(a: glam::Vec3) -> (q: glam::Quat)
    ensures
        q == euler_xyz(a),
{
    glam::Quat::from_euler(glam::EulerRot::XYZ, a.x, a.y, a.z)
}

/// Relies on `glam::Mat4::IDENTITY`.
#[verifier::external_body]
pub(crate) fn identity_matrix() -> (m: glam::Mat4) {
    glam::Mat4::IDENTITY
}

/// Relies on `glam::Quat::IDENTITY`.
#[verifier::external_body]
pub(crate) fn identity_rotation() -> (q: glam::Quat) {
    glam::Quat::IDENTITY
}

/// Relies on `glam::Vec3::ZERO`.
#[verifier::external_body]
pub(crate) fn zero_vector() -> (v: glam::Vec3) {
    glam::Vec3::ZERO
}

/// Relies on `glam::Vec3::ONE`.
#[verifier::external_body]
pub(crate) fn unit_scale() -> (v: glam::Vec3) {
    glam::Vec3::ONE
}

} // verus!
