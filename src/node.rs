//! Scene nodes: a local transform, a payload and the links of the hierarchy.
use crate::linalg::{compose_srt, identity_rotation, quat_from_euler, srt_matrix, unit_scale, zero_vector, euler_xyz};
use vstd::prelude::*;

verus! {

/// What a node carries.
///
/// `Entity(mesh, material)` draws the mesh with handle `mesh` through the
/// material with handle `material`; `Light(p)` is a point light with the
/// parameters `p` (its colour and radius); `Group` only organises children.
pub enum Variant<P> {
    Entity(usize, usize),
    Light(P),
    Group,
}

/// One element of the hierarchy.
///
/// `children` and `parent` are handles into the scene's arena; a node that is
/// not yet in a scene has neither.
pub struct Node<P> {
    pub translation: glam::Vec3,
    pub rotation: glam::Quat,
    pub scale: glam::Vec3,
    pub variant: Variant<P>,
    pub children: Vec<usize>,
    pub parent: Option<usize>,
}

impl<P> Node<P> {
    /// The node's transform relative to its parent: scale, then rotate, then translate.
    pub open spec fn local(self) -> glam::Mat4 {
        srt_matrix(self.scale, self.rotation, self.translation)
    }

    /// A node without links.
    pub open spec fn is_unlinked(self) -> bool {
        self.children@.len() == 0 && self.parent.is_none()
    }

    fn with_variant(variant: Variant<P>) -> (n: Self)
        ensures
            n.variant == variant,
            n.is_unlinked(),
    {
        Node {
            translation: zero_vector(),
            rotation: identity_rotation(),
            scale: unit_scale(),
            variant,
            children: Vec::new(),
            parent: None,
        }
    }

    /// A group node with the identity transform.
    pub fn new() -> (n: Self)
        ensures
            n.variant == Variant::<P>::Group,
            n.is_unlinked(),
    {
        Self::with_variant(Variant::Group)
    }

    /// A light node with the parameters `params`.
    pub fn new_light(params: P) -> (n: Self)
        ensures
            n.variant == Variant::<P>::Light(params),
            n.is_unlinked(),
    {
        Self::with_variant(Variant::Light(params))
    }

    /// An entity node that draws mesh `mesh` with material `material`.
    pub fn new_entity(mesh: usize, material: usize) -> (n: Self)
        ensures
            n.variant == Variant::<P>::Entity(mesh, material),
            n.is_unlinked(),
    {
        Self::with_variant(Variant::Entity(mesh, material))
    }

    /// Sets the translation.
    pub fn translate(&mut self, t: glam::Vec3)
        ensures
            *final(self) == (Node { translation: t, ..*old(self) }),
    {
        self.translation = t;
    }

    /// Sets the scale.
    pub fn scale(&mut self, s: glam::Vec3)
        ensures
            *final(self) == (Node { scale: s, ..*old(self) }),
    {
        self.scale = s;
    }

    /// Sets the rotation.
    pub fn rotate_quat(&mut self, q: glam::Quat)
        ensures
            *final(self) == (Node { rotation: q, ..*old(self) }),
    {
        self.rotation = q;
    }

    /// Sets the rotation from Euler angles (radians) applied about X, then Y, then Z.
    pub fn rotate(&mut self, angles: glam::Vec3)
        ensures
            *final(self) == (Node { rotation: euler_xyz(angles), ..*old(self) }),
    {
        self.rotation = quat_from_euler(angles);
    }

    /// The local transform matrix `T * R * S`.
    pub fn calculate_transform(&self) -> (m: glam::Mat4)
        ensures
            m == self.local(),
    {
        compose_srt(self.scale, self.rotation, self.translation)
    }

    /// Appends `child` to this node's list of children.
    pub fn add_child(&mut self, child: usize)
        ensures
            final(self).children@ == old(self).children@.push(child),
            final(self).translation == old(self).translation,
            final(self).rotation == old(self).rotation,
            final(self).scale == old(self).scale,
            final(self).variant == old(self).variant,
            final(self).parent == old(self).parent,
    {
        self.children.push(child);
    }
}

} // verus!
