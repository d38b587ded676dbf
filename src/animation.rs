//! Orbiting lights: a light under the root with a marker entity hanging below
//! it. Each tick the caller computes a pose for every rig from the elapsed
//! time and hands it to the scene.
use crate::linalg::euler_xyz;
use crate::node::{Node, Variant};
use crate::scene::{Scene, SceneError, ROOT, child_appended};
use vstd::prelude::*;

verus! {

/// A light node and the marker entity attached below it.
#[derive(PartialEq, Eq, Structural, Clone, Copy, Debug)]
pub struct OrbitRig {
    pub light: usize,
    pub marker: usize,
    /// Milliseconds added to the clock when this rig's pose is computed.
    pub time_offset: u64,
}

/// Where a rig stands at one instant.
#[derive(Clone, Copy)]
pub struct RigPose {
    /// The light's translation relative to the root.
    pub light_translation: glam::Vec3,
    /// The marker's Euler angles (radians), applied about X, then Y, then Z.
    pub marker_angles: glam::Vec3,
}

/// The arena `n` with `pose` applied to `rig`.
pub open spec fn posed<P>(n: Seq<Node<P>>, rig: OrbitRig, pose: RigPose) -> Seq<Node<P>> {
    let a = n.update(rig.light as int, Node { translation: pose.light_translation, ..n[rig.light as int] });
    a.update(rig.marker as int, Node { rotation: euler_xyz(pose.marker_angles), ..a[rig.marker as int] })
}

/// Posing is idempotent: applying a pose to an arena already in that pose
/// changes nothing.
pub proof fn lemma_pose_idempotent<P>(n: Seq<Node<P>>, rig: OrbitRig, pose: RigPose)
    requires
        rig.light < n.len(),
        rig.marker < n.len(),
    ensures
        posed(posed(n, rig, pose), rig, pose) == posed(n, rig, pose),
{
    assert(posed(posed(n, rig, pose), rig, pose) =~= posed(n, rig, pose));
}

/// World transforms depend on the arena and the base matrix alone.
pub proof fn lemma_world_from_arena<P>(a: Scene<P>, b: Scene<P>, i: int)
    requires
        a.nodes@ == b.nodes@,
        a.base == b.base,
    ensures
        a.world(i) == b.world(i),
    decreases i,
{
    if 0 < i < a.len() {
        match a.nodes@[i].parent {
            Some(p) => {
                if (p as int) < i {
                    lemma_world_from_arena(a, b, p as int);
                }
            },
            None => {},
        }
    }
}

/// Applying the same pose twice, with no other change in between, yields the
/// same world transforms as applying it once.
pub proof fn lemma_repeated_pose_same_world<P>(
    before: Scene<P>,
    once: Scene<P>,
    twice: Scene<P>,
    rig: OrbitRig,
    pose: RigPose,
)
    requires
        rig.light < before.len(),
        rig.marker < before.len(),
        once.nodes@ == posed(before.nodes@, rig, pose),
        once.base == before.base,
        twice.nodes@ == posed(once.nodes@, rig, pose),
        twice.base == once.base,
    ensures
        forall|i: int| #[trigger] twice.world(i) == once.world(i),
{
    lemma_pose_idempotent(before.nodes@, rig, pose);
    assert forall|i: int| #[trigger] twice.world(i) == once.world(i) by {
        lemma_world_from_arena(twice, once, i);
    }
}

impl<P> Scene<P> {
    /// Whether both nodes of `rig` exist.
    pub open spec fn pose_error(self, rig: OrbitRig) -> Option<SceneError> {
        if rig.light as int >= self.len() || rig.marker as int >= self.len() {
            Some(SceneError::UnknownNode)
        } else {
            None
        }
    }

    /// The error that adding a rig meets, if any.
    pub open spec fn rig_error(self) -> Option<SceneError> {
        if self.light_count >= self.max_lights {
            Some(SceneError::LightCapacity)
        } else if self.entity_count >= self.max_entities {
            Some(SceneError::EntityCapacity)
        } else if self.len() + 2 > usize::MAX {
            Some(SceneError::ArenaFull)
        } else {
            None
        }
    }

    /// Moves the rig's light to `pose.light_translation` and turns its marker to
    /// `pose.marker_angles`; fails with `UnknownNode`, and changes nothing, if
    /// either node is missing.
    pub fn apply_pose(&mut self, rig: &OrbitRig, pose: &RigPose) -> (r: Result<(), SceneError>)
        requires
            old(self).wf(),
        ensures
            final(self).wf(),
            match old(self).pose_error(*rig) {
                Some(e) => r == Err::<(), SceneError>(e) && *final(self) == *old(self),
                None => {
                    &&& r is Ok
                    &&& final(self).nodes@ == posed(old(self).nodes@, *rig, *pose)
                    &&& final(self).same_settings(*old(self))
                    &&& final(self).entity_count == old(self).entity_count
                    &&& final(self).light_count == old(self).light_count
                },
            },
    {
        let len = self.nodes.len();
        if rig.light >= len || rig.marker >= len {
            return Err(SceneError::UnknownNode);
        }
        let moved = self.translate(rig.light, pose.light_translation);
        let turned = self.rotate(rig.marker, pose.marker_angles);
        proof {
            assert(moved is Ok && turned is Ok);
        }
        Ok(())
    }

    /// Adds a light with `params` under the root and, below it, a marker entity
    /// drawing mesh `marker_mesh` with material `marker_material`, translated by
    /// `marker_offset`. Fails with `LightCapacity`, `EntityCapacity` or
    /// `ArenaFull` when the scene has no room for both nodes; the scene is then
    /// unchanged.
    pub fn add_light_rig(
        &mut self,
        params: P,
        marker_mesh: usize,
        marker_material: usize,
        marker_offset: glam::Vec3,
        time_offset: u64,
    ) -> (r: Result<OrbitRig, SceneError>)
        requires
            old(self).wf(),
        ensures
            final(self).wf(),
            match old(self).rig_error() {
                Some(e) => r == Err::<OrbitRig, SceneError>(e) && *final(self) == *old(self),
                None => {
                    let l = old(self).len();
                    let n = final(self).nodes@;
                    &&& r == Ok::<OrbitRig, SceneError>(
                        OrbitRig { light: l as usize, marker: (l + 1) as usize, time_offset },
                    )
                    &&& n.len() == l + 2
                    &&& forall|i: int| 0 < i < l ==> n[i] == old(self).nodes@[i]
                    &&& child_appended(old(self).nodes@[ROOT as int], n[ROOT as int], l as usize)
                    &&& n[l].variant == Variant::<P>::Light(params)
                    &&& n[l].parent == Some(ROOT)
                    &&& n[l].children@ == seq![(l + 1) as usize]
                    &&& n[l + 1].variant == Variant::<P>::Entity(marker_mesh, marker_material)
                    &&& n[l + 1].translation == marker_offset
                    &&& n[l + 1].parent == Some(l as usize)
                    &&& n[l + 1].children@.len() == 0
                    &&& final(self).same_settings(*old(self))
                    &&& final(self).entity_count == old(self).entity_count + 1
                    &&& final(self).light_count == old(self).light_count + 1
                },
            },
    {
        if self.light_count >= self.max_lights {
            return Err(SceneError::LightCapacity);
        }
        if self.entity_count >= self.max_entities {
            return Err(SceneError::EntityCapacity);
        }
        if self.nodes.len() > usize::MAX - 2 {
            return Err(SceneError::ArenaFull);
        }
        let ghost before = *self;
        let light = match self.add(Node::new_light(params)) {
            Ok(id) => id,
            Err(e) => return Err(e),
        };
        let ghost with_light = *self;
        let mut marker = Node::new_entity(marker_mesh, marker_material);
        marker.translate(marker_offset);
        let m = match self.insert(marker) {
            Ok(id) => id,
            Err(e) => return Err(e),
        };
        let ghost with_marker = *self;
        let attached = self.add_child(light, m);
        proof {
            assert(attached is Ok);
            let n = self.nodes@;
            let l = before.len();
            assert(with_marker.nodes@[l] == with_light.nodes@[l]);
            assert(with_light.nodes@[l].children@.len() == 0);
            assert(n[l].children@ =~= seq![(l + 1) as usize]);
            assert forall|i: int| 0 < i < l implies n[i] == before.nodes@[i] by {
                assert(n[i] == with_marker.nodes@[i]);
                assert(with_marker.nodes@[i] == with_light.nodes@[i]);
            }
            assert(n[ROOT as int] == with_marker.nodes@[ROOT as int]);
            assert(with_marker.nodes@[ROOT as int] == with_light.nodes@[ROOT as int]);
        }
        Ok(OrbitRig { light, marker: m, time_offset })
    }
}

} // verus!
