//! The scene graph: an arena of nodes addressed by integer handles.
//!
//! Node `ROOT` is a group whose world transform is the scene's base matrix
//! (the identity). Every other node is created unlinked and may then be
//! attached under a node that was created before it, which keeps the
//! hierarchy a forest whose parent handles always point backwards. Entity and
//! light nodes are counted against fixed capacities when they are inserted:
//! an insertion past a capacity is rejected and leaves the scene unchanged.
use crate::linalg::{identity_matrix, mat_mul, euler_xyz, quat_from_euler};
use crate::node::{Node, Variant};
use vstd::prelude::*;

verus! {

/// The handle of the root node.
pub const ROOT: usize = 0;

/// The number of entities a renderer's scene has room for.
pub const MAX_ENTITY: usize = 100000;

/// The number of lights a renderer's scene has room for.
pub const MAX_LIGHT: usize = 10;

/// Why the scene refused a change.
#[derive(PartialEq, Eq, Structural, Clone, Copy, Debug)]
pub enum SceneError {
    /// A handle does not name a node of the scene.
    UnknownNode,
    /// The node to insert already has children or a parent.
    NodeLinked,
    /// The child would not come after its parent in the arena.
    ParentNotEarlier,
    /// The child already has a parent.
    AlreadyAttached,
    /// The scene already holds its maximum number of entities.
    EntityCapacity,
    /// The scene already holds its maximum number of lights.
    LightCapacity,
    /// The arena has no handle left to give.
    ArenaFull,
}

/// The handles of the entity nodes of `s`.
pub open spec fn entity_ids<P>(s: Seq<Node<P>>) -> Set<int> {
    Set::new(|i: int| 0 <= i < s.len() && s[i].variant is Entity)
}

/// The handles of the light nodes of `s`.
pub open spec fn light_ids<P>(s: Seq<Node<P>>) -> Set<int> {
    Set::new(|i: int| 0 <= i < s.len() && s[i].variant is Light)
}

/// `a` and `b` hold nodes of the same kinds, position by position.
pub open spec fn same_kinds<P>(a: Seq<Node<P>>, b: Seq<Node<P>>) -> bool {
    &&& a.len() == b.len()
    &&& forall|i: int|
        0 <= i < a.len() ==> (#[trigger] a[i].variant is Entity <==> b[i].variant is Entity) && (
        a[i].variant is Light <==> b[i].variant is Light)
}

proof fn lemma_ids_same_kinds<P>(a: Seq<Node<P>>, b: Seq<Node<P>>)
    requires
        same_kinds(a, b),
    ensures
        entity_ids(a) == entity_ids(b),
        light_ids(a) == light_ids(b),
{
    assert(entity_ids(a) =~= entity_ids(b));
    assert(light_ids(a) =~= light_ids(b));
}

proof fn lemma_ids_push<P>(s: Seq<Node<P>>, n: Node<P>)
    ensures
        entity_ids(s.push(n)) == if n.variant is Entity {
            entity_ids(s).insert(s.len() as int)
        } else {
            entity_ids(s)
        },
        light_ids(s.push(n)) == if n.variant is Light {
            light_ids(s).insert(s.len() as int)
        } else {
            light_ids(s)
        },
{
    if n.variant is Entity {
        assert(entity_ids(s.push(n)) =~= entity_ids(s).insert(s.len() as int));
    } else {
        assert(entity_ids(s.push(n)) =~= entity_ids(s));
    }
    if n.variant is Light {
        assert(light_ids(s.push(n)) =~= light_ids(s).insert(s.len() as int));
    } else {
        assert(light_ids(s.push(n)) =~= light_ids(s));
    }
}

/// `b` is `a` with `child` appended to the children of node `parent`.
pub open spec fn child_appended<P>(a: Node<P>, b: Node<P>, child: usize) -> bool {
    &&& b.children@ == a.children@.push(child)
    &&& b.translation == a.translation
    &&& b.rotation == a.rotation
    &&& b.scale == a.scale
    &&& b.variant == a.variant
    &&& b.parent == a.parent
}

/// A node's transform fields replaced, its payload and links kept.
pub open spec fn with_transform<P>(
    a: Node<P>,
    t: glam::Vec3,
    r: glam::Quat,
    s: glam::Vec3,
) -> Node<P> {
    Node { translation: t, rotation: r, scale: s, ..a }
}

/// `a` and `b` differ at most in their nodes' transforms.
pub open spec fn same_structure<P>(a: Seq<Node<P>>, b: Seq<Node<P>>) -> bool {
    &&& a.len() == b.len()
    &&& forall|i: int|
        0 <= i < a.len() ==> (#[trigger] a[i]).variant == b[i].variant && a[i].children == b[i].children
            && a[i].parent == b[i].parent
}

/// The hierarchy and its counts.
///
/// The fields are open for reading; change a scene through its methods, which
/// keep it well formed (`wf`).
pub struct Scene<P> {
    /// The arena; a node's handle is its index.
    pub nodes: Vec<Node<P>>,
    /// The world transform of the root.
    pub base: glam::Mat4,
    pub max_entities: usize,
    pub max_lights: usize,
    pub entity_count: usize,
    pub light_count: usize,
}

impl<P> Scene<P> {
    /// The arena is a forest rooted at `ROOT` whose parent and child links agree,
    /// whose parents come before their children, and whose counts are exact and
    /// within their capacities.
    pub open spec fn wf(self) -> bool {
        let n = self.nodes@;
        &&& 1 <= n.len() <= usize::MAX
        &&& n[ROOT as int].variant is Group
        &&& n[ROOT as int].parent is None
        &&& forall|i: int| 0 <= i < n.len() ==> (#[trigger] n[i].children@).no_duplicates()
        &&& forall|i: int, j: int|
            0 <= i < n.len() && 0 <= j < n[i].children@.len() ==> i < #[trigger] n[i].children@[j] < n.len()
                && n[n[i].children@[j] as int].parent == Some(i as usize)
        &&& forall|c: int|
            0 <= c < n.len() && (#[trigger] n[c].parent) is Some ==> {
                let p = n[c].parent->Some_0;
                &&& p < c
                &&& n[p as int].children@.contains(c as usize)
            }
        &&& entity_ids(n).finite()
        &&& entity_ids(n).len() == self.entity_count
        &&& self.entity_count <= self.max_entities
        &&& light_ids(n).finite()
        &&& light_ids(n).len() == self.light_count
        &&& self.light_count <= self.max_lights
    }

    pub open spec fn len(self) -> int {
        self.nodes@.len() as int
    }

    /// The fields that no change of the hierarchy touches.
    pub open spec fn same_settings(self, other: Self) -> bool {
        &&& self.base == other.base
        &&& self.max_entities == other.max_entities
        &&& self.max_lights == other.max_lights
    }

    /// The handle of the parent of node `x`.
    pub open spec fn parent_of(self, x: int) -> int {
        self.nodes@[x].parent->Some_0 as int
    }

    /// Node `i` hangs, through its ancestors, under the root.
    pub open spec fn attached(self, i: int) -> bool
        decreases i,
    {
        if i == ROOT as int {
            true
        } else if 0 < i < self.len() {
            match self.nodes@[i].parent {
                Some(p) => (p as int) < i && self.attached(p as int),
                None => false,
            }
        } else {
            false
        }
    }

    /// The world transform of node `i`: the root's is the base matrix, and any
    /// other node's is its parent's world transform times its own local one.
    pub open spec fn world(self, i: int) -> glam::Mat4
        decreases i,
    {
        if 0 < i < self.len() {
            match self.nodes@[i].parent {
                Some(p) => if (p as int) < i {
                    mat_mul(self.world(p as int), self.nodes@[i].local())
                } else {
                    self.base
                },
                None => self.base,
            }
        } else {
            self.base
        }
    }

    /// The error that inserting `node` meets, if any.
    pub open spec fn insert_error(self, node: Node<P>) -> Option<SceneError> {
        if !node.is_unlinked() {
            Some(SceneError::NodeLinked)
        } else if node.variant is Entity && self.entity_count >= self.max_entities {
            Some(SceneError::EntityCapacity)
        } else if node.variant is Light && self.light_count >= self.max_lights {
            Some(SceneError::LightCapacity)
        } else if self.nodes@.len() == usize::MAX {
            Some(SceneError::ArenaFull)
        } else {
            None
        }
    }

    /// The error that attaching `child` under `parent` meets, if any.
    pub open spec fn attach_error(self, parent: usize, child: usize) -> Option<SceneError> {
        if parent as int >= self.len() || child as int >= self.len() {
            Some(SceneError::UnknownNode)
        } else if child <= parent {
            Some(SceneError::ParentNotEarlier)
        } else if self.nodes@[child as int].parent is Some {
            Some(SceneError::AlreadyAttached)
        } else {
            None
        }
    }

    /// An empty scene: one root group, with room for `max_entities` entities and
    /// `max_lights` lights.
    pub fn new(max_entities: usize, max_lights: usize) -> (s: Self)
        ensures
            s.wf(),
            s.nodes@.len() == 1,
            s.nodes@[ROOT as int].variant is Group,
            s.max_entities == max_entities,
            s.max_lights == max_lights,
            s.entity_count == 0,
            s.light_count == 0,
    {
        let root = Node::new();
        let mut nodes = Vec::new();
        nodes.push(root);
        proof {
            assert(entity_ids(nodes@) =~= Set::<int>::empty());
            assert(light_ids(nodes@) =~= Set::<int>::empty());
            assert(nodes@[0].children@.no_duplicates());
        }
        Scene {
            nodes,
            base: identity_matrix(),
            max_entities,
            max_lights,
            entity_count: 0,
            light_count: 0,
        }
    }

    /// The node with handle `id`.
    pub fn node(&self, id: usize) -> (n: &Node<P>)
        requires
            (id as int) < self.len(),
        ensures
            *n == self.nodes@[id as int],
    {
        &self.nodes[id]
    }

    /// Adds `node`, unlinked, to the arena and returns its handle. Fails with
    /// `NodeLinked` if the node has links, and with `EntityCapacity` or
    /// `LightCapacity` if its kind is at capacity, and with `ArenaFull` if no
    /// handle is left; the scene is then unchanged.
    pub fn insert(&mut self, node: Node<P>) -> (r: Result<usize, SceneError>)
        requires
            old(self).wf(),
        ensures
            final(self).wf(),
            match old(self).insert_error(node) {
                Some(e) => r == Err::<usize, SceneError>(e) && *final(self) == *old(self),
                None => {
                    &&& r == Ok::<usize, SceneError>(old(self).nodes@.len() as usize)
                    &&& final(self).nodes@ == old(self).nodes@.push(node)
                    &&& final(self).same_settings(*old(self))
                    &&& final(self).entity_count == old(self).entity_count + if node.variant is Entity {
                        1int
                    } else {
                        0int
                    }
                    &&& final(self).light_count == old(self).light_count + if node.variant is Light {
                        1int
                    } else {
                        0int
                    }
                },
            },
    {
        if node.parent.is_some() || node.children.len() > 0 {
            return Err(SceneError::NodeLinked);
        }
        let is_entity = match node.variant {
            Variant::Entity(_, _) => true,
            _ => false,
        };
        let is_light = match node.variant {
            Variant::Light(_) => true,
            _ => false,
        };
        if is_entity && self.entity_count >= self.max_entities {
            return Err(SceneError::EntityCapacity);
        }
        if is_light && self.light_count >= self.max_lights {
            return Err(SceneError::LightCapacity);
        }
        let id = self.nodes.len();
        if id == usize::MAX {
            return Err(SceneError::ArenaFull);
        }
        proof {
            lemma_ids_push(self.nodes@, node);
        }
        let ghost old_nodes = self.nodes@;
        self.nodes.push(node);
        if is_entity {
            self.entity_count = self.entity_count + 1;
        }
        if is_light {
            self.light_count = self.light_count + 1;
        }
        proof {
            let n = self.nodes@;
            assert forall|i: int| 0 <= i < n.len() implies (#[trigger] n[i].children@).no_duplicates() by {
                if i < old_nodes.len() {
                    assert(n[i] == old_nodes[i]);
                }
            }
            assert forall|i: int, j: int| 0 <= i < n.len() && 0 <= j < n[i].children@.len() implies i < #[trigger] n[i].children@[j] < n.len()
                && n[n[i].children@[j] as int].parent == Some(i as usize) by {
                assert(i < old_nodes.len());
                assert(n[i] == old_nodes[i]);
                let c = old_nodes[i].children@[j];
                assert(n[c as int] == old_nodes[c as int]);
            }
            assert forall|c: int| 0 <= c < n.len() && (#[trigger] n[c].parent) is Some implies {
                let p = n[c].parent->Some_0;
                &&& p < c
                &&& n[p as int].children@.contains(c as usize)
            } by {
                assert(c < old_nodes.len());
                assert(n[c] == old_nodes[c]);
                let p = old_nodes[c].parent->Some_0;
                assert(n[p as int] == old_nodes[p as int]);
            }
        }
        Ok(id)
    }

    /// Attaches node `child` as the last child of node `parent`. Fails with
    /// `UnknownNode` if either handle is out of range, with `ParentNotEarlier` if
    /// `child` does not come after `parent`, and with `AlreadyAttached` if
    /// `child` has a parent; the scene is then unchanged.
    pub fn add_child(&mut self, parent: usize, child: usize) -> (r: Result<(), SceneError>)
        requires
            old(self).wf(),
        ensures
            final(self).wf(),
            match old(self).attach_error(parent, child) {
                Some(e) => r == Err::<(), SceneError>(e) && *final(self) == *old(self),
                None => {
                    &&& r is Ok
                    &&& final(self).nodes@.len() == old(self).nodes@.len()
                    &&& forall|i: int|
                        0 <= i < old(self).len() && i != parent && i != child ==> final(self).nodes@[i]
                            == old(self).nodes@[i]
                    &&& child_appended(old(self).nodes@[parent as int], final(self).nodes@[parent as int], child)
                    &&& final(self).nodes@[child as int] == (Node {
                        parent: Some(parent),
                        ..old(self).nodes@[child as int]
                    })
                    &&& final(self).same_settings(*old(self))
                    &&& final(self).entity_count == old(self).entity_count
                    &&& final(self).light_count == old(self).light_count
                },
            },
    {
        let len = self.nodes.len();
        if parent >= len || child >= len {
            return Err(SceneError::UnknownNode);
        }
        if child <= parent {
            return Err(SceneError::ParentNotEarlier);
        }
        if self.nodes[child].parent.is_some() {
            return Err(SceneError::AlreadyAttached);
        }
        let ghost old_nodes = self.nodes@;
        proof {
            // `child` has no parent, so no node lists it as a child.
            assert(!old_nodes[parent as int].children@.contains(child)) by {
                if old_nodes[parent as int].children@.contains(child) {
                    let j = old_nodes[parent as int].children@.index_of(child);
                    assert(old_nodes[parent as int].children@[j] == child);
                }
            }
        }
        self.nodes[parent].add_child(child);
        self.nodes[child].parent = Some(parent);
        proof {
            let n = self.nodes@;
            assert(same_kinds(old_nodes, n)) by {
                assert forall|i: int| 0 <= i < old_nodes.len() implies (#[trigger] old_nodes[i].variant is Entity
                    <==> n[i].variant is Entity) && (old_nodes[i].variant is Light
                    <==> n[i].variant is Light) by {
                    if i != parent && i != child {
                        assert(n[i] == old_nodes[i]);
                    }
                }
            }
            lemma_ids_same_kinds(old_nodes, n);
            assert forall|i: int| 0 <= i < n.len() implies (#[trigger] n[i].children@).no_duplicates() by {
                if i != parent {
                    assert(n[i].children@ == old_nodes[i].children@);
                }
            }
            assert forall|i: int, j: int| 0 <= i < n.len() && 0 <= j < n[i].children@.len() implies i < #[trigger] n[i].children@[j] < n.len()
                && n[n[i].children@[j] as int].parent == Some(i as usize) by {
                if i == parent && j == old_nodes[i].children@.len() {
                } else {
                    assert(n[i].children@[j] == old_nodes[i].children@[j]);
                    let c = old_nodes[i].children@[j];
                    assert(c != child);
                }
            }
            assert forall|c: int| 0 <= c < n.len() && (#[trigger] n[c].parent) is Some implies {
                let p = n[c].parent->Some_0;
                &&& p < c
                &&& n[p as int].children@.contains(c as usize)
            } by {
                if c == child {
                    assert(n[parent as int].children@[old_nodes[parent as int].children@.len() as int] == child);
                } else {
                    let p = old_nodes[c].parent->Some_0;
                    assert(old_nodes[p as int].children@.contains(c as usize));
                    let j = old_nodes[p as int].children@.index_of(c as usize);
                    assert(n[p as int].children@[j] == c as usize);
                }
            }
        }
        Ok(())
    }

    /// Changing transforms alone keeps the scene well formed.
    proof fn lemma_same_structure_wf(self, other: Self)
        requires
            self.wf(),
            same_structure(self.nodes@, other.nodes@),
            other.max_entities == self.max_entities,
            other.max_lights == self.max_lights,
            other.entity_count == self.entity_count,
            other.light_count == self.light_count,
        ensures
            other.wf(),
    {
        let a = self.nodes@;
        let b = other.nodes@;
        assert(same_kinds(a, b)) by {
            assert forall|i: int| 0 <= i < a.len() implies (#[trigger] a[i].variant is Entity
                <==> b[i].variant is Entity) && (a[i].variant is Light <==> b[i].variant is Light) by {
                assert(a[i].variant == b[i].variant);
            }
        }
        lemma_ids_same_kinds(a, b);
        assert(b[ROOT as int].variant == a[ROOT as int].variant);
        assert forall|i: int| 0 <= i < b.len() implies (#[trigger] b[i].children@).no_duplicates() by {
            assert(a[i].children == b[i].children);
        }
        assert forall|i: int, j: int| 0 <= i < b.len() && 0 <= j < b[i].children@.len() implies i
            < #[trigger] b[i].children@[j] < b.len() && b[b[i].children@[j] as int].parent == Some(i as usize) by {
            assert(a[i].children == b[i].children);
            assert(a[a[i].children@[j] as int].parent == b[a[i].children@[j] as int].parent);
        }
        assert forall|c: int| 0 <= c < b.len() && (#[trigger] b[c].parent) is Some implies {
            let p = b[c].parent->Some_0;
            &&& p < c
            &&& b[p as int].children@.contains(c as usize)
        } by {
            assert(a[c].parent == b[c].parent);
            let p = a[c].parent->Some_0;
            assert(a[p as int].children == b[p as int].children);
        }
    }

    /// Whether `id` names a node.
    pub open spec fn set_error(self, id: usize) -> Option<SceneError> {
        if id as int >= self.len() {
            Some(SceneError::UnknownNode)
        } else {
            None
        }
    }

    /// Replaces the local transform of node `id`; fails with `UnknownNode`, and
    /// changes nothing, if there is no such node.
    pub fn set_local_transform(
        &mut self,
        id: usize,
        t: glam::Vec3,
        r: glam::Quat,
        s: glam::Vec3,
    ) -> (res: Result<(), SceneError>)
        requires
            old(self).wf(),
        ensures
            final(self).wf(),
            match old(self).set_error(id) {
                Some(e) => res == Err::<(), SceneError>(e) && *final(self) == *old(self),
                None => {
                    &&& res is Ok
                    &&& final(self).nodes@ == old(self).nodes@.update(
                        id as int,
                        with_transform(old(self).nodes@[id as int], t, r, s),
                    )
                    &&& final(self).same_settings(*old(self))
                    &&& final(self).entity_count == old(self).entity_count
                    &&& final(self).light_count == old(self).light_count
                },
            },
    {
        if id >= self.nodes.len() {
            return Err(SceneError::UnknownNode);
        }
        let ghost before = *self;
        self.nodes[id].translate(t);
        self.nodes[id].rotate_quat(r);
        self.nodes[id].scale(s);
        proof {
            assert(self.nodes@ =~= before.nodes@.update(id as int, with_transform(before.nodes@[id as int], t, r, s)));
            assert(same_structure(before.nodes@, self.nodes@)) by {
                assert forall|i: int| 0 <= i < before.nodes@.len() implies (#[trigger] before.nodes@[i]).variant
                    == self.nodes@[i].variant && before.nodes@[i].children == self.nodes@[i].children
                    && before.nodes@[i].parent == self.nodes@[i].parent by {
                    if i != id {
                        assert(before.nodes@[i] == self.nodes@[i]);
                    }
                }
            }
            before.lemma_same_structure_wf(*self);
        }
        Ok(())
    }

    /// Sets the translation of node `id`; fails with `UnknownNode`, and changes
    /// nothing, if there is no such node.
    pub fn translate(&mut self, id: usize, t: glam::Vec3) -> (res: Result<(), SceneError>)
        requires
            old(self).wf(),
        ensures
            final(self).wf(),
            match old(self).set_error(id) {
                Some(e) => res == Err::<(), SceneError>(e) && *final(self) == *old(self),
                None => {
                    &&& res is Ok
                    &&& final(self).nodes@ == old(self).nodes@.update(
                        id as int,
                        Node { translation: t, ..old(self).nodes@[id as int] },
                    )
                    &&& final(self).same_settings(*old(self))
                    &&& final(self).entity_count == old(self).entity_count
                    &&& final(self).light_count == old(self).light_count
                },
            },
    {
        if id >= self.nodes.len() {
            return Err(SceneError::UnknownNode);
        }
        let n = &self.nodes[id];
        let r = n.rotation;
        let s = n.scale;
        self.set_local_transform(id, t, r, s)
    }

    /// Sets the rotation of node `id` from Euler angles applied about X, then Y,
    /// then Z; fails with `UnknownNode`, and changes nothing, if there is no such
    /// node.
    pub fn rotate(&mut self, id: usize, angles: glam::Vec3) -> (res: Result<(), SceneError>)
        requires
            old(self).wf(),
        ensures
            final(self).wf(),
            match old(self).set_error(id) {
                Some(e) => res == Err::<(), SceneError>(e) && *final(self) == *old(self),
                None => {
                    &&& res is Ok
                    &&& final(self).nodes@ == old(self).nodes@.update(
                        id as int,
                        Node { rotation: euler_xyz(angles), ..old(self).nodes@[id as int] },
                    )
                    &&& final(self).same_settings(*old(self))
                    &&& final(self).entity_count == old(self).entity_count
                    &&& final(self).light_count == old(self).light_count
                },
            },
    {
        if id >= self.nodes.len() {
            return Err(SceneError::UnknownNode);
        }
        let q = quat_from_euler(angles);
        let n = &self.nodes[id];
        let t = n.translation;
        let s = n.scale;
        self.set_local_transform(id, t, q, s)
    }

    /// Inserts `node` and attaches it as the last child of the root; fails as
    /// `insert` does, and the scene is then unchanged.
    pub fn add(&mut self, node: Node<P>) -> (r: Result<usize, SceneError>)
        requires
            old(self).wf(),
        ensures
            final(self).wf(),
            match old(self).insert_error(node) {
                Some(e) => r == Err::<usize, SceneError>(e) && *final(self) == *old(self),
                None => {
                    let id = old(self).len();
                    &&& r == Ok::<usize, SceneError>(id as usize)
                    &&& final(self).nodes@.len() == id + 1
                    &&& forall|i: int| 0 < i < id ==> final(self).nodes@[i] == old(self).nodes@[i]
                    &&& child_appended(old(self).nodes@[ROOT as int], final(self).nodes@[ROOT as int], id as usize)
                    &&& final(self).nodes@[id] == (Node { parent: Some(ROOT), ..node })
                    &&& final(self).same_settings(*old(self))
                    &&& final(self).entity_count == old(self).entity_count + if node.variant is Entity {
                        1int
                    } else {
                        0int
                    }
                    &&& final(self).light_count == old(self).light_count + if node.variant is Light {
                        1int
                    } else {
                        0int
                    }
                },
            },
    {
        let id = match self.insert(node) {
            Ok(id) => id,
            Err(e) => return Err(e),
        };
        let attached = self.add_child(ROOT, id);
        proof {
            assert(attached is Ok);
        }
        Ok(id)
    }

    /// The world transform of every node under the root but the root itself is
    /// the world transform of its parent, itself under the root, times the
    /// node's local transform.
    pub proof fn lemma_world_composes(self, n: int)
        requires
            self.wf(),
            0 < n < self.len(),
            self.attached(n),
        ensures
            self.nodes@[n].parent is Some,
            0 <= self.parent_of(n) < n,
            self.attached(self.parent_of(n)),
            self.world(n) == mat_mul(self.world(self.parent_of(n)), self.nodes@[n].local()),
    {
    }

    /// The root's world transform is the scene's base matrix.
    pub proof fn lemma_root_world(self)
        ensures
            self.world(ROOT as int) == self.base,
    {
    }
}

} // verus!
