//! The per-frame walk of the scene graph.
//!
//! One depth-first pass over the nodes that hang under the root composes each
//! node's world transform from its parent's, records a draw item for every
//! entity (with its instance slot) and a light record for every light.
use crate::instance::InstanceLayout;
use crate::linalg::{decompose, multiply, quat_matrix, rotation_matrix, rotation_of, translation_of};
use crate::node::Variant;
use crate::scene::{entity_ids, light_ids, Scene, ROOT};
use vstd::prelude::*;
use vstd::set_lib::{lemma_int_range, lemma_len_subset, set_int_range};

verus! {

/// One entity to draw in this frame.
pub struct DrawItem {
    /// The entity's node.
    pub node: usize,
    /// Its mesh handle.
    pub mesh: usize,
    /// Its material handle.
    pub material: usize,
    /// Its world transform.
    pub world: glam::Mat4,
    /// The rotation part of its world transform, as a matrix.
    pub rotation: glam::Mat4,
    /// The byte offset of its slot in the per-instance buffers.
    pub offset: u64,
}

/// One light of this frame, in world space.
pub struct Light<P> {
    /// The light's node.
    pub node: usize,
    /// The translation of the node's world transform.
    pub position: glam::Vec3,
    /// The light's parameters, as configured on the node.
    pub params: P,
}

/// What one walk of the scene yields.
pub struct FramePlan<P> {
    pub draws: Vec<DrawItem>,
    pub lights: Vec<Light<P>>,
}

/// The nodes of `l`, as a set.
pub open spec fn light_nodes<P>(l: Seq<Light<P>>) -> Set<int> {
    l.map_values(|e: Light<P>| e.node as int).to_set()
}

/// The nodes of `d`, as a set.
pub open spec fn draw_nodes(d: Seq<DrawItem>) -> Set<int> {
    d.map_values(|e: DrawItem| e.node as int).to_set()
}

/// A stack of nodes to visit, each with its world transform.
pub open spec fn on_stack(st: Seq<(usize, glam::Mat4)>, x: int) -> bool {
    exists|k: int| 0 <= k < st.len() && #[trigger] st[k].0 as int == x
}

impl<P> Scene<P> {
    /// `d`, found at position `k` of a draw list, draws an entity under the root
    /// with its world transform, its rotation and the offset of slot `k`.
    pub open spec fn draw_matches(self, layout: InstanceLayout, d: DrawItem, k: int) -> bool {
        let n = d.node as int;
        &&& 0 <= n < self.len()
        &&& self.attached(n)
        &&& self.nodes@[n].variant == Variant::<P>::Entity(d.mesh, d.material)
        &&& d.world == self.world(n)
        &&& d.rotation == quat_matrix(rotation_of(self.world(n)))
        &&& d.offset == layout.offset_of(k)
    }

    /// `l` is the record of a light under the root: the translation of its world
    /// transform and its configured parameters.
    pub open spec fn light_matches(self, l: Light<P>) -> bool {
        let n = l.node as int;
        &&& 0 <= n < self.len()
        &&& self.attached(n)
        &&& self.nodes@[n].variant == Variant::<P>::Light(l.params)
        &&& l.position == translation_of(self.world(n))
    }

    /// `plan` has one draw item for each entity under the root and one light
    /// record for each light under the root, each exactly once and each as
    /// `draw_matches` and `light_matches` say.
    pub open spec fn plan_matches(self, layout: InstanceLayout, plan: FramePlan<P>) -> bool {
        let d = plan.draws@;
        let l = plan.lights@;
        &&& d.len() <= self.max_entities
        &&& forall|k: int| 0 <= k < d.len() ==> self.draw_matches(layout, #[trigger] d[k], k)
        &&& forall|a: int, b: int| 0 <= a < b < d.len() ==> #[trigger] d[a].node != #[trigger] d[b].node
        &&& forall|x: int|
            0 <= x < self.len() && self.attached(x) && (#[trigger] self.nodes@[x]).variant is Entity
                ==> exists|k: int| 0 <= k < d.len() && #[trigger] d[k].node as int == x
        &&& l.len() <= self.max_lights
        &&& forall|k: int| 0 <= k < l.len() ==> self.light_matches(#[trigger] l[k])
        &&& forall|a: int, b: int| 0 <= a < b < l.len() ==> #[trigger] l[a].node != #[trigger] l[b].node
        &&& forall|x: int|
            0 <= x < self.len() && self.attached(x) && (#[trigger] self.nodes@[x]).variant is Light
                ==> exists|k: int| 0 <= k < l.len() && #[trigger] l[k].node as int == x
    }

    /// The lights under the root.
    pub open spec fn attached_lights(self) -> Set<int> {
        Set::new(|x: int| 0 <= x < self.len() && self.attached(x) && self.nodes@[x].variant is Light)
    }

    /// The entities under the root.
    pub open spec fn attached_entities(self) -> Set<int> {
        Set::new(|x: int| 0 <= x < self.len() && self.attached(x) && self.nodes@[x].variant is Entity)
    }

    /// A frame with `k` lights under the root has exactly `k` light records,
    /// one per light, each at the translation of its light's world transform.
    pub proof fn lemma_one_record_per_light(self, layout: InstanceLayout, plan: FramePlan<P>)
        requires
            self.wf(),
            self.plan_matches(layout, plan),
        ensures
            light_nodes(plan.lights@) == self.attached_lights(),
            plan.lights@.len() == self.attached_lights().len(),
            forall|k: int|
                0 <= k < plan.lights@.len() ==> (#[trigger] plan.lights@[k]).position == translation_of(
                    self.world(plan.lights@[k].node as int),
                ),
    {
        let l = plan.lights@;
        let m = l.map_values(|e: Light<P>| e.node as int);
        assert forall|x: int| #[trigger] m.to_set().contains(x) <==> self.attached_lights().contains(x) by {
            if m.to_set().contains(x) {
                assert(m.contains(x));
                let k = m.index_of(x);
                assert(self.light_matches(l[k]));
            }
            if self.attached_lights().contains(x) {
                assert(self.nodes@[x].variant is Light);
                let k = choose|k: int| 0 <= k < l.len() && #[trigger] l[k].node as int == x;
                assert(m[k] == x);
            }
        }
        assert(light_nodes(l) =~= self.attached_lights());
        assert(m.no_duplicates()) by {
            assert forall|a: int, b: int| 0 <= a < m.len() && 0 <= b < m.len() && a != b implies m[a] != m[b] by {
                assert(m[a] == l[a].node as int);
                assert(m[b] == l[b].node as int);
                if a < b {
                    assert(l[a].node != l[b].node);
                } else {
                    assert(l[b].node != l[a].node);
                }
            }
        }
        m.unique_seq_to_set();
        assert forall|k: int| 0 <= k < l.len() implies (#[trigger] l[k]).position == translation_of(
            self.world(l[k].node as int),
        ) by {
            assert(self.light_matches(l[k]));
        }
    }

    /// Every entity under the root is drawn exactly once in a frame.
    pub proof fn lemma_one_draw_per_entity(self, layout: InstanceLayout, plan: FramePlan<P>)
        requires
            self.wf(),
            self.plan_matches(layout, plan),
        ensures
            draw_nodes(plan.draws@) == self.attached_entities(),
            plan.draws@.len() == self.attached_entities().len(),
    {
        let d = plan.draws@;
        let m = d.map_values(|e: DrawItem| e.node as int);
        assert forall|x: int| #[trigger] m.to_set().contains(x) <==> self.attached_entities().contains(x) by {
            if m.to_set().contains(x) {
                assert(m.contains(x));
                let k = m.index_of(x);
                assert(self.draw_matches(layout, d[k], k));
            }
            if self.attached_entities().contains(x) {
                assert(self.nodes@[x].variant is Entity);
                let k = choose|k: int| 0 <= k < d.len() && #[trigger] d[k].node as int == x;
                assert(m[k] == x);
            }
        }
        assert(draw_nodes(d) =~= self.attached_entities());
        assert(m.no_duplicates()) by {
            assert forall|a: int, b: int| 0 <= a < m.len() && 0 <= b < m.len() && a != b implies m[a] != m[b] by {
                assert(m[a] == d[a].node as int);
                assert(m[b] == d[b].node as int);
                if a < b {
                    assert(d[a].node != d[b].node);
                } else {
                    assert(d[b].node != d[a].node);
                }
            }
        }
        m.unique_seq_to_set();
    }

    /// A pending stack entry: a node under the root, not visited yet, whose
    /// parent has been, with its world transform.
    pub open spec fn pending_ok(self, visited: Set<int>, e: (usize, glam::Mat4)) -> bool {
        let x = e.0 as int;
        &&& 0 <= x < self.len()
        &&& self.attached(x)
        &&& e.1 == self.world(x)
        &&& !visited.contains(x)
        &&& (x == ROOT || visited.contains(self.parent_of(x)))
    }

    /// The state of the walk between two visits.
    #[verifier::opaque]
    pub open spec fn walk_inv(self, visited: Set<int>, st: Seq<(usize, glam::Mat4)>) -> bool {
        &&& visited.finite()
        &&& forall|x: int|
            #[trigger] visited.contains(x) ==> 0 <= x < self.len() && self.attached(x) && (x == ROOT
                || visited.contains(self.parent_of(x)))
        &&& forall|k: int| 0 <= k < st.len() ==> self.pending_ok(visited, #[trigger] st[k])
        &&& forall|a: int, b: int| 0 <= a < b < st.len() ==> #[trigger] st[a].0 != #[trigger] st[b].0
        &&& visited.contains(ROOT as int) || on_stack(st, ROOT as int)
        &&& forall|x: int|
            0 < x < self.len() && self.attached(x) && visited.contains(#[trigger] self.parent_of(x))
                ==> visited.contains(x) || on_stack(st, x)
    }

    /// The visited entities.
    pub open spec fn drawn(self, visited: Set<int>) -> Set<int> {
        visited.intersect(entity_ids(self.nodes@))
    }

    /// The visited lights.
    pub open spec fn lit(self, visited: Set<int>) -> Set<int> {
        visited.intersect(light_ids(self.nodes@))
    }

    /// The draw list so far: one item for each visited entity, in order of visit.
    #[verifier::opaque]
    pub open spec fn draws_inv(self, layout: InstanceLayout, visited: Set<int>, d: Seq<DrawItem>) -> bool {
        &&& self.drawn(visited).len() == d.len()
        &&& forall|k: int| 0 <= k < d.len() ==> self.draw_matches(layout, #[trigger] d[k], k)
        &&& forall|k: int| 0 <= k < d.len() ==> visited.contains(#[trigger] d[k].node as int)
        &&& forall|a: int, b: int| 0 <= a < b < d.len() ==> #[trigger] d[a].node != #[trigger] d[b].node
        &&& forall|x: int|
            #[trigger] self.drawn(visited).contains(x) ==> exists|k: int|
                0 <= k < d.len() && #[trigger] d[k].node as int == x
    }

    /// The light list so far: one record for each visited light, in order of visit.
    #[verifier::opaque]
    pub open spec fn lights_inv(self, visited: Set<int>, l: Seq<Light<P>>) -> bool {
        &&& self.lit(visited).len() == l.len()
        &&& forall|k: int| 0 <= k < l.len() ==> self.light_matches(#[trigger] l[k])
        &&& forall|k: int| 0 <= k < l.len() ==> visited.contains(#[trigger] l[k].node as int)
        &&& forall|a: int, b: int| 0 <= a < b < l.len() ==> #[trigger] l[a].node != #[trigger] l[b].node
        &&& forall|x: int|
            #[trigger] self.lit(visited).contains(x) ==> exists|k: int|
                0 <= k < l.len() && #[trigger] l[k].node as int == x
    }

    /// One visit keeps the walk's invariant: node `top.0` was popped off
    /// `old_stack`, leaving `mid`, and its children were pushed, giving `st`.
    proof fn lemma_walk_step(
        self,
        visited: Set<int>,
        old_stack: Seq<(usize, glam::Mat4)>,
        mid: Seq<(usize, glam::Mat4)>,
        st: Seq<(usize, glam::Mat4)>,
        top: (usize, glam::Mat4),
    )
        requires
            self.wf(),
            self.walk_inv(visited, old_stack),
            old_stack.len() > 0,
            top == old_stack[old_stack.len() - 1],
            mid == old_stack.subrange(0, old_stack.len() - 1),
            self.pending_ok(visited, top),
            st.len() == mid.len() + self.nodes@[top.0 as int].children@.len(),
            forall|k: int| 0 <= k < mid.len() ==> #[trigger] st[k] == mid[k],
            forall|k: int|
                0 <= k < self.nodes@[top.0 as int].children@.len() ==> #[trigger] st[mid.len() + k].0
                    == self.nodes@[top.0 as int].children@[k],
            forall|k: int| 0 <= k < st.len() ==> self.pending_ok(visited.insert(top.0 as int), #[trigger] st[k]),
            forall|a: int, b: int| 0 <= a < b < st.len() ==> #[trigger] st[a].0 != #[trigger] st[b].0,
        ensures
            self.walk_inv(visited.insert(top.0 as int), st),
    {
        reveal(Scene::walk_inv);
        let ui = top.0 as int;
        let now = visited.insert(ui);
        assert(now.contains(ROOT as int) || on_stack(st, ROOT as int)) by {
            if !now.contains(ROOT as int) {
                assert(on_stack(old_stack, ROOT as int));
                let k = choose|k: int| 0 <= k < old_stack.len() && #[trigger] old_stack[k].0 as int == ROOT as int;
                assert(k != old_stack.len() - 1);
                assert(mid[k] == old_stack[k]);
                assert(st[k] == mid[k]);
                assert(st[k].0 as int == ROOT as int);
            }
        }
        assert forall|x: int|
            0 < x < self.len() && self.attached(x) && now.contains(#[trigger] self.parent_of(x))
                implies now.contains(x) || on_stack(st, x) by {
            self.lemma_still_covered(visited, old_stack, mid, st, top, x);
        }
        assert forall|x: int| #[trigger] now.contains(x) implies 0 <= x < self.len() && self.attached(x)
            && (x == ROOT || now.contains(self.parent_of(x))) by {
            if x != ui {
                assert(visited.contains(x));
            }
        }
    }

    proof fn lemma_still_covered(
        self,
        visited: Set<int>,
        old_stack: Seq<(usize, glam::Mat4)>,
        mid: Seq<(usize, glam::Mat4)>,
        st: Seq<(usize, glam::Mat4)>,
        top: (usize, glam::Mat4),
        x: int,
    )
        requires
            self.wf(),
            forall|y: int|
                0 < y < self.len() && self.attached(y) && visited.contains(#[trigger] self.parent_of(y))
                    ==> visited.contains(y) || on_stack(old_stack, y),
            old_stack.len() > 0,
            top == old_stack[old_stack.len() - 1],
            mid == old_stack.subrange(0, old_stack.len() - 1),
            0 <= top.0 < self.len(),
            st.len() == mid.len() + self.nodes@[top.0 as int].children@.len(),
            forall|k: int| 0 <= k < mid.len() ==> #[trigger] st[k] == mid[k],
            forall|k: int|
                0 <= k < self.nodes@[top.0 as int].children@.len() ==> #[trigger] st[mid.len() + k].0
                    == self.nodes@[top.0 as int].children@[k],
            0 < x < self.len(),
            self.attached(x),
            visited.insert(top.0 as int).contains(self.parent_of(x)),
        ensures
            visited.insert(top.0 as int).contains(x) || on_stack(st, x),
    {
        let ui = top.0 as int;
        if !visited.insert(ui).contains(x) {
            if self.parent_of(x) == ui {
                let children = self.nodes@[ui].children@;
                assert(self.nodes@[x].parent is Some);
                assert(children.contains(x as usize));
                let jj = children.index_of(x as usize);
                assert(st[mid.len() + jj].0 == children[jj]);
                assert(st[mid.len() + jj].0 as int == x);
            } else {
                assert(visited.contains(self.parent_of(x)));
                assert(on_stack(old_stack, x));
                let k = choose|k: int| 0 <= k < old_stack.len() && #[trigger] old_stack[k].0 as int == x;
                assert(k != old_stack.len() - 1);
                assert(mid[k] == old_stack[k]);
                assert(st[k] == mid[k]);
                assert(st[k].0 as int == x);
            }
        }
    }

    /// Once the root is visited and every node under the root whose parent is
    /// visited is visited too, every node under the root is visited.
    proof fn lemma_visited_closed(self, visited: Set<int>, x: int)
        requires
            self.wf(),
            visited.contains(ROOT as int),
            forall|y: int|
                0 < y < self.len() && self.attached(y) && visited.contains(#[trigger] self.parent_of(y))
                    ==> visited.contains(y),
            0 <= x < self.len(),
            self.attached(x),
        ensures
            visited.contains(x),
        decreases x,
    {
        if x != ROOT as int {
            self.lemma_visited_closed(visited, self.parent_of(x));
            assert(visited.contains(self.parent_of(x)));
        }
    }
}

impl<P: Copy> Scene<P> {
    /// Records the visit of node `u`, whose world transform is `w`: an entity
    /// adds a draw item, a light adds a light record.
    fn record(
        &self,
        layout: &InstanceLayout,
        u: usize,
        w: glam::Mat4,
        draws: &mut Vec<DrawItem>,
        lights: &mut Vec<Light<P>>,
        Ghost(visited): Ghost<Set<int>>,
    )
        requires
            self.wf(),
            layout.wf(),
            self.max_entities <= layout.capacity,
            visited.finite(),
            visited.subset_of(set_int_range(0, self.len())),
            0 <= u < self.len(),
            self.attached(u as int),
            w == self.world(u as int),
            !visited.contains(u as int),
            self.draws_inv(*layout, visited, old(draws)@),
            self.lights_inv(visited, old(lights)@),
        ensures
            self.draws_inv(*layout, visited.insert(u as int), final(draws)@),
            self.lights_inv(visited.insert(u as int), final(lights)@),
    {
        let ghost ui = u as int;
        let ghost now = visited.insert(ui);
        let ghost old_draws = draws@;
        reveal(Scene::draws_inv);
        reveal(Scene::lights_inv);
        let ghost old_lights = lights@;
        proof {
            vstd::set_lib::lemma_len_intersect(visited, entity_ids(self.nodes@));
            vstd::set_lib::lemma_len_intersect(visited, light_ids(self.nodes@));
        }
        match &self.nodes[u].variant {
            Variant::Entity(mesh, material) => {
                proof {
                    assert(self.drawn(now) =~= self.drawn(visited).insert(ui));
                    assert(self.lit(now) =~= self.lit(visited));
                    lemma_len_subset(self.drawn(now), entity_ids(self.nodes@));
                }
                let offset = layout.offset(draws.len());
                let parts = decompose(&w);
                let rotation = rotation_matrix(parts.1);
                draws.push(DrawItem { node: u, mesh: *mesh, material: *material, world: w, rotation, offset });
                proof {
                    let d = draws@;
                    let n = old_draws.len() as int;
                    assert(d[n].node == u);
                    assert forall|k: int| 0 <= k < d.len() implies self.draw_matches(*layout, #[trigger] d[k], k)
                        && now.contains(d[k].node as int) by {
                        if k < n {
                            assert(d[k] == old_draws[k]);
                        }
                    }
                    assert forall|a: int, b: int| 0 <= a < b < d.len() implies #[trigger] d[a].node
                        != #[trigger] d[b].node by {
                        assert(d[a] == old_draws[a]);
                        if b < n {
                            assert(d[b] == old_draws[b]);
                        } else {
                            assert(visited.contains(old_draws[a].node as int));
                        }
                    }
                    assert forall|x: int| #[trigger] self.drawn(now).contains(x) implies exists|k: int|
                        0 <= k < d.len() && #[trigger] d[k].node as int == x by {
                        if x == ui {
                            assert(d[n].node as int == x);
                        } else {
                            assert(self.drawn(visited).contains(x));
                            let k = choose|k: int| 0 <= k < old_draws.len() && #[trigger] old_draws[k].node as int == x;
                            assert(d[k] == old_draws[k]);
                        }
                    }
                    assert forall|k: int| 0 <= k < lights@.len() implies now.contains(#[trigger] lights@[k].node as int) by {
                        assert(visited.contains(lights@[k].node as int));
                    }
                    assert forall|x: int| #[trigger] self.lit(now).contains(x) implies exists|k: int|
                        0 <= k < lights@.len() && #[trigger] lights@[k].node as int == x by {
                        assert(self.lit(visited).contains(x));
                    }
                }
            },
            Variant::Light(params) => {
                proof {
                    assert(self.lit(now) =~= self.lit(visited).insert(ui));
                    assert(self.drawn(now) =~= self.drawn(visited));
                }
                let parts = decompose(&w);
                lights.push(Light { node: u, position: parts.2, params: *params });
                proof {
                    let l = lights@;
                    let n = old_lights.len() as int;
                    assert(l[n].node == u);
                    assert forall|k: int| 0 <= k < l.len() implies self.light_matches(#[trigger] l[k])
                        && now.contains(l[k].node as int) by {
                        if k < n {
                            assert(l[k] == old_lights[k]);
                        }
                    }
                    assert forall|a: int, b: int| 0 <= a < b < l.len() implies #[trigger] l[a].node
                        != #[trigger] l[b].node by {
                        assert(l[a] == old_lights[a]);
                        if b < n {
                            assert(l[b] == old_lights[b]);
                        } else {
                            assert(visited.contains(old_lights[a].node as int));
                        }
                    }
                    assert forall|x: int| #[trigger] self.lit(now).contains(x) implies exists|k: int|
                        0 <= k < l.len() && #[trigger] l[k].node as int == x by {
                        if x == ui {
                            assert(l[n].node as int == x);
                        } else {
                            assert(self.lit(visited).contains(x));
                            let k = choose|k: int| 0 <= k < old_lights.len() && #[trigger] old_lights[k].node as int == x;
                            assert(l[k] == old_lights[k]);
                        }
                    }
                    assert forall|k: int| 0 <= k < draws@.len() implies now.contains(#[trigger] draws@[k].node as int) by {
                        assert(visited.contains(draws@[k].node as int));
                    }
                    assert forall|x: int| #[trigger] self.drawn(now).contains(x) implies exists|k: int|
                        0 <= k < draws@.len() && #[trigger] draws@[k].node as int == x by {
                        assert(self.drawn(visited).contains(x));
                    }
                }
            },
            Variant::Group => {
                proof {
                    assert(self.lit(now) =~= self.lit(visited));
                    assert(self.drawn(now) =~= self.drawn(visited));
                    assert forall|k: int| 0 <= k < draws@.len() implies now.contains(#[trigger] draws@[k].node as int) by {
                        assert(visited.contains(draws@[k].node as int));
                    }
                    assert forall|k: int| 0 <= k < lights@.len() implies now.contains(#[trigger] lights@[k].node as int) by {
                        assert(visited.contains(lights@[k].node as int));
                    }
                }
            },
        }
    }

    /// Pushes the children of node `u`, whose world transform is `w`, each with
    /// its own world transform, in the order of the child list.
    fn push_children(
        &self,
        stack: &mut Vec<(usize, glam::Mat4)>,
        u: usize,
        w: glam::Mat4,
        Ghost(visited): Ghost<Set<int>>,
    )
        requires
            self.wf(),
            0 <= u < self.len(),
            self.attached(u as int),
            w == self.world(u as int),
            !visited.contains(u as int),
            forall|x: int|
                #[trigger] visited.contains(x) ==> x == ROOT || visited.contains(self.parent_of(x)),
            forall|k: int| 0 <= k < old(stack)@.len() ==> self.pending_ok(visited, #[trigger] old(stack)@[k]),
            forall|k: int| 0 <= k < old(stack)@.len() ==> #[trigger] old(stack)@[k].0 != u,
            forall|a: int, b: int|
                0 <= a < b < old(stack)@.len() ==> #[trigger] old(stack)@[a].0 != #[trigger] old(stack)@[b].0,
        ensures
            final(stack)@.len() == old(stack)@.len() + self.nodes@[u as int].children@.len(),
            forall|k: int| 0 <= k < old(stack)@.len() ==> #[trigger] final(stack)@[k] == old(stack)@[k],
            forall|k: int|
                0 <= k < self.nodes@[u as int].children@.len() ==> #[trigger] final(stack)@[old(stack)@.len()
                    + k].0 == self.nodes@[u as int].children@[k],
            forall|k: int|
                0 <= k < final(stack)@.len() ==> self.pending_ok(visited.insert(u as int), #[trigger] final(stack)@[k]),
            forall|a: int, b: int|
                0 <= a < b < final(stack)@.len() ==> #[trigger] final(stack)@[a].0 != #[trigger] final(stack)@[b].0,
    {
        let ghost ui = u as int;
        let ghost now = visited.insert(ui);
        let ghost mid = stack@;
        let node = &self.nodes[u];
        proof {
            assert forall|k: int| 0 <= k < mid.len() implies self.pending_ok(now, #[trigger] mid[k]) by {
                assert(self.pending_ok(visited, mid[k]));
            }
        }
        let mut j: usize = 0;
        while j < node.children.len()
            invariant
                self.wf(),
                0 <= ui < self.len(),
                ui == u as int,
                now == visited.insert(ui),
                *node == self.nodes@[ui],
                self.attached(ui),
                w == self.world(ui),
                forall|x: int|
                    #[trigger] visited.contains(x) ==> x == ROOT || visited.contains(self.parent_of(x)),
                !visited.contains(ui),
                forall|k: int| 0 <= k < mid.len() ==> self.pending_ok(visited, #[trigger] mid[k]),
                j <= node.children@.len(),
                stack@.len() == mid.len() + j,
                forall|k: int| 0 <= k < mid.len() ==> #[trigger] stack@[k] == mid[k],
                forall|k: int| 0 <= k < j ==> #[trigger] stack@[mid.len() + k].0 == node.children@[k],
                forall|k: int| 0 <= k < stack@.len() ==> self.pending_ok(now, #[trigger] stack@[k]),
                forall|a: int, b: int| 0 <= a < b < stack@.len() ==> #[trigger] stack@[a].0 != #[trigger] stack@[b].0,
            decreases node.children@.len() - j,
        {
            let c = node.children[j];
            let local = self.nodes[c].calculate_transform();
            let cw = multiply(&w, &local);
            let ghost before = stack@;
            let ghost ci = c as int;
            proof {
                assert(self.nodes@[ui].children@[j as int] == c);
                assert(ui < ci < self.len());
                assert(self.nodes@[ci].parent == Some(u));
                assert(self.parent_of(ci) == ui);
                assert(self.attached(ci));
                assert(self.world(ci) == cw);
                // `c` is neither visited nor pending: its parent was not visited before.
                assert(!now.contains(ci));
                assert forall|k: int| 0 <= k < before.len() implies #[trigger] before[k].0 != c by {
                    if k < mid.len() {
                        assert(before[k] == mid[k]);
                        assert(self.pending_ok(visited, mid[k]));
                    } else {
                        let jj = k - mid.len();
                        assert(before[mid.len() + jj].0 == node.children@[jj]);
                        assert(node.children@.no_duplicates());
                    }
                }
            }
            stack.push((c, cw));
            proof {
                let st = stack@;
                assert(self.pending_ok(now, st[before.len() as int]));
                assert forall|k: int| 0 <= k < st.len() implies self.pending_ok(now, #[trigger] st[k]) by {
                    if k < before.len() {
                        assert(st[k] == before[k]);
                    }
                }
                assert forall|a: int, b: int| 0 <= a < b < st.len() implies #[trigger] st[a].0 != #[trigger] st[b].0 by {
                    assert(st[a] == before[a]);
                    if b < before.len() {
                        assert(st[b] == before[b]);
                    }
                }
                assert forall|k: int| 0 <= k < mid.len() implies #[trigger] st[k] == mid[k] by {
                    assert(st[k] == before[k]);
                }
                assert forall|k: int| 0 <= k < j + 1 implies #[trigger] st[mid.len() + k].0 == node.children@[k] by {
                    if k < j {
                        assert(st[mid.len() + k] == before[mid.len() + k]);
                    }
                }
            }
            j = j + 1;
        }
    }

    /// Walks the nodes under the root and returns the frame's draw list and
    /// light list. Entity `k` of the draw list gets slot `k` of `layout`.
    pub fn flatten(&self, layout: &InstanceLayout) -> (plan: FramePlan<P>)
        requires
            self.wf(),
            layout.wf(),
            self.max_entities <= layout.capacity,
        ensures
            self.plan_matches(*layout, plan),
    {
        let mut stack: Vec<(usize, glam::Mat4)> = Vec::new();
        stack.push((ROOT, self.base));
        let mut draws: Vec<DrawItem> = Vec::new();
        let mut lights: Vec<Light<P>> = Vec::new();
        let ghost mut visited: Set<int> = Set::empty();
        proof {
            reveal(Scene::walk_inv);
            reveal(Scene::draws_inv);
            reveal(Scene::lights_inv);
            assert(stack@[0].0 as int == ROOT as int);
            assert(self.drawn(visited) =~= Set::<int>::empty());
            assert(self.lit(visited) =~= Set::<int>::empty());
        }
        while stack.len() > 0
            invariant
                self.wf(),
                layout.wf(),
                self.max_entities <= layout.capacity,
                self.walk_inv(visited, stack@),
                self.draws_inv(*layout, visited, draws@),
                self.lights_inv(visited, lights@),
                visited.subset_of(set_int_range(0, self.len())),
            decreases self.len() - visited.len(),
        {
            let ghost old_stack = stack@;
            let ghost old_visited = visited;
            let top = stack.pop().unwrap();
            let u = top.0;
            let w = top.1;
            let ghost ui = u as int;
            let ghost mid = stack@;
            proof {
                reveal(Scene::walk_inv);
                assert(old_stack[old_stack.len() - 1] == top);
                assert(mid =~= old_stack.subrange(0, old_stack.len() - 1));
                assert(self.pending_ok(old_visited, top));
                assert forall|k: int| 0 <= k < mid.len() implies #[trigger] mid[k].0 != u && self.pending_ok(
                    old_visited,
                    mid[k],
                ) by {
                    assert(mid[k] == old_stack[k]);
                }
                lemma_int_range(0, self.len());
                lemma_len_subset(old_visited.insert(ui), set_int_range(0, self.len()));
            }
            self.record(layout, u, w, &mut draws, &mut lights, Ghost(old_visited));
            self.push_children(&mut stack, u, w, Ghost(old_visited));
            proof {
                self.lemma_walk_step(old_visited, old_stack, mid, stack@, top);
                visited = old_visited.insert(ui);
            }
        }
        proof {
            reveal(Scene::walk_inv);
            reveal(Scene::draws_inv);
            reveal(Scene::lights_inv);
            assert(visited.contains(ROOT as int)) by {
                if !visited.contains(ROOT as int) {
                    assert(on_stack(stack@, ROOT as int));
                }
            }
            assert forall|y: int|
                0 < y < self.len() && self.attached(y) && visited.contains(#[trigger] self.parent_of(y))
                    implies visited.contains(y) by {
                if !visited.contains(y) {
                    assert(on_stack(stack@, y));
                }
            }
            assert forall|x: int|
                0 <= x < self.len() && self.attached(x) && (#[trigger] self.nodes@[x]).variant is Entity
                    implies exists|k: int| 0 <= k < draws@.len() && #[trigger] draws@[k].node as int == x by {
                self.lemma_visited_closed(visited, x);
                assert(self.drawn(visited).contains(x));
            }
            assert forall|x: int|
                0 <= x < self.len() && self.attached(x) && (#[trigger] self.nodes@[x]).variant is Light
                    implies exists|k: int| 0 <= k < lights@.len() && #[trigger] lights@[k].node as int == x by {
                self.lemma_visited_closed(visited, x);
                assert(self.lit(visited).contains(x));
            }
            vstd::set_lib::lemma_len_intersect(visited, entity_ids(self.nodes@));
            vstd::set_lib::lemma_len_intersect(visited, light_ids(self.nodes@));
            lemma_len_subset(self.drawn(visited), entity_ids(self.nodes@));
            lemma_len_subset(self.lit(visited), light_ids(self.nodes@));
        }
        FramePlan { draws, lights }
    }
}

} // verus!
