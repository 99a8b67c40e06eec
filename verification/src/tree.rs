//! Container hierarchy construction and malformed-hierarchy detection.
//!
//! The flat set of container components in one layer is turned into a
//! validated forest: an index-addressable node array with parent/child links
//! plus a root list, rebuilt fresh each layout pass. An entity named as a
//! child by two different containers, or a cycle among containers, makes the
//! hierarchy malformed: construction reports failure and yields no partial
//! result.

use vstd::prelude::*;
use crate::component_list::{
    lemma_sorted_index_unique, store_contains, store_index_of, ComponentList,
};
use crate::components::ComponentContainer;
use crate::entity::{Component, EntityID};
use crate::view::Layer;

verus! {

/// The mathematical shape of one tree node.
#[verifier::ext_equal]
pub ghost struct GNode {
    /// Index of the parent node, if any.
    pub parent: Option<int>,
    /// Indices of the child nodes.
    pub children: Seq<int>,
    /// Owning entity id of the container this node stands for.
    pub value: u16,
}

/// One work item of the depth-first build: a node and the children of its
/// rule still to attach.
#[verifier::ext_equal]
pub ghost struct GFrame {
    pub node: int,
    pub rest: Seq<EntityID>,
}

/// The state of the depth-first build.
#[verifier::ext_equal]
pub ghost struct BuildState {
    /// Nodes built so far.
    pub nodes: Seq<GNode>,
    /// Which containers (by store index) have been given a parent or made a
    /// root.
    pub claimed: Seq<bool>,
    /// Depth-first work stack; the build works on the last frame.
    pub stack: Seq<GFrame>,
}

/// Whether `id` is named as a child by any container of the store.
pub open spec fn is_child_of_any(cs: Seq<ComponentContainer>, id: EntityID) -> bool {
    exists|i: int| 0 <= i < cs.len() && (#[trigger] cs[i]).layout.spec_children().contains(id)
}

/// The store indices, in ascending order, of the containers among the first
/// `k` that no container names as a child.
pub open spec fn root_idxs_upto(cs: Seq<ComponentContainer>, k: nat) -> Seq<int>
    decreases k,
{
    if k == 0 || k > cs.len() {
        Seq::empty()
    } else if !is_child_of_any(cs, cs[k - 1].entity_id) {
        root_idxs_upto(cs, (k - 1) as nat).push(k - 1)
    } else {
        root_idxs_upto(cs, (k - 1) as nat)
    }
}

/// The store indices of the root containers: those no container names as a
/// child.
pub open spec fn root_idxs(cs: Seq<ComponentContainer>) -> Seq<int> {
    root_idxs_upto(cs, cs.len())
}

/// How many containers are still unclaimed.
pub open spec fn count_unclaimed(cl: Seq<bool>) -> nat
    decreases cl.len(),
{
    if cl.len() == 0 {
        0
    } else {
        (if cl[0] {
            0nat
        } else {
            1nat
        }) + count_unclaimed(cl.drop_first())
    }
}

/// Claiming an unclaimed container lowers the unclaimed count by one.
proof fn lemma_count_unclaimed_update(cl: Seq<bool>, i: int)
    requires
        0 <= i < cl.len(),
        !cl[i],
    ensures
        count_unclaimed(cl.update(i, true)) + 1 == count_unclaimed(cl),
    decreases cl.len(),
{
    if i == 0 {
        assert(cl.update(0, true).drop_first() =~= cl.drop_first());
    } else {
        assert(cl.update(i, true)[0] == cl[0]);
        assert(cl.update(i, true).drop_first() =~= cl.drop_first().update(i - 1, true));
        lemma_count_unclaimed_update(cl.drop_first(), i - 1);
    }
}

/// The number of children still to attach, over all frames of the stack.
pub open spec fn rest_total(stack: Seq<GFrame>) -> nat
    decreases stack.len(),
{
    if stack.len() == 0 {
        0
    } else {
        stack.last().rest.len() + rest_total(stack.drop_last())
    }
}

/// One depth-first build, run to completion: `None` when a container is
/// encountered that is already claimed (a second parent, or a cycle
/// revisiting a node), otherwise the finished node array.
pub open spec fn spec_run(cs: Seq<ComponentContainer>, st: BuildState) -> Option<Seq<GNode>>
    decreases count_unclaimed(st.claimed), rest_total(st.stack) + st.stack.len(),
    via spec_run_decreases
{
    if st.stack.len() == 0 {
        Some(st.nodes)
    } else {
        let fr = st.stack.last();
        if fr.rest.len() == 0 {
            spec_run(cs, BuildState { stack: st.stack.drop_last(), ..st })
        } else {
            let child = fr.rest[0];
            let stack1 = st.stack.update(
                st.stack.len() - 1,
                GFrame { node: fr.node, rest: fr.rest.drop_first() },
            );
            if !store_contains(cs, child.0) {
                // A reference to a non-container entity: ignored.
                spec_run(cs, BuildState { stack: stack1, ..st })
            } else {
                let ci = store_index_of(cs, child.0);
                if !(0 <= ci < st.claimed.len()) {
                    None
                } else if st.claimed[ci] {
                    // Already parented, or revisited: malformed.
                    None
                } else {
                    let ni = st.nodes.len() as int;
                    let pn = st.nodes[fr.node];
                    let nodes1 = st.nodes.update(
                        fr.node,
                        GNode { children: pn.children.push(ni), ..pn },
                    ).push(GNode { parent: Some(fr.node), children: Seq::empty(), value: child.0 });
                    let st1 = BuildState {
                        nodes: nodes1,
                        claimed: st.claimed.update(ci, true),
                        stack: stack1.push(
                            GFrame { node: ni, rest: cs[ci].layout.spec_children() },
                        ),
                    };
                    spec_run(cs, st1)
                }
            }
        }
    }
}

#[via_fn]
proof fn spec_run_decreases(cs: Seq<ComponentContainer>, st: BuildState) {
    if st.stack.len() == 0 {
    } else {
        let fr = st.stack.last();
        if fr.rest.len() == 0 {
        } else {
            let stack1 = st.stack.update(
                st.stack.len() - 1,
                GFrame { node: fr.node, rest: fr.rest.drop_first() },
            );
            assert(stack1.drop_last() =~= st.stack.drop_last());
            assert(rest_total(stack1) + 1 == rest_total(st.stack));
            let child = fr.rest[0];
            if store_contains(cs, child.0) {
                let ci = store_index_of(cs, child.0);
                if 0 <= ci < st.claimed.len() && !st.claimed[ci] {
                    lemma_count_unclaimed_update(st.claimed, ci);
                    let stack2 = stack1.push(
                        GFrame { node: st.nodes.len() as int, rest: cs[ci].layout.spec_children() },
                    );
                    assert(stack2.drop_last() =~= stack1);
                }
            }
        }
    }
}

/// The state the depth-first build starts from: one parentless node per
/// root, the work stack holding every root's children (first root on top),
/// nothing claimed yet.
pub open spec fn init_state(cs: Seq<ComponentContainer>) -> BuildState {
    let ridx = root_idxs(cs);
    BuildState {
        nodes: Seq::new(
            ridx.len(),
            |i: int| GNode { parent: None, children: Seq::empty(), value: cs[ridx[i]].entity_id.0 },
        ),
        claimed: Seq::new(cs.len(), |i: int| false),
        stack: Seq::new(
            ridx.len(),
            |i: int|
                GFrame {
                    node: ridx.len() - 1 - i,
                    rest: cs[ridx[ridx.len() - 1 - i]].layout.spec_children(),
                },
        ),
    }
}

/// The finished build for a container store: roots detected, every root's
/// subtree attached depth first, and the result checked to cover every
/// container (a leftover container sits on a cycle no root reaches).
pub open spec fn spec_build(cs: Seq<ComponentContainer>) -> Option<Seq<GNode>> {
    match spec_run(cs, init_state(cs)) {
        None => None,
        Some(nodes) => if nodes.len() == cs.len() {
            Some(nodes)
        } else {
            None
        },
    }
}

/// Hierarchy construction is a pure function of the container store: equal
/// stores yield equal forests, so running construction twice on an unchanged
/// store gives the same parent/child relationships and the same roots.
pub proof fn lemma_build_idempotent(cs1: Seq<ComponentContainer>, cs2: Seq<ComponentContainer>)
    requires
        cs1 == cs2,
    ensures
        spec_build(cs1) == spec_build(cs2),
{
}

/// Whether some node other than `idx` itself lists `idx` among its children.
pub open spec fn is_child_index(nodes: Seq<GNode>, idx: int) -> bool {
    exists|j: int, k: int|
        #![trigger nodes[j].children[k]]
        0 <= j < nodes.len() && j != idx && 0 <= k < nodes[j].children.len()
            && nodes[j].children[k] == idx
}

proof fn lemma_is_child_witness(nodes: Seq<GNode>, idx: int, j: int, k: int)
    requires
        0 <= j < nodes.len(),
        j != idx,
        0 <= k < nodes[j].children.len(),
        nodes[j].children[k] == idx,
    ensures
        is_child_index(nodes, idx),
{
}

/// The root node indices among the first `m` nodes, ascending.
pub open spec fn root_list_upto(nodes: Seq<GNode>, m: nat) -> Seq<int>
    decreases m,
{
    if m == 0 || m > nodes.len() {
        Seq::empty()
    } else if !is_child_index(nodes, m - 1) {
        root_list_upto(nodes, (m - 1) as nat).push(m - 1)
    } else {
        root_list_upto(nodes, (m - 1) as nat)
    }
}

/// The indices of the tree's root nodes: those no other node lists as a
/// child.
pub open spec fn spec_roots(nodes: Seq<GNode>) -> Seq<int> {
    root_list_upto(nodes, nodes.len())
}

/// Every node's parent comes before it in the array: parents are built
/// before their children, so a single forward pass can rely on parent data.
pub open spec fn tree_parents_before(nodes: Seq<GNode>) -> bool {
    forall|i: int|
        0 <= i < nodes.len() ==> match (#[trigger] nodes[i]).parent {
            Some(p) => 0 <= p < i,
            None => true,
        }
}

/// A node's links all point inside a node array of length `len`.
pub open spec fn node_wf(n: GNode, len: int) -> bool {
    &&& match n.parent {
        Some(p) => 0 <= p < len,
        None => true,
    }
    &&& forall|j: int| 0 <= j < n.children.len() ==> 0 <= #[trigger] n.children[j] < len
}

/// Every parent and child link of the node array points inside the array.
pub open spec fn tree_nodes_wf(nodes: Seq<GNode>) -> bool {
    forall|i: int| 0 <= i < nodes.len() ==> node_wf(#[trigger] nodes[i], nodes.len() as int)
}

/// One node of the hierarchy. All nodes of a tree live in one flat array and
/// refer to each other by index, so the structure can be rebuilt cheaply
/// each frame and traversed without owned references.
pub struct EntityTreeNode {
    /// Parent node, index into the array.
    pub parent: Option<usize>,
    /// Child nodes, indexes into the array.
    pub children: Vec<usize>,
    /// Owning entity of the container this node stands for.
    pub value: EntityID,
}

impl View for EntityTreeNode {
    type V = GNode;

    open spec fn view(&self) -> GNode {
        GNode {
            parent: match self.parent {
                None => None,
                Some(p) => Some(p as int),
            },
            children: self.children@.map_values(|c: usize| c as int),
            value: self.value.0,
        }
    }
}

/// The validated forest built from one layer's container components.
pub struct EntityTree {
    nodes: Vec<EntityTreeNode>,
}

impl View for EntityTree {
    type V = Seq<GNode>;

    closed spec fn view(&self) -> Seq<GNode> {
        self.nodes@.map_values(|n: EntityTreeNode| n@)
    }
}

/// Whether `id` is named as a child by any container of the store.
fn is_child_of_any_exec(cs: &ComponentList<ComponentContainer>, id: EntityID) -> (r: bool)
    ensures
        r == is_child_of_any(cs@, id),
{
    let n = cs.len();
    let mut i: usize = 0;
    while i < n
        invariant
            i <= n == cs@.len(),
            forall|j: int| 0 <= j < i ==> !(#[trigger] cs@[j]).layout.spec_children().contains(id),
        decreases n - i,
    {
        let ch = cs.get(i).layout.get_children();
        let m = ch.len();
        let mut k: usize = 0;
        while k < m
            invariant
                k <= m == ch@.len(),
                ch@ == cs@[i as int].layout.spec_children(),
                i < cs@.len(),
                forall|t: int| 0 <= t < k ==> ch@[t] != id,
            decreases m - k,
        {
            if ch[k] == id {
                proof {
                    assert(cs@[i as int].layout.spec_children().contains(id));
                }
                return true;
            }
            k = k + 1;
        }
        proof {
            assert(!cs@[i as int].layout.spec_children().contains(id));
        }
        i = i + 1;
    }
    false
}

/// One work item of the exec build: a node, its rule's children, and how
/// many of them have been consumed.
struct BuildFrame {
    node: usize,
    rest: Vec<EntityID>,
    next: usize,
}

spec fn abs_frame(f: BuildFrame) -> GFrame {
    GFrame { node: f.node as int, rest: f.rest@.skip(f.next as int) }
}

spec fn abs_stack(s: Seq<BuildFrame>) -> Seq<GFrame> {
    s.map_values(|f: BuildFrame| abs_frame(f))
}

spec fn abs_nodes(ns: Seq<EntityTreeNode>) -> Seq<GNode> {
    ns.map_values(|n: EntityTreeNode| n@)
}

spec fn abs_state(ns: Seq<EntityTreeNode>, cl: Seq<bool>, stk: Seq<BuildFrame>) -> BuildState {
    BuildState { nodes: abs_nodes(ns), claimed: cl, stack: abs_stack(stk) }
}

impl EntityTree {
    /// How many nodes the tree holds.
    pub fn len(&self) -> (r: usize)
        ensures
            r == self@.len(),
    {
        self.nodes.len()
    }

    /// The node at an index.
    pub fn get_node(&self, index: usize) -> (r: &EntityTreeNode)
        requires
            index < self@.len(),
        ensures
            r@ == self@[index as int],
    {
        &self.nodes[index]
    }

    /// Whether some other node of the tree lists `idx` among its children.
    fn node_is_child(&self, idx: usize) -> (r: bool)
        ensures
            r == is_child_index(self@, idx as int),
    {
        let n = self.nodes.len();
        let mut j: usize = 0;
        while j < n
            invariant
                n == self@.len(),
                j <= n,
                forall|a: int, b: int|
                    0 <= a < j && a != idx && 0 <= b < self@[a].children.len() ==> #[trigger] self@[a].children[b] != idx,
            decreases n - j,
        {
            if j != idx {
                let m = self.nodes[j].children.len();
                let mut k: usize = 0;
                while k < m
                    invariant
                        n == self@.len(),
                        j < n,
                        j != idx,
                        m == self@[j as int].children.len(),
                        k <= m,
                        forall|b: int| 0 <= b < k ==> #[trigger] self@[j as int].children[b] != idx,
                    decreases m - k,
                {
                    if self.nodes[j].children[k] == idx {
                        proof {
                            assert(self@[j as int].children[k as int] == idx);
                            lemma_is_child_witness(self@, idx as int, j as int, k as int);
                        }
                        return true;
                    }
                    k = k + 1;
                }
            }
            j = j + 1;
        }
        false
    }

    /// The indices of the root nodes of this tree: those no other node lists
    /// as a child.
    pub fn get_roots(&self) -> (r: Vec<usize>)
        ensures
            r@.map_values(|u: usize| u as int) == spec_roots(self@),
            forall|k: int| 0 <= k < r@.len() ==> (#[trigger] r@[k]) < self@.len(),
    {
        let n = self.nodes.len();
        let mut roots: Vec<usize> = Vec::new();
        let mut i: usize = 0;
        while i < n
            invariant
                n == self@.len(),
                i <= n,
                roots@.map_values(|u: usize| u as int) == root_list_upto(self@, i as nat),
                forall|k: int| 0 <= k < roots@.len() ==> (#[trigger] roots@[k]) < i,
            decreases n - i,
        {
            let ghost pre = roots@;
            if !self.node_is_child(i) {
                roots.push(i);
                proof {
                    assert(roots@.map_values(|u: usize| u as int) =~= pre.map_values(
                        |u: usize| u as int,
                    ).push(i as int));
                }
            }
            i = i + 1;
        }
        roots
    }

    /// Looks at a layer's container list and checks whether the hierarchy is
    /// malformed (circular, or some child with more than one parent).
    /// - If malformed, returns `None`.
    /// - Otherwise builds a new `EntityTree` from the layer's container list.
    pub fn new_from_layer(layer: &Layer) -> (r: Option<EntityTree>)
        requires
            layer.component_container.wf(),
        ensures
            match r {
                None => spec_build(layer.component_container@) is None,
                Some(t) => spec_build(layer.component_container@) == Some(t@) && tree_nodes_wf(
                    t@,
                ) && tree_parents_before(t@),
            },
    {
        Self::new_from_containers(&layer.component_container)
    }

    /// Builds the forest from a container store, or reports a malformed
    /// hierarchy as `None`.
    pub fn new_from_containers(cs: &ComponentList<ComponentContainer>) -> (r: Option<EntityTree>)
        requires
            cs.wf(),
        ensures
            match r {
                None => spec_build(cs@) is None,
                Some(t) => spec_build(cs@) == Some(t@) && tree_nodes_wf(t@)
                    && tree_parents_before(t@),
            },
    {
        let n = cs.len();
        // Root detection: a container is a root iff no container names it as
        // a child.
        let mut root_idx: Vec<usize> = Vec::new();
        let mut i: usize = 0;
        while i < n
            invariant
                cs.wf(),
                i <= n == cs@.len(),
                root_idx@.map_values(|u: usize| u as int) == root_idxs_upto(cs@, i as nat),
                forall|k: int| 0 <= k < root_idx@.len() ==> (#[trigger] root_idx@[k]) < i,
            decreases n - i,
        {
            let c = cs.get(i);
            let ghost pre = root_idx@;
            if !is_child_of_any_exec(cs, c.entity_id) {
                root_idx.push(i);
                proof {
                    assert(root_idx@.map_values(|u: usize| u as int) =~= pre.map_values(
                        |u: usize| u as int,
                    ).push(i as int));
                }
            }
            i = i + 1;
        }
        proof {
            assert(root_idx@.map_values(|u: usize| u as int) == root_idxs(cs@));
        }
        let nr = root_idx.len();

        // One parentless node per root, in store order.
        let mut nodes: Vec<EntityTreeNode> = Vec::new();
        let mut k: usize = 0;
        while k < nr
            invariant
                cs.wf(),
                nr == root_idx@.len(),
                root_idx@.map_values(|u: usize| u as int) == root_idxs(cs@),
                forall|j: int| 0 <= j < nr ==> (#[trigger] root_idx@[j]) < cs@.len(),
                k <= nr,
                nodes@.len() == k,
                forall|j: int|
                    0 <= j < k ==> (#[trigger] nodes@[j])@ == (GNode {
                        parent: None,
                        children: Seq::empty(),
                        value: cs@[root_idx@[j] as int].entity_id.0,
                    }),
            decreases nr - k,
        {
            let ri = root_idx[k];
            nodes.push(
                EntityTreeNode { parent: None, children: Vec::new(), value: cs.get(ri).entity_id },
            );
            proof {
                assert(nodes@[k as int]@.children =~= Seq::<int>::empty());
            }
            k = k + 1;
        }
        proof {
            assert(abs_nodes(nodes@) =~~= init_state(cs@).nodes);
        }

        // Nothing claimed yet.
        let mut claimed: Vec<bool> = Vec::new();
        let mut k2: usize = 0;
        while k2 < n
            invariant
                k2 <= n,
                claimed@.len() == k2,
                forall|j: int| 0 <= j < k2 ==> !(#[trigger] claimed@[j]),
            decreases n - k2,
        {
            claimed.push(false);
            k2 = k2 + 1;
        }
        proof {
            assert(claimed@ =~= init_state(cs@).claimed);
        }

        // Work stack: one frame per root, the first root on top.
        let mut stack: Vec<BuildFrame> = Vec::new();
        let mut k3: usize = 0;
        while k3 < nr
            invariant
                cs.wf(),
                nr == root_idx@.len(),
                root_idx@.map_values(|u: usize| u as int) == root_idxs(cs@),
                forall|j: int| 0 <= j < nr ==> (#[trigger] root_idx@[j]) < cs@.len(),
                k3 <= nr,
                stack@.len() == k3,
                forall|j: int|
                    0 <= j < k3 ==> {
                        &&& abs_frame(#[trigger] stack@[j]) == (GFrame {
                            node: nr - 1 - j,
                            rest: cs@[root_idx@[nr - 1 - j] as int].layout.spec_children(),
                        })
                        &&& stack@[j].next == 0
                        &&& stack@[j].node == nr - 1 - j
                    },
            decreases nr - k3,
        {
            let ri = root_idx[nr - 1 - k3];
            let ch = cs.get(ri).layout.get_children();
            stack.push(BuildFrame { node: nr - 1 - k3, rest: ch, next: 0 });
            proof {
                assert(stack@[k3 as int].rest@.skip(0) =~= stack@[k3 as int].rest@);
            }
            k3 = k3 + 1;
        }
        proof {
            assert(abs_stack(stack@) =~~= init_state(cs@).stack);
            assert(abs_state(nodes@, claimed@, stack@) =~~= init_state(cs@));
        }

        // Depth-first attachment, mirroring one `spec_run` step per
        // iteration.
        while stack.len() > 0
            invariant
                cs.wf(),
                n == cs@.len(),
                claimed@.len() == n,
                spec_run(cs@, abs_state(nodes@, claimed@, stack@)) == spec_run(
                    cs@,
                    init_state(cs@),
                ),
                forall|j: int|
                    0 <= j < stack@.len() ==> (#[trigger] stack@[j]).node < nodes@.len()
                        && stack@[j].next <= stack@[j].rest@.len(),
                tree_nodes_wf(abs_nodes(nodes@)),
                tree_parents_before(abs_nodes(nodes@)),
            decreases count_unclaimed(claimed@), rest_total(abs_stack(stack@)) + stack@.len(),
        {
            let ghost pre = abs_state(nodes@, claimed@, stack@);
            let top = stack.len() - 1;
            let cur_next = stack[top].next;
            let cur_len = stack[top].rest.len();
            let cur_node = stack[top].node;
            proof {
                assert(abs_stack(stack@).last() == abs_frame(stack@[top as int]));
            }
            if cur_next >= cur_len {
                // This frame's children are all attached.
                stack.pop();
                proof {
                    assert(abs_stack(stack@) =~= pre.stack.drop_last());
                    assert(abs_state(nodes@, claimed@, stack@) =~~= BuildState {
                        stack: pre.stack.drop_last(),
                        ..pre
                    });
                    assert(spec_run(cs@, pre) == spec_run(
                        cs@,
                        abs_state(nodes@, claimed@, stack@),
                    ));
                    assert(rest_total(pre.stack) == rest_total(abs_stack(stack@)));
                }
            } else {
                let child: EntityID = stack[top].rest[cur_next];
                {
                    let f = &mut stack[top];
                    f.next = cur_next + 1;
                }
                let ghost fr = pre.stack.last();
                let ghost stack1 = pre.stack.update(
                    pre.stack.len() - 1,
                    GFrame { node: fr.node, rest: fr.rest.drop_first() },
                );
                proof {
                    assert(child == fr.rest[0]);
                    assert(abs_frame(stack@[top as int]).rest =~= fr.rest.drop_first());
                    assert(abs_stack(stack@) =~~= stack1);
                    assert(rest_total(stack1) + 1 == rest_total(pre.stack)) by {
                        assert(stack1.drop_last() =~= pre.stack.drop_last());
                    }
                }
                match cs.get_component_index(child) {
                    None => {
                        proof {
                            assert(abs_state(nodes@, claimed@, stack@) =~~= BuildState {
                                stack: stack1,
                                ..pre
                            });
                            assert(spec_run(cs@, pre) == spec_run(
                                cs@,
                                abs_state(nodes@, claimed@, stack@),
                            ));
                        }
                    }
                    Some(ci) => {
                        proof {
                            lemma_sorted_index_unique(
                                cs@,
                                ci as int,
                                store_index_of(cs@, child.0),
                            );
                        }
                        if claimed[ci] {
                            // The child already has a parent, or the walk
                            // came back to it: malformed hierarchy.
                            proof {
                                assert(spec_run(cs@, pre) is None);
                            }
                            return None;
                        }
                        let ni = nodes.len();
                        let ghost pre_nodes = nodes@;
                        {
                            let pn = &mut nodes[cur_node];
                            pn.children.push(ni);
                        }
                        nodes.push(
                            EntityTreeNode {
                                parent: Some(cur_node),
                                children: Vec::new(),
                                value: child,
                            },
                        );
                        claimed.set(ci, true);
                        let ch = cs.get(ci).layout.get_children();
                        stack.push(BuildFrame { node: ni, rest: ch, next: 0 });
                        proof {
                            let pn_g = pre.nodes[cur_node as int];
                            let nodes1 = pre.nodes.update(
                                cur_node as int,
                                GNode { children: pn_g.children.push(ni as int), ..pn_g },
                            ).push(
                                GNode { parent: Some(cur_node as int), children: Seq::empty(), value: child.0 },
                            );
                            assert(nodes@[cur_node as int]@.children =~= pn_g.children.push(
                                ni as int,
                            ));
                            assert(nodes@[ni as int]@.children =~= Seq::<int>::empty());
                            assert(abs_nodes(nodes@) =~~= nodes1);
                            let ghost top_new = stack@.len() - 1;
                            assert(stack@[top_new].rest@.skip(0) =~= stack@[top_new].rest@);
                            assert(abs_stack(stack@) =~~= stack1.push(
                                GFrame { node: ni as int, rest: cs@[ci as int].layout.spec_children() },
                            ));
                            assert(abs_state(nodes@, claimed@, stack@) =~~= BuildState {
                                nodes: nodes1,
                                claimed: pre.claimed.update(ci as int, true),
                                stack: stack1.push(
                                    GFrame {
                                        node: ni as int,
                                        rest: cs@[ci as int].layout.spec_children(),
                                    },
                                ),
                            });
                            assert(spec_run(cs@, pre) == spec_run(
                                cs@,
                                abs_state(nodes@, claimed@, stack@),
                            ));
                            lemma_count_unclaimed_update(pre.claimed, ci as int);
                            assert(rest_total(abs_stack(stack@)) == rest_total(stack1)
                                + cs@[ci as int].layout.spec_children().len()) by {
                                assert(abs_stack(stack@).drop_last() =~= stack1);
                            }
                            assert(tree_nodes_wf(abs_nodes(nodes@)));
                            assert(tree_parents_before(abs_nodes(nodes@)));
                        }
                    }
                }
            }
        }
        proof {
            assert(abs_stack(stack@) =~= Seq::<GFrame>::empty());
            assert(spec_run(cs@, abs_state(nodes@, claimed@, stack@)) == Some(abs_nodes(nodes@)));
        }
        if nodes.len() == n {
            let t = EntityTree { nodes };
            Some(t)
        } else {
            None
        }
    }
}

} // verus!
