//! The boosted model: an append-only vector of shallow tree nodes.
//!
//! Each node is a weak rule over one binned feature. The node at index 0 is
//! the synthetic root that carries the global label-balancing prediction; it
//! is built with threshold `u8::MAX`, so its left prediction applies to every
//! example. A node, once created, is never removed and its split and
//! predictions are never rewritten; only its list of children grows.

use vstd::prelude::*;
use vstd::pervasive::VecAdditionalExecFns;

verus! {

/// Magnitude cap (`100.0`, fixed point) on a single node prediction.
pub const PRED_LIMIT: i64 = 100_000_000;

/// Cap on the number of nodes a model may hold.
pub const MAX_MODEL_SIZE: usize = 1_000_000;

/// One node of the model.
pub struct TreeNode {
    /// Index of the parent node; `None` for the synthetic root and for the
    /// root of a newly started tree.
    pub parent: Option<usize>,
    /// `0` only for the synthetic root; a new tree root has depth `1`.
    pub depth: usize,
    /// The binned feature the node splits on.
    pub feature: usize,
    /// Bin code compared against the feature value.
    pub threshold: u8,
    /// Prediction (fixed point) when `features[feature] <= threshold`.
    pub pred_left: i64,
    /// Prediction (fixed point) when `features[feature] > threshold`.
    pub pred_right: i64,
    /// Indices of the node's children, in creation order.
    pub children: Vec<usize>,
    /// Whether the node has no children yet.
    pub is_leaf: bool,
}

/// One atomic node extension inside an [`UpdateList`].
pub struct NodeUpdate {
    /// The node to extend; ignored when `is_new_tree_root` is set.
    pub parent_node_id: usize,
    /// The binned feature of the new node's split.
    pub split_feature: usize,
    /// Bin code of the new node's split.
    pub threshold: u8,
    /// When set the new node starts a fresh tree at depth 1 with no parent.
    pub is_new_tree_root: bool,
    /// The empirical edge (fixed point) the candidate was accepted with.
    pub gamma_estimate: u64,
    /// Prediction (fixed point) of the new node's left side.
    pub left_prediction: i64,
    /// Prediction (fixed point) of the new node's right side.
    pub right_prediction: i64,
}

impl NodeUpdate {
    /// Predictions stay within the cap the model demands.
    pub open spec fn wf(self) -> bool {
        &&& -PRED_LIMIT <= self.left_prediction <= PRED_LIMIT
        &&& -PRED_LIMIT <= self.right_prediction <= PRED_LIMIT
    }
}

/// An ordered batch of node extensions, applied to a model atomically.
pub struct UpdateList {
    /// The extensions, in application order.
    pub updates: Vec<NodeUpdate>,
}

impl UpdateList {
    pub open spec fn wf(self) -> bool {
        forall|k: int| 0 <= k < self.updates.len() ==> (#[trigger] self.updates[k]).wf()
    }

    /// A patch is applicable at model length `len` when every entry that
    /// extends an existing node names one that exists when the entry is
    /// applied (earlier entries of the same patch included).
    pub open spec fn applicable_at(self, len: int) -> bool {
        forall|k: int| 0 <= k < self.updates.len() ==>
            ((#[trigger] self.updates[k]).is_new_tree_root || self.updates[k].parent_node_id < len + k)
    }

    /// An empty update list.
    pub fn new() -> (r: UpdateList)
        ensures
            r.updates@.len() == 0,
            r.wf(),
    {
        UpdateList { updates: Vec::new() }
    }

    /// Append one extension.
    pub fn add(
        &mut self,
        parent_node_id: usize,
        split_feature: usize,
        threshold: u8,
        is_new_tree_root: bool,
        gamma_estimate: u64,
        left_prediction: i64,
        right_prediction: i64,
    )
        requires
            -PRED_LIMIT <= left_prediction <= PRED_LIMIT,
            -PRED_LIMIT <= right_prediction <= PRED_LIMIT,
            old(self).updates@.len() < usize::MAX,
        ensures
            final(self).updates@ == old(self).updates@.push(NodeUpdate {
                parent_node_id,
                split_feature,
                threshold,
                is_new_tree_root,
                gamma_estimate,
                left_prediction,
                right_prediction,
            }),
            old(self).wf() ==> final(self).wf(),
    {
        self.updates.push(NodeUpdate {
            parent_node_id,
            split_feature,
            threshold,
            is_new_tree_root,
            gamma_estimate,
            left_prediction,
            right_prediction,
        });
        assert(old(self).wf() ==> self.wf()) by {
            if old(self).wf() {
                assert forall|k: int| 0 <= k < self.updates@.len() implies
                    (#[trigger] self.updates@[k]).wf() by {
                    if k < old(self).updates@.len() {
                        assert(old(self).updates@[k].wf());
                    }
                }
            }
        };
    }

    /// Number of extensions carried.
    pub fn size(&self) -> (r: usize)
        ensures
            r == self.updates@.len(),
    {
        self.updates.len()
    }
}

/// What a single node predicts (fixed point) for a feature vector: its left
/// prediction when the binned feature value is at or below the threshold,
/// its right prediction otherwise. A node whose feature lies outside the
/// vector contributes its left prediction.
pub open spec fn spec_node_predict(n: TreeNode, feats: Seq<u8>) -> int {
    if n.feature < feats.len() {
        if feats[n.feature as int] <= n.threshold {
            n.pred_left as int
        } else {
            n.pred_right as int
        }
    } else {
        n.pred_left as int
    }
}

/// Sum of the predictions of the nodes with indices in `[from, to)`.
pub open spec fn spec_predict_range(nodes: Seq<TreeNode>, feats: Seq<u8>, from: int, to: int) -> int
    decreases to - from,
{
    if from >= to {
        0
    } else {
        spec_predict_range(nodes, feats, from, to - 1) + spec_node_predict(nodes[to - 1], feats)
    }
}

/// The core of a node: everything except the growing list of children and
/// the derived leaf flag.
pub open spec fn node_core_eq(a: TreeNode, b: TreeNode) -> bool {
    &&& a.parent == b.parent
    &&& a.depth == b.depth
    &&& a.feature == b.feature
    &&& a.threshold == b.threshold
    &&& a.pred_left == b.pred_left
    &&& a.pred_right == b.pred_right
}

/// The model: the global vector of tree nodes.
pub struct Model {
    /// The nodes; a node's id is its index, and indices are stable.
    pub nodes: Vec<TreeNode>,
}

impl Model {
    /// Structural well-formedness: bounded size and predictions, parents
    /// created before their children, depths one more than the parent's
    /// (depth at most 1 for parentless nodes), children indices in range.
    pub open spec fn wf(self) -> bool {
        &&& self.nodes@.len() <= MAX_MODEL_SIZE
        &&& forall|i: int| 0 <= i < self.nodes@.len() ==> self.node_wf(i, #[trigger] self.nodes@[i])
    }

    pub open spec fn node_wf(self, i: int, n: TreeNode) -> bool {
        &&& -PRED_LIMIT <= n.pred_left <= PRED_LIMIT
        &&& -PRED_LIMIT <= n.pred_right <= PRED_LIMIT
        &&& match n.parent {
            Some(p) => p < i && n.depth == self.nodes@[p as int].depth + 1,
            None => n.depth <= 1,
        }
        &&& n.depth <= i
        &&& forall|c: int| 0 <= c < n.children@.len() ==> #[trigger] n.children@[c] < self.nodes@.len()
        &&& (n.is_leaf <==> n.children@.len() == 0)
    }

    /// A fresh model holding only the synthetic root with the given constant
    /// prediction.
    pub fn new_root(prediction: i64) -> (r: Model)
        requires
            -PRED_LIMIT <= prediction <= PRED_LIMIT,
        ensures
            r.wf(),
            r.nodes@.len() == 1,
            r.nodes@[0].depth == 0,
            r.nodes@[0].parent == Option::<usize>::None,
            r.nodes@[0].pred_left == prediction,
            r.nodes@[0].pred_right == prediction,
            r.nodes@[0].threshold == u8::MAX,
    {
        let root = TreeNode {
            parent: None,
            depth: 0,
            feature: 0,
            threshold: u8::MAX,
            pred_left: prediction,
            pred_right: prediction,
            children: Vec::new(),
            is_leaf: true,
        };
        let mut nodes = Vec::new();
        nodes.push(root);
        Model { nodes }
    }

    /// Number of nodes.
    pub fn size(&self) -> (r: usize)
        ensures
            r == self.nodes@.len(),
    {
        self.nodes.len()
    }

    /// What one node predicts for an example's feature vector.
    pub fn node_predict(&self, i: usize, feats: &Vec<u8>) -> (r: i64)
        requires
            i < self.nodes@.len(),
        ensures
            r == spec_node_predict(self.nodes@[i as int], feats@),
    {
        let n = &self.nodes[i];
        if n.feature < feats.len() {
            if feats[n.feature] <= n.threshold {
                n.pred_left
            } else {
                n.pred_right
            }
        } else {
            n.pred_left
        }
    }

    /// Sum (fixed point) of the predictions of the nodes in `[from, to)`:
    /// the score contribution of that slice of the model.
    pub fn predict_range(&self, feats: &Vec<u8>, from: usize, to: usize) -> (r: i64)
        requires
            self.wf(),
            from <= to <= self.nodes@.len(),
        ensures
            r == spec_predict_range(self.nodes@, feats@, from as int, to as int),
            -((to - from) as int) * PRED_LIMIT <= r <= ((to - from) as int) * PRED_LIMIT,
    {
        let mut acc: i64 = 0;
        let mut i: usize = from;
        proof {
            lemma_predict_range_bounded(self.nodes@, feats@, from as int, from as int);
        }
        while i < to
            invariant
                self.wf(),
                from <= i <= to <= self.nodes@.len(),
                acc == spec_predict_range(self.nodes@, feats@, from as int, i as int),
                -(i - from) * PRED_LIMIT <= acc <= (i - from) * PRED_LIMIT,
            decreases to - i,
        {
            let p = self.node_predict(i, feats);
            proof {
                assert(self.node_wf(i as int, self.nodes@[i as int]));
                assert(-(i + 1 - from) * PRED_LIMIT <= acc + p <= (i + 1 - from) * PRED_LIMIT)
                    by (nonlinear_arith)
                    requires
                        -(i - from) * PRED_LIMIT <= acc <= (i - from) * PRED_LIMIT,
                        -PRED_LIMIT <= p <= PRED_LIMIT;
                assert(-(MAX_MODEL_SIZE as int) * PRED_LIMIT <= acc + p
                    <= (MAX_MODEL_SIZE as int) * PRED_LIMIT) by (nonlinear_arith)
                    requires
                        -(i + 1 - from) * PRED_LIMIT <= acc + p <= (i + 1 - from) * PRED_LIMIT,
                        i + 1 - from <= MAX_MODEL_SIZE;
            }
            acc = acc + p;
            i = i + 1;
        }
        acc
    }

    /// A fresh model with the same nodes.
    pub fn duplicate(&self) -> (r: Model)
        ensures
            r.nodes@.len() == self.nodes@.len(),
            forall|i: int| 0 <= i < self.nodes@.len() ==> {
                &&& node_core_eq(#[trigger] r.nodes@[i], self.nodes@[i])
                &&& r.nodes@[i].children@ == self.nodes@[i].children@
                &&& r.nodes@[i].is_leaf == self.nodes@[i].is_leaf
            },
            self.wf() ==> r.wf(),
            self.prefix_of(r),
            r.prefix_of(*self),
    {
        let mut nodes: Vec<TreeNode> = Vec::new();
        let mut i: usize = 0;
        while i < self.nodes.len()
            invariant
                i <= self.nodes@.len(),
                nodes@.len() == i,
                forall|j: int| 0 <= j < i ==> {
                    &&& node_core_eq(#[trigger] nodes@[j], self.nodes@[j])
                    &&& nodes@[j].children@ == self.nodes@[j].children@
                    &&& nodes@[j].is_leaf == self.nodes@[j].is_leaf
                },
            decreases self.nodes@.len() - i,
        {
            let n = &self.nodes[i];
            nodes.push(TreeNode {
                parent: n.parent,
                depth: n.depth,
                feature: n.feature,
                threshold: n.threshold,
                pred_left: n.pred_left,
                pred_right: n.pred_right,
                children: copy_indices(&n.children),
                is_leaf: n.is_leaf,
            });
            i = i + 1;
        }
        let r = Model { nodes };
        proof {
            if self.wf() {
                assert forall|i: int| 0 <= i < r.nodes@.len() implies
                    r.node_wf(i, #[trigger] r.nodes@[i]) by {
                    assert(self.node_wf(i, self.nodes@[i]));
                }
            }
        }
        r
    }

    /// Runtime check of the structural invariant, for models that arrive
    /// over the network: accept a model only when `wf` actually holds of it.
    pub fn validate(&self) -> (r: bool)
        ensures
            r == self.wf(),
    {
        if self.nodes.len() > MAX_MODEL_SIZE {
            return false;
        }
        let mut i: usize = 0;
        while i < self.nodes.len()
            invariant
                i <= self.nodes@.len(),
                self.nodes@.len() <= MAX_MODEL_SIZE,
                forall|j: int| 0 <= j < i ==> self.node_wf(j, #[trigger] self.nodes@[j]),
            decreases self.nodes@.len() - i,
        {
            let n = &self.nodes[i];
            if n.pred_left > PRED_LIMIT || n.pred_left < -PRED_LIMIT {
                return false;
            }
            if n.pred_right > PRED_LIMIT || n.pred_right < -PRED_LIMIT {
                return false;
            }
            if n.depth > i {
                return false;
            }
            match n.parent {
                Some(p) => {
                    if p >= i {
                        return false;
                    }
                    if n.depth != self.nodes[p].depth + 1 {
                        return false;
                    }
                },
                None => {
                    if n.depth > 1 {
                        return false;
                    }
                },
            }
            let mut c: usize = 0;
            let n = &self.nodes[i];
            while c < n.children.len()
                invariant
                    c <= n.children@.len(),
                    n == self.nodes@[i as int],
                    i < self.nodes@.len(),
                    forall|k: int| 0 <= k < c ==> #[trigger] n.children@[k] < self.nodes@.len(),
                decreases n.children@.len() - c,
            {
                if n.children[c] >= self.nodes.len() {
                    return false;
                }
                c = c + 1;
            }
            if n.is_leaf != (n.children.len() == 0) {
                return false;
            }
            i = i + 1;
        }
        true
    }

    /// `self` is a snapshot that `other` extends: same nodes below
    /// `self.nodes.len()` (children may have grown), indices stable.
    pub open spec fn prefix_of(self, other: Model) -> bool {
        &&& self.nodes@.len() <= other.nodes@.len()
        &&& forall|i: int| 0 <= i < self.nodes@.len() ==> {
            &&& node_core_eq(#[trigger] self.nodes@[i], other.nodes@[i])
            &&& self.nodes@[i].children@.is_prefix_of(other.nodes@[i].children@)
        }
    }

    /// Apply an update list: each entry appends exactly one node, as a child
    /// of the named parent or as the root of a new tree. Returns the depths
    /// of the created nodes, in order.
    #[verifier::rlimit(60)]
    pub fn append_patch(&mut self, patch: &UpdateList) -> (new_depths: Vec<usize>)
        requires
            old(self).wf(),
            old(self).nodes@.len() >= 1,
            patch.wf(),
            patch.applicable_at(old(self).nodes@.len() as int),
            old(self).nodes@.len() + patch.updates@.len() <= MAX_MODEL_SIZE,
        ensures
            final(self).wf(),
            final(self).nodes@.len() == old(self).nodes@.len() + patch.updates@.len(),
            old(self).prefix_of(*final(self)),
            new_depths@.len() == patch.updates@.len(),
            forall|k: int| 0 <= k < patch.updates@.len() ==> {
                let e = #[trigger] patch.updates@[k];
                let n = final(self).nodes@[old(self).nodes@.len() + k];
                &&& n.feature == e.split_feature
                &&& n.threshold == e.threshold
                &&& n.pred_left == e.left_prediction
                &&& n.pred_right == e.right_prediction
                &&& n.parent == (if e.is_new_tree_root { Option::<usize>::None } else { Option::Some(e.parent_node_id) })
                &&& n.depth == new_depths@[k]
                &&& (e.is_new_tree_root ==> n.depth == 1)
                &&& (!e.is_new_tree_root ==> n.depth == final(self).nodes@[e.parent_node_id as int].depth + 1)
            },
    {
        let ghost orig: Model = *self;
        let mut new_depths: Vec<usize> = Vec::new();
        let mut k: usize = 0;
        while k < patch.updates.len()
            invariant
                patch.wf(),
                patch.applicable_at(orig.nodes@.len() as int),
                orig.nodes@.len() >= 1,
                orig.nodes@.len() + patch.updates@.len() <= MAX_MODEL_SIZE,
                self.nodes@.len() == orig.nodes@.len() + k,
                k <= patch.updates@.len(),
                self.wf(),
                orig.wf(),
                orig.prefix_of(*self),
                new_depths@.len() == k,
                forall|j: int| 0 <= j < k ==> {
                    let e = #[trigger] patch.updates@[j];
                    let n = self.nodes@[orig.nodes@.len() + j];
                    &&& n.feature == e.split_feature
                    &&& n.threshold == e.threshold
                    &&& n.pred_left == e.left_prediction
                    &&& n.pred_right == e.right_prediction
                    &&& n.parent == (if e.is_new_tree_root { Option::<usize>::None } else { Option::Some(e.parent_node_id) })
                    &&& n.depth == new_depths@[j]
                    &&& (e.is_new_tree_root ==> n.depth == 1)
                    &&& (!e.is_new_tree_root ==> n.depth == self.nodes@[e.parent_node_id as int].depth + 1)
                },
            decreases patch.updates@.len() - k,
        {
            let ghost pre: Model = *self;
            let e = &patch.updates[k];
            let new_idx = self.nodes.len();
            let (parent, depth): (Option<usize>, usize) = if e.is_new_tree_root {
                (None, 1)
            } else {
                let p = e.parent_node_id;
                assert(p < self.nodes@.len());
                assert(self.node_wf(p as int, self.nodes@[p as int]));
                let d = self.nodes[p].depth;
                (Some(p), d + 1)
            };
            let node = TreeNode {
                parent,
                depth,
                feature: e.split_feature,
                threshold: e.threshold,
                pred_left: e.left_prediction,
                pred_right: e.right_prediction,
                children: Vec::new(),
                is_leaf: true,
            };
            self.nodes.push(node);
            if !e.is_new_tree_root {
                let p = e.parent_node_id;
                let pn = &self.nodes[p];
                let mut grown: Vec<usize> = copy_indices(&pn.children);
                grown.push(new_idx);
                let updated = TreeNode {
                    parent: pn.parent,
                    depth: pn.depth,
                    feature: pn.feature,
                    threshold: pn.threshold,
                    pred_left: pn.pred_left,
                    pred_right: pn.pred_right,
                    children: grown,
                    is_leaf: false,
                };
                self.nodes.set(p, updated);
            }
            new_depths.push(depth);
            proof {
                assert(patch.updates@[k as int].wf());
                assert forall|i: int| 0 <= i < self.nodes@.len() implies
                    self.node_wf(i, #[trigger] self.nodes@[i]) by {
                    assert(pre.wf());
                    if i < pre.nodes@.len() {
                        assert(pre.node_wf(i, pre.nodes@[i]));
                        assert(node_core_eq(pre.nodes@[i], self.nodes@[i]));
                        if !patch.updates@[k as int].is_new_tree_root
                            && i == patch.updates@[k as int].parent_node_id {
                            assert(self.nodes@[i].children@
                                == pre.nodes@[i].children@.push(new_idx as usize));
                        } else {
                            assert(self.nodes@[i] == pre.nodes@[i]);
                        }
                    } else {
                        // the freshly appended node
                        assert(i == pre.nodes@.len());
                        match self.nodes@[i].parent {
                            Some(p) => {
                                assert(pre.node_wf(p as int, pre.nodes@[p as int]));
                            },
                            None => {},
                        }
                    }
                }
                assert forall|i: int| 0 <= i < pre.nodes@.len() implies {
                    &&& node_core_eq(#[trigger] pre.nodes@[i], self.nodes@[i])
                    &&& pre.nodes@[i].children@.is_prefix_of(self.nodes@[i].children@)
                } by {}
                assert(orig.prefix_of(*self));
            }
            k = k + 1;
        }
        new_depths
    }
}

/// A fresh vector with the same indices.
fn copy_indices(v: &Vec<usize>) -> (r: Vec<usize>)
    ensures
        r@ == v@,
{
    let mut r: Vec<usize> = Vec::new();
    let mut i: usize = 0;
    while i < v.len()
        invariant
            i <= v@.len(),
            r@ == v@.subrange(0, i as int),
        decreases v@.len() - i,
    {
        r.push(v[i]);
        proof {
            assert(r@ == v@.subrange(0, i + 1 as int));
        }
        i = i + 1;
    }
    proof {
        assert(v@.subrange(0, v@.len() as int) == v@);
    }
    r
}

/// Helper: the prediction of a range of well-formed nodes is bounded.
proof fn lemma_predict_range_bounded(nodes: Seq<TreeNode>, feats: Seq<u8>, from: int, to: int)
    ensures
        from >= to ==> spec_predict_range(nodes, feats, from, to) == 0,
{
}

/// Score contributions of adjacent model ranges add up: scanning
/// `[from, mid)` and then `[mid, to)` contributes the same as scanning
/// `[from, to)` at once.
pub proof fn lemma_predict_range_additive(
    nodes: Seq<TreeNode>,
    feats: Seq<u8>,
    from: int,
    mid: int,
    to: int,
)
    requires
        from <= mid <= to,
    ensures
        spec_predict_range(nodes, feats, from, mid) + spec_predict_range(nodes, feats, mid, to)
            == spec_predict_range(nodes, feats, from, to),
    decreases to - mid,
{
    if mid < to {
        lemma_predict_range_additive(nodes, feats, from, mid, to - 1);
    }
}

/// Prediction over a range only reads the nodes inside the range, so two
/// models that agree on a common prefix predict the same over any range that
/// lies inside it.
pub proof fn lemma_prefix_predicts_alike(m1: Model, m2: Model, feats: Seq<u8>, from: int, to: int)
    requires
        m1.prefix_of(m2),
        0 <= from,
        to <= m1.nodes@.len(),
    ensures
        spec_predict_range(m1.nodes@, feats, from, to)
            == spec_predict_range(m2.nodes@, feats, from, to),
    decreases to - from,
{
    if from < to {
        lemma_prefix_predicts_alike(m1, m2, feats, from, to - 1);
        assert(node_core_eq(m1.nodes@[to - 1], m2.nodes@[to - 1]));
    }
}

/// The model order is reflexive: every snapshot extends itself.
pub proof fn lemma_prefix_reflexive(m: Model)
    ensures
        m.prefix_of(m),
{
}

/// Append-only growth composes: if `m2` extends `m1` and `m3` extends `m2`,
/// then `m3` extends `m1`, with every node of `m1` still in place.
pub proof fn lemma_prefix_transitive(m1: Model, m2: Model, m3: Model)
    requires
        m1.prefix_of(m2),
        m2.prefix_of(m3),
    ensures
        m1.prefix_of(m3),
{
    assert forall|i: int| 0 <= i < m1.nodes@.len() implies {
        &&& node_core_eq(#[trigger] m1.nodes@[i], m3.nodes@[i])
        &&& m1.nodes@[i].children@.is_prefix_of(m3.nodes@[i].children@)
    } by {
        assert(node_core_eq(m1.nodes@[i], m2.nodes@[i]));
        assert(m1.nodes@[i].children@.is_prefix_of(m2.nodes@[i].children@));
        assert(node_core_eq(m2.nodes@[i], m3.nodes@[i]));
        assert(m2.nodes@[i].children@.is_prefix_of(m3.nodes@[i].children@));
    }
}

} // verus!
