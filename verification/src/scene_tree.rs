//! The tree of scene objects: which container or group each object belongs
//! to, and the rules for adding an object to a container or a group.
//!
//! Objects are numbered in the order they are spawned. The scene root holds
//! only canvases; canvases and other containers hold objects of their own
//! dimension. An object belongs to at most one container, and no container
//! contains itself, so the objects always form a forest.

use vstd::prelude::*;

use crate::canvas::CanvasDimension;

verus! {

/// What the tree records of one object.
pub struct NodeView {
    pub parent: Option<usize>,
    pub children: Seq<usize>,
    pub is_root: bool,
    pub canvas: Option<CanvasDimension>,
    pub spatial_3d: bool,
}

/// The `k`-th ancestor of `x`: `x` itself for `k = 0`, then its container,
/// and so on; `None` past the top of its tree.
pub open spec fn ancestor(nodes: Seq<NodeView>, x: usize, k: nat) -> Option<usize>
    decreases k,
{
    if k == 0 {
        Some(x)
    } else {
        match nodes[x as int].parent {
            Some(p) => ancestor(nodes, p, (k - 1) as nat),
            None => None,
        }
    }
}

/// `root` contains `x`, or is `x`.
pub open spec fn contains(nodes: Seq<NodeView>, root: usize, x: usize) -> bool {
    exists|k: nat| ancestor(nodes, x, k) == Some(root)
}

/// Whether an object lives in a three-dimensional space.
pub open spec fn is_three_dimensional(node: NodeView) -> bool {
    node.spatial_3d || node.canvas == Some(CanvasDimension::Three)
}


/// One more step up from the `k`-th ancestor.
pub proof fn lemma_ancestor_next(nodes: Seq<NodeView>, x: usize, k: nat)
    ensures
        ancestor(nodes, x, k + 1) == match ancestor(nodes, x, k) {
            Some(y) => nodes[y as int].parent,
            None => None,
        },
    decreases k,
{
    if k == 0 {
        match nodes[x as int].parent {
            Some(p) => {
                assert(ancestor(nodes, p, 0) == Some(p));
            },
            None => {},
        }
    } else {
        match nodes[x as int].parent {
            Some(p) => {
                lemma_ancestor_next(nodes, p, (k - 1) as nat);
                assert(ancestor(nodes, x, k + 1) == ancestor(nodes, p, k));
                assert(ancestor(nodes, x, k) == ancestor(nodes, p, (k - 1) as nat));
            },
            None => {},
        }
    }
}

/// Past the top of a tree there are no more ancestors.
proof fn lemma_no_ancestor_past_top(nodes: Seq<NodeView>, x: usize, top: nat, k: nat)
    requires
        ancestor(nodes, x, top) matches Some(y) && nodes[y as int].parent is None,
        k > top,
    ensures
        ancestor(nodes, x, k) is None,
    decreases k,
{
    lemma_ancestor_next(nodes, x, (k - 1) as nat);
    if k - 1 > top {
        lemma_no_ancestor_past_top(nodes, x, top, (k - 1) as nat);
    }
}

/// A container contains the containers of what it contains, short of itself.
proof fn lemma_contains_up(nodes: Seq<NodeView>, root: usize, x: usize, p: usize)
    requires
        contains(nodes, root, x),
        x != root,
        nodes[x as int].parent == Some(p),
    ensures
        contains(nodes, root, p),
{
    let k = choose|k: nat| ancestor(nodes, x, k) == Some(root);
    assert(k != 0);
    assert(ancestor(nodes, p, (k - 1) as nat) == Some(root));
}

/// A container contains the children of what it contains.
proof fn lemma_contains_down(nodes: Seq<NodeView>, root: usize, x: usize, p: usize)
    requires
        contains(nodes, root, p),
        nodes[x as int].parent == Some(p),
    ensures
        contains(nodes, root, x),
{
    let k = choose|k: nat| ancestor(nodes, p, k) == Some(root);
    assert(ancestor(nodes, x, k + 1) == Some(root));
}

/// Why an object cannot be added to a container.
#[derive(Clone, Copy, Debug, PartialEq, Eq, Structural)]
pub enum AttachError {
    /// The object is not part of this scene.
    Foreign,
    /// The container was asked to hold itself.
    ItsOwnChild,
    /// The scene root was asked to become a child.
    RootAsChild,
    /// The object contains the container.
    Cycle,
    /// A canvas was asked into a container other than the scene root.
    CanvasInContainer,
    /// The object and the container have different dimensions.
    MixedDimensions,
    /// A non-canvas object was asked into the scene root.
    ObjectAtRoot,
    /// The object already belongs to another container.
    SecondContainer,
}

impl AttachError {
    /// The message a refused addition is reported with.
    pub fn message(&self) -> (text: &'static str)
        ensures
            *self == AttachError::Foreign ==> text@ == "Added object must belong to this scene."@,
            *self == AttachError::ItsOwnChild ==> text@
                == "A container must not be added to itself."@,
            *self == AttachError::RootAsChild ==> text@
                == "The scene root must not be added as a child."@,
            *self == AttachError::Cycle ==> text@
                == "Adding this object would create a container cycle."@,
            *self == AttachError::CanvasInContainer ==> text@
                == "Canvases must be attached to the scene root."@,
            *self == AttachError::MixedDimensions ==> text@
                == "Cannot mix 2D and 3D objects in a spatial container."@,
            *self == AttachError::ObjectAtRoot ==> text@
                == "Only canvases can be attached to the scene root; use World2D or World3D for objects."@,
            *self == AttachError::SecondContainer ==> text@
                == "An object must not belong to more than one container."@,
    {
        match self {
            AttachError::Foreign => "Added object must belong to this scene.",
            AttachError::ItsOwnChild => "A container must not be added to itself.",
            AttachError::RootAsChild => "The scene root must not be added as a child.",
            AttachError::Cycle => "Adding this object would create a container cycle.",
            AttachError::CanvasInContainer => "Canvases must be attached to the scene root.",
            AttachError::MixedDimensions => "Cannot mix 2D and 3D objects in a spatial container.",
            AttachError::ObjectAtRoot => "Only canvases can be attached to the scene root; use World2D or World3D for objects.",
            AttachError::SecondContainer => "An object must not belong to more than one container.",
        }
    }
}

/// What adding `child` to `parent` does, checked in order: the refusal, or
/// whether the child is newly attached (`false` when it already belongs to
/// `parent`, which leaves the tree unchanged).
pub open spec fn attach_outcome(nodes: Seq<NodeView>, parent: usize, child: usize) -> Result<
    bool,
    AttachError,
> {
    if child >= nodes.len() {
        Err(AttachError::Foreign)
    } else if parent == child {
        Err(AttachError::ItsOwnChild)
    } else if nodes[child as int].is_root {
        Err(AttachError::RootAsChild)
    } else if contains(nodes, child, parent) {
        Err(AttachError::Cycle)
    } else if !nodes[parent as int].is_root && nodes[child as int].canvas is Some {
        Err(AttachError::CanvasInContainer)
    } else if !nodes[parent as int].is_root && is_three_dimensional(nodes[parent as int])
        != nodes[child as int].spatial_3d {
        Err(AttachError::MixedDimensions)
    } else if nodes[parent as int].is_root && nodes[child as int].canvas is None {
        Err(AttachError::ObjectAtRoot)
    } else if nodes[child as int].parent is Some {
        if nodes[child as int].parent == Some(parent) {
            Ok(false)
        } else {
            Err(AttachError::SecondContainer)
        }
    } else {
        Ok(true)
    }
}

/// A container other than the scene root takes a new object, not a canvas,
/// exactly when both live in the same dimension: the container counts as
/// three-dimensional when it has a 3D transform or is a 3D canvas. Any
/// other new object is refused for mixing dimensions.
pub proof fn lemma_containers_take_objects_of_their_dimension(
    nodes: Seq<NodeView>,
    parent: usize,
    child: usize,
)
    requires
        parent < nodes.len(),
        child < nodes.len(),
        parent != child,
        !nodes[parent as int].is_root,
        !nodes[child as int].is_root,
        nodes[child as int].canvas is None,
        nodes[child as int].parent is None,
        !contains(nodes, child, parent),
    ensures
        (nodes[parent as int].spatial_3d || nodes[parent as int].canvas == Some(CanvasDimension::Three))
            == nodes[child as int].spatial_3d ==> attach_outcome(nodes, parent, child) == Ok::<
            bool,
            AttachError,
        >(true),
        (nodes[parent as int].spatial_3d || nodes[parent as int].canvas == Some(CanvasDimension::Three))
            != nodes[child as int].spatial_3d ==> attach_outcome(nodes, parent, child) == Err::<
            bool,
            AttachError,
        >(AttachError::MixedDimensions),
{
}

/// The tree after `child`, which belongs to no container, is appended to the
/// children of `parent`.
pub open spec fn attached(nodes: Seq<NodeView>, parent: usize, child: usize) -> Seq<NodeView> {
    nodes.update(
        parent as int,
        NodeView { children: nodes[parent as int].children.push(child), ..nodes[parent as int] },
    ).update(child as int, NodeView { parent: Some(parent), ..nodes[child as int] })
}

/// Why an object cannot be added to a group.
#[derive(Clone, Copy, Debug, PartialEq, Eq, Structural)]
pub enum GroupError {
    /// The object is not part of this scene.
    Foreign,
    /// The group was asked to hold itself.
    ItsOwnChild,
    /// The scene root was asked to become a child.
    RootAsChild,
    /// The object contains the group.
    Cycle,
    /// The object already belongs to another group or container.
    SecondGroup,
}

impl GroupError {
    /// The message a refused addition to a group is reported with.
    pub fn message(&self) -> (text: &'static str)
        ensures
            *self == GroupError::Foreign ==> text@ == "Added object must belong to this scene."@,
            *self == GroupError::ItsOwnChild ==> text@
                == "A group must not be added as its own child."@,
            *self == GroupError::RootAsChild ==> text@
                == "The scene root must not be added as a child."@,
            *self == GroupError::Cycle ==> text@ == "Adding this object would create a group cycle."@,
            *self == GroupError::SecondGroup ==> text@
                == "An object must not belong to more than one group."@,
    {
        match self {
            GroupError::Foreign => "Added object must belong to this scene.",
            GroupError::ItsOwnChild => "A group must not be added as its own child.",
            GroupError::RootAsChild => "The scene root must not be added as a child.",
            GroupError::Cycle => "Adding this object would create a group cycle.",
            GroupError::SecondGroup => "An object must not belong to more than one group.",
        }
    }
}

/// What adding `child` to the group `group` does, checked in order: the
/// refusal, or whether the child is newly attached (`false` when it already
/// belongs to `group`, which leaves the tree unchanged). A group, unlike a
/// container, takes objects of any kind.
pub open spec fn group_outcome(nodes: Seq<NodeView>, group: usize, child: usize) -> Result<bool, GroupError> {
    if child >= nodes.len() {
        Err(GroupError::Foreign)
    } else if group == child {
        Err(GroupError::ItsOwnChild)
    } else if nodes[child as int].is_root {
        Err(GroupError::RootAsChild)
    } else if contains(nodes, child, group) {
        Err(GroupError::Cycle)
    } else if nodes[child as int].parent is Some {
        if nodes[child as int].parent == Some(group) {
            Ok(false)
        } else {
            Err(GroupError::SecondGroup)
        }
    } else {
        Ok(true)
    }
}

/// The tree of scene objects.
pub struct SceneTree {
    parents: Vec<Option<usize>>,
    children: Vec<Vec<usize>>,
    roots: Vec<bool>,
    canvases: Vec<Option<CanvasDimension>>,
    spatial: Vec<bool>,
    depth: Ghost<Seq<nat>>,
}

impl SceneTree {
    /// What the tree records of each object, by object number.
    pub closed spec fn view(&self) -> Seq<NodeView> {
        Seq::new(
            self.parents@.len(),
            |x: int|
                NodeView {
                    parent: self.parents@[x],
                    children: self.children@[x]@,
                    is_root: self.roots@[x],
                    canvas: self.canvases@[x],
                    spatial_3d: self.spatial@[x],
                },
        )
    }

    /// The records agree with each other and form a forest.
    pub closed spec fn wf(&self) -> bool {
        let n = self.parents@.len();
        &&& self.children@.len() == n
        &&& self.roots@.len() == n
        &&& self.canvases@.len() == n
        &&& self.spatial@.len() == n
        &&& self.depth@.len() == n
        &&& forall|x: int|
            0 <= x < n ==> match #[trigger] self.parents@[x] {
                Some(p) => p < n && self.depth@[x] == self.depth@[p as int] + 1
                    && self.children@[p as int]@.contains(x as usize),
                None => self.depth@[x] == 0,
            }
        &&& forall|x: int, k: int|
            0 <= x < n && 0 <= k < self.children@[x]@.len() ==> {
                let c = #[trigger] self.children@[x]@[k];
                c < n && self.parents@[c as int] == Some(x as usize)
            }
        &&& forall|x: int| 0 <= x < n ==> (#[trigger] self.children@[x]@).no_duplicates()
    }

    /// An empty scene tree.
    pub fn new() -> (tree: Self)
        ensures
            tree.wf(),
            tree.view() == Seq::<NodeView>::empty(),
    {
        let tree = SceneTree {
            parents: Vec::new(),
            children: Vec::new(),
            roots: Vec::new(),
            canvases: Vec::new(),
            spatial: Vec::new(),
            depth: Ghost(Seq::empty()),
        };
        assert(tree.view() =~= Seq::<NodeView>::empty());
        tree
    }

    /// The number of objects in the scene.
    pub fn len(&self) -> (count: usize)
        requires
            self.wf(),
        ensures
            count == self.view().len(),
    {
        self.parents.len()
    }

    /// Adds an object that belongs to no container yet and returns its number.
    pub fn spawn(
        &mut self,
        is_root: bool,
        canvas: Option<CanvasDimension>,
        spatial_3d: bool,
    ) -> (entity: usize)
        requires
            old(self).wf(),
        ensures
            final(self).wf(),
            entity == old(self).view().len(),
            final(self).view() == old(self).view().push(
                NodeView { parent: None, children: Seq::empty(), is_root, canvas, spatial_3d },
            ),
    {
        let entity = self.parents.len();
        self.parents.push(None);
        self.children.push(Vec::new());
        self.roots.push(is_root);
        self.canvases.push(canvas);
        self.spatial.push(spatial_3d);
        self.depth = Ghost(self.depth@.push(0));
        proof {
            let n = self.parents@.len();
            assert forall|x: int, k: int|
                0 <= x < n && 0 <= k < self.children@[x]@.len() implies {
                    let c = #[trigger] self.children@[x]@[k];
                    c < n && self.parents@[c as int] == Some(x as usize)
                } by {
                assert(x < n - 1);
            }
            assert(self.children@[entity as int]@.no_duplicates());
        }
        assert(self.view() =~= old(self).view().push(
            NodeView { parent: None, children: Seq::empty(), is_root, canvas, spatial_3d },
        ));
        entity
    }

    /// The direct children of `entity`, in the order they were added.
    pub fn children(&self, entity: usize) -> (children: Vec<usize>)
        requires
            self.wf(),
            entity < self.view().len(),
        ensures
            children@ == self.view()[entity as int].children,
    {
        self.children[entity].clone()
    }

    /// Whether `entity` belongs to a container.
    pub fn is_attached(&self, entity: usize) -> (attached: bool)
        requires
            self.wf(),
            entity < self.view().len(),
        ensures
            attached == self.view()[entity as int].parent is Some,
    {
        self.parents[entity].is_some()
    }

    /// Whether `root` contains `target` or is `target`.
    pub fn contains_entity(&self, root: usize, target: usize) -> (found: bool)
        requires
            self.wf(),
            target < self.view().len(),
        ensures
            found == contains(self.view(), root, target),
    {
        let ghost nodes = self.view();
        let mut current = target;
        let ghost mut steps: nat = 0;
        loop
            invariant
                self.wf(),
                nodes == self.view(),
                current < nodes.len(),
                ancestor(nodes, target, steps) == Some(current),
                forall|k: nat| k < steps ==> ancestor(nodes, target, k) != Some(root),
            decreases self.depth@[current as int],
        {
            if current == root {
                return true;
            }
            assert(self.parents@[current as int] == nodes[current as int].parent);
            match self.parents[current] {
                Some(p) => {
                    proof {
                        lemma_ancestor_next(nodes, target, steps);
                        steps = steps + 1;
                    }
                    current = p;
                },
                None => {
                    proof {
                        assert forall|k: nat| ancestor(nodes, target, k) != Some(root) by {
                            if k > steps {
                                lemma_no_ancestor_past_top(nodes, target, steps, k);
                            }
                        }
                    }
                    return false;
                },
            }
        }
    }

    /// Adds `child` to the container `parent` when the rules allow it; see
    /// `attach_outcome` for the rules and the order they are checked in.
    pub fn attach_child(&mut self, parent: usize, child: usize) -> (outcome: Result<bool, AttachError>)
        requires
            old(self).wf(),
            parent < old(self).view().len(),
        ensures
            final(self).wf(),
            outcome == attach_outcome(old(self).view(), parent, child),
            outcome == Ok::<bool, AttachError>(true) ==> final(self).view() == attached(
                old(self).view(),
                parent,
                child,
            ),
            outcome != Ok::<bool, AttachError>(true) ==> final(self).view() == old(self).view(),
    {
        let ghost nodes = self.view();
        if child >= self.parents.len() {
            return Err(AttachError::Foreign);
        }
        if parent == child {
            return Err(AttachError::ItsOwnChild);
        }
        assert(nodes[child as int].is_root == self.roots@[child as int]);
        if self.roots[child] {
            return Err(AttachError::RootAsChild);
        }
        if self.contains_entity(child, parent) {
            return Err(AttachError::Cycle);
        }
        assert(nodes[parent as int].is_root == self.roots@[parent as int]);
        assert(nodes[child as int].canvas == self.canvases@[child as int]);
        assert(nodes[parent as int].canvas == self.canvases@[parent as int]);
        assert(nodes[child as int].spatial_3d == self.spatial@[child as int]);
        assert(nodes[parent as int].spatial_3d == self.spatial@[parent as int]);
        assert(nodes[child as int].parent == self.parents@[child as int]);
        if !self.roots[parent] {
            if self.canvases[child].is_some() {
                return Err(AttachError::CanvasInContainer);
            }
            let parent_canvas_3d = match self.canvases[parent] {
                Some(CanvasDimension::Three) => true,
                _ => false,
            };
            let parent_3d = self.spatial[parent] || parent_canvas_3d;
            if parent_3d != self.spatial[child] {
                return Err(AttachError::MixedDimensions);
            }
        } else if self.canvases[child].is_none() {
            return Err(AttachError::ObjectAtRoot);
        }
        match self.parents[child] {
            Some(container) => {
                if container == parent {
                    return Ok(false);
                }
                return Err(AttachError::SecondContainer);
            },
            None => {},
        }
        self.link(parent, child);
        Ok(true)
    }

    /// Adds `child` to the group `group` when the rules allow it; see
    /// `group_outcome` for the rules and the order they are checked in.
    pub fn add_to_group(&mut self, group: usize, child: usize) -> (outcome: Result<bool, GroupError>)
        requires
            old(self).wf(),
            group < old(self).view().len(),
        ensures
            final(self).wf(),
            outcome == group_outcome(old(self).view(), group, child),
            outcome == Ok::<bool, GroupError>(true) ==> final(self).view() == attached(
                old(self).view(),
                group,
                child,
            ),
            outcome != Ok::<bool, GroupError>(true) ==> final(self).view() == old(self).view(),
    {
        let ghost nodes = self.view();
        if child >= self.parents.len() {
            return Err(GroupError::Foreign);
        }
        if group == child {
            return Err(GroupError::ItsOwnChild);
        }
        assert(nodes[child as int].is_root == self.roots@[child as int]);
        if self.roots[child] {
            return Err(GroupError::RootAsChild);
        }
        if self.contains_entity(child, group) {
            return Err(GroupError::Cycle);
        }
        assert(nodes[child as int].parent == self.parents@[child as int]);
        match self.parents[child] {
            Some(container) => {
                if container == group {
                    return Ok(false);
                }
                return Err(GroupError::SecondGroup);
            },
            None => {},
        }
        self.link(group, child);
        Ok(true)
    }

    /// Appends `child`, which belongs to no container, to the children of
    /// `parent`, which it does not contain.
    fn link(&mut self, parent: usize, child: usize)
        requires
            old(self).wf(),
            parent < old(self).view().len(),
            child < old(self).view().len(),
            parent != child,
            !contains(old(self).view(), child, parent),
            old(self).view()[child as int].parent is None,
        ensures
            final(self).wf(),
            final(self).view() == attached(old(self).view(), parent, child),
    {
        let ghost nodes = self.view();
        assert(nodes == old(self).view());
        let count: usize = self.parents.len();
        assert(nodes.len() == count);
        assert(forall|x: int| 0 <= x < nodes.len() ==> #[trigger] nodes[x].parent == self.parents@[x]);
        assert(!contains(nodes, child, parent));
        assert(self.parents@[child as int] is None);
        let ghost old_depth = self.depth@;
        let ghost old_children = self.children@;
        let ghost old_parents = self.parents@;
        let ghost shift = old_depth[parent as int] + 1;
        proof {
            assert forall|x: int, k: int| 0 <= x < nodes.len() && 0 <= k < old_children[x]@.len()
                implies old_children[x]@[k] != child by {
                let c = old_children[x]@[k];
                assert(old_parents[c as int] == Some(x as usize));
            }
        }
        let mut list = self.children.remove(parent);
        list.push(child);
        self.children.insert(parent, list);
        self.parents.set(child, Some(parent));
        self.depth = Ghost(
            Seq::new(
                nodes.len(),
                |x: int|
                    if contains(nodes, child, x as usize) {
                        old_depth[x] + shift
                    } else {
                        old_depth[x]
                    },
            ),
        );
        proof {
            let n = nodes.len();
            assert(self.children@.len() == n);
            assert(forall|x: int| 0 <= x < n && x != parent ==> #[trigger] self.children@[x] == old_children[x]);
            assert(self.children@[parent as int]@ == old_children[parent as int]@.push(child));
            assert(ancestor(nodes, child, 0) == Some(child));
            assert(contains(nodes, child, child));
            assert forall|x: int| 0 <= x < n implies match #[trigger] self.parents@[x] {
                Some(p) => p < n && self.depth@[x] == self.depth@[p as int] + 1
                    && self.children@[p as int]@.contains(x as usize),
                None => self.depth@[x] == 0,
            } by {
                if x == child {
                    assert(old_depth[x] == 0);
                    assert(self.children@[parent as int]@.last() == child);
                } else {
                    match old_parents[x] {
                        Some(p) => {
                            if contains(nodes, child, x as usize) {
                                lemma_contains_up(nodes, child, x as usize, p);
                            } else if contains(nodes, child, p) {
                                lemma_contains_down(nodes, child, x as usize, p);
                            }
                            if p == parent {
                                let k = choose|k: int| 0 <= k < old_children[p as int]@.len() && old_children[p as int]@[k] == x as usize;
                                assert(self.children@[p as int]@[k] == x as usize);
                            }
                        },
                        None => {
                            let xu = x as usize;
                            if contains(nodes, child, xu) {
                                let k = choose|k: nat| ancestor(nodes, xu, k) == Some(child);
                                if k > 0 {
                                    lemma_no_ancestor_past_top(nodes, xu, 0, k);
                                }
                            }
                        },
                    }
                }
            }
            assert forall|x: int, k: int|
                0 <= x < n && 0 <= k < self.children@[x]@.len() implies {
                    let c = #[trigger] self.children@[x]@[k];
                    c < n && self.parents@[c as int] == Some(x as usize)
                } by {
                if x == parent && k == old_children[x]@.len() {
                } else {
                    assert(self.children@[x]@[k] == old_children[x]@[k]);
                }
            }
            assert forall|x: int| 0 <= x < n implies (#[trigger] self.children@[x]@).no_duplicates() by {
                if x == parent {
                    let l = self.children@[x]@;
                    assert forall|i: int, j: int| 0 <= i < l.len() && 0 <= j < l.len() && i != j implies l[i] != l[j] by {
                        if i == l.len() - 1 {
                            assert(l[j] == old_children[x]@[j]);
                        } else if j == l.len() - 1 {
                            assert(l[i] == old_children[x]@[i]);
                        } else {
                            assert(l[i] == old_children[x]@[i]);
                            assert(l[j] == old_children[x]@[j]);
                        }
                    }
                }
            }
        }
        assert(self.view() =~= attached(nodes, parent, child));
    }

    /// The objects `entity` contains, itself included, by increasing number.
    pub fn subtree(&self, entity: usize) -> (members: Vec<usize>)
        requires
            self.wf(),
        ensures
            forall|k: int| 0 <= k < members@.len() ==> #[trigger] members@[k] < self.view().len()
                && contains(self.view(), entity, members@[k]),
            forall|x: usize| x < self.view().len() && contains(self.view(), entity, x) ==> members@.contains(x),
            forall|k: int, l: int| 0 <= k < l < members@.len() ==> members@[k] < members@[l],
    {
        let mut members: Vec<usize> = Vec::new();
        let mut x: usize = 0;
        while x < self.parents.len()
            invariant
                self.wf(),
                x <= self.view().len(),
                forall|k: int| 0 <= k < members@.len() ==> #[trigger] members@[k] < x
                    && contains(self.view(), entity, members@[k]),
                forall|y: usize| y < x && contains(self.view(), entity, y) ==> members@.contains(y),
                forall|k: int, l: int| 0 <= k < l < members@.len() ==> members@[k] < members@[l],
            decreases self.view().len() - x,
        {
            let ghost before = members@;
            if self.contains_entity(entity, x) {
                members.push(x);
                assert(members@.last() == x);
                assert forall|y: usize| y < x + 1 && contains(self.view(), entity, y) implies members@.contains(y) by {
                    if y < x {
                        assert(before.contains(y));
                        let k = choose|k: int| 0 <= k < before.len() && before[k] == y;
                        assert(members@[k] == y);
                    } else {
                        assert(members@[members@.len() - 1] == y);
                    }
                }
            }
            x = x + 1;
        }
        members
    }


    /// Each step up a tree lowers the depth by one.
    proof fn lemma_ancestor_depth(&self, x: usize, k: nat)
        requires
            self.wf(),
            x < self.view().len(),
        ensures
            ancestor(self.view(), x, k) matches Some(y) ==> y < self.view().len()
                && self.depth@[y as int] + k == self.depth@[x as int],
        decreases k,
    {
        if k > 0 {
            self.lemma_ancestor_depth(x, (k - 1) as nat);
            lemma_ancestor_next(self.view(), x, (k - 1) as nat);
            match ancestor(self.view(), x, (k - 1) as nat) {
                Some(y) => {
                    assert(self.parents@[y as int] == self.view()[y as int].parent);
                },
                None => {},
            }
        }
    }

    /// No object contains itself: going up from an object never leads back to it.
    pub proof fn lemma_no_object_contains_itself(&self, x: usize, k: nat)
        requires
            self.wf(),
            x < self.view().len(),
            k > 0,
        ensures
            ancestor(self.view(), x, k) != Some(x),
    {
        self.lemma_ancestor_depth(x, k);
    }

}

} // verus!
