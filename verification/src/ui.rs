//! The host's UI tree, as far as plugins and the menu touch it.
//!
//! Nodes are kept in creation order and identified by their position, which
//! is never reused. A node's parent is always older than the node itself, so
//! the parent links cannot form a cycle. Despawning marks nodes dead; a dead
//! node keeps its slot and its links.

use vstd::prelude::*;

verus! {

/// Identifier of a node of a [`UiTree`]: its position in creation order.
pub type NodeId = usize;

/// Identifier of a loaded asset, as handed out by the host's asset lookup.
pub type AssetId = usize;

/// The record attached to the node a plugin contributes to the menu.
#[derive(Clone, Debug, PartialEq, Eq)]
pub struct MenuItem {
    /// `menu_name()` of the plugin that owns the entry.
    pub plugin_name: String,
    /// Whether the entry is the selected one.
    pub selected: bool,
}

/// Mathematical value of a [`MenuItem`].
pub struct MenuItemView {
    pub plugin_name: Seq<char>,
    pub selected: bool,
}

impl View for MenuItem {
    type V = MenuItemView;

    open spec fn view(&self) -> MenuItemView {
        MenuItemView { plugin_name: self.plugin_name@, selected: self.selected }
    }
}

/// What a node is, together with the data attached to it.
#[derive(Clone, Debug, PartialEq, Eq)]
pub enum Widget {
    /// A plain layout node.
    Container,
    /// The root of the content pane: its children are replaced as a whole
    /// whenever a menu entry becomes selected.
    MenuContent,
    /// An interactive node carrying a menu entry.
    Button(MenuItem),
    /// A run of text, with the font it was given, if any.
    Text(String, Option<AssetId>),
}

/// Mathematical value of a [`Widget`].
pub enum WidgetView {
    Container,
    MenuContent,
    Button(MenuItemView),
    Text(Seq<char>, Option<AssetId>),
}

impl View for Widget {
    type V = WidgetView;

    open spec fn view(&self) -> WidgetView {
        match self {
            Widget::Container => WidgetView::Container,
            Widget::MenuContent => WidgetView::MenuContent,
            Widget::Button(item) => WidgetView::Button(item@),
            Widget::Text(text, font) => WidgetView::Text(text@, *font),
        }
    }
}

/// Mathematical value of one node.
pub struct NodeView {
    pub parent: Option<NodeId>,
    pub alive: bool,
    pub widget: WidgetView,
}

/// The value of a freshly spawned node.
pub open spec fn fresh_node(parent: Option<NodeId>, widget: WidgetView) -> NodeView {
    NodeView { parent, alive: true, widget }
}

/// `id` names a node of `s` that has not been despawned.
pub open spec fn is_alive(s: Seq<NodeView>, id: NodeId) -> bool {
    id < s.len() && s[id as int].alive
}

/// Node `i` is linked soundly: its parent, if it has one, is older than it,
/// and is alive if the node is.
pub open spec fn well_linked(s: Seq<NodeView>, i: int) -> bool {
    match s[i].parent {
        Some(p) => p < i && (s[i].alive ==> s[p as int].alive),
        None => true,
    }
}

/// Every node is linked soundly, and every id fits the machine's word.
pub open spec fn well_formed(s: Seq<NodeView>) -> bool {
    &&& s.len() <= usize::MAX
    &&& forall|i: int| 0 <= i < s.len() ==> #[trigger] well_linked(s, i)
}

/// Node `i` lies strictly below node `a`: following parent links from `i`
/// reaches `a` in one or more steps.
pub open spec fn is_descendant(s: Seq<NodeView>, i: int, a: int) -> bool
    decreases i,
{
    if 0 <= i < s.len() {
        match s[i].parent {
            Some(p) => p < i && (p == a || is_descendant(s, p as int, a)),
            None => false,
        }
    } else {
        false
    }
}

/// The tree after every node strictly below `a` has been despawned.
pub open spec fn despawned(s: Seq<NodeView>, a: NodeId) -> Seq<NodeView> {
    Seq::new(
        s.len(),
        |i: int|
            if is_descendant(s, i, a as int) {
                NodeView { alive: false, ..s[i] }
            } else {
                s[i]
            },
    )
}

/// The live children of `a` among the first `n` nodes, oldest first.
pub open spec fn children_upto(s: Seq<NodeView>, a: NodeId, n: int) -> Seq<NodeId>
    decreases n,
{
    if n <= 0 {
        Seq::empty()
    } else {
        let rest = children_upto(s, a, n - 1);
        if n <= s.len() && s[n - 1].alive && s[n - 1].parent == Some(a) {
            rest.push((n - 1) as usize)
        } else {
            rest
        }
    }
}

/// The live children of `a`, oldest first.
pub open spec fn children_of(s: Seq<NodeView>, a: NodeId) -> Seq<NodeId> {
    children_upto(s, a, s.len() as int)
}

/// The node with its menu entry's `selected` flag set to `selected`; a node
/// without a menu entry is left as it is.
pub open spec fn with_selected(node: NodeView, selected: bool) -> NodeView {
    match node.widget {
        WidgetView::Button(item) => NodeView {
            widget: WidgetView::Button(MenuItemView { selected, ..item }),
            ..node
        },
        _ => node,
    }
}

/// A descendant is always younger than its ancestor.
pub proof fn lemma_descendant_is_younger(s: Seq<NodeView>, i: int, a: int)
    requires
        is_descendant(s, i, a),
    ensures
        a < i < s.len(),
    decreases i,
{
    let p = s[i].parent->0;
    if p != a {
        lemma_descendant_is_younger(s, p as int, a);
    }
}

/// Whatever lies above a live node is alive.
pub proof fn lemma_ancestors_of_live_are_live(s: Seq<NodeView>, i: int, a: int)
    requires
        well_formed(s),
        is_descendant(s, i, a),
        s[i].alive,
    ensures
        0 <= a < s.len(),
        s[a].alive,
    decreases i,
{
    assert(well_linked(s, i));
    let p = s[i].parent->0;
    if p != a {
        lemma_ancestors_of_live_are_live(s, p as int, a);
    }
}

/// No node lies below itself.
pub proof fn lemma_descendant_not_self(s: Seq<NodeView>, a: NodeId)
    ensures
        !is_descendant(s, a as int, a as int),
{
    if is_descendant(s, a as int, a as int) {
        lemma_descendant_is_younger(s, a as int, a as int);
    }
}

/// Whether one node lies below another depends on parent links alone, and
/// only on those of nodes up to the younger one.
pub proof fn lemma_descendant_same_parents(s: Seq<NodeView>, t: Seq<NodeView>, i: int, a: int)
    requires
        0 <= i < s.len(),
        i < t.len(),
        forall|k: int| 0 <= k <= i ==> (#[trigger] s[k]).parent == t[k].parent,
    ensures
        is_descendant(s, i, a) == is_descendant(t, i, a),
    decreases i,
{
    match s[i].parent {
        Some(p) => {
            if p < i && p != a {
                lemma_descendant_same_parents(s, t, p as int, a);
            }
        },
        None => {},
    }
}

/// Children are counted among live nodes with the right parent: two trees
/// that agree on liveness and parents up to `n` have the same children there.
pub proof fn lemma_children_upto_agree(s: Seq<NodeView>, t: Seq<NodeView>, a: NodeId, n: int)
    requires
        n <= s.len(),
        n <= t.len(),
        forall|k: int|
            0 <= k < n ==> (#[trigger] s[k]).alive == t[k].alive && s[k].parent == t[k].parent,
    ensures
        children_upto(s, a, n) == children_upto(t, a, n),
    decreases n,
{
    if n > 0 {
        lemma_children_upto_agree(s, t, a, n - 1);
    }
}

/// If `a` has no live child among the first `n` nodes, the list is empty.
pub proof fn lemma_children_upto_empty(s: Seq<NodeView>, a: NodeId, n: int)
    requires
        n <= s.len(),
        forall|k: int| 0 <= k < n ==> !((#[trigger] s[k]).alive && s[k].parent == Some(a)),
    ensures
        children_upto(s, a, n) == Seq::<NodeId>::empty(),
    decreases n,
{
    if n > 0 {
        lemma_children_upto_empty(s, a, n - 1);
    }
}

/// Nodes from `m` on that are not live children of `a` add nothing to its
/// list of children.
pub proof fn lemma_children_upto_skip(s: Seq<NodeView>, a: NodeId, m: int, n: int)
    requires
        0 <= m <= n <= s.len(),
        forall|k: int| m <= k < n ==> !((#[trigger] s[k]).alive && s[k].parent == Some(a)),
    ensures
        children_upto(s, a, n) == children_upto(s, a, m),
    decreases n - m,
{
    if m < n {
        lemma_children_upto_skip(s, a, m, n - 1);
    }
}

/// Despawning below a live node keeps the tree well formed.
pub proof fn lemma_despawned_well_formed(s: Seq<NodeView>, a: NodeId)
    requires
        well_formed(s),
    ensures
        well_formed(despawned(s, a)),
{
    let t = despawned(s, a);
    assert forall|i: int| 0 <= i < t.len() implies #[trigger] well_linked(t, i) by {
        assert(well_linked(s, i));
    }
}

/// Spawning under a live node, or as a root, keeps the tree well formed.
pub proof fn lemma_spawned_well_formed(s: Seq<NodeView>, parent: Option<NodeId>, w: WidgetView)
    requires
        well_formed(s),
        s.len() < usize::MAX,
        parent matches Some(p) ==> is_alive(s, p),
    ensures
        well_formed(s.push(fresh_node(parent, w))),
{
    let t = s.push(fresh_node(parent, w));
    assert forall|i: int| 0 <= i < t.len() implies #[trigger] well_linked(t, i) by {
        if i < s.len() {
            assert(well_linked(s, i));
        }
    }
}

/// Setting a menu entry's flag keeps the tree well formed.
pub proof fn lemma_with_selected_well_formed(s: Seq<NodeView>, id: NodeId, selected: bool)
    requires
        well_formed(s),
        id < s.len(),
    ensures
        well_formed(s.update(id as int, with_selected(s[id as int], selected))),
{
    let t = s.update(id as int, with_selected(s[id as int], selected));
    assert forall|i: int| 0 <= i < t.len() implies #[trigger] well_linked(t, i) by {
        assert(well_linked(s, i));
    }
}

/// After despawning below `a`, `a` has no live child left.
pub proof fn lemma_despawned_no_children(s: Seq<NodeView>, a: NodeId)
    requires
        well_formed(s),
    ensures
        children_of(despawned(s, a), a) == Seq::<NodeId>::empty(),
{
    let t = despawned(s, a);
    assert forall|k: int| 0 <= k < t.len() implies !((#[trigger] t[k]).alive && t[k].parent
        == Some(a)) by {
        assert(well_linked(s, k));
    }
    lemma_children_upto_empty(t, a, t.len() as int);
}

/// One node of the tree.
#[derive(Clone, Debug, PartialEq, Eq)]
struct UiNode {
    parent: Option<NodeId>,
    alive: bool,
    widget: Widget,
}

impl UiNode {
    spec fn value(&self) -> NodeView {
        NodeView { parent: self.parent, alive: self.alive, widget: self.widget@ }
    }
}

/// The UI tree that the host owns and that plugins draw into.
#[derive(Clone, Debug, PartialEq, Eq)]
pub struct UiTree {
    nodes: Vec<UiNode>,
}

impl View for UiTree {
    type V = Seq<NodeView>;

    closed spec fn view(&self) -> Seq<NodeView> {
        Seq::new(self.nodes@.len(), |i: int| self.nodes@[i].value())
    }
}

impl UiTree {
    /// The tree's invariant, over its value.
    pub open spec fn wf(&self) -> bool {
        well_formed(self@)
    }

    /// A tree without nodes.
    pub fn new() -> (tree: UiTree)
        ensures
            tree@ == Seq::<NodeView>::empty(),
            tree.wf(),
    {
        UiTree { nodes: Vec::new() }
    }

    /// Number of nodes ever spawned, dead ones included.
    pub fn len(&self) -> (n: usize)
        ensures
            n == self@.len(),
    {
        self.nodes.len()
    }

    /// Whether `id` names a node that has not been despawned.
    pub fn is_alive(&self, id: NodeId) -> (b: bool)
        ensures
            b == is_alive(self@, id),
    {
        id < self.nodes.len() && self.nodes[id].alive
    }

    /// The parent of node `id`; `None` for a root and for an unknown id.
    pub fn parent(&self, id: NodeId) -> (p: Option<NodeId>)
        ensures
            p == if id < self@.len() {
                self@[id as int].parent
            } else {
                None
            },
    {
        if id < self.nodes.len() {
            self.nodes[id].parent
        } else {
            None
        }
    }

    /// What node `id` is; `None` for an unknown id.
    pub fn widget(&self, id: NodeId) -> (w: Option<&Widget>)
        ensures
            match w {
                Some(x) => id < self@.len() && x@ == self@[id as int].widget,
                None => id >= self@.len(),
            },
    {
        if id < self.nodes.len() {
            Some(&self.nodes[id].widget)
        } else {
            None
        }
    }

    /// The menu entry attached to node `id`, if it has one.
    pub fn menu_item(&self, id: NodeId) -> (item: Option<&MenuItem>)
        ensures
            match item {
                Some(x) => id < self@.len() && self@[id as int].widget == WidgetView::Button(x@),
                None => id >= self@.len() || !(self@[id as int].widget is Button),
            },
    {
        if id < self.nodes.len() {
            match &self.nodes[id].widget {
                Widget::Button(item) => Some(item),
                _ => None,
            }
        } else {
            None
        }
    }

    /// The live children of `id`, oldest first.
    pub fn children(&self, id: NodeId) -> (out: Vec<NodeId>)
        ensures
            out@ == children_of(self@, id),
    {
        let mut out: Vec<NodeId> = Vec::new();
        let n = self.nodes.len();
        let mut j: usize = 0;
        while j < n
            invariant
                j <= n,
                n == self.nodes.len(),
                n == self@.len(),
                out@ == children_upto(self@, id, j as int),
            decreases n - j,
        {
            let hit = self.nodes[j].alive && match self.nodes[j].parent {
                Some(p) => p == id,
                None => false,
            };
            if hit {
                out.push(j);
            }
            j = j + 1;
        }
        out
    }

    /// Spawns a node without a parent and returns its id.
    pub fn spawn_root(&mut self, widget: Widget) -> (id: NodeId)
        requires
            old(self).wf(),
        ensures
            id == old(self)@.len(),
            final(self)@ == old(self)@.push(fresh_node(None, widget@)),
            final(self).wf(),
    {
        let id = self.nodes.len();
        let ghost value = widget@;
        self.nodes.push(UiNode { parent: None, alive: true, widget });
        proof {
            assert(self.nodes.len() == self.nodes@.len());
            lemma_spawned_well_formed(old(self)@, None, value);
        }
        id
    }

    /// Spawns a node as the youngest child of `parent` and returns its id.
    pub fn spawn_child(&mut self, parent: NodeId, widget: Widget) -> (id: NodeId)
        requires
            old(self).wf(),
            is_alive(old(self)@, parent),
        ensures
            id == old(self)@.len(),
            final(self)@ == old(self)@.push(fresh_node(Some(parent), widget@)),
            final(self).wf(),
    {
        let id = self.nodes.len();
        let ghost value = widget@;
        self.nodes.push(UiNode { parent: Some(parent), alive: true, widget });
        proof {
            assert(self.nodes.len() == self.nodes@.len());
            lemma_spawned_well_formed(old(self)@, Some(parent), value);
        }
        id
    }

    /// Despawns every node strictly below `node`; `node` itself stays. Below
    /// a node that is dead or unknown nothing is alive, and nothing changes.
    pub fn despawn_children(&mut self, node: NodeId)
        requires
            old(self).wf(),
        ensures
            final(self)@ == despawned(old(self)@, node),
            final(self).wf(),
    {
        let n = self.nodes.len();
        let ghost before = self@;
        let mut j: usize = 0;
        while j < n
            invariant
                j <= n,
                n == self.nodes.len(),
                n == before.len(),
                self@.len() == n,
                well_formed(before),
                forall|k: int| 0 <= k < j ==> (#[trigger] self@[k]) == despawned(before, node)[k],
                forall|k: int| j <= k < n ==> (#[trigger] self@[k]) == before[k],
            decreases n - j,
        {
            let ghost cur = self@;
            let alive = self.nodes[j].alive;
            let parent = self.nodes[j].parent;
            proof {
                assert(cur[j as int] == before[j as int]);
                assert(well_linked(before, j as int));
                if let Some(p) = before[j as int].parent {
                    assert(cur[p as int] == despawned(before, node)[p as int]);
                }
            }
            let doomed = alive && match parent {
                Some(p) => p == node || !self.nodes[p].alive,
                None => false,
            };
            proof {
                if let Some(p) = before[j as int].parent {
                    if p != node && is_descendant(before, p as int, node as int) {
                        lemma_descendant_is_younger(before, p as int, node as int);
                    }
                    if before[j as int].alive && is_descendant(before, j as int, node as int) {
                        lemma_ancestors_of_live_are_live(before, j as int, node as int);
                    }
                }
                assert(before[j as int].alive ==> (doomed == is_descendant(
                    before,
                    j as int,
                    node as int,
                )));
            }
            if doomed {
                self.nodes[j].alive = false;
            }
            proof {
                assert forall|k: int| 0 <= k < j implies (#[trigger] self@[k]) == despawned(
                    before,
                    node,
                )[k] by {
                    assert(self@[k] == cur[k]);
                }
                assert forall|k: int| j < k < n implies (#[trigger] self@[k]) == before[k] by {
                    assert(self@[k] == cur[k]);
                }
            }
            j = j + 1;
        }
        proof {
            lemma_despawned_well_formed(before, node);
        }
    }

    /// Sets the `selected` flag of the menu entry on node `id`. A node
    /// without a menu entry, or an unknown id, leaves the tree as it is.
    /// Only the host's dispatch of a selection may move the flag, so plugins
    /// cannot reach this.
    pub(crate) fn set_selected(&mut self, id: NodeId, selected: bool)
        requires
            old(self).wf(),
        ensures
            final(self)@ == if id < old(self)@.len() {
                old(self)@.update(id as int, with_selected(old(self)@[id as int], selected))
            } else {
                old(self)@
            },
            final(self).wf(),
    {
        if id < self.nodes.len() {
            match &mut self.nodes[id].widget {
                Widget::Button(item) => {
                    item.selected = selected;
                },
                _ => {},
            }
            proof {
                lemma_with_selected_well_formed(old(self)@, id, selected);
            }
        }
    }
}

} // verus!
