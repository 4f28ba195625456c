//! The host's side of the menu: the registered plugins, the tree that holds
//! their entries and the content pane, and the dispatch of a selection.

use vstd::prelude::*;
use crate::assets::AssetLookup;
use crate::menu::MenuItemPlugin;
use crate::menu::adds_menu_item;
use crate::menu::is_decoration;
use crate::menu::replaces_content;
use crate::names::first_match;
use crate::names::lemma_first_match_is_first;
use crate::names::lemma_first_match_skip;
use crate::ui::NodeId;
use crate::ui::NodeView;
use crate::ui::UiTree;
use crate::ui::Widget;
use crate::ui::WidgetView;
use crate::ui::children_of;
use crate::ui::children_upto;
use crate::ui::despawned;
use crate::ui::fresh_node;
use crate::ui::is_alive;
use crate::ui::is_descendant;
use crate::ui::lemma_descendant_not_self;
use crate::ui::lemma_children_upto_agree;
use crate::ui::lemma_children_upto_skip;
use crate::ui::lemma_descendant_same_parents;
use crate::ui::lemma_despawned_no_children;
use crate::ui::lemma_despawned_well_formed;
use crate::ui::lemma_with_selected_well_formed;
use crate::ui::well_formed;
use crate::ui::well_linked;
use crate::ui::with_selected;

verus! {

/// How a call of [`Menu::select`] ended.
#[derive(Clone, Copy, Debug, PartialEq, Eq, Structural)]
pub enum SelectOutcome {
    /// The entry became the selected one and its plugin drew the content
    /// pane.
    Selected,
    /// The entry was the selected one already; nothing was done.
    AlreadySelected,
    /// No registered plugin answers to the entry's name; nothing was done.
    NoRoute,
    /// The node is not a menu entry; nothing was done.
    NotAnItem,
}

/// The routing keys of the registered plugins, in order of registration.
pub open spec fn menu_names<P: MenuItemPlugin + ?Sized>(plugins: Seq<Box<P>>) -> Seq<Seq<char>> {
    Seq::new(plugins.len(), |i: int| plugins[i].menu_name_spec())
}

/// The plugin that a selection of the entry called `name` is routed to: the
/// first registered plugin whose `menu_name()` is `name`.
pub open spec fn route_spec<P: MenuItemPlugin + ?Sized>(
    plugins: Seq<Box<P>>,
    name: Seq<char>,
) -> Option<int> {
    first_match(menu_names(plugins), name, 0)
}

/// The tree after `selected`, if any, has lost its flag and `item` has got
/// it.
pub open spec fn flags_moved(tree: Seq<NodeView>, selected: Option<NodeId>, item: NodeId) -> Seq<
    NodeView,
> {
    let cleared = match selected {
        Some(prev) => tree.update(prev as int, with_selected(tree[prev as int], false)),
        None => tree,
    };
    cleared.update(item as int, with_selected(cleared[item as int], true))
}

/// Mathematical value of a [`Menu`].
pub struct MenuView<P: MenuItemPlugin + ?Sized> {
    /// The UI tree.
    pub tree: Seq<NodeView>,
    /// The node under which menu entries are added.
    pub menu_root: NodeId,
    /// The root of the content pane.
    pub content: NodeId,
    /// The selected entry, if any.
    pub selected: Option<NodeId>,
    /// The registered plugins, in order of registration.
    pub plugins: Seq<Box<P>>,
}

impl<P: MenuItemPlugin + ?Sized> MenuView<P> {
    /// `id` names a menu entry.
    pub open spec fn is_item(self, id: NodeId) -> bool {
        id < self.tree.len() && self.tree[id as int].widget is Button
    }

    /// Node `i`, if it is a menu entry, is alive, lies outside the content
    /// pane, and carries the flag exactly if it is the selected entry.
    pub open spec fn item_in_order(self, i: int) -> bool {
        self.tree[i].widget matches WidgetView::Button(entry) ==> {
            &&& self.tree[i].alive
            &&& !is_descendant(self.tree, i, self.content as int)
            &&& (entry.selected <==> self.selected == Some(i as usize))
        }
    }

    /// The menu's invariant.
    pub open spec fn wf(self) -> bool {
        &&& well_formed(self.tree)
        &&& is_alive(self.tree, self.menu_root)
        &&& is_alive(self.tree, self.content)
        &&& self.tree[self.content as int].widget is MenuContent
        &&& self.menu_root != self.content
        &&& !is_descendant(self.tree, self.menu_root as int, self.content as int)
        &&& forall|i: int| 0 <= i < self.tree.len() ==> #[trigger] self.item_in_order(i)
        &&& (self.selected matches Some(k) ==> self.is_item(k))
        &&& children_of(self.tree, self.content).len() == (if self.selected is Some {
            1nat
        } else {
            0nat
        })
    }

    /// How selecting `item` ends.
    pub open spec fn select_outcome(self, item: NodeId) -> SelectOutcome {
        if !self.is_item(item) {
            SelectOutcome::NotAnItem
        } else if self.selected == Some(item) {
            SelectOutcome::AlreadySelected
        } else if route_spec(self.plugins, self.tree[item as int].widget->Button_0.plugin_name)
            is None {
            SelectOutcome::NoRoute
        } else {
            SelectOutcome::Selected
        }
    }

    /// The menu after selecting `item`. Unless the selection takes effect,
    /// the menu stays as it is. If it does, the flag moves to `item` and the
    /// plugin the entry is routed to draws the content pane.
    pub open spec fn select_next(self, item: NodeId) -> MenuView<P> {
        if self.select_outcome(item) == SelectOutcome::Selected {
            let name = self.tree[item as int].widget->Button_0.plugin_name;
            let k = route_spec(self.plugins, name)->0;
            let flagged = flags_moved(self.tree, self.selected, item);
            MenuView {
                tree: self.plugins[k].content_spec(flagged, self.content),
                selected: Some(item),
                ..self
            }
        } else {
            self
        }
    }

    /// The menu after `plugin` has added its entry, leaving the tree
    /// `after`.
    pub open spec fn with_tree(self, after: Seq<NodeView>) -> MenuView<P> {
        MenuView { tree: after, ..self }
    }
}

/// Moving the flag changes no link and no liveness, and no widget but the
/// flags of the two entries involved.
proof fn lemma_flags_moved<P: MenuItemPlugin + ?Sized>(m: MenuView<P>, item: NodeId)
    requires
        m.wf(),
        m.is_item(item),
        m.selected != Some(item),
    ensures
        ({
            let t = flags_moved(m.tree, m.selected, item);
            &&& t.len() == m.tree.len()
            &&& well_formed(t)
            &&& forall|i: int|
                0 <= i < t.len() ==> (#[trigger] t[i]).parent == m.tree[i].parent && t[i].alive
                    == m.tree[i].alive
            &&& forall|i: int|
                0 <= i < t.len() ==> ((#[trigger] t[i]).widget is Button
                    <==> m.tree[i].widget is Button)
            &&& forall|i: int|
                0 <= i < t.len() && !(m.tree[i].widget is Button) ==> (#[trigger] t[i])
                    == m.tree[i]
            &&& forall|i: int|
                0 <= i < t.len() && (#[trigger] t[i]).widget is Button ==> (
                t[i].widget->Button_0.selected <==> i == item)
            &&& t[item as int].widget->Button_0.plugin_name
                == m.tree[item as int].widget->Button_0.plugin_name
        }),
{
    let cleared = match m.selected {
        Some(prev) => m.tree.update(prev as int, with_selected(m.tree[prev as int], false)),
        None => m.tree,
    };
    let t = flags_moved(m.tree, m.selected, item);
    match m.selected {
        Some(prev) => {
            lemma_with_selected_well_formed(m.tree, prev, false);
        },
        None => {},
    }
    lemma_with_selected_well_formed(cleared, item, true);
    assert forall|i: int| 0 <= i < t.len() && (#[trigger] t[i]).widget is Button implies (
    t[i].widget->Button_0.selected <==> i == item) by {
        assert(m.item_in_order(i));
    }
}

/// A tree whose content pane has just been replaced is linked soundly (and
/// well formed, if its ids still fit the machine's word) and holds exactly
/// one subtree below `content`, rooted at the first new node. Whatever lay
/// below `content` before is despawned; every other old node is as it was,
/// and no new node is a menu entry.
pub proof fn lemma_replaced_content(before: Seq<NodeView>, content: NodeId, after: Seq<NodeView>)
    requires
        well_formed(before),
        is_alive(before, content),
        replaces_content(before, content, after),
    ensures
        forall|i: int| 0 <= i < after.len() ==> #[trigger] well_linked(after, i),
        after.len() <= usize::MAX ==> well_formed(after),
        children_of(after, content) == seq![before.len() as usize],
        forall|i: int|
            0 <= i < before.len() ==> (#[trigger] after[i]).parent == before[i].parent
                && after[i].widget == before[i].widget,
        forall|i: int|
            0 <= i < before.len() && !is_descendant(before, i, content as int) ==> (
            #[trigger] after[i]) == before[i],
        forall|i: int, a: int|
            0 <= i < before.len() ==> #[trigger] is_descendant(after, i, a) == is_descendant(
                before,
                i,
                a,
            ),
        forall|i: int|
            before.len() <= i < after.len() ==> !((#[trigger] after[i]).widget is Button),
{
    let n = before.len() as int;
    let cleared = despawned(before, content);
    lemma_despawned_well_formed(before, content);
    lemma_descendant_not_self(before, content);
    assert forall|i: int| 0 <= i < n implies (#[trigger] after[i]) == cleared[i] by {}
    assert forall|i: int| 0 <= i < after.len() implies #[trigger] well_linked(after, i) by {
        if i < n {
            assert(well_linked(cleared, i));
        } else if i > n {
            assert(is_decoration(after, n, i));
            let p = after[i].parent->0;
            if p > n {
                assert(is_decoration(after, n, p as int));
            }
        }
    }
    assert forall|i: int, a: int| 0 <= i < n implies #[trigger] is_descendant(after, i, a)
        == is_descendant(before, i, a) by {
        lemma_descendant_same_parents(after, before, i, a);
    }
    assert forall|i: int| n <= i < after.len() implies !((#[trigger] after[i]).widget
        is Button) by {
        if i > n {
            assert(is_decoration(after, n, i));
        }
    }
    lemma_despawned_no_children(before, content);
    lemma_children_upto_agree(after, cleared, content, n);
    assert forall|k: int| n + 1 <= k < after.len() implies !((#[trigger] after[k]).alive
        && after[k].parent == Some(content)) by {
        assert(is_decoration(after, n, k));
    }
    lemma_children_upto_skip(after, content, n + 1, after.len() as int);
}

/// What holds of a tree to which a menu entry has just been added.
proof fn lemma_added_item(
    before: Seq<NodeView>,
    parent: NodeId,
    name: Seq<char>,
    label: Seq<char>,
    after: Seq<NodeView>,
    other: NodeId,
)
    requires
        well_formed(before),
        is_alive(before, parent),
        adds_menu_item(before, parent, name, label, after),
        other < before.len(),
        other != parent,
        !is_descendant(before, parent as int, other as int),
    ensures
        forall|i: int| 0 <= i < before.len() ==> (#[trigger] after[i]) == before[i],
        forall|i: int, a: int|
            0 <= i < before.len() ==> #[trigger] is_descendant(after, i, a) == is_descendant(
                before,
                i,
                a,
            ),
        !is_descendant(after, before.len() as int, other as int),
        forall|i: int| before.len() < i < after.len() ==> !((#[trigger] after[i]).widget is Button),
        children_of(after, other) == children_of(before, other),
{
    let n = before.len() as int;
    assert forall|i: int| 0 <= i < n implies (#[trigger] after[i]) == before[i] by {}
    assert forall|i: int, a: int| 0 <= i < n implies #[trigger] is_descendant(after, i, a)
        == is_descendant(before, i, a) by {
        lemma_descendant_same_parents(after, before, i, a);
    }
    assert(is_descendant(after, parent as int, other as int) == is_descendant(
        before,
        parent as int,
        other as int,
    ));
    assert forall|i: int| n < i < after.len() implies !((#[trigger] after[i]).widget is Button) by {
        assert(is_decoration(after, n, i));
    }
    lemma_children_upto_agree(after, before, other, n);
    assert forall|k: int| n <= k < after.len() implies !((#[trigger] after[k]).alive
        && after[k].parent == Some(other)) by {
        if k > n {
            assert(is_decoration(after, n, k));
        }
    }
    lemma_children_upto_skip(after, other, n, after.len() as int);
}

/// The menu's invariant survives a selection, whatever its outcome.
pub proof fn lemma_select_keeps_invariant<P: MenuItemPlugin + ?Sized>(m: MenuView<P>, item: NodeId)
    requires
        m.wf(),
        m.select_next(item).tree.len() <= usize::MAX,
    ensures
        m.select_next(item).wf(),
{
    if m.select_outcome(item) == SelectOutcome::Selected {
        let name = m.tree[item as int].widget->Button_0.plugin_name;
        let k = route_spec(m.plugins, name)->0;
        let flagged = flags_moved(m.tree, m.selected, item);
        let next = m.select_next(item);
        lemma_first_match_is_first(menu_names(m.plugins), name, 0);
        lemma_flags_moved(m, item);
        m.plugins[k].content_replaces(flagged, m.content);
        lemma_replaced_content(flagged, m.content, next.tree);
        lemma_descendant_not_self(flagged, m.content);
        assert(is_descendant(flagged, m.menu_root as int, m.content as int) == is_descendant(
            m.tree,
            m.menu_root as int,
            m.content as int,
        )) by {
            lemma_descendant_same_parents(flagged, m.tree, m.menu_root as int, m.content as int);
        }
        assert forall|i: int| 0 <= i < next.tree.len() implies #[trigger] next.item_in_order(
            i,
        ) by {
            if i < flagged.len() && next.tree[i].widget is Button {
                assert(m.item_in_order(i));
                lemma_descendant_same_parents(flagged, m.tree, i, m.content as int);
            }
        }
    }
}

/// After a selection, exactly one menu entry carries the flag, and the
/// content pane holds exactly one subtree. This holds whenever the selection
/// takes effect or an entry was selected before. If the selection takes
/// effect, or finds its entry selected already, that one entry is `item`;
/// if it takes effect, the pane's subtree is the one that the plugin `item`
/// is routed to has just drawn, and its root is the first node spawned by
/// that plugin.
pub proof fn lemma_select_leaves_one_selected<P: MenuItemPlugin + ?Sized>(
    m: MenuView<P>,
    item: NodeId,
)
    requires
        m.wf(),
        m.selected is Some || m.select_outcome(item) == SelectOutcome::Selected,
    ensures
        ({
            let next = m.select_next(item);
            let outcome = m.select_outcome(item);
            &&& next.selected matches Some(chosen) && next.is_item(chosen)
            &&& forall|i: int|
                0 <= i < next.tree.len() && (#[trigger] next.tree[i]).widget is Button ==> (
                next.tree[i].widget->Button_0.selected <==> next.selected == Some(i as usize))
            &&& children_of(next.tree, next.content).len() == 1
            &&& (outcome == SelectOutcome::Selected || outcome == SelectOutcome::AlreadySelected
                ==> next.selected == Some(item))
            &&& (outcome == SelectOutcome::Selected ==> {
                let name = m.tree[item as int].widget->Button_0.plugin_name;
                let k = route_spec(m.plugins, name)->0;
                &&& 0 <= k < m.plugins.len()
                &&& m.plugins[k].menu_name_spec() == name
                &&& next.tree == m.plugins[k].content_spec(
                    flags_moved(m.tree, m.selected, item),
                    m.content,
                )
                &&& children_of(next.tree, next.content) == seq![m.tree.len() as usize]
            })
        }),
{
    let next = m.select_next(item);
    if m.select_outcome(item) == SelectOutcome::Selected {
        let name = m.tree[item as int].widget->Button_0.plugin_name;
        let k = route_spec(m.plugins, name)->0;
        let flagged = flags_moved(m.tree, m.selected, item);
        lemma_first_match_is_first(menu_names(m.plugins), name, 0);
        lemma_flags_moved(m, item);
        m.plugins[k].content_replaces(flagged, m.content);
        lemma_replaced_content(flagged, m.content, next.tree);
        assert forall|i: int|
            0 <= i < next.tree.len() && (#[trigger] next.tree[i]).widget is Button implies (
        next.tree[i].widget->Button_0.selected <==> next.selected == Some(i as usize)) by {}
    } else {
        assert forall|i: int|
            0 <= i < next.tree.len() && (#[trigger] next.tree[i]).widget is Button implies (
        next.tree[i].widget->Button_0.selected <==> next.selected == Some(i as usize)) by {
            assert(next.item_in_order(i));
        }
    }
}

/// In a menu that is in order, no two entries carry the flag, and an entry
/// that carries it is the selected one.
pub proof fn lemma_at_most_one_selected<P: MenuItemPlugin + ?Sized>(m: MenuView<P>, i: int, j: int)
    requires
        m.wf(),
        0 <= i < m.tree.len(),
        0 <= j < m.tree.len(),
        m.tree[i].widget matches WidgetView::Button(a) && a.selected,
        m.tree[j].widget matches WidgetView::Button(b) && b.selected,
    ensures
        i == j,
        m.selected == Some(i as usize),
{
    assert(m.item_in_order(i));
    assert(m.item_in_order(j));
}

/// Selecting the same entry a second time changes nothing: the menu after
/// two selections in a row is the menu after the first.
pub proof fn lemma_select_twice<P: MenuItemPlugin + ?Sized>(m: MenuView<P>, item: NodeId)
    requires
        m.wf(),
    ensures
        m.select_next(item).select_next(item) == m.select_next(item),
        m.select_outcome(item) == SelectOutcome::Selected ==> m.select_next(item).select_outcome(
            item,
        ) == SelectOutcome::AlreadySelected,
{
    if m.select_outcome(item) == SelectOutcome::Selected {
        let name = m.tree[item as int].widget->Button_0.plugin_name;
        let k = route_spec(m.plugins, name)->0;
        let flagged = flags_moved(m.tree, m.selected, item);
        let next = m.select_next(item);
        lemma_first_match_is_first(menu_names(m.plugins), name, 0);
        lemma_flags_moved(m, item);
        m.plugins[k].content_replaces(flagged, m.content);
        assert(next.tree.subrange(0, flagged.len() as int)[item as int] == next.tree[item as int]);
    }
}

/// The host's menu: the UI tree with the menu's root and the content pane,
/// the registered plugins, and the selected entry. `P` is the type of the
/// plugins; a host with plugins of several types uses the type-erased
/// `dyn MenuItemPlugin`.
pub struct Menu<P: MenuItemPlugin + ?Sized = dyn MenuItemPlugin> {
    tree: UiTree,
    menu_root: NodeId,
    content: NodeId,
    selected: Option<NodeId>,
    plugins: Vec<Box<P>>,
}

impl<P: MenuItemPlugin + ?Sized> View for Menu<P> {
    type V = MenuView<P>;

    closed spec fn view(&self) -> MenuView<P> {
        MenuView {
            tree: self.tree@,
            menu_root: self.menu_root,
            content: self.content,
            selected: self.selected,
            plugins: self.plugins@,
        }
    }
}

impl<P: MenuItemPlugin + ?Sized> Menu<P> {
    /// The menu's invariant, over its value.
    pub open spec fn wf(&self) -> bool {
        self@.wf()
    }

    /// A menu without entries and without plugins: a root with two
    /// children, the node that will hold the entries and the empty content
    /// pane.
    pub fn new() -> (menu: Self)
        ensures
            menu.wf(),
            menu@.tree == seq![
                fresh_node(None, WidgetView::Container),
                fresh_node(Some(0), WidgetView::Container),
                fresh_node(Some(0), WidgetView::MenuContent),
            ],
            menu@.menu_root == 1,
            menu@.content == 2,
            menu@.selected is None,
            menu@.plugins == Seq::<Box<P>>::empty(),
    {
        let mut tree = UiTree::new();
        let root = tree.spawn_root(Widget::Container);
        let menu_root = tree.spawn_child(root, Widget::Container);
        let content = tree.spawn_child(root, Widget::MenuContent);
        let menu = Menu { tree, menu_root, content, selected: None, plugins: Vec::new() };
        proof {
            let t = menu@.tree;
            assert(t =~= seq![
                fresh_node(None, WidgetView::Container),
                fresh_node(Some(0), WidgetView::Container),
                fresh_node(Some(0), WidgetView::MenuContent),
            ]);
            assert(!is_descendant(t, 0, 2));
            assert forall|i: int| 0 <= i < t.len() implies #[trigger] menu@.item_in_order(i) by {}
            assert(children_upto(t, 2, 0) == Seq::<NodeId>::empty());
            assert(children_upto(t, 2, 1) == Seq::<NodeId>::empty());
            assert(children_upto(t, 2, 2) == Seq::<NodeId>::empty());
        }
        menu
    }

    /// The UI tree.
    pub fn tree(&self) -> (tree: &UiTree)
        ensures
            tree@ == self@.tree,
    {
        &self.tree
    }

    /// The node under which menu entries are added.
    pub fn menu_root(&self) -> (id: NodeId)
        ensures
            id == self@.menu_root,
    {
        self.menu_root
    }

    /// The root of the content pane.
    pub fn content(&self) -> (id: NodeId)
        ensures
            id == self@.content,
    {
        self.content
    }

    /// The selected entry, if any.
    pub fn selected(&self) -> (id: Option<NodeId>)
        ensures
            id == self@.selected,
    {
        self.selected
    }

    /// Number of registered plugins.
    pub fn plugin_count(&self) -> (n: usize)
        ensures
            n == self@.plugins.len(),
    {
        self.plugins.len()
    }

    /// Registers `plugin`, behind those registered before. Selections of
    /// entries with its `menu_name()` are routed to it unless an earlier
    /// plugin has the same name.
    pub fn register(&mut self, plugin: Box<P>)
        requires
            old(self).wf(),
        ensures
            final(self)@ == (MenuView { plugins: old(self)@.plugins.push(plugin), ..old(self)@ }),
            final(self).wf(),
    {
        self.plugins.push(plugin);
        proof {
            let before = old(self)@;
            let after = self@;
            assert forall|i: int| 0 <= i < after.tree.len() implies #[trigger] after.item_in_order(
                i,
            ) by {
                assert(before.item_in_order(i));
            }
        }
    }

    /// Lets `plugin` add its entry to the menu and returns the entry's id.
    pub fn add_item(&mut self, plugin: &P, assets: &AssetLookup) -> (id: NodeId)
        requires
            old(self).wf(),
        ensures
            id == old(self)@.tree.len(),
            adds_menu_item(
                old(self)@.tree,
                old(self)@.menu_root,
                plugin.menu_name_spec(),
                plugin.menu_label_spec(),
                final(self)@.tree,
            ),
            final(self)@ == old(self)@.with_tree(final(self)@.tree),
            final(self).wf(),
    {
        let id = plugin.add_menu_item(&mut self.tree, self.menu_root, assets);
        proof {
            let before = old(self)@;
            let after = self@;
            lemma_added_item(
                before.tree,
                before.menu_root,
                plugin.menu_name_spec(),
                plugin.menu_label_spec(),
                after.tree,
                before.content,
            );
            assert forall|i: int| 0 <= i < after.tree.len() implies #[trigger] after.item_in_order(
                i,
            ) by {
                if i < before.tree.len() {
                    assert(before.item_in_order(i));
                }
            }
        }
        id
    }

    /// Installs `plugin`: lets it add its entry to the menu, then registers
    /// it. Returns the entry's id.
    pub fn install(&mut self, plugin: Box<P>, assets: &AssetLookup) -> (id: NodeId)
        requires
            old(self).wf(),
        ensures
            id == old(self)@.tree.len(),
            adds_menu_item(
                old(self)@.tree,
                old(self)@.menu_root,
                plugin.menu_name_spec(),
                plugin.menu_label_spec(),
                final(self)@.tree,
            ),
            final(self)@ == (MenuView {
                tree: final(self)@.tree,
                plugins: old(self)@.plugins.push(plugin),
                ..old(self)@
            }),
            final(self).wf(),
    {
        let id = self.add_item(&*plugin, assets);
        self.register(plugin);
        id
    }

    /// The plugin that answers to `name`: the first registered one whose
    /// `menu_name()` is `name`.
    pub fn route(&self, name: &str) -> (k: Option<usize>)
        ensures
            match k {
                Some(i) => route_spec(self@.plugins, name@) == Some(i as int),
                None => route_spec(self@.plugins, name@) is None,
            },
    {
        let key = name.to_owned();
        let n = self.plugins.len();
        let ghost names = menu_names(self@.plugins);
        let mut j: usize = 0;
        while j < n
            invariant
                j <= n,
                n == self.plugins.len(),
                names == menu_names(self@.plugins),
                names.len() == n,
                key@ == name@,
                forall|k: int| 0 <= k < j ==> #[trigger] names[k] != name@,
            decreases n - j,
        {
            let candidate = self.plugins[j].menu_name().to_owned();
            if candidate == key {
                proof {
                    lemma_first_match_skip(names, name@, 0, j as int);
                }
                return Some(j);
            }
            j = j + 1;
        }
        proof {
            lemma_first_match_skip(names, name@, 0, n as int);
        }
        None
    }

    /// Dispatches a selection of `item`.
    ///
    /// If `item` is a menu entry other than the selected one, and a plugin
    /// answers to its name, the previously selected entry loses its flag,
    /// `item` gets it, and the plugin draws the content pane. In every other
    /// case nothing changes, and the outcome says why.
    pub fn select(&mut self, item: NodeId) -> (outcome: SelectOutcome)
        requires
            old(self).wf(),
        ensures
            outcome == old(self)@.select_outcome(item),
            final(self)@ == old(self)@.select_next(item),
            final(self).wf(),
    {
        let name = match self.tree.menu_item(item) {
            Some(entry) => entry.plugin_name.clone(),
            None => {
                return SelectOutcome::NotAnItem;
            },
        };
        match self.selected {
            Some(prev) => {
                if prev == item {
                    return SelectOutcome::AlreadySelected;
                }
            },
            None => {},
        }
        let k = match self.route(name.as_str()) {
            Some(k) => k,
            None => {
                return SelectOutcome::NoRoute;
            },
        };
        proof {
            lemma_first_match_is_first(menu_names(self@.plugins), name@, 0);
            lemma_flags_moved(self@, item);
        }
        match self.selected {
            Some(prev) => {
                self.tree.set_selected(prev, false);
            },
            None => {},
        }
        self.tree.set_selected(item, true);
        self.selected = Some(item);
        self.plugins[k].on_selected(&mut self.tree, self.content);
        proof {
            lemma_select_keeps_invariant(old(self)@, item);
        }
        SelectOutcome::Selected
    }
}

} // verus!
