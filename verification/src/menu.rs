//! The menu protocol: how a plugin contributes one entry to the host's menu
//! and draws its content pane, and how the host routes a selection.

use vstd::prelude::*;
use crate::assets::AssetLookup;
use crate::assets::resolve_spec;
use crate::plugin::boxed_clone;
use crate::ui::AssetId;
use crate::ui::MenuItem;
use crate::ui::MenuItemView;
use crate::ui::NodeId;
use crate::ui::NodeView;
use crate::ui::UiTree;
use crate::ui::Widget;
use crate::ui::WidgetView;
use crate::ui::despawned;
use crate::ui::fresh_node;
use crate::ui::is_alive;
use crate::ui::well_formed;

verus! {

/// The font that the default menu button asks the host for.
pub const MENU_FONT: &'static str = "fonts/FiraSans-Bold.ttf";

/// The button of a menu entry owned by the plugin called `name`, not yet
/// selected.
pub open spec fn menu_button(parent: NodeId, name: Seq<char>) -> NodeView {
    fresh_node(
        Some(parent),
        WidgetView::Button(MenuItemView { plugin_name: name, selected: false }),
    )
}

/// A text node.
pub open spec fn text_node(parent: NodeId, text: Seq<char>, font: Option<AssetId>) -> NodeView {
    fresh_node(Some(parent), WidgetView::Text(text, font))
}

/// Node `j` is a live part of the subtree that starts at node `first`, and
/// is neither a menu entry nor a content root.
pub open spec fn is_decoration(s: Seq<NodeView>, first: int, j: int) -> bool {
    &&& s[j].alive
    &&& s[j].parent matches Some(p) && first <= p < j
    &&& !(s[j].widget is Button)
    &&& !(s[j].widget is MenuContent)
}

/// `after` is `before` with one menu entry added under `parent`: untouched
/// old nodes, then the entry's button, then its label, then whatever else the
/// plugin hung below the button.
pub open spec fn adds_menu_item(
    before: Seq<NodeView>,
    parent: NodeId,
    name: Seq<char>,
    label: Seq<char>,
    after: Seq<NodeView>,
) -> bool {
    let n = before.len() as int;
    &&& after.len() >= n + 2
    &&& after.subrange(0, n) == before
    &&& after[n] == menu_button(parent, name)
    &&& after[n + 1].widget matches WidgetView::Text(text, _) && text == label
    &&& after[n + 1].parent == Some(n as usize)
    &&& forall|j: int| n < j < after.len() ==> #[trigger] is_decoration(after, n, j)
}

/// `after` is `before` with the content pane replaced: everything that was
/// below `content` is despawned, and the new nodes form one subtree whose
/// root, the first new node, is a child of `content`.
pub open spec fn replaces_content(
    before: Seq<NodeView>,
    content: NodeId,
    after: Seq<NodeView>,
) -> bool {
    let n = before.len() as int;
    &&& after.len() > n
    &&& after.subrange(0, n) == despawned(before, content)
    &&& after[n].alive
    &&& after[n].parent == Some(content)
    &&& !(after[n].widget is Button)
    &&& !(after[n].widget is MenuContent)
    &&& forall|j: int| n < j < after.len() ==> #[trigger] is_decoration(after, n, j)
}

/// The capability of a plugin that contributes an entry to the menu.
pub trait MenuItemPlugin {
    /// The routing key of the plugin's entry.
    spec fn menu_name_spec(&self) -> Seq<char>;

    /// The label shown on the entry: the routing key, unless the plugin
    /// says otherwise.
    open spec fn menu_label_spec(&self) -> Seq<char> {
        self.menu_name_spec()
    }

    /// The tree after the plugin has drawn its content pane below
    /// `content`.
    spec fn content_spec(&self, before: Seq<NodeView>, content: NodeId) -> Seq<NodeView>;

    /// Drawing the content pane replaces what was below `content` by one
    /// new subtree and touches nothing else.
    proof fn content_replaces(&self, before: Seq<NodeView>, content: NodeId)
        requires
            well_formed(before),
            is_alive(before, content),
        ensures
            replaces_content(before, content, self.content_spec(before, content)),
    ;

    /// Stable identifier of the entry; selection is routed by it.
    fn menu_name(&self) -> (r: &'static str)
        ensures
            r@ == self.menu_name_spec(),
    ;

    /// Human-readable label of the entry. A plugin without a label of its
    /// own returns `menu_name()`.
    fn menu_label(&self) -> (r: &'static str)
        ensures
            r@ == self.menu_label_spec(),
    ;

    /// Adds the plugin's entry as the youngest child of `parent`: a button
    /// carrying the entry's record, unselected, with the label as its first
    /// child. Returns the button's id. The entry as provided here is the
    /// button and its label in the menu font, and nothing else.
    fn add_menu_item(&self, tree: &mut UiTree, parent: NodeId, assets: &AssetLookup) -> (id:
        NodeId)
        requires
            old(tree).wf(),
            is_alive(old(tree)@, parent),
        ensures
            id == old(tree)@.len(),
            adds_menu_item(
                old(tree)@,
                parent,
                self.menu_name_spec(),
                self.menu_label_spec(),
                final(tree)@,
            ),
            final(tree).wf(),
        default_ensures
            final(tree)@ == old(tree)@.push(menu_button(parent, self.menu_name_spec())).push(
                text_node(id, self.menu_label_spec(), resolve_spec(assets@, MENU_FONT@)),
            ),
    {
        let name = self.menu_name().to_owned();
        let label = self.menu_label().to_owned();
        let font = assets.resolve(MENU_FONT);
        let entry = MenuItem { plugin_name: name, selected: false };
        let id = tree.spawn_child(parent, Widget::Button(entry));
        let _label = tree.spawn_child(id, Widget::Text(label, font));
        proof {
            let n = old(tree)@.len() as int;
            assert(tree@.subrange(0, n) =~= old(tree)@);
        }
        id
    }

    /// Draws the plugin's content pane: despawns everything below
    /// `content`, then spawns the plugin's content there.
    fn on_selected(&self, tree: &mut UiTree, content: NodeId)
        requires
            old(tree).wf(),
            is_alive(old(tree)@, content),
        ensures
            final(tree)@ == self.content_spec(old(tree)@, content),
            final(tree).wf(),
    ;

    /// Whatever `clone` makes of a plugin names, labels and draws itself as
    /// the plugin does.
    proof fn clone_keeps_menu(&self, copy: &Self) where Self: Sized + Clone
        requires
            cloned::<Self>(*self, *copy),
        ensures
            copy.menu_name_spec() == self.menu_name_spec(),
            copy.menu_label_spec() == self.menu_label_spec(),
            forall|before: Seq<NodeView>, content: NodeId| #[trigger]
                copy.content_spec(before, content) == self.content_spec(before, content),
    ;

    /// An independent copy that names, labels and draws itself as this one
    /// does. Making the copy runs none of the plugin's hooks.
    fn clone_box(&self) -> (copy: Box<Self>) where Self: Sized + Clone
        ensures
            copy.menu_name_spec() == self.menu_name_spec(),
            copy.menu_label_spec() == self.menu_label_spec(),
            forall|before: Seq<NodeView>, content: NodeId| #[trigger]
                copy.content_spec(before, content) == self.content_spec(before, content),
    {
        let copy = boxed_clone(self);
        proof {
            self.clone_keeps_menu(&*copy);
        }
        copy
    }
}

} // verus!
