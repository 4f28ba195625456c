//! The example plugin: a fixed identity, two hooks, and a menu entry with a
//! title and a line of text for content.

use vstd::prelude::*;
use crate::menu::MenuItemPlugin;
use crate::menu::is_decoration;
use crate::menu::text_node;
use crate::plugin::GamePlugin;
use crate::schedule::HookView;
use crate::schedule::HostSchedule;
use crate::schedule::Phase;
use crate::ui::NodeId;
use crate::ui::NodeView;
use crate::ui::UiTree;
use crate::ui::Widget;
use crate::ui::WidgetView;
use crate::ui::despawned;
use crate::ui::fresh_node;
use crate::ui::lemma_descendant_not_self;

verus! {

/// The example plugin.
#[derive(Clone, Debug)]
pub struct TemplatePlugin;

impl Default for TemplatePlugin {
    fn default() -> (plugin: TemplatePlugin)
        ensures
            plugin == TemplatePlugin,
    {
        TemplatePlugin
    }
}

impl GamePlugin for TemplatePlugin {
    open spec fn name_spec(&self) -> Seq<char> {
        "TemplatePlugin"@
    }

    open spec fn version_spec(&self) -> Seq<char> {
        "0.1.0"@
    }

    open spec fn hooks_spec(&self) -> Seq<HookView> {
        seq![
            HookView { phase: Phase::Update, name: "update_system"@ },
            HookView { phase: Phase::Startup, name: "setup_plugin"@ },
        ]
    }

    fn name(&self) -> (r: &'static str) {
        "TemplatePlugin"
    }

    fn version(&self) -> (r: &'static str) {
        "0.1.0"
    }

    fn build(&self, host: &mut HostSchedule) {
        host.add_systems(Phase::Update, "update_system");
        host.add_systems(Phase::Startup, "setup_plugin");
    }

    proof fn clone_keeps_identity(&self, copy: &TemplatePlugin) {
    }
}

/// The title of the example plugin's content pane.
pub const TEMPLATE_TITLE: &'static str = "Template Plugin";

/// The body text of the example plugin's content pane.
pub const TEMPLATE_BODY: &'static str = "This content is provided by the Template plugin.";

impl MenuItemPlugin for TemplatePlugin {
    open spec fn menu_name_spec(&self) -> Seq<char> {
        "Template"@
    }

    open spec fn content_spec(&self, before: Seq<NodeView>, content: NodeId) -> Seq<NodeView> {
        let group = before.len() as usize;
        despawned(before, content).push(fresh_node(Some(content), WidgetView::Container)).push(
            text_node(group, TEMPLATE_TITLE@, None),
        ).push(text_node(group, TEMPLATE_BODY@, None))
    }

    proof fn content_replaces(&self, before: Seq<NodeView>, content: NodeId) {
        let n = before.len() as int;
        let after = self.content_spec(before, content);
        assert(after.subrange(0, n) =~= despawned(before, content));
    }

    fn menu_name(&self) -> (r: &'static str) {
        "Template"
    }

    fn menu_label(&self) -> (r: &'static str) {
        self.menu_name()
    }

    fn on_selected(&self, tree: &mut UiTree, content: NodeId) {
        tree.despawn_children(content);
        proof {
            lemma_descendant_not_self(old(tree)@, content);
        }
        let group = tree.spawn_child(content, Widget::Container);
        let _title = tree.spawn_child(group, Widget::Text(TEMPLATE_TITLE.to_owned(), None));
        let _body = tree.spawn_child(group, Widget::Text(TEMPLATE_BODY.to_owned(), None));
    }

    proof fn clone_keeps_menu(&self, copy: &TemplatePlugin) {
    }
}

} // verus!
