use sf_plugin_template::assets::AssetLookup;
use sf_plugin_template::handle::{create_plugin, destroy_plugin};
use sf_plugin_template::menu::{MenuItemPlugin, MENU_FONT};
use sf_plugin_template::plugin::GamePlugin;
use sf_plugin_template::schedule::HostSchedule;
use sf_plugin_template::template::{TemplatePlugin, TEMPLATE_BODY, TEMPLATE_TITLE};
use sf_plugin_template::selection::{Menu, SelectOutcome};
use sf_plugin_template::ui::{MenuItem, NodeId, NodeView, UiTree, Widget};
use vstd::seq::Seq;

fn entry(name: &str, selected: bool) -> MenuItem {
    MenuItem { plugin_name: name.to_string(), selected }
}

fn text(s: &str) -> Widget {
    Widget::Text(s.to_string(), None)
}

/// A second plugin, with a label of its own, an entry with an icon, and a
/// content pane of a different shape.
#[derive(Clone)]
struct Settings {
    pages: Vec<&'static str>,
}

impl MenuItemPlugin for Settings {
    // The ghost items below exist for the verifier alone and never run.
    fn menu_name_spec(&self) -> Seq<char> {
        unreachable!()
    }

    fn content_spec(&self, _before: Seq<NodeView>, _content: NodeId) -> Seq<NodeView> {
        unreachable!()
    }

    fn content_replaces(&self, _before: Seq<NodeView>, _content: NodeId) {}

    fn clone_keeps_menu(&self, _copy: &Self) {}

    fn menu_name(&self) -> &'static str {
        "Settings"
    }

    fn menu_label(&self) -> &'static str {
        "Game settings"
    }

    fn add_menu_item(&self, tree: &mut UiTree, parent: NodeId, _assets: &AssetLookup) -> NodeId {
        let button = tree.spawn_child(parent, Widget::Button(entry(self.menu_name(), false)));
        tree.spawn_child(button, text(self.menu_label()));
        tree.spawn_child(button, Widget::Container);
        button
    }

    fn on_selected(&self, tree: &mut UiTree, content: NodeId) {
        tree.despawn_children(content);
        let group = tree.spawn_child(content, Widget::Container);
        tree.spawn_child(group, text("Settings"));
        for page in self.pages.iter() {
            tree.spawn_child(group, text(page));
        }
    }
}

/// The entries of the menu with their flags, in order.
fn flags(menu: &Menu) -> Vec<(String, bool)> {
    let tree = menu.tree();
    tree.children(menu.menu_root())
        .into_iter()
        .filter_map(|id| tree.menu_item(id))
        .map(|item| (item.plugin_name.clone(), item.selected))
        .collect()
}

fn selected_count(menu: &Menu) -> usize {
    let tree = menu.tree();
    (0..tree.len()).filter(|id| tree.menu_item(*id).map_or(false, |item| item.selected)).count()
}

#[test]
fn template_menu_name_and_label() {
    let plugin = TemplatePlugin;
    assert_eq!(plugin.menu_name(), "Template");
    assert_eq!(plugin.menu_label(), "Template");
    assert_eq!(plugin.menu_label(), plugin.menu_name());
}

#[test]
fn template_plugin_scenario() {
    let handle = create_plugin();
    let mut schedule = HostSchedule::new();
    handle.get_plugin().build(&mut schedule);
    assert_eq!(schedule.len(), 2);

    let assets = AssetLookup::new();
    let mut menu: Menu = Menu::new();
    let before = menu.tree().len();
    let item = menu.install(Box::new(TemplatePlugin), &assets);

    assert_eq!(item, before);
    assert_eq!(menu.tree().len(), before + 2);
    assert_eq!(menu.tree().children(menu.menu_root()), vec![item]);
    assert_eq!(menu.tree().parent(item), Some(menu.menu_root()));
    assert_eq!(menu.tree().menu_item(item), Some(&entry("Template", false)));
    let label = menu.tree().children(item);
    assert_eq!(label.len(), 1);
    assert_eq!(menu.tree().widget(label[0]), Some(&text("Template")));
    assert_eq!(menu.tree().children(menu.content()), Vec::<usize>::new());

    assert_eq!(menu.select(item), SelectOutcome::Selected);
    assert_eq!(menu.tree().menu_item(item), Some(&entry("Template", true)));
    let groups = menu.tree().children(menu.content());
    assert_eq!(groups.len(), 1);
    assert_eq!(menu.tree().widget(groups[0]), Some(&Widget::Container));
    let parts = menu.tree().children(groups[0]);
    assert_eq!(parts.len(), 2);
    assert_eq!(menu.tree().widget(parts[0]), Some(&text("Template Plugin")));
    assert_eq!(menu.tree().widget(parts[1]), Some(&text(TEMPLATE_BODY)));
    assert!(TEMPLATE_BODY.contains("Template"));
    assert_eq!(TEMPLATE_TITLE, "Template Plugin");

    destroy_plugin(Some(handle));
}

#[test]
fn template_hooks_called_by_hand() {
    let plugin = TemplatePlugin;
    let assets = AssetLookup::new();
    let mut tree = UiTree::new();
    let root = tree.spawn_root(Widget::Container);
    let parent = tree.spawn_child(root, Widget::Container);
    let content = tree.spawn_child(root, Widget::MenuContent);

    let item = plugin.add_menu_item(&mut tree, parent, &assets);
    assert_eq!(item, 3);
    assert_eq!(tree.len(), 5);
    assert_eq!(tree.children(parent), vec![3]);
    assert_eq!(tree.menu_item(3), Some(&entry("Template", false)));
    assert_eq!(tree.children(3), vec![4]);
    assert_eq!(tree.widget(4), Some(&text("Template")));

    plugin.on_selected(&mut tree, content);
    assert_eq!(tree.len(), 8);
    assert_eq!(tree.children(content), vec![5]);
    assert_eq!(tree.widget(5), Some(&Widget::Container));
    assert_eq!(tree.children(5), vec![6, 7]);
    assert_eq!(tree.widget(6), Some(&text("Template Plugin")));
    assert_eq!(tree.widget(7), Some(&text(TEMPLATE_BODY)));
    assert_eq!(tree.menu_item(3), Some(&entry("Template", false)));
}

#[test]
fn default_entry_uses_the_menu_font_when_it_is_loaded() {
    let mut assets = AssetLookup::new();
    assets.load("icons/star.png");
    let font = assets.load(MENU_FONT);
    assert_eq!(font, 1);
    let mut tree = UiTree::new();
    let root = tree.spawn_root(Widget::Container);
    let item = TemplatePlugin.add_menu_item(&mut tree, root, &assets);
    assert_eq!(item, 1);
    assert_eq!(tree.widget(2), Some(&Widget::Text("Template".to_string(), Some(1))));
    assert_eq!(tree.parent(2), Some(item));
}

#[test]
fn on_selected_replaces_earlier_content() {
    let plugin = TemplatePlugin;
    let mut tree = UiTree::new();
    let content = tree.spawn_root(Widget::MenuContent);
    let stale = tree.spawn_child(content, Widget::Container);
    let stale_text = tree.spawn_child(stale, text("stale"));

    plugin.on_selected(&mut tree, content);
    assert!(!tree.is_alive(stale));
    assert!(!tree.is_alive(stale_text));
    let first = tree.children(content);
    assert_eq!(first, vec![3]);

    plugin.on_selected(&mut tree, content);
    let second = tree.children(content);
    assert_eq!(second, vec![6]);
    assert!(!tree.is_alive(3));
    assert!(!tree.is_alive(4));
    assert!(!tree.is_alive(5));
    assert_eq!(tree.children(6), vec![7, 8]);
    assert_eq!(tree.widget(7), Some(&text("Template Plugin")));
    assert_eq!(tree.widget(8), Some(&text(TEMPLATE_BODY)));
}

#[test]
fn new_menu_has_a_root_an_entry_holder_and_an_empty_pane() {
    let menu: Menu = Menu::new();
    let tree = menu.tree();
    assert_eq!(tree.len(), 3);
    assert_eq!(menu.menu_root(), 1);
    assert_eq!(menu.content(), 2);
    assert_eq!(tree.children(0), vec![1, 2]);
    assert_eq!(tree.widget(menu.content()), Some(&Widget::MenuContent));
    assert_eq!(tree.widget(menu.menu_root()), Some(&Widget::Container));
    assert_eq!(menu.selected(), None);
    assert_eq!(menu.plugin_count(), 0);
    assert_eq!(tree.children(menu.content()), Vec::<usize>::new());
}

#[test]
fn select_routes_to_the_plugin_with_the_entrys_name() {
    let assets = AssetLookup::new();
    let mut menu: Menu = Menu::new();
    let template = menu.add_item(&TemplatePlugin, &assets);
    let settings = menu.add_item(&Settings { pages: vec!["Audio", "Video"] }, &assets);
    menu.register(Box::new(Settings { pages: vec!["Audio", "Video"] }));
    menu.register(Box::new(TemplatePlugin));
    assert_eq!(menu.plugin_count(), 2);
    assert_eq!(
        flags(&menu),
        vec![("Template".to_string(), false), ("Settings".to_string(), false)]
    );

    assert_eq!(menu.select(template), SelectOutcome::Selected);
    assert_eq!(menu.selected(), Some(template));
    assert_eq!(flags(&menu), vec![("Template".to_string(), true), ("Settings".to_string(), false)]);
    let pane = menu.tree().children(menu.content());
    assert_eq!(pane.len(), 1);
    let parts = menu.tree().children(pane[0]);
    assert_eq!(menu.tree().widget(parts[0]), Some(&text("Template Plugin")));

    assert_eq!(menu.select(settings), SelectOutcome::Selected);
    assert_eq!(menu.selected(), Some(settings));
    assert_eq!(flags(&menu), vec![("Template".to_string(), false), ("Settings".to_string(), true)]);
    let pane = menu.tree().children(menu.content());
    assert_eq!(pane.len(), 1);
    let parts = menu.tree().children(pane[0]);
    assert_eq!(parts.len(), 3);
    assert_eq!(menu.tree().widget(parts[0]), Some(&text("Settings")));
    assert_eq!(menu.tree().widget(parts[1]), Some(&text("Audio")));
    assert_eq!(menu.tree().widget(parts[2]), Some(&text("Video")));
}

#[test]
fn exactly_one_entry_is_selected_after_every_selection() {
    let assets = AssetLookup::new();
    let mut menu: Menu = Menu::new();
    let template = menu.add_item(&TemplatePlugin, &assets);
    let settings = menu.add_item(&Settings { pages: vec![] }, &assets);
    menu.register(Box::new(TemplatePlugin));
    menu.register(Box::new(Settings { pages: vec![] }));
    assert_eq!(selected_count(&menu), 0);
    for item in [template, settings, settings, template, template, settings, template] {
        menu.select(item);
        assert_eq!(selected_count(&menu), 1);
        assert_eq!(menu.selected(), Some(item));
        assert_eq!(menu.tree().menu_item(item).map(|i| i.selected), Some(true));
        assert_eq!(menu.tree().children(menu.content()).len(), 1);
    }
}

#[test]
fn selecting_the_selected_entry_again_changes_nothing() {
    let assets = AssetLookup::new();
    let mut menu: Menu = Menu::new();
    let template = menu.add_item(&TemplatePlugin, &assets);
    menu.register(Box::new(TemplatePlugin));
    assert_eq!(menu.select(template), SelectOutcome::Selected);
    let once = menu.tree().clone();
    assert_eq!(menu.select(template), SelectOutcome::AlreadySelected);
    assert_eq!(menu.tree(), &once);
    assert_eq!(menu.selected(), Some(template));
    assert_eq!(menu.select(template), SelectOutcome::AlreadySelected);
    assert_eq!(menu.tree(), &once);
}

#[test]
fn selection_without_a_route_is_a_no_op() {
    let assets = AssetLookup::new();
    let mut menu: Menu = Menu::new();
    let template = menu.add_item(&TemplatePlugin, &assets);
    let settings = menu.add_item(&Settings { pages: vec![] }, &assets);
    menu.register(Box::new(TemplatePlugin));
    let before = menu.tree().clone();

    assert_eq!(menu.select(settings), SelectOutcome::NoRoute);
    assert_eq!(menu.tree(), &before);
    assert_eq!(menu.selected(), None);
    assert_eq!(selected_count(&menu), 0);

    assert_eq!(menu.select(template), SelectOutcome::Selected);
    let selected = menu.tree().clone();
    assert_eq!(menu.select(settings), SelectOutcome::NoRoute);
    assert_eq!(menu.tree(), &selected);
    assert_eq!(menu.selected(), Some(template));
    assert_eq!(selected_count(&menu), 1);
}

#[test]
fn selecting_something_that_is_no_entry_is_a_no_op() {
    let assets = AssetLookup::new();
    let mut menu: Menu = Menu::new();
    let template = menu.add_item(&TemplatePlugin, &assets);
    menu.register(Box::new(TemplatePlugin));
    let before = menu.tree().clone();
    assert_eq!(menu.select(menu.content()), SelectOutcome::NotAnItem);
    assert_eq!(menu.select(menu.menu_root()), SelectOutcome::NotAnItem);
    assert_eq!(menu.select(template + 1), SelectOutcome::NotAnItem);
    assert_eq!(menu.select(1_000_000), SelectOutcome::NotAnItem);
    assert_eq!(menu.tree(), &before);
    assert_eq!(menu.selected(), None);
}

#[test]
fn the_first_plugin_registered_under_a_name_gets_the_selection() {
    #[derive(Clone)]
    struct Impostor;

    impl MenuItemPlugin for Impostor {
        // The ghost items below exist for the verifier alone and never run.
        fn menu_name_spec(&self) -> Seq<char> {
            unreachable!()
        }

        fn content_spec(&self, _before: Seq<NodeView>, _content: NodeId) -> Seq<NodeView> {
            unreachable!()
        }

        fn content_replaces(&self, _before: Seq<NodeView>, _content: NodeId) {}

        fn clone_keeps_menu(&self, _copy: &Self) {}

        fn menu_name(&self) -> &'static str {
            "Template"
        }

        fn menu_label(&self) -> &'static str {
            "Template"
        }

        fn on_selected(&self, tree: &mut UiTree, content: NodeId) {
            tree.despawn_children(content);
            tree.spawn_child(content, Widget::Container);
        }
    }

    let assets = AssetLookup::new();
    let mut menu: Menu = Menu::new();
    let item = menu.add_item(&TemplatePlugin, &assets);
    menu.register(Box::new(TemplatePlugin));
    menu.register(Box::new(Impostor));
    assert_eq!(menu.route("Template"), Some(0));
    assert_eq!(menu.route("Settings"), None);
    assert_eq!(menu.select(item), SelectOutcome::Selected);
    let pane = menu.tree().children(menu.content());
    assert_eq!(menu.tree().children(pane[0]).len(), 2);
}

#[test]
fn a_plugin_may_draw_its_entry_itself() {
    let assets = AssetLookup::new();
    let mut menu: Menu = Menu::new();
    let settings = Settings { pages: vec![] };
    let item = menu.add_item(&settings, &assets);
    let tree = menu.tree();
    assert_eq!(tree.menu_item(item), Some(&entry("Settings", false)));
    let parts = tree.children(item);
    assert_eq!(parts.len(), 2);
    assert_eq!(tree.widget(parts[0]), Some(&text("Game settings")));
    assert_eq!(tree.widget(parts[1]), Some(&Widget::Container));
}

#[test]
fn a_menu_of_one_plugin_type() {
    let assets = AssetLookup::new();
    let mut menu: Menu<TemplatePlugin> = Menu::new();
    let item = menu.add_item(&TemplatePlugin, &assets);
    menu.register(TemplatePlugin.clone_box());
    assert_eq!(menu.select(item), SelectOutcome::Selected);
    assert_eq!(menu.select(item), SelectOutcome::AlreadySelected);
}

#[test]
fn menu_item_copy_names_and_draws_like_its_source() {
    let source = Settings { pages: vec!["Audio"] };
    let mut copy = source.clone_box();
    assert_eq!(copy.menu_name(), source.menu_name());
    assert_eq!(copy.menu_label(), source.menu_label());

    let mut first = UiTree::new();
    let mut second = UiTree::new();
    let a = first.spawn_root(Widget::MenuContent);
    let b = second.spawn_root(Widget::MenuContent);
    source.on_selected(&mut first, a);
    copy.on_selected(&mut second, b);
    assert_eq!(first, second);

    copy.pages.push("Video");
    assert_eq!(source.pages, vec!["Audio"]);
    assert_eq!(copy.menu_name(), "Settings");
}

#[test]
fn template_copy_is_a_template_plugin() {
    let copy = TemplatePlugin.clone_box();
    assert_eq!(copy.menu_name(), "Template");
    assert_eq!(GamePlugin::name(&*copy), "TemplatePlugin");
}
