use sf_plugin_template::assets::AssetLookup;

#[test]
fn empty_lookup_resolves_nothing() {
    let assets = AssetLookup::new();
    assert_eq!(assets.len(), 0);
    assert_eq!(assets.resolve("fonts/FiraSans-Bold.ttf"), None);
}

#[test]
fn load_hands_out_ids_in_order() {
    let mut assets = AssetLookup::new();
    assert_eq!(assets.load("a.ttf"), 0);
    assert_eq!(assets.load("b.ttf"), 1);
    assert_eq!(assets.load("c.png"), 2);
    assert_eq!(assets.len(), 3);
    assert_eq!(assets.resolve("a.ttf"), Some(0));
    assert_eq!(assets.resolve("b.ttf"), Some(1));
    assert_eq!(assets.resolve("c.png"), Some(2));
    assert_eq!(assets.resolve("d.png"), None);
}

#[test]
fn loading_twice_keeps_the_id() {
    let mut assets = AssetLookup::new();
    assert_eq!(assets.load("a.ttf"), 0);
    assert_eq!(assets.load("b.ttf"), 1);
    assert_eq!(assets.load("a.ttf"), 0);
    assert_eq!(assets.len(), 2);
}

#[test]
fn names_are_compared_exactly() {
    let mut assets = AssetLookup::new();
    assets.load("Font.ttf");
    assert_eq!(assets.resolve("font.ttf"), None);
    assert_eq!(assets.resolve("Font.ttf "), None);
    assert_eq!(assets.resolve(""), None);
    assert_eq!(assets.load(""), 1);
    assert_eq!(assets.resolve(""), Some(1));
}
