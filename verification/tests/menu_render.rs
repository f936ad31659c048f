use wm_menus::menu::{Item, Menu};

fn item(name: &str, action: &str, icon: &str, tooltip: &str) -> Item {
    Item {
        name: name.to_string(),
        action: action.to_string(),
        icon: icon.to_string(),
        tooltip: tooltip.to_string(),
    }
}

#[test]
fn item_new_has_no_tooltip() {
    let it = Item::new("ic", "Name", "run");
    assert_eq!(it.icon, "ic");
    assert_eq!(it.name, "Name");
    assert_eq!(it.action, "run");
    assert_eq!(it.tooltip, "");
}

#[test]
fn item_jwm_without_tooltip() {
    let it = Item::new("/icons/a.svg", "Audacious", "audacious %U");
    assert_eq!(
        it.jwm(),
        "        <Program icon=\"/icons/a.svg\" label=\"Audacious\">audacious</Program>\n"
    );
}

#[test]
fn item_jwm_with_tooltip() {
    let it = item("Inkscape", "inkscape %F", "/i/ink.svg", "Create and edit SVG");
    assert_eq!(
        it.jwm(),
        "      <Program icon=\"/i/ink.svg\" label=\"Inkscape\" tooltip=\"Create and edit SVG\">inkscape</Program>\n"
    );
}

#[test]
fn item_command_cut_at_last_field_code_only() {
    let it = Item::new("i", "n", "a %b %c");
    assert_eq!(it.jwm(), "        <Program icon=\"i\" label=\"n\">a %b</Program>\n");
    let it = Item::new("i", "n", "a%b");
    assert_eq!(it.jwm(), "        <Program icon=\"i\" label=\"n\">a%b</Program>\n");
    let it = Item::new("i", "n", "");
    assert_eq!(it.jwm(), "        <Program icon=\"i\" label=\"n\"></Program>\n");
    let it = Item::new("i", "n", " %");
    assert_eq!(it.jwm(), "        <Program icon=\"i\" label=\"n\"></Program>\n");
}

#[test]
fn item_openbox_text() {
    let it = Item::new("/icons/a.svg", "Audacious", "audacious %U");
    assert_eq!(
        it.openbox(),
        "\t<item label=\"Audacious\" icon=\"/icons/a.svg\">\n\t\t<action name=\"Execute\">\n\t\t\t<command>audacious</command>\n\t\t\t<startupnotify>\n\t\t\t\t<enabled>yes</enabled>\n\t\t\t</startupnotify>\n\t\t</action>\n\t</item>\n"
    );
}

#[test]
fn menu_empty_and_default() {
    let m = Menu::empty();
    assert!(m.name.is_empty() && m.icon.is_empty() && m.tooltip.is_empty());
    assert!(m.items.is_empty() && m.menus.is_empty());
    let d = Menu::default();
    assert!(d.name.is_empty() && d.items.is_empty() && d.menus.is_empty());
    assert_eq!(m.jwm(), "   <Menu label=\"\" icon=\"\" height=\"0\">\n\n    </Menu>\n");
}

#[test]
fn menu_jwm_nested() {
    let mut inner = Menu::empty();
    inner.name = "Inner".to_string();
    inner.icon = "in".to_string();
    inner.items.push(Item::new("a", "A", "a"));
    let mut outer = Menu::empty();
    outer.name = "Outer".to_string();
    outer.icon = "out".to_string();
    outer.tooltip = "Tip".to_string();
    outer.items.push(Item::new("b", "B", "b %f"));
    outer.menus.push(inner);
    let expected = String::new()
        + "   <Menu label=\"Outer\" icon=\"out\" tooltip=\"Tip\" height=\"0\">\n"
        + "   <Menu label=\"Inner\" icon=\"in\" height=\"0\">\n"
        + "        <Program icon=\"a\" label=\"A\">a</Program>\n"
        + "\n    </Menu>\n"
        + "        <Program icon=\"b\" label=\"B\">b</Program>\n"
        + "\n    </Menu>\n";
    assert_eq!(outer.jwm(), expected);
    let copy = outer.clone();
    assert_eq!(copy.jwm(), expected);
    assert_eq!(copy.menus.len(), 1);
}

#[test]
fn menu_openbox_ignores_submenus() {
    let mut m = Menu::empty();
    m.name = "Graphics".to_string();
    m.icon = "/g.svg".to_string();
    m.items.push(Item::new("/i.svg", "Inkscape", "inkscape %F"));
    m.menus.push(Menu::empty());
    let expected = String::new()
        + "<menu id=\"Graphics-id\" label=\"Graphics\" icon=\"/g.svg\">\n"
        + "\t<item label=\"Inkscape\" icon=\"/i.svg\">\n\t\t<action name=\"Execute\">\n\t\t\t<command>inkscape</command>\n\t\t\t<startupnotify>\n\t\t\t\t<enabled>yes</enabled>\n\t\t\t</startupnotify>\n\t\t</action>\n\t</item>\n"
        + "</menu>\n";
    assert_eq!(m.openbox(), expected);
}

#[test]
fn item_clone_keeps_fields() {
    let it = item("n", "a", "i", "t");
    let c = it.clone();
    assert_eq!((c.name, c.action, c.icon, c.tooltip), (it.name, it.action, it.icon, it.tooltip));
}

#[test]
fn command_agrees_with_rfind_split_off() {
    for a in ["", "x", "x %U", "a %b %c", " %", "%U", "a  %%", "run -x %f --y", "a % b"] {
        let mut expected = a.to_string();
        if let Some(pos) = expected.rfind(" %") {
            let _ = expected.split_off(pos);
        }
        let it = Item::new("i", "n", a);
        assert_eq!(
            it.jwm(),
            format!("        <Program icon=\"i\" label=\"n\">{}</Program>\n", expected),
            "action {:?}",
            a
        );
    }
}
