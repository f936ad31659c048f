use wm_menus::apps::{category_icon_name, category_label, main_categories, AppMenu, AppScan, DesktopApp};
use xdgkit::categories::Categories;

#[test]
fn category_labels_have_no_quotes() {
    assert_eq!(Categories::AudioVideo.to_string(), "\"AudioVideo\"");
    assert_eq!(category_label(&Categories::AudioVideo), "AudioVideo");
    assert_eq!(category_label(&Categories::Utility), "Utility");
}

#[test]
fn category_icon_names() {
    let cases = [
        (Categories::AudioVideo, "applications-multimedia"),
        (Categories::Education, "applications-engineering"),
        (Categories::Development, "applications-development"),
        (Categories::Game, "applications-games"),
        (Categories::Graphics, "applications-graphics"),
        (Categories::Network, "applications-internet"),
        (Categories::Office, "applications-office"),
        (Categories::Science, "applications-science"),
        (Categories::Settings, "applications-utilities"),
        (Categories::System, "applications-system"),
        (Categories::Utility, "applications-accessories"),
    ];
    for (c, name) in cases {
        assert_eq!(category_icon_name(&c), name);
    }
}

fn app(name: Option<&str>, cmd: Option<&str>, comment: Option<&str>, icon: &str, cats: Option<Vec<Categories>>) -> DesktopApp {
    DesktopApp {
        name: name.map(|s| s.to_string()),
        command: cmd.map(|s| s.to_string()),
        comment: comment.map(|s| s.to_string()),
        icon: icon.to_string(),
        categories: cats,
    }
}

fn scan() -> AppScan {
    AppScan {
        category_icons: vec![
            "/av.svg".to_string(),
            "/edu.svg".to_string(),
            "/dev.svg".to_string(),
            String::new(),
            "/g.svg".to_string(),
        ],
        other_icon: "/other.svg".to_string(),
        apps: vec![
            app(Some("Audacious"), Some("audacious %U"), Some("Listen"), "/aud.svg",
                Some(vec![Categories::AudioVideo, Categories::Audio])),
            app(Some("Tetris"), Some("tetris"), None, "", Some(vec![Categories::Game, Categories::Game])),
            app(None, Some("ghost"), None, "/x.svg", Some(vec![Categories::Graphics])),
            app(Some("NoCmd"), None, None, "/x.svg", Some(vec![Categories::Graphics])),
            app(Some("NoCats"), Some("nocats"), None, "/x.svg", None),
        ],
        default_icon: "/default.svg".to_string(),
    }
}

#[test]
fn menus_sorted_by_category() {
    let menus = AppMenu::make_menu(&scan());
    assert_eq!(menus.len(), 2);
    let av = &menus[0];
    assert_eq!((av.name.as_str(), av.tooltip.as_str(), av.icon.as_str()), ("AudioVideo", "AudioVideo", "/av.svg"));
    assert_eq!(av.items.len(), 1);
    let it = &av.items[0];
    assert_eq!(
        (it.name.as_str(), it.action.as_str(), it.icon.as_str(), it.tooltip.as_str()),
        ("Audacious", "audacious %U", "/aud.svg", "Listen")
    );
    let game = &menus[1];
    assert_eq!((game.name.as_str(), game.icon.as_str()), ("Game", "/other.svg"));
    assert_eq!(game.items.len(), 2);
    for it in &game.items {
        assert_eq!(
            (it.name.as_str(), it.action.as_str(), it.icon.as_str(), it.tooltip.as_str()),
            ("Tetris", "tetris", "/default.svg", "Tetris")
        );
    }
    assert!(menus.iter().all(|m| m.menus.is_empty()));
}

#[test]
fn main_categories_in_menu_order() {
    assert_eq!(
        main_categories(),
        vec![
            Categories::AudioVideo,
            Categories::Education,
            Categories::Development,
            Categories::Game,
            Categories::Graphics,
            Categories::Network,
            Categories::Office,
            Categories::Science,
            Categories::Settings,
            Categories::System,
            Categories::Utility,
        ]
    );
}

#[test]
fn menus_follow_category_order() {
    let mut s = scan();
    s.apps = vec![
        app(Some("Calc"), Some("calc"), None, "", Some(vec![Categories::Utility, Categories::Office])),
        app(Some("Web"), Some("web %u"), None, "", Some(vec![Categories::Network, Categories::AudioVideo])),
    ];
    let menus = AppMenu::make_menu(&s);
    let names: Vec<&str> = menus.iter().map(|m| m.name.as_str()).collect();
    assert_eq!(names, vec!["AudioVideo", "Network", "Office", "Utility"]);
    assert_eq!(menus[1].icon, "/other.svg");
}

#[test]
fn no_entries_no_menus() {
    let mut s = scan();
    s.apps.clear();
    assert!(AppMenu::make_menu(&s).is_empty());
}

#[test]
fn app_menu_documents() {
    let menu = AppMenu::new("Apps", "", &scan());
    assert_eq!(menu.name, "Apps");
    assert_eq!(menu.icon, "");
    let inner: String = menu.menus.iter().map(|m| m.jwm()).collect();
    assert_eq!(
        menu.jwm(),
        format!("<JWM>\n{}\n{}\n</JWM>", inner,
            "\n   <Program icon=\"reload\" label=\"Update Menus\">jwm -reload</Program>")
    );
    assert!(menu.jwm().contains(
        "      <Program icon=\"/aud.svg\" label=\"Audacious\" tooltip=\"Listen\">audacious</Program>\n"
    ));
    let boxes: String = menu.menus.iter().map(|m| m.openbox()).collect();
    let ids = "\t<menu id=\"AudioVideo-id\" />\n\t<menu id=\"Game-id\" />\n";
    let exit = "\t<separator />\n\t<item label=\"Log Out\">\n\t\t<action name=\"Exit\">\n\t\t\t<prompt>yes</prompt>\n\t\t</action>\n\t</item>";
    assert_eq!(
        menu.openbox(),
        format!("<?xml version=\"1.0\" encoding=\"UTF-8\"?>\n<openbox_menu xmlns=\"http://openbox.org/3.4/menu\">\n{}\n<menu id=\"root-menu\" label=\"Openbox\">\n{}\n{}</menu>\n</openbox_menu>", boxes, ids, exit)
    );
}

#[test]
fn cache_file_names() {
    assert_eq!(AppMenu::jwm_cache_filename(Some("/home/u/.cache")), "/home/u/.cache/apps-menu");
    assert_eq!(AppMenu::jwm_cache_filename(None), "/apps-menu");
    assert_eq!(AppMenu::openbox_cache_filename(Some("/home/u/.config")), "/home/u/.config/openbox/menu.xml");
    assert_eq!(AppMenu::openbox_cache_filename(None), "/openbox/menu.xml");
}
