use wm_menus::menu::Menu;
use wm_menus::places::{
    big_menu, cache_directory, cache_filename, fix_and, fix_dir_output, get_dir_name, get_icon,
    gtk_bookmarks, gtk_bookmarks_menu, jwm, make_menu, menu_line, parse_bookmark, places_dirs,
    places_step, program_item, program_line, sub_menu, sub_menu_menu, write_code, BookmarkScan,
    Folder, PlacesScan, PlacesStep,
};

fn folder(path: &str) -> Folder {
    Folder { path: path.to_string(), subdirs: vec![] }
}

// A program line, written out with `format!`.
fn line(icon: &str, label: &str, dir: &str) -> String {
    let label = label.replace("&", "&amp;");
    let dir = dir.replace(" ", "\\ ").replace("&", "&amp;");
    format!("        <Program icon=\"{}\" label=\"{}\">xdg-open {}</Program>\n", icon, label, dir)
}

fn head(icon: &str, label: &str) -> String {
    format!("    <Menu label=\"{}\" icon=\"{}\" height=\"0\">\n", label.replace("&", "&amp;"), icon)
}

const RELOAD: &str = "\n   <Program icon=\"reload\" label=\"Update Menus\">jwm -reload</Program>";

#[test]
fn fix_and_escapes_ampersands() {
    assert_eq!(fix_and("a&b&&c".to_string()), "a&amp;b&amp;&amp;c");
    assert_eq!(fix_and("plain".to_string()), "plain");
    assert_eq!(fix_and(String::new()), "");
}

#[test]
fn fix_dir_output_escapes_spaces_then_ampersands() {
    assert_eq!(fix_dir_output("/home/u/My Docs & X".to_string()), "/home/u/My\\ Docs\\ &amp;\\ X");
}

#[test]
fn dir_names() {
    assert_eq!(get_dir_name("/home/u/Music"), "Music");
    assert_eq!(get_dir_name("/home/u/Music/"), "Music");
    assert_eq!(get_dir_name("/home/u/Music/."), "Music");
    assert_eq!(get_dir_name("Music"), "Music");
    assert_eq!(get_dir_name("./a"), "a");
    assert_eq!(get_dir_name("/"), "/");
    assert_eq!(get_dir_name(""), "");
    assert_eq!(get_dir_name("."), ".");
    assert_eq!(get_dir_name("a/.."), "a/..");
    assert_eq!(get_dir_name("//x//"), "x");
}

#[test]
fn icons_by_folder_name() {
    assert_eq!(get_icon("/home/u/Home"), "user-home");
    assert_eq!(get_icon("/home/u/Documents"), "folder-documents");
    assert_eq!(get_icon("/home/u/Downloads"), "folder-download");
    assert_eq!(get_icon("/home/u/Music"), "folder-music");
    assert_eq!(get_icon("/home/u/Pictures"), "folder-pictures");
    assert_eq!(get_icon("/home/u/Videos/"), "folder-videos");
    assert_eq!(get_icon("/srv/data"), "folder");
}

#[test]
fn program_and_menu_lines() {
    assert_eq!(
        program_line("folder", "A & B", "/home/u/My Docs"),
        "        <Program icon=\"folder\" label=\"A &amp; B\">xdg-open /home/u/My\\ Docs</Program>\n"
    );
    assert_eq!(
        menu_line("folder-music", "R&B"),
        "    <Menu label=\"R&amp;B\" icon=\"folder-music\" height=\"0\">\n"
    );
}

#[test]
fn program_item_argument_order() {
    let it = program_item("folder", "A&B", "/x y");
    assert_eq!(it.icon, "A&amp;B");
    assert_eq!(it.name, "xdg-open /x\\ y");
    assert_eq!(it.action, "folder");
    assert_eq!(it.tooltip, "");
}

#[test]
fn big_menu_single_places() {
    assert_eq!(big_menu("/home/u", "user-home", "Home", &vec![]), line("user-home", "Home", "/home/u"));
    assert_eq!(
        big_menu("/t", "user-trash", "Trash", &vec![folder("/t/x")]),
        line("user-trash", "Trash", "/t")
    );
}

#[test]
fn big_menu_with_folders() {
    let subs = vec![folder("/home/u/Music/Jazz"), folder("/home/u/Music/Rock & Roll")];
    let expected = head("folder", "Music")
        + &line("folder-open", "Music", "/home/u/Music")
        + &line("folder", "Jazz", "/home/u/Music/Jazz")
        + &line("folder", "Rock & Roll", "/home/u/Music/Rock & Roll")
        + "    </Menu>";
    assert_eq!(big_menu("/home/u/Music", "folder", "Music", &subs), expected);
}

#[test]
fn sub_menu_shallow_and_deep() {
    let subs = vec![
        Folder { path: "/d/A".to_string(), subdirs: vec![folder("/d/A/x")] },
        folder("/d/Home"),
    ];
    let shallow = line("folder", "A", "/d/A") + &line("folder", "Home", "/d/Home");
    assert_eq!(sub_menu(&subs, false), shallow);
    let deep = head("folder", "A")
        + &line("folder-open", "A", "/d/A")
        + &line("folder", "x", "/d/A/x")
        + "    </Menu>"
        + &line("folder", "Home", "/d/Home");
    assert_eq!(sub_menu(&subs, true), deep);
    assert_eq!(sub_menu(&vec![], true), "");
}

#[test]
fn make_menu_for_places() {
    let m = make_menu("/home/u", "user-home", "Home", &vec![]);
    assert!(m.name.is_empty() && m.icon.is_empty() && m.menus.is_empty());
    assert_eq!(m.items.len(), 1);
    assert_eq!(
        (m.items[0].icon.as_str(), m.items[0].name.as_str(), m.items[0].action.as_str()),
        ("user-home", "Home", "/home/u")
    );
    let m = make_menu("/home/u/Music", "folder", "Music", &vec![folder("/home/u/Music/Jazz")]);
    assert_eq!((m.name.as_str(), m.icon.as_str(), m.tooltip.as_str()), ("Music", "folder", "Music"));
    assert!(m.menus.is_empty());
    assert_eq!(m.items.len(), 1);
    assert_eq!(
        (m.items[0].icon.as_str(), m.items[0].name.as_str(), m.items[0].action.as_str()),
        ("folder-open", "Music", "/home/u/Music")
    );
}

#[test]
fn sub_menu_menu_shallow_and_deep() {
    let subs = vec![folder("/d/A"), folder("/d/Trash")];
    let m = sub_menu_menu(&subs, false);
    assert!(m.name.is_empty() && m.menus.is_empty());
    let names: Vec<&str> = m.items.iter().map(|i| i.name.as_str()).collect();
    assert_eq!(names, vec!["A", "Trash"]);
    assert_eq!(m.items[1].action, "/d/Trash");
    assert_eq!(m.items[1].icon, "folder");
    let m = sub_menu_menu(&subs, true);
    assert!(m.items.is_empty());
    assert_eq!(m.menus.len(), 1);
    assert_eq!(m.menus[0].name, "A");
    assert_eq!(m.menus[0].items[0].icon, "folder-open");
}

#[test]
fn bookmark_lines() {
    let b = parse_bookmark("file:///home/u/Music Music").unwrap();
    assert_eq!((b.handler.as_str(), b.dir.as_str(), b.name.as_str()), ("file", "/home/u/Music", "Music"));
    let b = parse_bookmark("sftp://host/srv Remote files").unwrap();
    assert_eq!((b.handler.as_str(), b.dir.as_str(), b.name.as_str()), ("sftp", "host/srv Remote", "files"));
    assert!(parse_bookmark("file:///home/u/Music").is_none());
    assert!(parse_bookmark("/home/u/Music Music").is_none());
    assert!(parse_bookmark("").is_none());
    let b = parse_bookmark("a://b://c d").unwrap();
    assert_eq!((b.handler.as_str(), b.dir.as_str(), b.name.as_str()), ("a", "b://c", "d"));
}

fn bookmarks() -> Vec<BookmarkScan> {
    vec![
        BookmarkScan { line: "sftp://host/srv Server".to_string(), subdirs: vec![] },
        BookmarkScan { line: "not a bookmark".to_string(), subdirs: vec![] },
        BookmarkScan {
            line: "file:///home/u/Music Tunes".to_string(),
            subdirs: vec![folder("/home/u/Music/Jazz")],
        },
    ]
}

#[test]
fn gtk_bookmarks_text() {
    let expected = line("folder-remote", "Server", "host/srv")
        + "\n"
        + &head("folder-music", "Tunes")
        + &line("folder-music", "Tunes", "/home/u/Music")
        + &line("folder", "Jazz", "/home/u/Music/Jazz")
        + "    </Menu>"
        + "\n";
    assert_eq!(gtk_bookmarks(&bookmarks()), expected);
    assert_eq!(gtk_bookmarks(&vec![]), "");
}

#[test]
fn gtk_bookmarks_as_menu() {
    let m: Menu = gtk_bookmarks_menu(&bookmarks());
    assert!(m.name.is_empty());
    assert_eq!(m.items.len(), 1);
    assert_eq!(
        (m.items[0].icon.as_str(), m.items[0].name.as_str(), m.items[0].action.as_str()),
        ("folder-remote", "Server", "host/srv")
    );
    assert_eq!(m.menus.len(), 1);
    assert_eq!((m.menus[0].name.as_str(), m.menus[0].icon.as_str()), ("Tunes", "folder-music"));
}

#[test]
fn cache_locations() {
    assert_eq!(cache_directory(Some("/c"), "/home/u"), "/c");
    assert_eq!(cache_directory(None, "/home/u"), "/home/u/.cache");
    assert_eq!(cache_filename(Some("/c"), "/home/u"), "/c/places-menu");
    assert_eq!(cache_filename(None, ""), "/.cache/places-menu");
}

#[test]
fn needed_directories() {
    let dirs = places_dirs("/home/u", "/home/u/.cache");
    assert_eq!(
        dirs,
        vec![
            "/home/u/.cache",
            "/home/u/Documents",
            "/home/u/Downloads",
            "/home/u/Music",
            "/home/u/Pictures",
            "/home/u/Videos",
            "/home/u/.local/share/Trash/files",
        ]
    );
}

fn step(home: bool, made: &[bool]) -> PlacesStep {
    places_step(home, &made.to_vec())
}

#[test]
fn steps_and_exit_codes() {
    assert!(matches!(step(false, &[]), PlacesStep::Exit(1)));
    assert!(matches!(step(false, &[true, false]), PlacesStep::Exit(1)));
    assert!(matches!(step(true, &[]), PlacesStep::MakeDir(0)));
    assert!(matches!(step(true, &[true, true]), PlacesStep::MakeDir(2)));
    assert!(matches!(step(true, &[false]), PlacesStep::Exit(2)));
    assert!(matches!(step(true, &[true, true, false]), PlacesStep::Exit(4)));
    assert!(matches!(step(true, &[true, false, false]), PlacesStep::Exit(3)));
    assert!(matches!(step(true, &[true; 6]), PlacesStep::MakeDir(6)));
    assert!(matches!(step(true, &[true, true, true, true, true, true, false]), PlacesStep::Exit(8)));
    assert!(matches!(step(true, &[true; 7]), PlacesStep::WriteMenu));
    assert_eq!(write_code(false, false, false), 9);
    assert_eq!(write_code(false, true, true), 9);
    assert_eq!(write_code(true, false, false), 10);
    assert_eq!(write_code(true, false, true), 11);
    assert_eq!(write_code(true, true, false), 0);
    assert_eq!(write_code(true, true, true), 0);
}

fn scan(bookmarks: Vec<BookmarkScan>) -> PlacesScan {
    PlacesScan {
        documents: vec![folder("/home/u/Documents/Work")],
        downloads: vec![],
        music: vec![],
        pictures: vec![folder("/home/u/Pictures/2024")],
        videos: vec![],
        bookmarks,
    }
}

fn place(dir: &str, icon: &str, label: &str, subs: &[&str]) -> String {
    let mut s = head(icon, label) + &line(icon, label, dir);
    for d in subs {
        s += &line("folder", &get_dir_name(d), d);
    }
    s + "    </Menu>"
}

#[test]
fn places_menu_from_standard_folders() {
    let out = jwm("/home/u", &scan(vec![]));
    assert!(!out.from_bookmarks);
    let expected = format!(
        "<JWM>\n{}\n{}\n{}\n{}\n{}\n{}\n{}\n{}\n</JWM>",
        line("user-home", "Home", "/home/u"),
        place("/home/u/Documents", "folder-documents", "Documents", &["/home/u/Documents/Work"]),
        place("/home/u/Downloads", "folder-download", "Downloads", &[]),
        place("/home/u/Music", "folder-music", "Music", &[]),
        place("/home/u/Pictures", "folder-pictures", "Pictures", &["/home/u/Pictures/2024"]),
        place("/home/u/Videos", "folder-videos", "Videos", &[]),
        line("user-trash", "Trash", "/home/u/.local/share/Trash/files"),
        RELOAD
    );
    assert_eq!(out.text, expected);
}

#[test]
fn places_menu_from_bookmarks() {
    let out = jwm("/home/u", &scan(bookmarks()));
    assert!(out.from_bookmarks);
    let expected = format!(
        "<JWM>\n{}\n{}{}{}\n</JWM>",
        line("user-home", "Home", "/home/u"),
        gtk_bookmarks(&bookmarks()),
        line("user-trash", "Trash", "/home/u/.local/share/Trash/files"),
        RELOAD
    );
    assert_eq!(out.text, expected);
    let only_bad = vec![BookmarkScan { line: "junk".to_string(), subdirs: vec![] }];
    assert!(!jwm("/home/u", &scan(only_bad)).from_bookmarks);
}

#[test]
fn dir_names_agree_with_path_file_name() {
    let paths = [
        "", "/", ".", "..", "./", "../", "a", "a/", "a/.", "a/..", "a/./b", "/a/b/c", "/a/b/c/",
        "//a//b//", "./a", "a/b/./", "a/b/..", "/.", "/..", "..a", "a..", "a/.b", " sp ace/x y",
        "/home/u/Music", "a/b/../c",
    ];
    for p in paths {
        let expected = match std::path::Path::new(p).file_name() {
            Some(n) => n.to_str().unwrap().to_string(),
            None => p.to_string(),
        };
        assert_eq!(get_dir_name(p), expected, "path {:?}", p);
    }
}

#[test]
fn escaping_can_be_undone() {
    for s in ["", "&", "&amp;", "a&b&&c", "&am", "x &amp y"] {
        let e = fix_and(s.to_string());
        assert_eq!(e.replace("&amp;", "&"), s);
        assert_eq!(e.len(), s.len() + 4 * s.matches('&').count());
    }
}

#[test]
fn escaping_agrees_with_str_replace() {
    for s in ["", "&", "a & b", "&&x&", "no amp", "a b  c", "x&y z"] {
        assert_eq!(fix_and(s.to_string()), s.replace("&", "&amp;"));
        assert_eq!(fix_dir_output(s.to_string()), s.replace(" ", "\\ ").replace("&", "&amp;"));
    }
}

#[test]
fn bookmark_parsing_agrees_with_split_once() {
    let lines = [
        "file:///home/u/Music Music", "sftp://h/x y", "x", "", " ", "a b", "://a b", "a:// b",
        "a://b://c d e", "file:///a%20b Name", "noscheme name", "s:/x y",
    ];
    for l in lines {
        let expected = l
            .rsplit_once(' ')
            .and_then(|(dir, name)| dir.split_once("://").map(|(h, d)| (h.to_string(), d.to_string(), name.to_string())));
        let got = parse_bookmark(l).map(|b| (b.handler, b.dir, b.name));
        assert_eq!(got, expected, "line {:?}", l);
    }
}
