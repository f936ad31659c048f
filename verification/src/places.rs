//! The "places" menu: the user's home, standard folders, GTK bookmarks and
//! trash, each opened with `xdg-open`.

use vstd::prelude::*;

use crate::menu::{
    empty_menu_view, lemma_items_view_push, lemma_menus_view_push, Item, ItemView, Menu, MenuView,
};
use crate::text::{
    lemma_flatten_map_empty, lemma_flatten_map_last, lemma_replace_char_concat, push_char,
    replace_char, replace_char_with, str_eq,
};

verus! {

/// The index just after the last `/` of `d`, or 0 when `d` holds none.
pub open spec fn after_last_slash(d: Seq<char>) -> int
    decreases d.len(),
{
    if d.len() == 0 {
        0
    } else if d.last() == '/' {
        d.len() as int
    } else {
        after_last_slash(d.drop_last())
    }
}

/// The index after the last `/` lies within the path, follows a `/`, and
/// no `/` comes after it.
pub proof fn lemma_after_last_slash(d: Seq<char>)
    ensures
        0 <= after_last_slash(d) <= d.len(),
        after_last_slash(d) > 0 ==> d[after_last_slash(d) - 1] == '/',
        forall|k: int| after_last_slash(d) <= k < d.len() ==> d[k] != '/',
    decreases d.len(),
{
    if d.len() > 0 && d.last() != '/' {
        let p = d.drop_last();
        lemma_after_last_slash(p);
        assert forall|k: int| after_last_slash(d) <= k < d.len() implies d[k] != '/' by {
            if k < d.len() - 1 {
                assert(d[k] == p[k]);
            }
        }
    }
}

/// The last component of a path, as `Path::file_name` gives it: the last
/// piece between `/`s that is neither empty nor `.`; none when there is no
/// such piece or when it is `..`.
pub open spec fn file_name(d: Seq<char>) -> Option<Seq<char>>
    decreases d.len(),
{
    let j = after_last_slash(d);
    let piece = d.subrange(j, d.len() as int);
    if j <= 0 || j > d.len() {
        if piece.len() == 0 || piece == seq!['.'] || piece == seq!['.', '.'] {
            None
        } else {
            Some(piece)
        }
    } else if piece.len() == 0 || piece == seq!['.'] {
        file_name(d.take(j - 1))
    } else if piece == seq!['.', '.'] {
        None
    } else {
        Some(piece)
    }
}

/// A path's last component is never empty, `.` or `..`, and holds no `/`.
pub proof fn lemma_file_name(d: Seq<char>)
    ensures
        file_name(d) matches Some(n) ==> n.len() > 0 && n != seq!['.'] && n != seq!['.', '.']
            && !n.contains('/'),
    decreases d.len(),
{
    lemma_after_last_slash(d);
    let j = after_last_slash(d);
    let piece = d.subrange(j, d.len() as int);
    if j > 0 && (piece.len() == 0 || piece == seq!['.']) {
        lemma_file_name(d.take(j - 1));
    } else if file_name(d) is Some {
        assert forall|k: int| 0 <= k < piece.len() implies piece[k] != '/' by {
            assert(piece[k] == d[j + k]);
        }
    }
}

/// When the piece after the last `/` of a path is a proper name (not empty,
/// `.` or `..`), that piece is the path's last component.
pub proof fn lemma_file_name_last_piece(d: Seq<char>, j: int)
    requires
        0 <= j <= d.len(),
        j == 0 || d[j - 1] == '/',
        forall|k: int| j <= k < d.len() ==> d[k] != '/',
        d.subrange(j, d.len() as int).len() > 0,
        d.subrange(j, d.len() as int) != seq!['.'],
        d.subrange(j, d.len() as int) != seq!['.', '.'],
    ensures
        file_name(d) == Some(d.subrange(j, d.len() as int)),
{
    lemma_after_last_slash(d);
    let a = after_last_slash(d);
    if a < j {
        assert(d[j - 1] == '/');
    } else if a > j {
        assert(d[a - 1] == '/');
    }
}

/// A `/` at the end of a path does not change its last component.
pub proof fn lemma_file_name_trailing_slash(d: Seq<char>)
    ensures
        file_name(d.push('/')) == file_name(d),
{
    let e = d.push('/');
    assert(e.drop_last() =~= d);
    assert(after_last_slash(e) == e.len());
    assert(e.subrange(e.len() as int, e.len() as int).len() == 0);
    assert(e.take(e.len() - 1) =~= d);
}

/// The name shown for a directory: its last component, or the whole path
/// when it has none.
pub open spec fn dir_name(d: Seq<char>) -> Seq<char> {
    match file_name(d) {
        Some(n) => n,
        None => d,
    }
}

/// Whether `d` from `from` to `to` is exactly `.` (`dots == 1`) or `..`
/// (`dots == 2`).
fn is_dots(d: &str, from: usize, to: usize, dots: usize) -> (res: bool)
    requires
        from <= to <= d@.len(),
        1 <= dots <= 2,
    ensures
        res == (d@.subrange(from as int, to as int) == if dots == 1 {
            seq!['.']
        } else {
            seq!['.', '.']
        }),
{
    let ghost piece = d@.subrange(from as int, to as int);
    let ghost target = if dots == 1 {
        seq!['.']
    } else {
        seq!['.', '.']
    };
    assert(target.len() == dots && target[0] == '.');
    assert(dots == 2 ==> target[1] == '.');
    if to - from != dots {
        assert(piece.len() != target.len());
        return false;
    }
    if d.get_char(from) != '.' {
        assert(piece[0] != target[0]);
        return false;
    }
    if dots == 2 && d.get_char(from + 1) != '.' {
        assert(piece[1] != target[1]);
        return false;
    }
    if dots == 1 {
        assert(piece =~= seq!['.']);
    } else {
        assert(piece =~= seq!['.', '.']);
    }
    true
}

/// Get the name of the directory: the last component of the path, or the
/// path itself when it has no last component.
pub fn get_dir_name(dir: &str) -> (res: String)
    ensures
        res@ == dir_name(dir@),
{
    let n = dir.unicode_len();
    let mut end: usize = n;
    assert(dir@.take(n as int) =~= dir@);
    loop
        invariant
            end <= n,
            n == dir@.len(),
            file_name(dir@) == file_name(dir@.take(end as int)),
        decreases end,
    {
        let ghost d = dir@.take(end as int);
        let mut j: usize = end;
        while j > 0 && dir.get_char(j - 1) != '/'
            invariant
                j <= end <= n,
                n == dir@.len(),
                forall|k: int| j <= k < end ==> dir@[k] != '/',
            decreases j,
        {
            j = j - 1;
        }
        proof {
            lemma_after_last_slash(d);
            assert(after_last_slash(d) == j as int) by {
                let a = after_last_slash(d);
                if a < j {
                    assert(d[j - 1] == '/');
                } else if a > j {
                    assert(d[a - 1] == '/');
                }
            }
            assert(d.subrange(j as int, d.len() as int) =~= dir@.subrange(j as int, end as int));
        }
        let empty = j == end;
        let one_dot = is_dots(dir, j, end, 1);
        if j == 0 {
            if empty || one_dot || is_dots(dir, j, end, 2) {
                return String::from_str(dir);
            }
            return String::from_str(dir.substring_char(j, end));
        } else if empty || one_dot {
            assert(d.take(j - 1) =~= dir@.take(j - 1));
            end = j - 1;
        } else if is_dots(dir, j, end, 2) {
            return String::from_str(dir);
        } else {
            return String::from_str(dir.substring_char(j, end));
        }
    }
}

/// A directory and, as far as it was read, the directories inside it.
pub struct Folder {
    pub path: String,
    pub subdirs: Vec<Folder>,
}

/// `s` with each `&` written as `&amp;`.
pub open spec fn escape_amp(s: Seq<char>) -> Seq<char> {
    replace_char(s, '&', "&amp;"@)
}

/// A directory as it stands after `xdg-open`: spaces escaped with a
/// backslash, then `&` written as `&amp;`.
pub open spec fn dir_output(d: Seq<char>) -> Seq<char> {
    escape_amp(replace_char(d, ' ', "\\ "@))
}

/// After escaping, every `&` begins an `&amp;`: no bare ampersand is left
/// in the XML.
pub proof fn lemma_escape_amp(s: Seq<char>)
    ensures
        forall|i: int|
            0 <= i < escape_amp(s).len() && #[trigger] escape_amp(s)[i] == '&' ==> i + 5
                <= escape_amp(s).len() && escape_amp(s).subrange(i, i + 5) == "&amp;"@,
    decreases s.len(),
{
    reveal_strlit("&amp;");
    if s.len() > 0 {
        lemma_escape_amp(s.drop_last());
        let prev = escape_amp(s.drop_last());
        let r = escape_amp(s);
        assert forall|i: int| 0 <= i < r.len() && #[trigger] r[i] == '&' implies i + 5 <= r.len()
            && r.subrange(i, i + 5) == "&amp;"@ by {
            if i < prev.len() {
                assert(prev[i] == '&');
                assert(r.subrange(i, i + 5) =~= prev.subrange(i, i + 5));
            } else {
                assert(s.last() == '&');
                assert(i == prev.len());
                assert(r.subrange(i, i + 5) =~= "&amp;"@);
            }
        }
    }
}

/// `s` with each `&amp;` read back as `&`, from left to right (as
/// `str::replace` does).
pub open spec fn unescape_amp(s: Seq<char>) -> Seq<char>
    decreases s.len(),
{
    if s.len() == 0 {
        seq![]
    } else if s.len() >= 5 && s.take(5) == "&amp;"@ {
        seq!['&'] + unescape_amp(s.skip(5))
    } else {
        seq![s[0]] + unescape_amp(s.skip(1))
    }
}

/// The number of times `c` occurs in `s`.
pub open spec fn count_char(s: Seq<char>, c: char) -> nat
    decreases s.len(),
{
    if s.len() == 0 {
        0
    } else {
        count_char(s.drop_last(), c) + if s.last() == c {
            1nat
        } else {
            0nat
        }
    }
}

/// Escaping can be undone: reading each `&amp;` back as `&` gives the text
/// again. Escaping adds four characters for each `&`.
pub proof fn lemma_escape_amp_undone(s: Seq<char>)
    ensures
        unescape_amp(escape_amp(s)) == s,
        escape_amp(s).len() == s.len() + 4 * count_char(s, '&'),
    decreases s.len(),
{
    reveal_strlit("&amp;");
    if s.len() > 0 {
        lemma_escape_amp_length(s);
        let c = s[0];
        let rest = s.skip(1);
        assert(s =~= seq![c] + rest);
        lemma_replace_char_concat(seq![c], rest, '&', "&amp;"@);
        lemma_escape_amp_undone(rest);
        let head = escape_amp(seq![c]);
        let tail = escape_amp(rest);
        assert(seq![c].drop_last() =~= Seq::<char>::empty());
        assert(escape_amp(s) == head + tail);
        let e = escape_amp(s);
        reveal_with_fuel(replace_char, 2);
        if c == '&' {
            assert(head =~= "&amp;"@);
            assert(e.take(5) =~= "&amp;"@);
            assert(e.skip(5) =~= tail);
        } else {
            assert(head =~= seq![c]);
            assert(e[0] == c);
            assert(!(e.len() >= 5 && e.take(5) == "&amp;"@)) by {
                if e.len() >= 5 {
                    assert("&amp;"@[0] == '&');
                    assert(e.take(5)[0] == c);
                }
            }
            assert(e.skip(1) =~= tail);
        }
    }
}

/// Escaping adds four characters for each `&`.
proof fn lemma_escape_amp_length(s: Seq<char>)
    ensures
        escape_amp(s).len() == s.len() + 4 * count_char(s, '&'),
    decreases s.len(),
{
    reveal_strlit("&amp;");
    if s.len() > 0 {
        lemma_escape_amp_length(s.drop_last());
    }
}

/// Every space of a directory made ready for output stands right after a
/// backslash.
pub proof fn lemma_dir_output_spaces(d: Seq<char>)
    ensures
        forall|i: int|
            0 <= i < dir_output(d).len() && #[trigger] dir_output(d)[i] == ' ' ==> i > 0
                && dir_output(d)[i - 1] == '\\',
    decreases d.len(),
{
    reveal_strlit("&amp;");
    reveal_strlit("\\ ");
    if d.len() > 0 {
        let init = d.drop_last();
        let c = d.last();
        lemma_dir_output_spaces(init);
        let piece = if c == ' ' {
            "\\ "@
        } else {
            seq![c]
        };
        assert(replace_char(d, ' ', "\\ "@) == replace_char(init, ' ', "\\ "@) + piece);
        lemma_replace_char_concat(replace_char(init, ' ', "\\ "@), piece, '&', "&amp;"@);
        let prev = dir_output(init);
        let tail = replace_char(piece, '&', "&amp;"@);
        assert(dir_output(d) == prev + tail);
        reveal_with_fuel(replace_char, 3);
        if c == ' ' {
            assert(piece =~= seq!['\\', ' ']);
            assert(piece.drop_last() =~= seq!['\\']);
            assert(seq!['\\'].drop_last() =~= Seq::<char>::empty());
            assert(tail =~= seq!['\\', ' ']);
        } else if c == '&' {
            assert(piece.drop_last() =~= Seq::<char>::empty());
            assert(tail =~= "&amp;"@);
        } else {
            assert(piece.drop_last() =~= Seq::<char>::empty());
            assert(tail =~= seq![c]);
        }
        let r = dir_output(d);
        assert forall|i: int| 0 <= i < r.len() && #[trigger] r[i] == ' ' implies i > 0 && r[i
            - 1] == '\\' by {
            if i < prev.len() {
                assert(prev[i] == ' ');
                assert(r[i - 1] == prev[i - 1]);
            } else {
                assert(c == ' ');
                assert(i == prev.len() + 1);
            }
        }
    }
}

/// Fix `&` to `&amp;`.
pub fn fix_and(line: String) -> (res: String)
    ensures
        res@ == escape_amp(line@),
{
    replace_char_with(line.as_str(), '&', "&amp;")
}

/// Fix directory spaces for output.
pub fn fix_dir_output(dir: String) -> (res: String)
    ensures
        res@ == dir_output(dir@),
{
    let dir = replace_char_with(dir.as_str(), ' ', "\\ ");
    fix_and(dir)
}

pub const PROGRAM_OPEN: &'static str = "        <Program icon=\"";
pub const PROGRAM_LABEL: &'static str = "\" label=\"";
pub const PROGRAM_OPEN_DIR: &'static str = "\">xdg-open ";
pub const PROGRAM_CLOSE: &'static str = "</Program>\n";
pub const XDG_OPEN: &'static str = "xdg-open ";
pub const MENU_OPEN: &'static str = "    <Menu label=\"";
pub const MENU_ICON: &'static str = "\" icon=\"";
pub const MENU_HEAD_END: &'static str = "\" height=\"0\">\n";
pub const MENU_CLOSE: &'static str = "    </Menu>";

/// The JWM line that opens `dir`.
pub open spec fn program_line_text(icon: Seq<char>, label: Seq<char>, dir: Seq<char>) -> Seq<char> {
    PROGRAM_OPEN@ + icon + PROGRAM_LABEL@ + escape_amp(label) + PROGRAM_OPEN_DIR@ + dir_output(dir)
        + PROGRAM_CLOSE@
}

/// The opening line of a JWM sub-menu.
pub open spec fn menu_line_text(icon: Seq<char>, label: Seq<char>) -> Seq<char> {
    MENU_OPEN@ + escape_amp(label) + MENU_ICON@ + icon + MENU_HEAD_END@
}

/// Program line.
pub fn program_line(icon: &str, label: &str, dir: &str) -> (res: String)
    ensures
        res@ == program_line_text(icon@, label@, dir@),
{
    let label = fix_and(String::from_str(label));
    let dir = fix_dir_output(String::from_str(dir));
    let mut res = String::from_str(PROGRAM_OPEN);
    res.append(icon);
    res.append(PROGRAM_LABEL);
    res.append(label.as_str());
    res.append(PROGRAM_OPEN_DIR);
    res.append(dir.as_str());
    res.append(PROGRAM_CLOSE);
    res
}

/// Program item for a menu. The arguments reach `Item::new` in the order
/// label, command, icon, so the item's icon is the label, its name the
/// command and its action the icon.
pub fn program_item(icon: &str, label: &str, dir: &str) -> (res: Item)
    ensures
        res@ == (ItemView {
            icon: escape_amp(label@),
            name: XDG_OPEN@ + dir_output(dir@),
            action: icon@,
            tooltip: seq![],
        }),
{
    let label = fix_and(String::from_str(label));
    let mut command = String::from_str(XDG_OPEN);
    let dir = fix_dir_output(String::from_str(dir));
    command.append(dir.as_str());
    Item::new(label.as_str(), command.as_str(), icon)
}

/// Menu line.
pub fn menu_line(icon: &str, label: &str) -> (res: String)
    ensures
        res@ == menu_line_text(icon@, label@),
{
    let label = fix_and(String::from_str(label));
    let mut res = String::from_str(MENU_OPEN);
    res.append(label.as_str());
    res.append(MENU_ICON);
    res.append(icon);
    res.append(MENU_HEAD_END);
    res
}

/// The icon of the entry that opens a folder itself: `folder` becomes
/// `folder-open`, any other icon stays.
pub open spec fn open_icon(icon: Seq<char>) -> Seq<char> {
    if icon == "folder"@ {
        "folder-open"@
    } else {
        icon
    }
}

/// Whether a label is one that gets a single entry, not a sub-menu.
pub open spec fn is_single_place(label: Seq<char>) -> bool {
    label == "Home"@ || label == "Trash"@
}

fn single_place(label: &str) -> (res: bool)
    ensures
        res == is_single_place(label@),
{
    str_eq(label, "Home") || str_eq(label, "Trash")
}

fn folder_open_icon(icon: &str) -> (res: String)
    ensures
        res@ == open_icon(icon@),
{
    if str_eq(icon, "folder") {
        String::from_str("folder-open")
    } else {
        String::from_str(icon)
    }
}

/// One JWM line per folder, each opening it.
pub open spec fn folder_lines(subs: Seq<Folder>) -> Seq<char>
    decreases subs.len(),
{
    if subs.len() == 0 {
        seq![]
    } else {
        folder_lines(subs.drop_last()) + program_line_text(
            "folder"@,
            dir_name(subs.last().path@),
            subs.last().path@,
        )
    }
}

/// The JWM text for a place: a single line for `Home` and `Trash`; for any
/// other, a sub-menu holding an entry for the folder itself and one for each
/// folder inside it.
pub open spec fn big_menu_text(
    dir: Seq<char>,
    icon: Seq<char>,
    label: Seq<char>,
    subs: Seq<Folder>,
) -> Seq<char> {
    if is_single_place(label) {
        program_line_text(icon, label, dir)
    } else {
        menu_line_text(icon, label) + program_line_text(open_icon(icon), label, dir)
            + folder_lines(subs) + MENU_CLOSE@
    }
}

/// The JWM text for the folders in a directory: a sub-menu for each when
/// `deep`, else a line for each.
pub open spec fn sub_menu_text(subs: Seq<Folder>, deep: bool) -> Seq<char>
    decreases subs.len(),
{
    if subs.len() == 0 {
        seq![]
    } else {
        let f = subs.last();
        sub_menu_text(subs.drop_last(), deep) + if deep {
            big_menu_text(f.path@, "folder"@, dir_name(f.path@), f.subdirs@)
        } else {
            program_line_text("folder"@, dir_name(f.path@), f.path@)
        }
    }
}

pub proof fn lemma_sub_menu_shallow(subs: Seq<Folder>)
    ensures
        sub_menu_text(subs, false) == folder_lines(subs),
    decreases subs.len(),
{
    if subs.len() > 0 {
        lemma_sub_menu_shallow(subs.drop_last());
    }
}

/// Make the sub menu: the folders inside a directory, as JWM text.
pub fn sub_menu(subdirs: &Vec<Folder>, subdirectories: bool) -> (res: String)
    ensures
        res@ == sub_menu_text(subdirs@, subdirectories),
    decreases subdirs@, 0int,
{
    let mut res = String::new();
    for i in 0..subdirs.len()
        invariant
            res@ == sub_menu_text(subdirs@.take(i as int), subdirectories),
    {
        let f = &subdirs[i];
        let label = get_dir_name(f.path.as_str());
        if subdirectories {
            assert(decreases_to!(subdirs@ => f.subdirs@));
            let s = big_menu(f.path.as_str(), "folder", label.as_str(), &f.subdirs);
            res.append(s.as_str());
        } else {
            let s = program_line("folder", label.as_str(), f.path.as_str());
            res.append(s.as_str());
        }
        assert(subdirs@.take(i + 1).drop_last() =~= subdirs@.take(i as int));
    }
    assert(subdirs@.take(subdirs.len() as int) =~= subdirs@);
    res
}

/// The big menu: the JWM text for one place.
pub fn big_menu(dir: &str, icon: &str, label: &str, subdirs: &Vec<Folder>) -> (res: String)
    ensures
        res@ == big_menu_text(dir@, icon@, label@, subdirs@),
    decreases subdirs@, 1int,
{
    if single_place(label) {
        program_line(icon, label, dir)
    } else {
        let mut res = menu_line(icon, label);
        let current_icon = folder_open_icon(icon);
        let current_folder = program_line(current_icon.as_str(), label, dir);
        let contents = sub_menu(subdirs, false);
        proof {
            lemma_sub_menu_shallow(subdirs@);
        }
        res.append(current_folder.as_str());
        res.append(contents.as_str());
        res.append(MENU_CLOSE);
        res
    }
}


/// The menu that `make_menu` builds for a place: for `Home` and `Trash`, an
/// unnamed menu with one entry; for any other, a menu named after the place
/// with one entry for the folder itself.
pub open spec fn place_menu(dir: Seq<char>, icon: Seq<char>, label: Seq<char>) -> MenuView {
    if is_single_place(label) {
        MenuView {
            name: seq![],
            icon: seq![],
            tooltip: seq![],
            items: seq![ItemView { icon: icon, name: label, action: dir, tooltip: seq![] }],
            menus: seq![],
        }
    } else {
        MenuView {
            name: label,
            icon: icon,
            tooltip: label,
            items: seq![ItemView { icon: open_icon(icon), name: label, action: dir, tooltip: seq![] }],
            menus: seq![],
        }
    }
}

/// The menu that `sub_menu_menu` builds for the folders in a directory: when
/// `deep`, the named place menu of each; else an entry for each.
pub open spec fn folder_menu(subs: Seq<Folder>, deep: bool) -> MenuView
    decreases subs.len(),
{
    if subs.len() == 0 {
        empty_menu_view()
    } else {
        let prev = folder_menu(subs.drop_last(), deep);
        let f = subs.last();
        let label = dir_name(f.path@);
        if deep {
            let sub = place_menu(f.path@, "folder"@, label);
            if sub.name.len() > 0 && sub.icon.len() > 0 {
                MenuView { menus: prev.menus.push(sub), ..prev }
            } else {
                prev
            }
        } else {
            MenuView {
                items: prev.items.push(
                    ItemView { icon: "folder"@, name: label, action: f.path@, tooltip: seq![] },
                ),
                ..prev
            }
        }
    }
}

pub proof fn lemma_folder_menu_unnamed(subs: Seq<Folder>, deep: bool)
    ensures
        folder_menu(subs, deep).name.len() == 0,
        folder_menu(subs, deep).icon.len() == 0,
    decreases subs.len(),
{
    if subs.len() > 0 {
        lemma_folder_menu_unnamed(subs.drop_last(), deep);
    }
}

/// Without sub-menus, the folder menu is an unnamed menu holding, for each
/// folder in order, an entry that opens it under its name with the folder
/// icon.
pub proof fn lemma_folder_menu_shallow(subs: Seq<Folder>)
    ensures
        folder_menu(subs, false) == (MenuView {
            name: seq![],
            icon: seq![],
            tooltip: seq![],
            items: subs.map_values(
                |f: Folder|
                    ItemView { icon: "folder"@, name: dir_name(f.path@), action: f.path@, tooltip: seq![] },
            ),
            menus: seq![],
        }),
    decreases subs.len(),
{
    let g = |f: Folder|
        ItemView { icon: "folder"@, name: dir_name(f.path@), action: f.path@, tooltip: seq![] };
    if subs.len() == 0 {
        assert(subs.map_values(g) =~= Seq::<ItemView>::empty());
    } else {
        lemma_folder_menu_shallow(subs.drop_last());
        assert(subs.map_values(g) =~= subs.drop_last().map_values(g).push(g(subs.last())));
    }
}

/// Make the sub menu: the folders inside a directory, as a menu.
pub fn sub_menu_menu(subdirs: &Vec<Folder>, subdirectories: bool) -> (res: Menu)
    ensures
        res@ == folder_menu(subdirs@, subdirectories),
    decreases subdirs@, 0int,
{
    let mut menu = Menu::default();
    for i in 0..subdirs.len()
        invariant
            menu@ == folder_menu(subdirs@.take(i as int), subdirectories),
    {
        let f = &subdirs[i];
        let label = get_dir_name(f.path.as_str());
        assert(subdirs@.take(i + 1).drop_last() =~= subdirs@.take(i as int));
        if subdirectories {
            assert(decreases_to!(subdirs@ => f.subdirs@));
            let sub = make_menu(f.path.as_str(), "folder", label.as_str(), &f.subdirs);
            if !sub.name.as_str().is_empty() && !sub.icon.as_str().is_empty() {
                proof {
                    lemma_menus_view_push(menu.menus@, sub);
                }
                menu.menus.push(sub);
            }
        } else {
            let item = Item::new("folder", label.as_str(), f.path.as_str());
            proof {
                lemma_items_view_push(menu.items@, item);
            }
            menu.items.push(item);
        }
    }
    assert(subdirs@.take(subdirs.len() as int) =~= subdirs@);
    menu
}

/// The big menu, as a menu: the entries for one place.
pub fn make_menu(dir: &str, icon: &str, label: &str, subdirs: &Vec<Folder>) -> (res: Menu)
    ensures
        res@ == place_menu(dir@, icon@, label@),
    decreases subdirs@, 1int,
{
    let mut menu = Menu::default();
    if single_place(label) {
        let item = Item::new(icon, label, dir);
        proof {
            lemma_items_view_push(menu.items@, item);
        }
        menu.items.push(item);
    } else {
        menu.name = String::from_str(label);
        menu.icon = String::from_str(icon);
        menu.tooltip = String::from_str(label);
        let current_icon = folder_open_icon(icon);
        let current_folder = Item::new(current_icon.as_str(), label, dir);
        let contents = sub_menu_menu(subdirs, false);
        proof {
            lemma_items_view_push(menu.items@, current_folder);
            lemma_folder_menu_unnamed(subdirs@, false);
        }
        menu.items.push(current_folder);
        if !contents.name.as_str().is_empty() && !contents.icon.as_str().is_empty() {
            menu.menus.push(contents);
        }
    }
    assert(menu@.items =~= place_menu(dir@, icon@, label@).items);
    menu
}


/// The icon for a place, chosen by the last component of its path.
pub open spec fn place_icon(directory: Seq<char>) -> Seq<char> {
    let d = dir_name(directory);
    if d == "Home"@ {
        "user-home"@
    } else if d == "Documents"@ {
        "folder-documents"@
    } else if d == "Downloads"@ {
        "folder-download"@
    } else if d == "Music"@ {
        "folder-music"@
    } else if d == "Videos"@ {
        "folder-videos"@
    } else if d == "Pictures"@ {
        "folder-pictures"@
    } else {
        "folder"@
    }
}

/// The icon for a directory, by its name.
pub fn get_icon(directory: &str) -> (res: String)
    ensures
        res@ == place_icon(directory@),
{
    let dir = get_dir_name(directory);
    let d = dir.as_str();
    if str_eq(d, "Home") {
        String::from_str("user-home")
    } else if str_eq(d, "Documents") {
        String::from_str("folder-documents")
    } else if str_eq(d, "Downloads") {
        String::from_str("folder-download")
    } else if str_eq(d, "Music") {
        String::from_str("folder-music")
    } else if str_eq(d, "Videos") {
        String::from_str("folder-videos")
    } else if str_eq(d, "Pictures") {
        String::from_str("folder-pictures")
    } else {
        String::from_str("folder")
    }
}

/// `p` is the position of the last space of `line`.
pub open spec fn last_space(line: Seq<char>, p: int) -> bool {
    0 <= p < line.len() && line[p] == ' ' && forall|q: int| p < q < line.len() ==> line[q] != ' '
}

/// `line` holds `://` at position `q`.
pub open spec fn scheme_sep_at(line: Seq<char>, q: int) -> bool {
    0 <= q && q + 3 <= line.len() && line[q] == ':' && line[q + 1] == '/' && line[q + 2] == '/'
}

/// `q` is the first position of `://` in `line`.
pub open spec fn first_scheme_sep(line: Seq<char>, q: int) -> bool {
    scheme_sep_at(line, q) && forall|r: int| 0 <= r < q ==> !#[trigger] scheme_sep_at(line, r)
}

/// A GTK bookmark line `scheme://dir name`, split at its last space and at
/// the first `://` before it, as (scheme, dir, name); none when the line
/// has no space, or no `://` before its last space.
pub open spec fn bookmark_of(line: Seq<char>) -> Option<(Seq<char>, Seq<char>, Seq<char>)> {
    if exists|p: int| last_space(line, p) {
        let p = choose|p: int| last_space(line, p);
        let d = line.take(p);
        if exists|q: int| first_scheme_sep(d, q) {
            let q = choose|q: int| first_scheme_sep(d, q);
            Some((d.take(q), d.skip(q + 3), line.skip(p + 1)))
        } else {
            None
        }
    } else {
        None
    }
}

/// A GTK bookmark: the scheme, the directory and the name shown.
pub struct Bookmark {
    pub handler: String,
    pub dir: String,
    pub name: String,
}

/// The position of the last space of `line`, if any.
fn find_last_space(line: &str) -> (res: Option<usize>)
    ensures
        res is None ==> !exists|p: int| last_space(line@, p),
        res matches Some(p) ==> last_space(line@, p as int),
{
    let n = line.unicode_len();
    let mut k: usize = n;
    while k > 0
        invariant
            k <= n,
            n == line@.len(),
            forall|q: int| k <= q < n ==> line@[q] != ' ',
        decreases k,
    {
        let p = k - 1;
        if line.get_char(p) == ' ' {
            return Some(p);
        }
        k = p;
    }
    assert forall|p: int| last_space(line@, p) implies false by {
        assert(line@[p] == ' ');
    }
    None
}

/// The position of the first `://` in the first `end` characters of `line`.
fn find_scheme_sep(line: &str, end: usize) -> (res: Option<usize>)
    requires
        end <= line@.len(),
    ensures
        res is None ==> !exists|q: int| first_scheme_sep(line@.take(end as int), q),
        res matches Some(q) ==> first_scheme_sep(line@.take(end as int), q as int),
{
    let ghost d = line@.take(end as int);
    let mut q: usize = 0;
    while q < end && end - q >= 3
        invariant
            end <= line@.len(),
            d == line@.take(end as int),
            forall|r: int| 0 <= r < q ==> !#[trigger] scheme_sep_at(d, r),
        decreases end - q,
    {
        if line.get_char(q) == ':' && line.get_char(q + 1) == '/' && line.get_char(q + 2) == '/' {
            assert(scheme_sep_at(d, q as int));
            return Some(q);
        }
        assert(!scheme_sep_at(d, q as int));
        q = q + 1;
    }
    assert forall|r: int| first_scheme_sep(d, r) implies false by {
        if r >= q {
            assert(r + 3 <= d.len());
        }
    }
    None
}

/// A bookmark line is its scheme, `://`, its directory, a space and its
/// name, and the name holds no space.
pub proof fn lemma_bookmark_of(line: Seq<char>)
    ensures
        bookmark_of(line) matches Some((h, d, n)) ==> line == h + "://"@ + d + seq![' '] + n
            && !n.contains(' '),
{
    reveal_strlit("://");
    if bookmark_of(line) is Some {
        let p = choose|p: int| last_space(line, p);
        let dd = line.take(p);
        let q = choose|q: int| first_scheme_sep(dd, q);
        let h = dd.take(q);
        let d = dd.skip(q + 3);
        let n = line.skip(p + 1);
        assert(line =~= h + "://"@ + d + seq![' '] + n);
        assert forall|k: int| 0 <= k < n.len() implies n[k] != ' ' by {
            assert(n[k] == line[p + 1 + k]);
        }
    }
}

/// A line is a bookmark exactly when it has a space with `://` somewhere
/// before its last space; the scheme then holds no `://`.
pub proof fn lemma_bookmark_of_some(line: Seq<char>)
    ensures
        bookmark_of(line) is Some <==> exists|p: int, q: int|
            #![trigger line[p], line[q]]
            0 <= q && q + 3 <= p < line.len() && line[p] == ' ' && line[q] == ':' && line[q + 1]
                == '/' && line[q + 2] == '/',
        bookmark_of(line) matches Some((h, d, n)) ==> forall|r: int|
            #![trigger h[r]]
            0 <= r && r + 3 <= h.len() ==> !(h[r] == ':' && h[r + 1] == '/' && h[r + 2] == '/'),
{
    if exists|p: int, q: int|
        #![trigger line[p], line[q]]
        0 <= q && q + 3 <= p < line.len() && line[p] == ' ' && line[q] == ':' && line[q + 1] == '/'
            && line[q + 2] == '/' {
        let (p0, q0) = choose|p: int, q: int|
            #![trigger line[p], line[q]]
            0 <= q && q + 3 <= p < line.len() && line[p] == ' ' && line[q] == ':' && line[q + 1]
                == '/' && line[q + 2] == '/';
        lemma_last_space_exists(line, p0);
        let p = choose|p: int| last_space(line, p);
        assert(p >= p0);
        let dd = line.take(p);
        assert(scheme_sep_at(dd, q0));
        lemma_first_sep_exists(dd, q0);
    }
    if bookmark_of(line) is Some {
        let p = choose|p: int| last_space(line, p);
        let dd = line.take(p);
        let q = choose|q: int| first_scheme_sep(dd, q);
        assert(scheme_sep_at(dd, q));
        assert(dd[q] == line[q] && dd[q + 1] == line[q + 1] && dd[q + 2] == line[q + 2]);
        let h = dd.take(q);
        assert forall|r: int| #![trigger h[r]] 0 <= r && r + 3 <= h.len() implies !(h[r] == ':' && h[r + 1] == '/'
            && h[r + 2] == '/') by {
            assert(!scheme_sep_at(dd, r));
        }
    }
}

/// A line with a space has a last space.
proof fn lemma_last_space_exists(line: Seq<char>, p: int) -> (r: int)
    requires
        0 <= p < line.len(),
        line[p] == ' ',
    ensures
        last_space(line, r),
    decreases line.len() - p,
{
    if exists|q: int| p < q < line.len() && line[q] == ' ' {
        let q = choose|q: int| p < q < line.len() && line[q] == ' ';
        lemma_last_space_exists(line, q)
    } else {
        p
    }
}

/// A line holding `://` has a first one.
proof fn lemma_first_sep_exists(d: Seq<char>, q: int)
    requires
        scheme_sep_at(d, q),
    ensures
        exists|r: int| first_scheme_sep(d, r),
    decreases q,
{
    if exists|r: int| 0 <= r < q && #[trigger] scheme_sep_at(d, r) {
        let r = choose|r: int| 0 <= r < q && #[trigger] scheme_sep_at(d, r);
        lemma_first_sep_exists(d, r);
    } else {
        assert(first_scheme_sep(d, q));
    }
}

/// Reads a GTK bookmark line.
pub fn parse_bookmark(line: &str) -> (res: Option<Bookmark>)
    ensures
        res is Some <==> bookmark_of(line@) is Some,
        res matches Some(b) ==> (b.handler@, b.dir@, b.name@) == bookmark_of(line@)->0,
{
    let n = line.unicode_len();
    let p = match find_last_space(line) {
        Some(p) => p,
        None => return None,
    };
    let ghost chosen = choose|q: int| last_space(line@, q);
    assert(chosen == p as int) by {
        if chosen < p {
            assert(line@[p as int] == ' ');
        } else if chosen > p {
            assert(line@[chosen] == ' ');
        }
    }
    let ghost d = line@.take(p as int);
    let q = match find_scheme_sep(line, p) {
        Some(q) => q,
        None => return None,
    };
    let ghost c = choose|r: int| first_scheme_sep(d, r);
    assert(c == q as int) by {
        if c < q {
            assert(scheme_sep_at(d, c));
        } else if c > q {
            assert(scheme_sep_at(d, q as int));
        }
    }
    let handler = String::from_str(line.substring_char(0, q));
    let dir = String::from_str(line.substring_char(q + 3, p));
    let name = String::from_str(line.substring_char(p + 1, n));
    assert(d.take(q as int) =~= line@.subrange(0, q as int));
    assert(d.skip(q + 3) =~= line@.subrange(q + 3, p as int));
    assert(line@.skip(p + 1) =~= line@.subrange(p + 1, n as int));
    Some(Bookmark { handler, dir, name })
}

/// A bookmark line, and the folders inside the directory it names.
pub struct BookmarkScan {
    pub line: String,
    pub subdirs: Vec<Folder>,
}

/// The JWM text for one bookmark line: an entry for an `sftp` bookmark, the
/// place's sub-menu for any other, nothing for a line that is not a bookmark.
pub open spec fn bookmark_text(b: BookmarkScan) -> Seq<char> {
    match bookmark_of(b.line@) {
        None => seq![],
        Some((h, d, n)) => if h == "sftp"@ {
            program_line_text("folder-remote"@, n, d) + seq!['\n']
        } else {
            big_menu_text(d, place_icon(d), n, b.subdirs@) + seq!['\n']
        },
    }
}

/// The JWM text for the bookmark lines, one after the other.
pub open spec fn bookmarks_text(bs: Seq<BookmarkScan>) -> Seq<char>
    decreases bs.len(),
{
    if bs.len() == 0 {
        seq![]
    } else {
        bookmarks_text(bs.drop_last()) + bookmark_text(bs.last())
    }
}

/// The GTK bookmarks, as JWM text.
pub fn gtk_bookmarks(bookmarks: &Vec<BookmarkScan>) -> (res: String)
    ensures
        res@ == bookmarks_text(bookmarks@),
{
    let mut res = String::new();
    for i in 0..bookmarks.len()
        invariant
            res@ == bookmarks_text(bookmarks@.take(i as int)),
    {
        let b = &bookmarks[i];
        assert(bookmarks@.take(i + 1).drop_last() =~= bookmarks@.take(i as int));
        if let Some(bm) = parse_bookmark(b.line.as_str()) {
            if str_eq(bm.handler.as_str(), "sftp") {
                let s = program_line("folder-remote", bm.name.as_str(), bm.dir.as_str());
                res.append(s.as_str());
            } else {
                let icon = get_icon(bm.dir.as_str());
                let s = big_menu(bm.dir.as_str(), icon.as_str(), bm.name.as_str(), &b.subdirs);
                res.append(s.as_str());
            }
            push_char(&mut res, '\n');
        }
    }
    assert(bookmarks@.take(bookmarks.len() as int) =~= bookmarks@);
    res
}

/// The menu of the bookmark lines: an entry for each `sftp` bookmark, the
/// named place menu of each other.
pub open spec fn bookmarks_menu(bs: Seq<BookmarkScan>) -> MenuView
    decreases bs.len(),
{
    if bs.len() == 0 {
        empty_menu_view()
    } else {
        let prev = bookmarks_menu(bs.drop_last());
        match bookmark_of(bs.last().line@) {
            None => prev,
            Some((h, d, n)) => if h == "sftp"@ {
                MenuView {
                    items: prev.items.push(
                        ItemView { icon: "folder-remote"@, name: n, action: d, tooltip: seq![] },
                    ),
                    ..prev
                }
            } else {
                let sub = place_menu(d, place_icon(d), n);
                if sub.name.len() > 0 && sub.icon.len() > 0 {
                    MenuView { menus: prev.menus.push(sub), ..prev }
                } else {
                    prev
                }
            },
        }
    }
}

/// The GTK bookmarks, as a menu.
pub fn gtk_bookmarks_menu(bookmarks: &Vec<BookmarkScan>) -> (res: Menu)
    ensures
        res@ == bookmarks_menu(bookmarks@),
{
    let mut menu = Menu::default();
    for i in 0..bookmarks.len()
        invariant
            menu@ == bookmarks_menu(bookmarks@.take(i as int)),
    {
        let b = &bookmarks[i];
        assert(bookmarks@.take(i + 1).drop_last() =~= bookmarks@.take(i as int));
        if let Some(bm) = parse_bookmark(b.line.as_str()) {
            if str_eq(bm.handler.as_str(), "sftp") {
                let item = Item::new("folder-remote", bm.name.as_str(), bm.dir.as_str());
                proof {
                    lemma_items_view_push(menu.items@, item);
                }
                menu.items.push(item);
            } else {
                let icon = get_icon(bm.dir.as_str());
                let sub = make_menu(bm.dir.as_str(), icon.as_str(), bm.name.as_str(), &b.subdirs);
                if !sub.name.as_str().is_empty() && !sub.icon.as_str().is_empty() {
                    proof {
                        lemma_menus_view_push(menu.menus@, sub);
                    }
                    menu.menus.push(sub);
                }
            }
        }
    }
    assert(bookmarks@.take(bookmarks.len() as int) =~= bookmarks@);
    menu
}


/// The cache directory: the XDG cache directory when one is known, else
/// `.cache` in the home directory.
pub open spec fn cache_dir_of(cache_home: Option<Seq<char>>, home: Seq<char>) -> Seq<char> {
    match cache_home {
        Some(ch) => ch,
        None => home + "/.cache"@,
    }
}

/// Get the cache directory, from the XDG cache directory (`None` when none
/// is known) and the home directory.
pub fn cache_directory(cache_home: Option<&str>, home: &str) -> (res: String)
    ensures
        res@ == cache_dir_of(
            match cache_home {
                Some(ch) => Some(ch@),
                None => None,
            },
            home@,
        ),
{
    match cache_home {
        Some(ch) => String::from_str(ch),
        None => {
            let mut res = String::from_str(home);
            res.append("/.cache");
            res
        },
    }
}

/// Get the cache filename of the places menu.
pub fn cache_filename(cache_home: Option<&str>, home: &str) -> (res: String)
    ensures
        res@ == cache_dir_of(
            match cache_home {
                Some(ch) => Some(ch@),
                None => None,
            },
            home@,
        ) + "/places-menu"@,
{
    let mut res = cache_directory(cache_home, home);
    res.append("/places-menu");
    res
}

/// The number of directories that must exist before the places menu is
/// written.
pub const PLACES_DIRS: usize = 7;

/// What to do next while making the places menu.
pub enum PlacesStep {
    /// Stop, with this exit code.
    Exit(u32),
    /// Make the directory at this index of [`places_dirs`].
    MakeDir(usize),
    /// Every directory exists: write the menu.
    WriteMenu,
}

/// The index of the first `false` among `outcomes`, if any.
pub open spec fn first_failure(outcomes: Seq<bool>) -> Option<int>
    decreases outcomes.len(),
{
    if outcomes.len() == 0 {
        None
    } else {
        match first_failure(outcomes.drop_last()) {
            Some(i) => Some(i),
            None => if outcomes.last() {
                None
            } else {
                Some(outcomes.len() - 1)
            },
        }
    }
}

/// The next step, given whether the home directory is known and whether
/// each directory made so far (in the order of [`places_dirs`]) now exists:
/// exit code 1 without a home; else the code 2 + `i` for the first
/// directory `i` that could not be made; else the next directory to make;
/// else writing the menu.
pub open spec fn places_step_of(home_found: bool, outcomes: Seq<bool>) -> PlacesStep {
    if !home_found {
        PlacesStep::Exit(1)
    } else {
        match first_failure(outcomes) {
            Some(i) => PlacesStep::Exit((i + 2) as u32),
            None => if outcomes.len() < PLACES_DIRS {
                PlacesStep::MakeDir(outcomes.len() as usize)
            } else {
                PlacesStep::WriteMenu
            },
        }
    }
}

/// The first failure lies among the outcomes, and every outcome before it
/// is a success.
pub proof fn lemma_first_failure(outcomes: Seq<bool>)
    ensures
        first_failure(outcomes) matches Some(i) ==> 0 <= i < outcomes.len() && !outcomes[i]
            && forall|j: int| 0 <= j < i ==> #[trigger] outcomes[j],
        first_failure(outcomes) is None ==> forall|j: int|
            0 <= j < outcomes.len() ==> #[trigger] outcomes[j],
    decreases outcomes.len(),
{
    if outcomes.len() > 0 {
        let init = outcomes.drop_last();
        lemma_first_failure(init);
        assert forall|j: int| 0 <= j < init.len() implies init[j] == #[trigger] outcomes[j] by {}
    }
}

/// The next step in making the places menu.
pub fn places_step(home_found: bool, outcomes: &Vec<bool>) -> (res: PlacesStep)
    requires
        outcomes@.len() <= PLACES_DIRS,
    ensures
        res == places_step_of(home_found, outcomes@),
{
    if !home_found {
        return PlacesStep::Exit(1);
    }
    let n = outcomes.len();
    for i in 0..n
        invariant
            home_found,
            n == outcomes@.len(),
            n <= PLACES_DIRS,
            first_failure(outcomes@.take(i as int)) is None,
    {
        assert(outcomes@.take(i + 1).drop_last() =~= outcomes@.take(i as int));
        if !outcomes[i] {
            proof {
                assert(first_failure(outcomes@.take(i + 1)) == Some(i as int));
                lemma_first_failure_prefix(outcomes@, i + 1);
                assert(first_failure(outcomes@) == Some(i as int));
            }
            let code: u32 = (i + 2) as u32;
            assert(((i as int) + 2) as u32 == code);
            return PlacesStep::Exit(code);
        }
    }
    assert(outcomes@.take(n as int) =~= outcomes@);
    if n < PLACES_DIRS {
        PlacesStep::MakeDir(n)
    } else {
        PlacesStep::WriteMenu
    }
}

/// A failure within a prefix is the first failure of the whole.
proof fn lemma_first_failure_prefix(outcomes: Seq<bool>, k: int)
    requires
        0 <= k <= outcomes.len(),
        first_failure(outcomes.take(k)) is Some,
    ensures
        first_failure(outcomes) == first_failure(outcomes.take(k)),
    decreases outcomes.len(),
{
    if k < outcomes.len() {
        assert(outcomes.drop_last().take(k) =~= outcomes.take(k));
        lemma_first_failure_prefix(outcomes.drop_last(), k);
    } else {
        assert(outcomes.take(k) =~= outcomes);
    }
}

/// The exit code once every directory exists: 9 when the cache file cannot
/// be created, else 10 (standard folders) or 11 (bookmarks) when the menu
/// cannot be written to it, else 0.
pub open spec fn write_code_of(created: bool, written: bool, from_bookmarks: bool) -> u32 {
    if !created {
        9
    } else if !written {
        if from_bookmarks {
            11
        } else {
            10
        }
    } else {
        0
    }
}

/// The exit code once every directory exists, from whether the cache file
/// was created and the menu written to it.
pub fn write_code(created: bool, written: bool, from_bookmarks: bool) -> (res: u32)
    ensures
        res == write_code_of(created, written, from_bookmarks),
{
    if !created {
        9
    } else if !written {
        if from_bookmarks {
            11
        } else {
            10
        }
    } else {
        0
    }
}

/// `home` followed by `/` and `name`.
pub open spec fn join(home: Seq<char>, name: Seq<char>) -> Seq<char> {
    home + seq!['/'] + name
}

/// The documents place: the `Documents` folder of the home directory.
pub open spec fn documents_dir(home: Seq<char>) -> Seq<char> {
    join(home, "Documents"@)
}

/// The trash folder in the home directory.
pub open spec fn trash_dir(home: Seq<char>) -> Seq<char> {
    home + "/.local/share/Trash/files"@
}

fn join_path(home: &str, name: &str) -> (res: String)
    ensures
        res@ == join(home@, name@),
{
    let mut res = String::from_str(home);
    push_char(&mut res, '/');
    res.append(name);
    res
}

fn trash_path(home: &str) -> (res: String)
    ensures
        res@ == trash_dir(home@),
{
    let mut res = String::from_str(home);
    res.append("/.local/share/Trash/files");
    res
}

/// The directories that must exist before the places menu is written, in
/// the order in which they are made: the cache directory, then the standard
/// folders of the home directory, then the trash.
pub open spec fn places_dir_paths(home: Seq<char>, cache: Seq<char>) -> Seq<Seq<char>> {
    seq![
        cache,
        documents_dir(home),
        join(home, "Downloads"@),
        join(home, "Music"@),
        join(home, "Pictures"@),
        join(home, "Videos"@),
        trash_dir(home),
    ]
}

/// The directories the places menu needs, in the order in which they are
/// made.
pub fn places_dirs(home_dir: &str, cache_dir: &str) -> (res: Vec<String>)
    ensures
        res@.len() == PLACES_DIRS,
        forall|i: int|
            0 <= i < PLACES_DIRS ==> #[trigger] res@[i]@ == places_dir_paths(home_dir@, cache_dir@)[i],
{
    let mut res: Vec<String> = Vec::new();
    res.push(String::from_str(cache_dir));
    res.push(join_path(home_dir, "Documents"));
    res.push(join_path(home_dir, "Downloads"));
    res.push(join_path(home_dir, "Music"));
    res.push(join_path(home_dir, "Pictures"));
    res.push(join_path(home_dir, "Videos"));
    res.push(trash_path(home_dir));
    res
}

/// The folders found in each standard place, and the GTK bookmark lines
/// with the folders found in the directories they name.
pub struct PlacesScan {
    pub documents: Vec<Folder>,
    pub downloads: Vec<Folder>,
    pub music: Vec<Folder>,
    pub pictures: Vec<Folder>,
    pub videos: Vec<Folder>,
    pub bookmarks: Vec<BookmarkScan>,
}

/// The places menu, and whether it was made from the GTK bookmarks.
pub struct PlacesMenu {
    pub text: String,
    pub from_bookmarks: bool,
}

pub const JWM_OPEN: &'static str = "<JWM>\n";
pub const JWM_CLOSE: &'static str = "\n</JWM>";
pub const RELOAD: &'static str = "\n   <Program icon=\"reload\" label=\"Update Menus\">jwm -reload</Program>";

/// The places menu made from the standard folders.
pub open spec fn standard_places_text(home: Seq<char>, scan: PlacesScan) -> Seq<char> {
    JWM_OPEN@ + big_menu_text(home, "user-home"@, "Home"@, seq![]) + seq!['\n'] + big_menu_text(
        documents_dir(home),
        "folder-documents"@,
        "Documents"@,
        scan.documents@,
    ) + seq!['\n'] + big_menu_text(
        join(home, "Downloads"@),
        "folder-download"@,
        "Downloads"@,
        scan.downloads@,
    ) + seq!['\n'] + big_menu_text(join(home, "Music"@), "folder-music"@, "Music"@, scan.music@)
        + seq!['\n'] + big_menu_text(
        join(home, "Pictures"@),
        "folder-pictures"@,
        "Pictures"@,
        scan.pictures@,
    ) + seq!['\n'] + big_menu_text(join(home, "Videos"@), "folder-videos"@, "Videos"@, scan.videos@)
        + seq!['\n'] + big_menu_text(trash_dir(home), "user-trash"@, "Trash"@, seq![]) + seq!['\n']
        + RELOAD@ + JWM_CLOSE@
}

/// The places menu made from the GTK bookmarks.
pub open spec fn bookmark_places_text(home: Seq<char>, scan: PlacesScan) -> Seq<char> {
    JWM_OPEN@ + big_menu_text(home, "user-home"@, "Home"@, seq![]) + seq!['\n'] + bookmarks_text(
        scan.bookmarks@,
    ) + big_menu_text(trash_dir(home), "user-trash"@, "Trash"@, seq![]) + RELOAD@ + JWM_CLOSE@
}

/// One line for each folder of `subs`, in order, each opening the folder
/// under its name.
pub open spec fn folder_listing(subs: Seq<Folder>) -> Seq<char> {
    subs.map_values(|f: Folder| program_line_text("folder"@, dir_name(f.path@), f.path@)).flatten()
}

/// The lines of a list of folders are the line of each of them, in order.
pub proof fn lemma_folder_lines(subs: Seq<Folder>)
    ensures
        folder_lines(subs) == folder_listing(subs),
    decreases subs.len(),
{
    let g = |f: Folder| program_line_text("folder"@, dir_name(f.path@), f.path@);
    if subs.len() == 0 {
        lemma_flatten_map_empty(subs, g);
    } else {
        lemma_folder_lines(subs.drop_last());
        lemma_flatten_map_last(subs, g);
    }
}

/// The sub-menu of a standard place whose icon is not `folder`: its opening
/// line, an entry for the place itself, one line for each folder found in
/// it, and the closing line.
pub open spec fn place_block(dir: Seq<char>, icon: Seq<char>, label: Seq<char>, subs: Seq<Folder>) -> Seq<char> {
    menu_line_text(icon, label) + program_line_text(icon, label, dir) + folder_listing(subs)
        + MENU_CLOSE@
}

/// The places menu made from the standard folders is: the `Home` entry;
/// for Documents, Downloads, Music, Pictures and Videos, in that order, the
/// sub-menu of that folder of the home directory listing exactly the
/// folders found in it; the `Trash` entry; and the reload entry, each on a
/// line of its own inside `<JWM>`.
pub proof fn lemma_standard_places(home: Seq<char>, scan: PlacesScan)
    ensures
        standard_places_text(home, scan) == JWM_OPEN@ + program_line_text(
            "user-home"@,
            "Home"@,
            home,
        ) + seq!['\n'] + place_block(
            join(home, "Documents"@),
            "folder-documents"@,
            "Documents"@,
            scan.documents@,
        ) + seq!['\n'] + place_block(
            join(home, "Downloads"@),
            "folder-download"@,
            "Downloads"@,
            scan.downloads@,
        ) + seq!['\n'] + place_block(join(home, "Music"@), "folder-music"@, "Music"@, scan.music@)
            + seq!['\n'] + place_block(
            join(home, "Pictures"@),
            "folder-pictures"@,
            "Pictures"@,
            scan.pictures@,
        ) + seq!['\n'] + place_block(join(home, "Videos"@), "folder-videos"@, "Videos"@, scan.videos@)
            + seq!['\n'] + program_line_text(
            "user-trash"@,
            "Trash"@,
            home + "/.local/share/Trash/files"@,
        ) + seq!['\n'] + RELOAD@ + JWM_CLOSE@,
{
    reveal_strlit("Home");
    reveal_strlit("Trash");
    reveal_strlit("folder");
    reveal_strlit("Documents");
    reveal_strlit("Downloads");
    reveal_strlit("Music");
    reveal_strlit("Pictures");
    reveal_strlit("Videos");
    reveal_strlit("folder-documents");
    reveal_strlit("folder-download");
    reveal_strlit("folder-music");
    reveal_strlit("folder-pictures");
    reveal_strlit("folder-videos");
    lemma_folder_lines(scan.documents@);
    lemma_folder_lines(scan.downloads@);
    lemma_folder_lines(scan.music@);
    lemma_folder_lines(scan.pictures@);
    lemma_folder_lines(scan.videos@);
    assert("Documents"@.len() == 9 && "Downloads"@.len() == 9);
    assert("Home"@.len() == 4 && "Trash"@.len() == 5 && "Trash"@[0] == 'T');
    assert("Music"@.len() == 5 && "Music"@[0] == 'M');
    assert("Pictures"@.len() == 8 && "Videos"@.len() == 6);
    assert(!is_single_place("Documents"@));
    assert(!is_single_place("Downloads"@));
    assert(!is_single_place("Music"@));
    assert(!is_single_place("Pictures"@));
    assert(!is_single_place("Videos"@));
    assert(is_single_place("Home"@));
    assert(is_single_place("Trash"@));
    assert(open_icon("folder-documents"@) == "folder-documents"@);
    assert(open_icon("folder-download"@) == "folder-download"@);
    assert(open_icon("folder-music"@) == "folder-music"@);
    assert(open_icon("folder-pictures"@) == "folder-pictures"@);
    assert(open_icon("folder-videos"@) == "folder-videos"@);
}

/// A place's JWM text is one entry for `Home` and `Trash`; for any other
/// place, its opening line, an entry for the folder itself (with the open
/// folder icon for a plain folder), one line for each folder found in it,
/// and the closing line.
pub proof fn lemma_big_menu(dir: Seq<char>, icon: Seq<char>, label: Seq<char>, subs: Seq<Folder>)
    ensures
        big_menu_text(dir, icon, label, subs) == if label == "Home"@ || label == "Trash"@ {
            program_line_text(icon, label, dir)
        } else {
            menu_line_text(icon, label) + program_line_text(
                if icon == "folder"@ {
                    "folder-open"@
                } else {
                    icon
                },
                label,
                dir,
            ) + folder_listing(subs) + MENU_CLOSE@
        },
{
    lemma_folder_lines(subs);
}

/// The JWM text for the folders in a directory is, for each folder in
/// order, its place sub-menu when `deep`, else its line.
pub proof fn lemma_sub_menu_text(subs: Seq<Folder>, deep: bool)
    ensures
        sub_menu_text(subs, deep) == subs.map_values(
            |f: Folder|
                if deep {
                    big_menu_text(f.path@, "folder"@, dir_name(f.path@), f.subdirs@)
                } else {
                    program_line_text("folder"@, dir_name(f.path@), f.path@)
                },
        ).flatten(),
    decreases subs.len(),
{
    let g = |f: Folder|
        if deep {
            big_menu_text(f.path@, "folder"@, dir_name(f.path@), f.subdirs@)
        } else {
            program_line_text("folder"@, dir_name(f.path@), f.path@)
        };
    if subs.len() == 0 {
        lemma_flatten_map_empty(subs, g);
    } else {
        lemma_sub_menu_text(subs.drop_last(), deep);
        lemma_flatten_map_last(subs, g);
    }
}

/// The JWM text for the bookmark lines is that of each line, in order.
pub proof fn lemma_bookmarks_text(bs: Seq<BookmarkScan>)
    ensures
        bookmarks_text(bs) == bs.map_values(|b: BookmarkScan| bookmark_text(b)).flatten(),
    decreases bs.len(),
{
    if bs.len() == 0 {
        lemma_flatten_map_empty(bs, |b: BookmarkScan| bookmark_text(b));
    } else {
        lemma_bookmarks_text(bs.drop_last());
        lemma_flatten_map_last(bs, |b: BookmarkScan| bookmark_text(b));
    }
}

/// The places menu made from the GTK bookmarks is: the `Home` entry on a
/// line of its own, the text of every bookmark line in order, the `Trash`
/// entry and the reload entry, inside `<JWM>`.
pub proof fn lemma_bookmark_places(home: Seq<char>, scan: PlacesScan)
    ensures
        bookmark_places_text(home, scan) == JWM_OPEN@ + program_line_text(
            "user-home"@,
            "Home"@,
            home,
        ) + seq!['\n'] + scan.bookmarks@.map_values(|b: BookmarkScan| bookmark_text(b)).flatten()
            + program_line_text("user-trash"@, "Trash"@, home + "/.local/share/Trash/files"@)
            + RELOAD@ + JWM_CLOSE@,
{
    lemma_bookmarks_text(scan.bookmarks@);
    assert(is_single_place("Home"@));
    assert(is_single_place("Trash"@));
}

/// Appends `s` and a newline to `res`.
fn push_line(res: &mut String, s: &str)
    ensures
        final(res)@ == old(res)@ + s@ + seq!['\n'],
{
    res.append(s);
    push_char(res, '\n');
}

/// JWM places menu: made from the GTK bookmarks when they give any entry,
/// else from the standard folders.
pub fn jwm(home_dir: &str, scan: &PlacesScan) -> (res: PlacesMenu)
    ensures
        res.from_bookmarks == (bookmarks_text(scan.bookmarks@).len() > 0),
        res.text@ == if res.from_bookmarks {
            bookmark_places_text(home_dir@, *scan)
        } else {
            standard_places_text(home_dir@, *scan)
        },
{
    let none: Vec<Folder> = Vec::new();
    let doc_dir = join_path(home_dir, "Documents");
    let dl_dir = join_path(home_dir, "Downloads");
    let music_dir = join_path(home_dir, "Music");
    let pic_dir = join_path(home_dir, "Pictures");
    let vid_dir = join_path(home_dir, "Videos");
    let rubbish_dir = trash_path(home_dir);
    let home_menu = big_menu(home_dir, "user-home", "Home", &none);
    let rubbish_menu = big_menu(rubbish_dir.as_str(), "user-trash", "Trash", &none);
    let gtk_bookmarks = gtk_bookmarks(&scan.bookmarks);
    let mut text = String::from_str(JWM_OPEN);
    push_line(&mut text, home_menu.as_str());
    if gtk_bookmarks.as_str().is_empty() {
        let s = big_menu(doc_dir.as_str(), "folder-documents", "Documents", &scan.documents);
        push_line(&mut text, s.as_str());
        let s = big_menu(dl_dir.as_str(), "folder-download", "Downloads", &scan.downloads);
        push_line(&mut text, s.as_str());
        let s = big_menu(music_dir.as_str(), "folder-music", "Music", &scan.music);
        push_line(&mut text, s.as_str());
        let s = big_menu(pic_dir.as_str(), "folder-pictures", "Pictures", &scan.pictures);
        push_line(&mut text, s.as_str());
        let s = big_menu(vid_dir.as_str(), "folder-videos", "Videos", &scan.videos);
        push_line(&mut text, s.as_str());
        push_line(&mut text, rubbish_menu.as_str());
        text.append(RELOAD);
        text.append(JWM_CLOSE);
        PlacesMenu { text, from_bookmarks: false }
    } else {
        text.append(gtk_bookmarks.as_str());
        text.append(rubbish_menu.as_str());
        text.append(RELOAD);
        text.append(JWM_CLOSE);
        PlacesMenu { text, from_bookmarks: true }
    }
}

} // verus!
