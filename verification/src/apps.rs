//! The application menu: desktop entries sorted into one menu per main
//! desktop category.

use vstd::prelude::*;

use xdgkit::categories::Categories;

use crate::menu::{
    items_view, lemma_items_view_push, lemma_menus_jwm, lemma_menus_openbox, lemma_menus_view_push,
    menu_jwm, menu_openbox, menus_jwm,
    menus_openbox, menus_view, Item, ItemView, Menu, MenuView,
};
use crate::text::{
    lemma_flatten_map_empty, lemma_flatten_map_last, lowercase, replace_char, replace_char_with,
    str_eq, to_lowercase,
};

verus! {

/// The desktop categories of `xdgkit`.
#[verifier::external_type_specification]
pub struct ExCategories(Categories);

/// The main categories, in menu order.
pub open spec fn main_categories_spec() -> Seq<Categories> {
    seq![
        Categories::AudioVideo,
        Categories::Education,
        Categories::Development,
        Categories::Game,
        Categories::Graphics,
        Categories::Network,
        Categories::Office,
        Categories::Science,
        Categories::Settings,
        Categories::System,
        Categories::Utility,
    ]
}

/// The main categories, each of which gets a menu, in menu order.
pub fn main_categories() -> (res: Vec<Categories>)
    ensures
        res@ == main_categories_spec(),
{
    let res = vec![
        Categories::AudioVideo,
        Categories::Education,
        Categories::Development,
        Categories::Game,
        Categories::Graphics,
        Categories::Network,
        Categories::Office,
        Categories::Science,
        Categories::Settings,
        Categories::System,
        Categories::Utility,
    ];
    assert(res@ =~= main_categories_spec());
    res
}

/// What `xdgkit` writes for a category through `Display`.
pub uninterp spec fn category_display(c: Categories) -> Seq<char>;

/// `ToString::to_string` on an `xdgkit` category. Its `Display` writes the
/// category's name in double quotes; the result depends on the category
/// alone, and is named here, not spelled out.
#[verifier::external_body]
fn category_to_string(c: &Categories) -> (res: String)
    ensures
        res@ == category_display(*c),
{
    c.to_string()
}

/// The label of a category: its text with the double quotes taken out.
pub open spec fn category_label_of(c: Categories) -> Seq<char> {
    replace_char(category_display(c), '"', seq![])
}

/// The label of a category, as menus show it.
pub fn category_label(c: &Categories) -> (res: String)
    ensures
        res@ == category_label_of(*c),
{
    let text = category_to_string(c);
    proof {
        reveal_strlit("");
        assert(""@ =~= Seq::<char>::empty());
    }
    replace_char_with(text.as_str(), '"', "")
}

/// The icon-theme name of a category: the lower-case label, with the names
/// that icon themes use for some of them.
pub open spec fn icon_category(n: Seq<char>) -> Seq<char> {
    if n == "game"@ {
        "games"@
    } else if n == "utility"@ {
        "accessories"@
    } else if n == "settings"@ {
        "utilities"@
    } else if n == "audiovideo"@ {
        "multimedia"@
    } else if n == "education"@ {
        "engineering"@
    } else if n == "network"@ {
        "internet"@
    } else {
        n
    }
}

/// The name of the icon looked up for a category's menu.
pub open spec fn category_icon_of(c: Categories) -> Seq<char> {
    "applications-"@ + icon_category(replace_char(lowercase(category_display(c)), '"', seq![]))
}

/// The name of the icon to look up for a category's menu.
pub fn category_icon_name(category: &Categories) -> (res: String)
    ensures
        res@ == category_icon_of(*category),
{
    let text = category_to_string(category);
    let lower = to_lowercase(text.as_str());
    proof {
        reveal_strlit("");
        assert(""@ =~= Seq::<char>::empty());
    }
    let cat_name = replace_char_with(lower.as_str(), '"', "");
    let n = cat_name.as_str();
    let renamed = if str_eq(n, "game") {
        String::from_str("games")
    } else if str_eq(n, "utility") {
        String::from_str("accessories")
    } else if str_eq(n, "settings") {
        String::from_str("utilities")
    } else if str_eq(n, "audiovideo") {
        String::from_str("multimedia")
    } else if str_eq(n, "education") {
        String::from_str("engineering")
    } else if str_eq(n, "network") {
        String::from_str("internet")
    } else {
        String::from_str(n)
    };
    let mut res = String::from_str("applications-");
    res.append(renamed.as_str());
    res
}

/// `found` when an icon was found (it is not empty), else `fallback`.
pub open spec fn pick_icon(found: Seq<char>, fallback: Seq<char>) -> Seq<char> {
    if found.len() == 0 {
        fallback
    } else {
        found
    }
}

fn choose_icon(found: &String, fallback: &String) -> (res: String)
    ensures
        res@ == pick_icon(found@, fallback@),
{
    if found.as_str().is_empty() {
        fallback.clone()
    } else {
        found.clone()
    }
}

/// What a desktop entry gives the menu: its name, command, comment and
/// categories, and the icon found for it (empty when none was found).
pub struct DesktopApp {
    pub name: Option<String>,
    pub command: Option<String>,
    pub comment: Option<String>,
    pub icon: String,
    pub categories: Option<Vec<Categories>>,
}

/// All that the application menu is made from, as read from the system: the
/// icon found for each main category (by index in [`main_categories`]; empty,
/// or past the end of the list, when none was found), the icon for a category
/// without one, the desktop entries, and the icon for an entry without one.
pub struct AppScan {
    pub category_icons: Vec<String>,
    pub other_icon: String,
    pub apps: Vec<DesktopApp>,
    pub default_icon: String,
}

/// Whether a desktop entry can appear in a menu: it has a name, a command
/// and categories.
pub open spec fn is_listed(a: DesktopApp) -> bool {
    a.name is Some && a.command is Some && a.categories is Some
}

/// The item of a listed desktop entry: its comment is the tooltip, or its
/// name when it has no comment.
pub open spec fn app_item(a: DesktopApp, default_icon: Seq<char>) -> ItemView {
    let name = match a.name {
        Some(n) => n@,
        None => seq![],
    };
    ItemView {
        name: name,
        action: match a.command {
            Some(e) => e@,
            None => seq![],
        },
        icon: pick_icon(a.icon@, default_icon),
        tooltip: match a.comment {
            Some(c) => c@,
            None => name,
        },
    }
}

/// `item` once for each of `cats` whose label is `label`.
pub open spec fn category_items(cats: Seq<Categories>, label: Seq<char>, item: ItemView) -> Seq<
    ItemView,
>
    decreases cats.len(),
{
    if cats.len() == 0 {
        seq![]
    } else {
        category_items(cats.drop_last(), label, item) + if category_label_of(cats.last()) == label {
            seq![item]
        } else {
            seq![]
        }
    }
}

/// The items that one desktop entry puts in the menu labelled `label`.
pub open spec fn app_items(a: DesktopApp, label: Seq<char>, default_icon: Seq<char>) -> Seq<
    ItemView,
> {
    match a.categories {
        Some(cats) => if is_listed(a) {
            category_items(cats@, label, app_item(a, default_icon))
        } else {
            seq![]
        },
        None => seq![],
    }
}

/// The items of the menu labelled `label`, entry after entry.
pub open spec fn menu_items(apps: Seq<DesktopApp>, label: Seq<char>, default_icon: Seq<char>) -> Seq<
    ItemView,
>
    decreases apps.len(),
{
    if apps.len() == 0 {
        seq![]
    } else {
        menu_items(apps.drop_last(), label, default_icon) + app_items(
            apps.last(),
            label,
            default_icon,
        )
    }
}

/// The icon found for the main category at index `k` (empty when none was).
pub open spec fn found_icon(scan: AppScan, k: int) -> Seq<char> {
    if 0 <= k < scan.category_icons@.len() {
        scan.category_icons@[k]@
    } else {
        seq![]
    }
}

/// The menu of the main category at index `k`, before empty menus are
/// dropped.
pub open spec fn head_menu(k: int, scan: AppScan) -> MenuView {
    let label = category_label_of(main_categories_spec()[k]);
    MenuView {
        name: label,
        icon: pick_icon(found_icon(scan, k), scan.other_icon@),
        tooltip: label,
        items: menu_items(scan.apps@, label, scan.default_icon@),
        menus: seq![],
    }
}

/// The menus of the first `n` main categories, in order, leaving out the
/// categories that no entry belongs to.
pub open spec fn app_menus_upto(n: int, scan: AppScan) -> Seq<MenuView>
    decreases n,
{
    if n <= 0 {
        seq![]
    } else {
        let prev = app_menus_upto(n - 1, scan);
        let m = head_menu(n - 1, scan);
        if m.items.len() > 0 {
            prev.push(m)
        } else {
            prev
        }
    }
}

/// The application menus: one per main category, in order, leaving out the
/// categories that no entry belongs to.
pub open spec fn app_menus(scan: AppScan) -> Seq<MenuView> {
    app_menus_upto(main_categories_spec().len() as int, scan)
}

/// The categories of a desktop entry (none when it has none).
pub open spec fn app_categories(a: DesktopApp) -> Seq<Categories> {
    match a.categories {
        Some(cats) => cats@,
        None => seq![],
    }
}

/// An entry's items for a label are its item once for each of its
/// categories with that label, in order.
pub proof fn lemma_category_items(cats: Seq<Categories>, label: Seq<char>, item: ItemView)
    ensures
        category_items(cats, label, item) == cats.map_values(
            |c: Categories|
                if category_label_of(c) == label {
                    seq![item]
                } else {
                    Seq::<ItemView>::empty()
                },
        ).flatten(),
    decreases cats.len(),
{
    let g = |c: Categories|
        if category_label_of(c) == label {
            seq![item]
        } else {
            Seq::<ItemView>::empty()
        };
    if cats.len() == 0 {
        assert(cats.map_values(g) =~= Seq::<Seq<ItemView>>::empty());
    } else {
        lemma_category_items(cats.drop_last(), label, item);
        let init = cats.drop_last();
        assert(cats =~= init.push(cats.last()));
        init.lemma_push_map_commute(g, cats.last());
        init.map_values(g).lemma_flatten_push(g(cats.last()));
    }
}

/// The items of the menu labelled `label` are those of each entry, in
/// order.
pub proof fn lemma_menu_items(apps: Seq<DesktopApp>, label: Seq<char>, default_icon: Seq<char>)
    ensures
        menu_items(apps, label, default_icon) == apps.map_values(
            |a: DesktopApp| app_items(a, label, default_icon),
        ).flatten(),
    decreases apps.len(),
{
    let g = |a: DesktopApp| app_items(a, label, default_icon);
    if apps.len() == 0 {
        assert(apps.map_values(g) =~= Seq::<Seq<ItemView>>::empty());
    } else {
        lemma_menu_items(apps.drop_last(), label, default_icon);
        let init = apps.drop_last();
        assert(apps =~= init.push(apps.last()));
        init.lemma_push_map_commute(g, apps.last());
        init.map_values(g).lemma_flatten_push(g(apps.last()));
    }
}

/// Each item of `category_items` is `item`, for a category with that label.
proof fn lemma_category_items_sound(cats: Seq<Categories>, label: Seq<char>, item: ItemView, k: int)
    requires
        0 <= k < category_items(cats, label, item).len(),
    ensures
        category_items(cats, label, item)[k] == item,
        exists|j: int| 0 <= j < cats.len() && category_label_of(#[trigger] cats[j]) == label,
    decreases cats.len(),
{
    let prev = category_items(cats.drop_last(), label, item);
    if k < prev.len() {
        lemma_category_items_sound(cats.drop_last(), label, item, k);
        let j = choose|j: int|
            0 <= j < cats.drop_last().len() && category_label_of(
                #[trigger] cats.drop_last()[j],
            ) == label;
        assert(cats[j] == cats.drop_last()[j]);
    } else {
        assert(category_label_of(cats[cats.len() - 1]) == label);
    }
}

/// A category with the label puts `item` in `category_items`.
proof fn lemma_category_items_complete(cats: Seq<Categories>, label: Seq<char>, item: ItemView, j: int)
    requires
        0 <= j < cats.len(),
        category_label_of(cats[j]) == label,
    ensures
        category_items(cats, label, item).contains(item),
    decreases cats.len(),
{
    let prev = category_items(cats.drop_last(), label, item);
    if j < cats.len() - 1 {
        assert(cats.drop_last()[j] == cats[j]);
        lemma_category_items_complete(cats.drop_last(), label, item, j);
        let k = choose|k: int| 0 <= k < prev.len() && prev[k] == item;
        assert(category_items(cats, label, item)[k] == item);
    } else {
        assert(category_items(cats, label, item)[prev.len() as int] == item);
    }
}

/// Every item of the menu labelled `label` is the item of a listed desktop
/// entry that has a category with that label.
pub proof fn lemma_menu_items_sound(apps: Seq<DesktopApp>, label: Seq<char>, default_icon: Seq<char>, k: int)
    requires
        0 <= k < menu_items(apps, label, default_icon).len(),
    ensures
        exists|i: int, j: int|
            0 <= i < apps.len() && is_listed(#[trigger] apps[i]) && 0 <= j < app_categories(
                apps[i],
            ).len() && category_label_of(#[trigger] app_categories(apps[i])[j]) == label
                && menu_items(apps, label, default_icon)[k] == app_item(apps[i], default_icon),
    decreases apps.len(),
{
    let prev = menu_items(apps.drop_last(), label, default_icon);
    let last = apps.last();
    if k < prev.len() {
        lemma_menu_items_sound(apps.drop_last(), label, default_icon, k);
        let (i, j) = choose|i: int, j: int|
            0 <= i < apps.drop_last().len() && is_listed(#[trigger] apps.drop_last()[i]) && 0 <= j
                < app_categories(apps.drop_last()[i]).len() && category_label_of(
                #[trigger] app_categories(apps.drop_last()[i])[j],
            ) == label && prev[k] == app_item(apps.drop_last()[i], default_icon);
        assert(apps[i] == apps.drop_last()[i]);
        assert(menu_items(apps, label, default_icon)[k] == prev[k]);
    } else {
        let cats = app_categories(last);
        let item = app_item(last, default_icon);
        assert(is_listed(last));
        lemma_category_items_sound(cats, label, item, k - prev.len());
        let j = choose|j: int| 0 <= j < cats.len() && category_label_of(#[trigger] cats[j]) == label;
        assert(apps[apps.len() - 1] == last);
        assert(app_categories(apps[apps.len() - 1])[j] == cats[j]);
    }
}

/// Every listed desktop entry with a category labelled `label` has its item
/// in the menu labelled `label`.
pub proof fn lemma_menu_items_complete(apps: Seq<DesktopApp>, label: Seq<char>, default_icon: Seq<char>, i: int, j: int)
    requires
        0 <= i < apps.len(),
        is_listed(apps[i]),
        0 <= j < app_categories(apps[i]).len(),
        category_label_of(app_categories(apps[i])[j]) == label,
    ensures
        menu_items(apps, label, default_icon).contains(app_item(apps[i], default_icon)),
    decreases apps.len(),
{
    let prev = menu_items(apps.drop_last(), label, default_icon);
    let all = menu_items(apps, label, default_icon);
    let item = app_item(apps[i], default_icon);
    if i < apps.len() - 1 {
        assert(apps.drop_last()[i] == apps[i]);
        lemma_menu_items_complete(apps.drop_last(), label, default_icon, i, j);
        let k = choose|k: int| 0 <= k < prev.len() && prev[k] == item;
        assert(all[k] == item);
    } else {
        let cats = app_categories(apps[i]);
        lemma_category_items_complete(cats, label, item, j);
        let tail = category_items(cats, label, item);
        let k = choose|k: int| 0 <= k < tail.len() && tail[k] == item;
        assert(all[prev.len() + k] == item);
    }
}

/// The menus of the first `n` main categories are the non-empty ones among
/// them, in order: `idx` gives, for each menu, the index of its category.
proof fn lemma_app_menus_upto(n: int, scan: AppScan) -> (idx: Seq<int>)
    requires
        0 <= n,
    ensures
        idx.len() == app_menus_upto(n, scan).len(),
        forall|k: int| 0 <= k < idx.len() ==> 0 <= #[trigger] idx[k] < n,
        forall|k1: int, k2: int| 0 <= k1 < k2 < idx.len() ==> idx[k1] < idx[k2],
        forall|k: int|
            0 <= k < idx.len() ==> #[trigger] app_menus_upto(n, scan)[k] == head_menu(idx[k], scan),
        forall|h: int|
            0 <= h < n && (#[trigger] head_menu(h, scan)).items.len() > 0 ==> idx.contains(h),
        forall|k: int| 0 <= k < idx.len() ==> (#[trigger] head_menu(idx[k], scan)).items.len() > 0,
    decreases n,
{
    if n == 0 {
        seq![]
    } else {
        let prev_idx = lemma_app_menus_upto(n - 1, scan);
        let m = head_menu(n - 1, scan);
        if m.items.len() > 0 {
            let idx = prev_idx.push(n - 1);
            assert forall|h: int|
                0 <= h < n && (#[trigger] head_menu(h, scan)).items.len() > 0 implies idx.contains(h) by {
                if h < n - 1 {
                    let k = choose|k: int| 0 <= k < prev_idx.len() && prev_idx[k] == h;
                    assert(idx[k] == h);
                } else {
                    assert(idx[idx.len() - 1] == h);
                }
            }
            idx
        } else {
            assert forall|h: int|
                0 <= h < n && (#[trigger] head_menu(h, scan)).items.len() > 0 implies prev_idx.contains(h) by {
                if h == n - 1 {
                    assert(false);
                }
            }
            prev_idx
        }
    }
}

/// The application menus are the menus of the main categories that some
/// entry belongs to, in the order of [`main_categories`], each category at
/// most once: `idx` gives, for each menu, the index of its category, and
/// every main category that some listed entry belongs to is among them.
/// Each menu is named and tooltipped by its category's label, has as icon
/// the icon found for its category when one was found (else the icon for a
/// category without one), holds the items of that label (at least one),
/// and has no sub-menus.
pub proof fn lemma_app_menus(scan: AppScan) -> (idx: Seq<int>)
    ensures
        idx.len() == app_menus(scan).len(),
        forall|k: int| 0 <= k < idx.len() ==> 0 <= #[trigger] idx[k] < main_categories_spec().len(),
        forall|k1: int, k2: int| 0 <= k1 < k2 < idx.len() ==> idx[k1] < idx[k2],
        forall|h: int|
            0 <= h < main_categories_spec().len() && (#[trigger] menu_items(
                scan.apps@,
                category_label_of(main_categories_spec()[h]),
                scan.default_icon@,
            )).len() > 0 ==> idx.contains(h),
        forall|k: int|
            0 <= k < idx.len() ==> #[trigger] app_menus(scan)[k] == head_menu(idx[k], scan),
        forall|h: int|
            0 <= h < main_categories_spec().len() && (#[trigger] head_menu(h, scan)).items.len() > 0
                ==> idx.contains(h),
        forall|k: int|
            0 <= k < app_menus(scan).len() ==> {
                let m = #[trigger] app_menus(scan)[k];
                let h = idx[k];
                &&& m.name == category_label_of(main_categories_spec()[h])
                &&& m.tooltip == m.name
                &&& m.icon == if h < scan.category_icons@.len() && scan.category_icons@[h]@.len()
                    > 0 {
                    scan.category_icons@[h]@
                } else {
                    scan.other_icon@
                }
                &&& m.items == menu_items(scan.apps@, m.name, scan.default_icon@)
                &&& m.items.len() > 0
                &&& m.menus.len() == 0
            },
{
    let idx = lemma_app_menus_upto(main_categories_spec().len() as int, scan);
    assert forall|k: int| 0 <= k < app_menus(scan).len() implies {
        let m = #[trigger] app_menus(scan)[k];
        let h = idx[k];
        &&& m.name == category_label_of(main_categories_spec()[h])
        &&& m.tooltip == m.name
        &&& m.icon == if h < scan.category_icons@.len() && scan.category_icons@[h]@.len() > 0 {
            scan.category_icons@[h]@
        } else {
            scan.other_icon@
        }
        &&& m.items == menu_items(scan.apps@, m.name, scan.default_icon@)
        &&& m.items.len() > 0
        &&& m.menus.len() == 0
    } by {
        assert(app_menus(scan)[k] == head_menu(idx[k], scan));
        assert(head_menu(idx[k], scan).items.len() > 0);
    }
    assert forall|h: int|
        0 <= h < main_categories_spec().len() && (#[trigger] menu_items(
            scan.apps@,
            category_label_of(main_categories_spec()[h]),
            scan.default_icon@,
        )).len() > 0 implies idx.contains(h) by {
        assert(head_menu(h, scan).items.len() > 0);
    }
    idx
}

/// Appends to `items` the items that `a` gives the menu labelled `label`.
fn push_app_items(items: &mut Vec<Item>, a: &DesktopApp, label: &String, default_icon: &String)
    ensures
        items_view(final(items)@) == items_view(old(items)@) + app_items(*a, label@, default_icon@),
{
    let ghost start = items_view(items@);
    match (&a.name, &a.command, &a.categories) {
        (Some(name), Some(cmd), Some(cats)) => {
            let icon = choose_icon(&a.icon, default_icon);
            let tooltip = match &a.comment {
                Some(c) => c.clone(),
                None => name.clone(),
            };
            let ghost item = app_item(*a, default_icon@);
            for j in 0..cats.len()
                invariant
                    items_view(items@) == start + category_items(
                        cats@.take(j as int),
                        label@,
                        item,
                    ),
                    icon@ == item.icon,
                    tooltip@ == item.tooltip,
                    name@ == item.name,
                    cmd@ == item.action,
            {
                let cat_name = category_label(&cats[j]);
                assert(cats@.take(j + 1).drop_last() =~= cats@.take(j as int));
                if str_eq(cat_name.as_str(), label.as_str()) {
                    let it = Item {
                        name: name.clone(),
                        icon: icon.clone(),
                        tooltip: tooltip.clone(),
                        action: cmd.clone(),
                    };
                    assert(it@ == item);
                    proof {
                        lemma_items_view_push(items@, it);
                    }
                    items.push(it);
                }
            }
            assert(cats@.take(cats.len() as int) =~= cats@);
        },
        _ => {
            assert(app_items(*a, label@, default_icon@) =~= seq![]);
        },
    }
}

/// The application menu: a name, an icon and the category menus.
pub struct AppMenu {
    pub name: String,
    pub icon: String,
    pub menus: Vec<Menu>,
}

impl AppMenu {
    /// Create the app menus: one per main category that some entry belongs
    /// to, in the order of [`main_categories`], holding an item for each
    /// entry and each of its categories with the menu's label.
    pub fn make_menu(scan: &AppScan) -> (res: Vec<Menu>)
        ensures
            menus_view(res@) == app_menus(*scan),
    {
        let cats = main_categories();
        let mut menus: Vec<Menu> = Vec::new();
        for k in 0..cats.len()
            invariant
                cats@ == main_categories_spec(),
                menus_view(menus@) == app_menus_upto(k as int, *scan),
        {
            let label = category_label(&cats[k]);
            let found = if k < scan.category_icons.len() {
                scan.category_icons[k].clone()
            } else {
                String::new()
            };
            let icon = choose_icon(&found, &scan.other_icon);
            let mut items: Vec<Item> = Vec::new();
            assert(items_view(items@) =~= seq![]);
            for i in 0..scan.apps.len()
                invariant
                    items_view(items@) == menu_items(
                        scan.apps@.take(i as int),
                        label@,
                        scan.default_icon@,
                    ),
            {
                push_app_items(&mut items, &scan.apps[i], &label, &scan.default_icon);
                assert(scan.apps@.take(i + 1).drop_last() =~= scan.apps@.take(i as int));
            }
            assert(scan.apps@.take(scan.apps.len() as int) =~= scan.apps@);
            if items.len() > 0 {
                let tooltip = label.clone();
                let menu = Menu { name: label, icon, tooltip, items, menus: Vec::new() };
                assert(menus_view(menu.menus@) =~= seq![]);
                proof {
                    lemma_menus_view_push(menus@, menu);
                }
                menus.push(menu);
            }
        }
        menus
    }

    /// Create a new AppMenu.
    pub fn new(name: &str, icon: &str, scan: &AppScan) -> (res: AppMenu)
        ensures
            res.name@ == name@,
            res.icon@ == icon@,
            menus_view(res.menus@) == app_menus(*scan),
    {
        let menus = Self::make_menu(scan);
        AppMenu { name: String::from_str(name), icon: String::from_str(icon), menus }
    }
}

pub const JWM_OPEN: &'static str = "<JWM>\n";
pub const JWM_CLOSE: &'static str = "\n</JWM>";
pub const RELOAD: &'static str = "\n   <Program icon=\"reload\" label=\"Update Menus\">jwm -reload</Program>";
pub const OB_DOC_OPEN: &'static str = "<?xml version=\"1.0\" encoding=\"UTF-8\"?>\n<openbox_menu xmlns=\"http://openbox.org/3.4/menu\">\n";
pub const OB_ROOT_OPEN: &'static str = "\n<menu id=\"root-menu\" label=\"Openbox\">\n";
pub const OB_ROOT_ENTRY_OPEN: &'static str = "\t<menu id=\"";
pub const OB_ROOT_ENTRY_CLOSE: &'static str = "-id\" />\n";
pub const OB_EXIT: &'static str = "\t<separator />\n\t<item label=\"Log Out\">\n\t\t<action name=\"Exit\">\n\t\t\t<prompt>yes</prompt>\n\t\t</action>\n\t</item>";
pub const OB_DOC_CLOSE: &'static str = "</menu>\n</openbox_menu>";

/// The entries of the Openbox root menu that point at each menu by its id.
pub open spec fn root_entries(ms: Seq<Menu>) -> Seq<char>
    decreases ms.len(),
{
    if ms.len() == 0 {
        seq![]
    } else {
        root_entries(ms.drop_last()) + OB_ROOT_ENTRY_OPEN@ + ms.last().name@ + OB_ROOT_ENTRY_CLOSE@
    }
}

/// The root-menu entries are one `<menu id=...-id />` line per menu, in
/// order.
pub proof fn lemma_root_entries(ms: Seq<Menu>)
    ensures
        root_entries(ms) == ms.map_values(
            |m: Menu| OB_ROOT_ENTRY_OPEN@ + m.name@ + OB_ROOT_ENTRY_CLOSE@,
        ).flatten(),
    decreases ms.len(),
{
    let g = |m: Menu| OB_ROOT_ENTRY_OPEN@ + m.name@ + OB_ROOT_ENTRY_CLOSE@;
    if ms.len() == 0 {
        lemma_flatten_map_empty(ms, g);
    } else {
        lemma_root_entries(ms.drop_last());
        lemma_flatten_map_last(ms, g);
        assert(root_entries(ms) == root_entries(ms.drop_last()) + g(ms.last()));
    }
}

/// The JWM application menu document.
pub open spec fn app_jwm_text(m: AppMenu) -> Seq<char> {
    JWM_OPEN@ + menus_jwm(m.menus@) + seq!['\n'] + RELOAD@ + JWM_CLOSE@
}

/// The Openbox menu document: each menu, then a root menu that holds each
/// of them by id and a log-out entry.
pub open spec fn app_openbox_text(m: AppMenu) -> Seq<char> {
    OB_DOC_OPEN@ + menus_openbox(m.menus@) + OB_ROOT_OPEN@ + root_entries(m.menus@) + seq!['\n']
        + OB_EXIT@ + OB_DOC_CLOSE@
}

/// The JWM document holds, inside `<JWM>`, the JWM XML of every category
/// menu in order, then the reload entry.
pub proof fn lemma_app_jwm(m: AppMenu)
    ensures
        app_jwm_text(m) == JWM_OPEN@ + m.menus@.map_values(|s: Menu| menu_jwm(s)).flatten() + seq![
            '\n',
        ] + RELOAD@ + JWM_CLOSE@,
{
    lemma_menus_jwm(m.menus@);
}

/// The Openbox document holds the Openbox XML of every category menu in
/// order, then a root menu with an entry for each of them, in the same
/// order, and the log-out entry.
pub proof fn lemma_app_openbox(m: AppMenu)
    ensures
        app_openbox_text(m) == OB_DOC_OPEN@ + m.menus@.map_values(|s: Menu| menu_openbox(s)).flatten()
            + OB_ROOT_OPEN@ + m.menus@.map_values(
            |s: Menu| OB_ROOT_ENTRY_OPEN@ + s.name@ + OB_ROOT_ENTRY_CLOSE@,
        ).flatten() + seq!['\n'] + OB_EXIT@ + OB_DOC_CLOSE@,
{
    lemma_menus_openbox(m.menus@);
    lemma_root_entries(m.menus@);
}

/// `dir` (empty when unknown) followed by `tail`.
pub open spec fn under(dir: Option<Seq<char>>, tail: Seq<char>) -> Seq<char> {
    match dir {
        Some(d) => d + tail,
        None => tail,
    }
}

/// The views of an optional string.
pub open spec fn opt_view(s: Option<&str>) -> Option<Seq<char>> {
    match s {
        Some(d) => Some(d@),
        None => None,
    }
}

impl AppMenu {
    /// The cache file of the JWM menu, in the XDG cache directory (taken as
    /// empty when none is known).
    pub fn jwm_cache_filename(cache_home: Option<&str>) -> (res: String)
        ensures
            res@ == under(opt_view(cache_home), "/apps-menu"@),
    {
        let mut res = match cache_home {
            Some(d) => String::from_str(d),
            None => String::new(),
        };
        res.append("/apps-menu");
        res
    }

    /// The Openbox menu file, in the XDG config directory (taken as empty
    /// when none is known).
    pub fn openbox_cache_filename(config_home: Option<&str>) -> (res: String)
        ensures
            res@ == under(opt_view(config_home), "/openbox/menu.xml"@),
    {
        let mut res = match config_home {
            Some(d) => String::from_str(d),
            None => String::new(),
        };
        res.append("/openbox/menu.xml");
        res
    }

    /// Make the Openbox menu document.
    pub fn openbox(&self) -> (res: String)
        ensures
            res@ == app_openbox_text(*self),
    {
        let mut return_menu = String::new();
        let mut return_menu_list = String::new();
        for i in 0..self.menus.len()
            invariant
                return_menu@ == menus_openbox(self.menus@.take(i as int)),
                return_menu_list@ == root_entries(self.menus@.take(i as int)),
        {
            let menu = &self.menus[i];
            let s = menu.openbox();
            return_menu.append(s.as_str());
            return_menu_list.append(OB_ROOT_ENTRY_OPEN);
            return_menu_list.append(menu.name.as_str());
            return_menu_list.append(OB_ROOT_ENTRY_CLOSE);
            assert(self.menus@.take(i + 1).drop_last() =~= self.menus@.take(i as int));
        }
        assert(self.menus@.take(self.menus.len() as int) =~= self.menus@);
        let mut res = String::from_str(OB_DOC_OPEN);
        res.append(return_menu.as_str());
        res.append(OB_ROOT_OPEN);
        res.append(return_menu_list.as_str());
        res.append("\n");
        res.append(OB_EXIT);
        res.append(OB_DOC_CLOSE);
        proof {
            reveal_strlit("\n");
            assert("\n"@ =~= seq!['\n']);
        }
        res
    }

    /// Make the JWM menu document.
    pub fn jwm(&self) -> (res: String)
        ensures
            res@ == app_jwm_text(*self),
    {
        let mut return_menu = String::new();
        for i in 0..self.menus.len()
            invariant
                return_menu@ == menus_jwm(self.menus@.take(i as int)),
        {
            let s = self.menus[i].jwm();
            return_menu.append(s.as_str());
            assert(self.menus@.take(i + 1).drop_last() =~= self.menus@.take(i as int));
        }
        assert(self.menus@.take(self.menus.len() as int) =~= self.menus@);
        let mut res = String::from_str(JWM_OPEN);
        res.append(return_menu.as_str());
        res.append("\n");
        res.append(RELOAD);
        res.append(JWM_CLOSE);
        proof {
            reveal_strlit("\n");
            assert("\n"@ =~= seq!['\n']);
        }
        res
    }
}

} // verus!
