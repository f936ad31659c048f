//! Menus and menu items, and their JWM and Openbox XML renderings.

use vstd::prelude::*;

use crate::text::{
    command_of, command_of_action, field_code_at, lemma_command_of, lemma_flatten_map_empty,
    lemma_flatten_map_last,
};

verus! {

/// A menu entry that runs a command.
#[derive(Debug)]
pub struct Item {
    pub name: String,
    pub action: String,
    pub icon: String,
    pub tooltip: String,
}

/// The fields of an [`Item`] as character sequences.
pub struct ItemView {
    pub name: Seq<char>,
    pub action: Seq<char>,
    pub icon: Seq<char>,
    pub tooltip: Seq<char>,
}

impl View for Item {
    type V = ItemView;

    open spec fn view(&self) -> ItemView {
        ItemView {
            name: self.name@,
            action: self.action@,
            icon: self.icon@,
            tooltip: self.tooltip@,
        }
    }
}

/// The fields of a [`Menu`] as character sequences, its items and
/// sub-menus by their views.
pub struct MenuView {
    pub name: Seq<char>,
    pub icon: Seq<char>,
    pub tooltip: Seq<char>,
    pub items: Seq<ItemView>,
    pub menus: Seq<MenuView>,
}

/// The views of a list of items.
pub open spec fn items_view(items: Seq<Item>) -> Seq<ItemView> {
    items.map_values(|it: Item| it@)
}

/// The view of a menu, its sub-menus included.
pub open spec fn menu_view(m: Menu) -> MenuView
    decreases m,
{
    MenuView {
        name: m.name@,
        icon: m.icon@,
        tooltip: m.tooltip@,
        items: items_view(m.items@),
        menus: menus_view(m.menus@),
    }
}

/// The views of a list of menus.
pub open spec fn menus_view(ms: Seq<Menu>) -> Seq<MenuView>
    decreases ms,
{
    if ms.len() == 0 {
        seq![]
    } else {
        menus_view(ms.drop_last()).push(menu_view(ms.last()))
    }
}

impl View for Menu {
    type V = MenuView;

    open spec fn view(&self) -> MenuView {
        menu_view(*self)
    }
}

/// The view of a menu with no name, icon, tooltip, items or sub-menus.
pub open spec fn empty_menu_view() -> MenuView {
    MenuView { name: seq![], icon: seq![], tooltip: seq![], items: seq![], menus: seq![] }
}

/// Adding a menu at the end of a list adds its view at the end of the views.
pub proof fn lemma_menus_view_push(ms: Seq<Menu>, m: Menu)
    ensures
        menus_view(ms.push(m)) == menus_view(ms).push(m@),
{
    assert(ms.push(m).drop_last() =~= ms);
}

/// Adding an item at the end of a list adds its view at the end of the views.
pub proof fn lemma_items_view_push(items: Seq<Item>, it: Item)
    ensures
        items_view(items.push(it)) == items_view(items).push(it@),
{
    assert(items_view(items.push(it)) =~= items_view(items).push(it@));
}

/// A menu: a labelled group of items and sub-menus.
#[derive(Debug)]
pub struct Menu {
    pub name: String,
    pub icon: String,
    pub tooltip: String,
    pub items: Vec<Item>,
    pub menus: Vec<Menu>,
}

pub const OB_ITEM_OPEN: &'static str = "\t<item label=\"";
pub const OB_ITEM_ICON: &'static str = "\" icon=\"";
pub const OB_ITEM_COMMAND: &'static str = "\">\n\t\t<action name=\"Execute\">\n\t\t\t<command>";
pub const OB_ITEM_CLOSE: &'static str = "</command>\n\t\t\t<startupnotify>\n\t\t\t\t<enabled>yes</enabled>\n\t\t\t</startupnotify>\n\t\t</action>\n\t</item>\n";

pub const JWM_ITEM_OPEN: &'static str = "        <Program icon=\"";
pub const JWM_ITEM_TIP_OPEN: &'static str = "      <Program icon=\"";
pub const JWM_LABEL: &'static str = "\" label=\"";
pub const JWM_TOOLTIP: &'static str = "\" tooltip=\"";
pub const JWM_ITEM_BODY: &'static str = "\">";
pub const JWM_ITEM_CLOSE: &'static str = "</Program>\n";

/// Openbox XML of an item.
pub open spec fn item_openbox(it: ItemView) -> Seq<char> {
    OB_ITEM_OPEN@ + it.name + OB_ITEM_ICON@ + it.icon + OB_ITEM_COMMAND@ + command_of(it.action)
        + OB_ITEM_CLOSE@
}

/// JWM XML of an item; the tooltip attribute appears only when it is set.
pub open spec fn item_jwm(it: ItemView) -> Seq<char> {
    if it.tooltip.len() == 0 {
        JWM_ITEM_OPEN@ + it.icon + JWM_LABEL@ + it.name + JWM_ITEM_BODY@ + command_of(it.action)
            + JWM_ITEM_CLOSE@
    } else {
        JWM_ITEM_TIP_OPEN@ + it.icon + JWM_LABEL@ + it.name + JWM_TOOLTIP@ + it.tooltip
            + JWM_ITEM_BODY@ + command_of(it.action) + JWM_ITEM_CLOSE@
    }
}

impl Item {
    /// An item with the given icon, label and command, and no tooltip.
    pub fn new(icon: &str, name: &str, action: &str) -> (res: Item)
        ensures
            res@ == (ItemView { name: name@, action: action@, icon: icon@, tooltip: seq![] }),
    {
        Item {
            name: String::from_str(name),
            action: String::from_str(action),
            icon: String::from_str(icon),
            tooltip: String::new(),
        }
    }

    /// The Openbox XML of this item.
    pub fn openbox(&self) -> (res: String)
        ensures
            res@ == item_openbox(self@),
    {
        let action = command_of_action(self.action.as_str());
        let mut res = String::from_str(OB_ITEM_OPEN);
        res.append(self.name.as_str());
        res.append(OB_ITEM_ICON);
        res.append(self.icon.as_str());
        res.append(OB_ITEM_COMMAND);
        res.append(action.as_str());
        res.append(OB_ITEM_CLOSE);
        res
    }

    /// The JWM XML of this item.
    pub fn jwm(&self) -> (res: String)
        ensures
            res@ == item_jwm(self@),
    {
        let action = command_of_action(self.action.as_str());
        let mut res;
        if self.tooltip.as_str().is_empty() {
            res = String::from_str(JWM_ITEM_OPEN);
            res.append(self.icon.as_str());
            res.append(JWM_LABEL);
            res.append(self.name.as_str());
        } else {
            res = String::from_str(JWM_ITEM_TIP_OPEN);
            res.append(self.icon.as_str());
            res.append(JWM_LABEL);
            res.append(self.name.as_str());
            res.append(JWM_TOOLTIP);
            res.append(self.tooltip.as_str());
        }
        res.append(JWM_ITEM_BODY);
        res.append(action.as_str());
        res.append(JWM_ITEM_CLOSE);
        res
    }
}


pub const OB_MENU_OPEN: &'static str = "<menu id=\"";
pub const OB_MENU_LABEL: &'static str = "-id\" label=\"";
pub const OB_MENU_ICON: &'static str = "\" icon=\"";
pub const OB_MENU_HEAD_END: &'static str = "\">\n";
pub const OB_MENU_CLOSE: &'static str = "</menu>\n";

pub const JWM_MENU_OPEN: &'static str = "   <Menu label=\"";
pub const JWM_MENU_ICON: &'static str = "\" icon=\"";
pub const JWM_MENU_TOOLTIP: &'static str = "\" tooltip=\"";
pub const JWM_MENU_HEAD_END: &'static str = "\" height=\"0\">\n";
pub const JWM_MENU_CLOSE: &'static str = "\n    </Menu>\n";

/// The Openbox XML of a list of items, one after the other.
pub open spec fn items_openbox(items: Seq<Item>) -> Seq<char>
    decreases items.len(),
{
    if items.len() == 0 {
        seq![]
    } else {
        items_openbox(items.drop_last()) + item_openbox(items.last()@)
    }
}

/// The JWM XML of a list of items, one after the other.
pub open spec fn items_jwm(items: Seq<Item>) -> Seq<char>
    decreases items.len(),
{
    if items.len() == 0 {
        seq![]
    } else {
        items_jwm(items.drop_last()) + item_jwm(items.last()@)
    }
}

/// The Openbox XML of a menu: its header, then its items (sub-menus are not
/// part of an Openbox menu), then the closing tag.
pub open spec fn menu_openbox(m: Menu) -> Seq<char> {
    OB_MENU_OPEN@ + m.name@ + OB_MENU_LABEL@ + m.name@ + OB_MENU_ICON@ + m.icon@
        + OB_MENU_HEAD_END@ + items_openbox(m.items@) + OB_MENU_CLOSE@
}

/// The Openbox XML of a list of menus, one after the other.
pub open spec fn menus_openbox(ms: Seq<Menu>) -> Seq<char>
    decreases ms.len(),
{
    if ms.len() == 0 {
        seq![]
    } else {
        menus_openbox(ms.drop_last()) + menu_openbox(ms.last())
    }
}

/// The opening tag of a JWM menu; the tooltip attribute appears only when set.
pub open spec fn menu_jwm_header(m: Menu) -> Seq<char> {
    if m.tooltip@.len() == 0 {
        JWM_MENU_OPEN@ + m.name@ + JWM_MENU_ICON@ + m.icon@ + JWM_MENU_HEAD_END@
    } else {
        JWM_MENU_OPEN@ + m.name@ + JWM_MENU_ICON@ + m.icon@ + JWM_MENU_TOOLTIP@ + m.tooltip@
            + JWM_MENU_HEAD_END@
    }
}

/// The JWM XML of a menu: its header, its sub-menus, its items, the closing tag.
pub open spec fn menu_jwm(m: Menu) -> Seq<char>
    decreases m,
{
    menu_jwm_header(m) + menus_jwm(m.menus@) + items_jwm(m.items@) + JWM_MENU_CLOSE@
}

/// The JWM XML of a list of menus, one after the other.
pub open spec fn menus_jwm(ms: Seq<Menu>) -> Seq<char>
    decreases ms,
{
    if ms.len() == 0 {
        seq![]
    } else {
        menus_jwm(ms.drop_last()) + menu_jwm(ms.last())
    }
}

/// The Openbox XML of a list of items is the `<item>` of each of them, in
/// order.
pub proof fn lemma_items_openbox(items: Seq<Item>)
    ensures
        items_openbox(items) == items.map_values(|it: Item| item_openbox(it@)).flatten(),
    decreases items.len(),
{
    if items.len() == 0 {
        lemma_flatten_map_empty(items, |it: Item| item_openbox(it@));
    } else {
        lemma_items_openbox(items.drop_last());
        lemma_flatten_map_last(items, |it: Item| item_openbox(it@));
    }
}

/// The JWM XML of a list of items is the `<Program>` line of each of them,
/// in order.
pub proof fn lemma_items_jwm(items: Seq<Item>)
    ensures
        items_jwm(items) == items.map_values(|it: Item| item_jwm(it@)).flatten(),
    decreases items.len(),
{
    if items.len() == 0 {
        lemma_flatten_map_empty(items, |it: Item| item_jwm(it@));
    } else {
        lemma_items_jwm(items.drop_last());
        lemma_flatten_map_last(items, |it: Item| item_jwm(it@));
    }
}

/// The JWM XML of a list of menus is the JWM XML of each of them, in order.
pub proof fn lemma_menus_jwm(ms: Seq<Menu>)
    ensures
        menus_jwm(ms) == ms.map_values(|m: Menu| menu_jwm(m)).flatten(),
    decreases ms.len(),
{
    if ms.len() == 0 {
        lemma_flatten_map_empty(ms, |m: Menu| menu_jwm(m));
    } else {
        lemma_menus_jwm(ms.drop_last());
        lemma_flatten_map_last(ms, |m: Menu| menu_jwm(m));
    }
}

/// The Openbox XML of a list of menus is the Openbox XML of each of them,
/// in order.
pub proof fn lemma_menus_openbox(ms: Seq<Menu>)
    ensures
        menus_openbox(ms) == ms.map_values(|m: Menu| menu_openbox(m)).flatten(),
    decreases ms.len(),
{
    if ms.len() == 0 {
        lemma_flatten_map_empty(ms, |m: Menu| menu_openbox(m));
    } else {
        lemma_menus_openbox(ms.drop_last());
        lemma_flatten_map_last(ms, |m: Menu| menu_openbox(m));
    }
}

/// The command an item runs is its `Exec` line up to its last `" %"`: a
/// prefix of the line that is the whole line exactly when the line holds no
/// `" %"`, and otherwise stops where the last `" %"` starts.
pub open spec fn is_command_of(action: Seq<char>, c: Seq<char>) -> bool {
    &&& c.len() <= action.len()
    &&& action.take(c.len() as int) == c
    &&& (c.len() == action.len()) <==> (forall|p: int|
        #![trigger action[p]]
        !(0 <= p && p + 1 < action.len() && action[p] == ' ' && action[p + 1] == '%'))
    &&& c.len() < action.len() ==> {
        &&& c.len() + 1 < action.len()
        &&& action[c.len() as int] == ' '
        &&& action[c.len() + 1int] == '%'
        &&& forall|q: int|
            #![trigger action[q]]
            c.len() < q && q + 1 < action.len() ==> !(action[q] == ' ' && action[q + 1] == '%')
    }
}

/// Such a command exists, and only one: it is fixed by the `Exec` line.
pub proof fn lemma_is_command_of(action: Seq<char>, c: Seq<char>)
    ensures
        is_command_of(action, command_of(action)),
        is_command_of(action, c) ==> c == command_of(action),
{
    lemma_command_of(action);
    let d = command_of(action);
    let n = action.len();
    if d.len() < n {
        assert(field_code_at(action, d.len() as int));
        assert forall|q: int| #![trigger action[q]] d.len() < q && q + 1 < n implies !(action[q] == ' '
            && action[q + 1] == '%') by {
            assert(!field_code_at(action, q));
        }
        assert(!(forall|p: int|
            #![trigger action[p]]
            !(0 <= p && p + 1 < n && action[p] == ' ' && action[p + 1] == '%'))) by {
            assert(action[d.len() as int] == ' ');
        }
    } else {
        assert forall|p: int| #![trigger action[p]] !(0 <= p && p + 1 < n && action[p] == ' '
            && action[p + 1] == '%') by {
            if 0 <= p && p + 1 < n && action[p] == ' ' && action[p + 1] == '%' {
                assert(field_code_at(action, p));
            }
        }
    }
    assert(is_command_of(action, d));
    if is_command_of(action, c) {
        if c.len() < d.len() {
            assert(action[d.len() as int] == ' ' || d.len() == n);
            if d.len() < n {
                assert(action[d.len() as int] == ' ');
            } else {
                assert(action[c.len() as int] == ' ');
            }
        } else if d.len() < c.len() {
            if c.len() < n {
                assert(action[c.len() as int] == ' ');
            } else {
                assert(action[d.len() as int] == ' ');
            }
        }
        assert(c.len() == d.len());
    }
}

/// An item's Openbox XML is its `<item>` element with its label and icon,
/// running the command of its `Exec` line.
pub proof fn lemma_item_openbox(it: ItemView)
    ensures
        exists|c: Seq<char>|
            is_command_of(it.action, c) && item_openbox(it) == OB_ITEM_OPEN@ + it.name
                + OB_ITEM_ICON@ + it.icon + OB_ITEM_COMMAND@ + c + OB_ITEM_CLOSE@,
{
    lemma_is_command_of(it.action, seq![]);
    let c = command_of(it.action);
    assert(is_command_of(it.action, c));
}

/// An item's JWM line is its `<Program>` element with its icon and label,
/// and its tooltip only when it has one, running the command of its `Exec`
/// line.
pub proof fn lemma_item_jwm(it: ItemView)
    ensures
        exists|c: Seq<char>|
            is_command_of(it.action, c) && item_jwm(it) == if it.tooltip.len() == 0 {
                JWM_ITEM_OPEN@ + it.icon + JWM_LABEL@ + it.name + JWM_ITEM_BODY@ + c
                    + JWM_ITEM_CLOSE@
            } else {
                JWM_ITEM_TIP_OPEN@ + it.icon + JWM_LABEL@ + it.name + JWM_TOOLTIP@ + it.tooltip
                    + JWM_ITEM_BODY@ + c + JWM_ITEM_CLOSE@
            },
{
    lemma_is_command_of(it.action, seq![]);
    let c = command_of(it.action);
    assert(is_command_of(it.action, c));
}

/// A menu's JWM XML is its opening tag (with the tooltip only when it has
/// one), the JWM XML of each of its sub-menus in order, the line of each of
/// its items in order, and the closing tag.
pub proof fn lemma_menu_jwm(m: Menu)
    ensures
        menu_jwm(m) == (if m.tooltip@.len() == 0 {
            JWM_MENU_OPEN@ + m.name@ + JWM_MENU_ICON@ + m.icon@ + JWM_MENU_HEAD_END@
        } else {
            JWM_MENU_OPEN@ + m.name@ + JWM_MENU_ICON@ + m.icon@ + JWM_MENU_TOOLTIP@ + m.tooltip@
                + JWM_MENU_HEAD_END@
        }) + m.menus@.map_values(|s: Menu| menu_jwm(s)).flatten() + m.items@.map_values(
            |it: Item| item_jwm(it@),
        ).flatten() + JWM_MENU_CLOSE@,
{
    lemma_menus_jwm(m.menus@);
    lemma_items_jwm(m.items@);
}

/// A menu's Openbox XML is its opening tag with its id, label and icon, the
/// `<item>` of each of its items in order, and the closing tag.
pub proof fn lemma_menu_openbox(m: Menu)
    ensures
        menu_openbox(m) == OB_MENU_OPEN@ + m.name@ + OB_MENU_LABEL@ + m.name@ + OB_MENU_ICON@
            + m.icon@ + OB_MENU_HEAD_END@ + m.items@.map_values(|it: Item| item_openbox(it@)).flatten()
            + OB_MENU_CLOSE@,
{
    lemma_items_openbox(m.items@);
}

/// Appends the Openbox XML of `items` to `res`.
fn push_items_openbox(res: &mut String, items: &Vec<Item>)
    ensures
        final(res)@ == old(res)@ + items_openbox(items@),
{
    let ghost start = res@;
    for i in 0..items.len()
        invariant
            res@ == start + items_openbox(items@.take(i as int)),
    {
        let s = items[i].openbox();
        res.append(s.as_str());
        assert(items@.take(i + 1).drop_last() =~= items@.take(i as int));
    }
    assert(items@.take(items.len() as int) =~= items@);
}

/// Appends the JWM XML of `items` to `res`.
fn push_items_jwm(res: &mut String, items: &Vec<Item>)
    ensures
        final(res)@ == old(res)@ + items_jwm(items@),
{
    let ghost start = res@;
    for i in 0..items.len()
        invariant
            res@ == start + items_jwm(items@.take(i as int)),
    {
        let s = items[i].jwm();
        res.append(s.as_str());
        assert(items@.take(i + 1).drop_last() =~= items@.take(i as int));
    }
    assert(items@.take(items.len() as int) =~= items@);
}

impl Clone for Item {
    /// A copy of the item.
    fn clone(&self) -> (res: Item)
        ensures
            res@ == self@,
    {
        Item {
            name: self.name.clone(),
            action: self.action.clone(),
            icon: self.icon.clone(),
            tooltip: self.tooltip.clone(),
        }
    }
}

impl Clone for Menu {
    /// A copy of the menu, its items and sub-menus copied too.
    fn clone(&self) -> (res: Menu)
        ensures
            res@ == self@,
        decreases self,
    {
        let mut items: Vec<Item> = Vec::new();
        for i in 0..self.items.len()
            invariant
                items_view(items@) == items_view(self.items@.take(i as int)),
        {
            let it = self.items[i].clone();
            proof {
                lemma_items_view_push(items@, it);
                assert(items_view(self.items@.take(i + 1)) =~= items_view(self.items@.take(i as int)).push(self.items@[i as int]@));
            }
            items.push(it);
        }
        assert(self.items@.take(self.items.len() as int) =~= self.items@);
        let mut menus: Vec<Menu> = Vec::new();
        for i in 0..self.menus.len()
            invariant
                menus_view(menus@) == menus_view(self.menus@.take(i as int)),
        {
            assert(decreases_to!(*self => self.menus@[i as int]));
            let m = self.menus[i].clone();
            proof {
                lemma_menus_view_push(menus@, m);
                assert(self.menus@.take(i + 1).drop_last() =~= self.menus@.take(i as int));
            }
            menus.push(m);
        }
        assert(self.menus@.take(self.menus.len() as int) =~= self.menus@);
        Menu {
            name: self.name.clone(),
            icon: self.icon.clone(),
            tooltip: self.tooltip.clone(),
            items,
            menus,
        }
    }
}

impl Default for Menu {
    /// The empty menu.
    fn default() -> (res: Menu)
        ensures
            res@ == empty_menu_view(),
            res.items@.len() == 0,
            res.menus@.len() == 0,
    {
        Menu::empty()
    }
}

impl Menu {
    /// A menu with no name, icon, tooltip, items or sub-menus.
    pub fn empty() -> (res: Menu)
        ensures
            res@ == empty_menu_view(),
            res.items@.len() == 0,
            res.menus@.len() == 0,
    {
        let res = Menu {
            name: String::new(),
            icon: String::new(),
            tooltip: String::new(),
            items: Vec::new(),
            menus: Vec::new(),
        };
        assert(items_view(res.items@) =~= seq![]);
        res
    }

    /// The Openbox XML of this menu.
    pub fn openbox(&self) -> (res: String)
        ensures
            res@ == menu_openbox(*self),
    {
        let mut res = String::from_str(OB_MENU_OPEN);
        res.append(self.name.as_str());
        res.append(OB_MENU_LABEL);
        res.append(self.name.as_str());
        res.append(OB_MENU_ICON);
        res.append(self.icon.as_str());
        res.append(OB_MENU_HEAD_END);
        push_items_openbox(&mut res, &self.items);
        res.append(OB_MENU_CLOSE);
        res
    }

    /// The JWM XML of this menu, its sub-menus included.
    pub fn jwm(&self) -> (res: String)
        ensures
            res@ == menu_jwm(*self),
        decreases self,
    {
        let mut res = String::from_str(JWM_MENU_OPEN);
        res.append(self.name.as_str());
        res.append(JWM_MENU_ICON);
        res.append(self.icon.as_str());
        if !self.tooltip.as_str().is_empty() {
            res.append(JWM_MENU_TOOLTIP);
            res.append(self.tooltip.as_str());
        }
        res.append(JWM_MENU_HEAD_END);
        let ghost head = res@;
        for i in 0..self.menus.len()
            invariant
                res@ == head + menus_jwm(self.menus@.take(i as int)),
        {
            assert(decreases_to!(*self => self.menus@[i as int]));
            let s = self.menus[i].jwm();
            res.append(s.as_str());
            assert(self.menus@.take(i + 1).drop_last() =~= self.menus@.take(i as int));
        }
        assert(self.menus@.take(self.menus.len() as int) =~= self.menus@);
        push_items_jwm(&mut res, &self.items);
        res.append(JWM_MENU_CLOSE);
        res
    }
}

} // verus!
