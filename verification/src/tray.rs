//! The tray icon and the app menu (shared by the tray and the badge): its entries, what
//! each does, the tooltip and the clicks on the icon.
use vstd::prelude::*;
use crate::text::{append_str, str_eq};

verus! {

/// An entry of the app menu.
pub enum MenuEntry {
    Item { id: &'static str, label: &'static str },
    Separator,
}

/// The app menu, top to bottom.
pub fn app_menu_items() -> (r: Vec<MenuEntry>)
    ensures
        r@.len() == 8,
        r@[0] == (MenuEntry::Item { id: "show_main", label: "打开主界面" }),
        r@[1] == (MenuEntry::Item { id: "settings", label: "功能设置" }),
        r@[2] == (MenuEntry::Item { id: "hosts", label: "Host管理" }),
        r@[3] == (MenuEntry::Item { id: "feedback", label: "意见反馈" }),
        r@[4] == (MenuEntry::Item { id: "plugins", label: "插件管理" }),
        r@[5] == (MenuEntry::Item { id: "about", label: "关于" }),
        r@[6] == MenuEntry::Separator,
        r@[7] == (MenuEntry::Item { id: "quit", label: "退出" }),
{
    let mut v: Vec<MenuEntry> = Vec::new();
    v.push(MenuEntry::Item { id: "show_main", label: "打开主界面" });
    v.push(MenuEntry::Item { id: "settings", label: "功能设置" });
    v.push(MenuEntry::Item { id: "hosts", label: "Host管理" });
    v.push(MenuEntry::Item { id: "feedback", label: "意见反馈" });
    v.push(MenuEntry::Item { id: "plugins", label: "插件管理" });
    v.push(MenuEntry::Item { id: "about", label: "关于" });
    v.push(MenuEntry::Separator);
    v.push(MenuEntry::Item { id: "quit", label: "退出" });
    v
}

/// What a menu entry does.
pub enum MenuAction {
    ShowMain,
    /// Open the feature window with this label.
    ShowFeature(&'static str),
    Quit,
    Nothing,
}

pub fn handle_menu_id(id: &str) -> (r: MenuAction)
    ensures
        id@ == "show_main"@ ==> r is ShowMain,
        id@ == "settings"@ ==> (r matches MenuAction::ShowFeature(l) && l@ == "settings"@),
        id@ == "hosts"@ ==> (r matches MenuAction::ShowFeature(l) && l@ == "hosts"@),
        id@ == "feedback"@ ==> (r matches MenuAction::ShowFeature(l) && l@ == "feedback"@),
        id@ == "plugins"@ ==> (r matches MenuAction::ShowFeature(l) && l@ == "plugins"@),
        id@ == "about"@ ==> (r matches MenuAction::ShowFeature(l) && l@ == "about"@),
        id@ == "quit"@ ==> r is Quit,
        !(id@ == "show_main"@ || id@ == "settings"@ || id@ == "hosts"@ || id@ == "feedback"@
            || id@ == "plugins"@ || id@ == "about"@ || id@ == "quit"@) ==> r is Nothing,
{
    proof {
        reveal_strlit("show_main");
        reveal_strlit("settings");
        reveal_strlit("hosts");
        reveal_strlit("feedback");
        reveal_strlit("plugins");
        reveal_strlit("about");
        reveal_strlit("quit");
        assert("show_main"@.len() == 9 && "settings"@.len() == 8 && "hosts"@.len() == 5);
        assert("feedback"@.len() == 8 && "plugins"@.len() == 7 && "about"@.len() == 5);
        assert("quit"@.len() == 4);
        assert("settings"@[0] != "feedback"@[0]);
        assert("hosts"@[0] != "about"@[0]);
    }
    if str_eq(id, "show_main") {
        MenuAction::ShowMain
    } else if str_eq(id, "settings") {
        MenuAction::ShowFeature("settings")
    } else if str_eq(id, "hosts") {
        MenuAction::ShowFeature("hosts")
    } else if str_eq(id, "feedback") {
        MenuAction::ShowFeature("feedback")
    } else if str_eq(id, "plugins") {
        MenuAction::ShowFeature("plugins")
    } else if str_eq(id, "about") {
        MenuAction::ShowFeature("about")
    } else if str_eq(id, "quit") {
        MenuAction::Quit
    } else {
        MenuAction::Nothing
    }
}

/// The tray tooltip for the running version.
pub fn tray_tooltip(version: &str) -> (r: String)
    ensures
        r@ == "多多解密 v"@ + version@ + "\n左键打开加解密主界面\n中键打开 Host 管理\n右击打开菜单"@,
{
    let mut out = String::from_str("多多解密 v");
    append_str(&mut out, version);
    append_str(&mut out, "\n左键打开加解密主界面\n中键打开 Host 管理\n右击打开菜单");
    out
}

/// A mouse button on the tray icon.
pub enum TrayButton {
    Left,
    Middle,
    Right,
}

/// A released left button opens the main window, a released middle button the hosts
/// window; anything else does nothing.
pub fn tray_click(button: TrayButton, released: bool) -> (r: MenuAction)
    ensures
        (button is Left && released) ==> r is ShowMain,
        (button is Middle && released) ==> (r matches MenuAction::ShowFeature(l) && l@ == "hosts"@),
        !((button is Left || button is Middle) && released) ==> r is Nothing,
{
    if !released {
        return MenuAction::Nothing;
    }
    match button {
        TrayButton::Left => MenuAction::ShowMain,
        TrayButton::Middle => MenuAction::ShowFeature("hosts"),
        TrayButton::Right => MenuAction::Nothing,
    }
}

} // verus!
