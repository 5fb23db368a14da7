//! The tray menu: up to five recently hidden Pins to restore, then the
//! manager, "hide all", the update check and quit; and what a click on an
//! item means. Building the native menu is the caller's.
use vstd::prelude::*;
use crate::storage::PinMeta;
use crate::updater::UpdateCheckResult;
use crate::text::{chars_of, is_prefix, joined, owned, push_char, starts_with_text, string_of, text_eq};

verus! {

/// How many hidden Pins the tray offers to restore.
pub const RECENT_LIMIT: usize = 5;

/// Longest menu title, in characters.
pub const TITLE_MAX_CHARS: usize = 30;

/// The id of the "check for updates" item.
pub const MENU_CHECK_UPDATE: &'static str = "check_update";

/// `s` cut to `max` characters, with `…` appended when anything was cut.
pub open spec fn truncated(s: Seq<char>, max: nat) -> Seq<char> {
    if s.len() <= max {
        s
    } else {
        s.take(max as int).push('…')
    }
}

/// Cuts a menu title to `max_chars` characters (not bytes), marking the cut
/// with `…`.
pub fn truncate(s: &str, max_chars: usize) -> (r: String)
    ensures
        r@ == truncated(s@, max_chars as nat),
{
    let v = chars_of(s);
    if v.len() <= max_chars {
        owned(s)
    } else {
        let mut r = string_of(&v, 0, max_chars);
        push_char(&mut r, '…');
        proof {
            assert(v@.subrange(0, max_chars as int) =~= s@.take(max_chars as int));
        }
        r
    }
}

/// The label of the update item: with the newest version when a fresh
/// cached one is known.
pub fn build_update_label(cached_latest: Option<String>) -> (r: String)
    ensures
        match cached_latest {
            Some(v) => r@ == "检查更新（最新 v"@ + v@ + "）"@,
            None => r@ == "检查更新"@,
        },
{
    match cached_latest {
        Some(v) => {
            let mut r = joined("检查更新（最新 v", v.as_str());
            r.append("）");
            r
        },
        None => owned("检查更新"),
    }
}

/// One entry of the tray menu.
#[derive(Debug)]
pub enum MenuEntry {
    Item { id: String, label: String },
    Separator,
}

pub open spec fn item_is(e: MenuEntry, id: Seq<char>, label: Seq<char>) -> bool {
    e matches MenuEntry::Item { id: i, label: l } && i@ == id && l@ == label
}

/// The tray menu for the recently hidden Pins `recent` (as listed, most
/// recent first) and the update label: one item per Pin (id = pin id,
/// label = title cut to 30 characters) and a separator when there are
/// any; then the manager, hide all, the update check, a separator and quit.
pub fn tray_menu(recent: &Vec<PinMeta>, update_label: String) -> (r: Vec<MenuEntry>)
    ensures
        ({
            let n: int = recent@.len() as int;
            let base: int = if n > 0 { n + 1int } else { 0int };
            &&& r@.len() == base + 5
            &&& forall|j: int| 0 <= j < n ==> item_is(#[trigger] r@[j], recent@[j].pin_id@, truncated(recent@[j].title@, 30))
            &&& n > 0 ==> r@[n as int] is Separator
            &&& item_is(r@[base], "open_manager"@, "打开管理界面"@)
            &&& item_is(r@[base + 1], "hide_all"@, "隐藏全部 Pin"@)
            &&& item_is(r@[base + 2], "check_update"@, update_label@)
            &&& r@[base + 3] is Separator
            &&& item_is(r@[base + 4], "quit"@, "退出 Agent Pin"@)
        }),
{
    let mut r: Vec<MenuEntry> = Vec::new();
    let mut i: usize = 0;
    while i < recent.len()
        invariant
            i <= recent@.len(),
            r@.len() == i,
            forall|j: int| 0 <= j < i ==> item_is(#[trigger] r@[j], recent@[j].pin_id@, truncated(recent@[j].title@, 30)),
        decreases recent.len() - i,
    {
        let label = truncate(recent[i].title.as_str(), TITLE_MAX_CHARS);
        r.push(MenuEntry::Item { id: recent[i].pin_id.clone(), label });
        i += 1;
    }
    if recent.len() > 0 {
        r.push(MenuEntry::Separator);
    }
    r.push(MenuEntry::Item { id: owned("open_manager"), label: owned("打开管理界面") });
    r.push(MenuEntry::Item { id: owned("hide_all"), label: owned("隐藏全部 Pin") });
    r.push(MenuEntry::Item { id: owned(MENU_CHECK_UPDATE), label: update_label });
    r.push(MenuEntry::Separator);
    r.push(MenuEntry::Item { id: owned("quit"), label: owned("退出 Agent Pin") });
    r
}

/// What a click on a tray item asks for.
#[derive(Debug)]
pub enum MenuAction {
    Quit,
    OpenManager,
    HideAll,
    CheckUpdate,
    /// Restore a recently hidden Pin.
    ShowPin(String),
    /// An unknown id: nothing happens.
    Ignore,
}

pub open spec fn action_of(id: Seq<char>) -> MenuAction {
    if id == "quit"@ {
        MenuAction::Quit
    } else if id == "open_manager"@ {
        MenuAction::OpenManager
    } else if id == "hide_all"@ {
        MenuAction::HideAll
    } else if id == "check_update"@ {
        MenuAction::CheckUpdate
    } else {
        MenuAction::Ignore
    }
}

/// The action of the item `id`; ids starting with `pin_` restore that Pin.
pub fn menu_action(id: &str) -> (r: MenuAction)
    ensures
        match action_of(id@) {
            MenuAction::Ignore => if is_prefix("pin_"@, id@) {
                r matches MenuAction::ShowPin(p) && p@ == id@
            } else {
                r is Ignore
            },
            a => r == a,
        },
{
    if text_eq(id, "quit") {
        MenuAction::Quit
    } else if text_eq(id, "open_manager") {
        MenuAction::OpenManager
    } else if text_eq(id, "hide_all") {
        MenuAction::HideAll
    } else if text_eq(id, MENU_CHECK_UPDATE) {
        MenuAction::CheckUpdate
    } else if starts_with_text(id, "pin_") {
        MenuAction::ShowPin(owned(id))
    } else {
        MenuAction::Ignore
    }
}

/// The text of the dialog after a manual update check.
pub fn update_dialog_text(check: &UpdateCheckResult) -> (r: String)
    ensures
        check.has_update ==> r@ == "发现新版本 v"@ + check.latest_version@ + "\n当前版本 v"@
            + check.current_version@ + "\n\n点击确定打开下载页面。"@,
        !check.has_update ==> r@ == "已是最新版本 v"@ + check.current_version@,
{
    if check.has_update {
        let mut r = joined("发现新版本 v", check.latest_version.as_str());
        r.append("\n当前版本 v");
        r.append(check.current_version.as_str());
        r.append("\n\n点击确定打开下载页面。");
        r
    } else {
        joined("已是最新版本 v", check.current_version.as_str())
    }
}

} // verus!
