//! Engine types, context menus and per-host engine preferences.

use vstd::prelude::*;
use vstd::string::StringExecFns;

use crate::group::GroupId;
use crate::option_menu::OptionMenuItem;
use crate::text::string_views;

verus! {

/// Browser engine backend.
#[derive(PartialEq, Eq, Structural, Copy, Clone, Debug)]
pub enum EngineType {
    WebKit,
    Servo,
    Dummy,
}

/// Name under which an engine type is stored; the dummy engine is never stored.
pub open spec fn engine_storage_name(t: EngineType) -> Seq<char> {
    match t {
        EngineType::WebKit => "webkit"@,
        EngineType::Servo => "servo"@,
        EngineType::Dummy => Seq::empty(),
    }
}

/// Engine type stored under a name, if any.
pub open spec fn engine_from_storage_name(name: Seq<char>) -> Option<EngineType> {
    if name == "webkit"@ {
        Some(EngineType::WebKit)
    } else if name == "servo"@ {
        Some(EngineType::Servo)
    } else {
        None
    }
}

/// Storing an engine type and reading the stored name back gives the same
/// engine type.
pub proof fn law_engine_storage_round_trip(t: EngineType)
    requires
        t != EngineType::Dummy,
    ensures
        engine_from_storage_name(engine_storage_name(t)) == Some(t),
{
    reveal_strlit("webkit");
    reveal_strlit("servo");
    assert("webkit"@ != "servo"@) by {
        assert("webkit"@[0] != "servo"@[0]);
    }
}

impl EngineType {
    /// Name under which the engine type is stored.
    pub fn storage_name(&self) -> (name: &'static str)
        requires
            *self != EngineType::Dummy,
        ensures
            name@ == engine_storage_name(*self),
    {
        match self {
            EngineType::WebKit => "webkit",
            EngineType::Servo => "servo",
            EngineType::Dummy => "",
        }
    }

    /// Engine type stored under `name`.
    pub fn from_storage_name(name: &str) -> (t: Option<EngineType>)
        ensures
            t == engine_from_storage_name(name@),
    {
        let owned = name.to_owned();
        if owned == "webkit".to_owned() {
            Some(EngineType::WebKit)
        } else if owned == "servo".to_owned() {
            Some(EngineType::Servo)
        } else {
            None
        }
    }
}


/// Properties of the item a context menu was created for.
#[derive(PartialEq, Eq, Structural, Copy, Clone, Debug)]
pub struct ContextMenuTargetFlags {
    pub link: bool,
    pub media: bool,
    pub editable: bool,
}

impl ContextMenuTargetFlags {
    /// No flag set.
    pub fn empty() -> (f: Self)
        ensures
            f == (ContextMenuTargetFlags { link: false, media: false, editable: false }),
    {
        ContextMenuTargetFlags { link: false, media: false, editable: false }
    }

    /// The link flag alone.
    pub fn link() -> (f: Self)
        ensures
            f == (ContextMenuTargetFlags { link: true, media: false, editable: false }),
    {
        ContextMenuTargetFlags { link: true, media: false, editable: false }
    }

    /// The media flag alone.
    pub fn media() -> (f: Self)
        ensures
            f == (ContextMenuTargetFlags { link: false, media: true, editable: false }),
    {
        ContextMenuTargetFlags { link: false, media: true, editable: false }
    }

    /// The editable flag alone.
    pub fn editable() -> (f: Self)
        ensures
            f == (ContextMenuTargetFlags { link: false, media: false, editable: true }),
    {
        ContextMenuTargetFlags { link: false, media: false, editable: true }
    }

    /// Whether no flag is set.
    pub fn is_empty(&self) -> (r: bool)
        ensures
            r == (!self.link && !self.media && !self.editable),
    {
        !self.link && !self.media && !self.editable
    }

    /// Whether every flag of `other` is set.
    pub fn contains(&self, other: ContextMenuTargetFlags) -> (r: bool)
        ensures
            r == ((other.link ==> self.link) && (other.media ==> self.media) && (other.editable
                ==> self.editable)),
    {
        (!other.link || self.link) && (!other.media || self.media) && (!other.editable
            || self.editable)
    }

    /// Whether some flag of `other` is set.
    pub fn intersects(&self, other: ContextMenuTargetFlags) -> (r: bool)
        ensures
            r == ((other.link && self.link) || (other.media && self.media) || (other.editable
                && self.editable)),
    {
        (other.link && self.link) || (other.media && self.media) || (other.editable
            && self.editable)
    }

    /// Flags set in either.
    pub fn union(&self, other: ContextMenuTargetFlags) -> (r: Self)
        ensures
            r == (ContextMenuTargetFlags {
                link: self.link || other.link,
                media: self.media || other.media,
                editable: self.editable || other.editable,
            }),
    {
        ContextMenuTargetFlags {
            link: self.link || other.link,
            media: self.media || other.media,
            editable: self.editable || other.editable,
        }
    }

    /// Set or clear the flags of `other`.
    pub fn set(&mut self, other: ContextMenuTargetFlags, value: bool)
        ensures
            final(self).link == (if other.link { value } else { old(self).link }),
            final(self).media == (if other.media { value } else { old(self).media }),
            final(self).editable == (if other.editable { value } else { old(self).editable }),
    {
        if other.link {
            self.link = value;
        }
        if other.media {
            self.media = value;
        }
        if other.editable {
            self.editable = value;
        }
    }
}

/// Custom context menu item based on a hit test.
#[derive(PartialEq, Eq, Structural, Copy, Clone, Debug)]
pub enum ContextMenuItem {
    AddCookieException,
    RemoveCookieException,
    ReloadInWebKit,
    ReloadInServo,
    Reload,
    OpenInNewTab,
    OpenInNewWindow,
    CopyLink,
    Paste,
    Search,
}

/// Label shown for a context menu item.
pub open spec fn item_label(item: ContextMenuItem) -> Seq<char> {
    match item {
        ContextMenuItem::AddCookieException => "Add Cookie Exception"@,
        ContextMenuItem::RemoveCookieException => "Remove Cookie Exception"@,
        ContextMenuItem::ReloadInWebKit => "Reload in WebKit"@,
        ContextMenuItem::ReloadInServo => "Reload in Servo"@,
        ContextMenuItem::Reload => "Reload"@,
        ContextMenuItem::OpenInNewTab => "Open in New Tab"@,
        ContextMenuItem::OpenInNewWindow => "Open in New Window"@,
        ContextMenuItem::CopyLink => "Copy Link"@,
        ContextMenuItem::Paste => "Paste"@,
        ContextMenuItem::Search => "Search Page"@,
    }
}

impl ContextMenuItem {
    /// Label shown for the item.
    pub fn label(&self) -> (l: &'static str)
        ensures
            l@ == item_label(*self),
    {
        match self {
            ContextMenuItem::AddCookieException => "Add Cookie Exception",
            ContextMenuItem::RemoveCookieException => "Remove Cookie Exception",
            ContextMenuItem::ReloadInWebKit => "Reload in WebKit",
            ContextMenuItem::ReloadInServo => "Reload in Servo",
            ContextMenuItem::Reload => "Reload",
            ContextMenuItem::OpenInNewTab => "Open in New Tab",
            ContextMenuItem::OpenInNewWindow => "Open in New Window",
            ContextMenuItem::CopyLink => "Copy Link",
            ContextMenuItem::Paste => "Paste",
            ContextMenuItem::Search => "Search Page",
        }
    }
}


/// Host of a URL, as the `url` crate parses it: `None` where the text is not
/// a valid absolute URL or the URL has no host.
pub uninterp spec fn url_host(url: Seq<char>) -> Option<Seq<char>>;

/// View of an optional string.
pub open spec fn opt_view(o: Option<String>) -> Option<Seq<char>> {
    match o {
        Some(s) => Some(s@),
        None => None,
    }
}

/// Host of `url`, by `url::Url::parse` followed by `Url::host_str`.
///
/// Trusted: the result is what the `url` crate computes for the text, named
/// `url_host`; nothing more is claimed of it.
#[verifier::external_body]
fn parse_url_host(url: &str) -> (host: Option<String>)
    ensures
        opt_view(host) == url_host(url@),
{
    match url::Url::parse(url) {
        Ok(parsed) => match parsed.host_str() {
            Some(host) => Some(host.to_string()),
            None => None,
        },
        Err(_) => None,
    }
}

/// Whether a list of strings holds `s`.
pub(crate) fn contains_string(list: &Vec<String>, s: &String) -> (r: bool)
    ensures
        r == string_views(list@).contains(s@),
{
    let mut i: usize = 0;
    while i < list.len()
        invariant
            i <= list.len(),
            forall|j: int| 0 <= j < i ==> list@[j]@ != s@,
        decreases list.len() - i,
    {
        if list[i] == *s {
            assert(string_views(list@)[i as int] == s@);
            return true;
        }
        i = i + 1;
    }
    assert forall|j: int| 0 <= j < string_views(list@).len() implies string_views(list@)[j]
        != s@ by {
        assert(string_views(list@)[j] == list@[j]@);
    }
    false
}

/// Whether a flag set has no flag.
pub open spec fn no_flags(f: ContextMenuTargetFlags) -> bool {
    !f.link && !f.media && !f.editable
}

/// Abstract state of a context menu.
pub struct ContextMenuView {
    pub target_flags: ContextMenuTargetFlags,
    pub has_cookie_exception: bool,
    pub target_url: Option<Seq<char>>,
    pub engine_type: EngineType,
    pub host: Option<Seq<char>>,
}

/// Browser engine context menu.
pub struct ContextMenu {
    target_flags: ContextMenuTargetFlags,
    has_cookie_exception: bool,
    target_url: Option<String>,
    engine_type: EngineType,
    host: Option<String>,
}

impl View for ContextMenu {
    type V = ContextMenuView;

    closed spec fn view(&self) -> ContextMenuView {
        ContextMenuView {
            target_flags: self.target_flags,
            has_cookie_exception: self.has_cookie_exception,
            target_url: opt_view(self.target_url),
            engine_type: self.engine_type,
            host: opt_view(self.host),
        }
    }
}

/// Menu built for a target: the page host is kept only for an untargeted
/// menu, and it has a cookie exception when the host is whitelisted.
pub open spec fn menu_view(
    engine_type: EngineType,
    target_flags: ContextMenuTargetFlags,
    host: Option<Seq<char>>,
    cookie_hosts: Seq<Seq<char>>,
    target_url: Option<Seq<char>>,
) -> ContextMenuView {
    let host = if no_flags(target_flags) {
        host
    } else {
        None
    };
    ContextMenuView {
        target_flags,
        has_cookie_exception: host matches Some(h) && cookie_hosts.contains(h),
        target_url,
        engine_type,
        host,
    }
}

/// Item that reloads the page in the other engine.
pub open spec fn switch_item(t: EngineType) -> ContextMenuItem {
    match t {
        EngineType::Servo => ContextMenuItem::ReloadInWebKit,
        _ => ContextMenuItem::ReloadInServo,
    }
}

/// Items shown only without a targeted element.
pub open spec fn page_items(m: ContextMenuView) -> Seq<ContextMenuItem> {
    if no_flags(m.target_flags) {
        let cookie = if m.has_cookie_exception {
            ContextMenuItem::RemoveCookieException
        } else {
            ContextMenuItem::AddCookieException
        };
        if m.engine_type == EngineType::WebKit {
            seq![cookie, ContextMenuItem::Search]
        } else {
            seq![cookie]
        }
    } else {
        Seq::empty()
    }
}

/// Items of a menu, in order.
pub open spec fn menu_items(m: ContextMenuView) -> Seq<ContextMenuItem> {
    let targeted = if m.target_flags.link || m.target_flags.media {
        seq![ContextMenuItem::CopyLink, ContextMenuItem::OpenInNewWindow, ContextMenuItem::OpenInNewTab]
    } else {
        Seq::empty()
    };
    let editable = if m.target_flags.editable {
        seq![ContextMenuItem::Paste]
    } else {
        Seq::empty()
    };
    page_items(m) + seq![ContextMenuItem::Reload, switch_item(m.engine_type)] + targeted + editable
}

/// Position of the item that reloads the page in the other engine.
pub open spec fn switch_index(m: ContextMenuView) -> int {
    page_items(m).len() as int + 1
}

impl ContextMenu {
    /// Menu for a target, with the page's host given.
    pub fn with_host(
        engine_type: EngineType,
        target_flags: ContextMenuTargetFlags,
        host: Option<String>,
        cookie_hosts: &Vec<String>,
        target_url: Option<String>,
    ) -> (m: Self)
        ensures
            m@ == menu_view(
                engine_type,
                target_flags,
                opt_view(host),
                string_views(cookie_hosts@),
                opt_view(target_url),
            ),
    {
        let (host, has_cookie_exception) = if target_flags.is_empty() {
            match host {
                Some(h) => {
                    let whitelisted = contains_string(cookie_hosts, &h);
                    (Some(h), whitelisted)
                },
                None => (None, false),
            }
        } else {
            (None, false)
        };
        ContextMenu { target_flags, has_cookie_exception, target_url, engine_type, host }
    }

    /// Menu for a target on the page at `engine_url`; `cookie_hosts` are the
    /// hosts whose cookies are persisted.
    pub fn new(
        engine_type: EngineType,
        target_flags: ContextMenuTargetFlags,
        cookie_hosts: &Vec<String>,
        engine_url: &str,
        target_url: Option<String>,
    ) -> (m: Self)
        ensures
            m@ == menu_view(
                engine_type,
                target_flags,
                url_host(engine_url@),
                string_views(cookie_hosts@),
                opt_view(target_url),
            ),
    {
        let host = if target_flags.is_empty() {
            parse_url_host(engine_url)
        } else {
            None
        };
        Self::with_host(engine_type, target_flags, host, cookie_hosts, target_url)
    }

    /// Number of items in the menu.
    pub fn len(&self) -> (n: u32)
        ensures
            n == menu_items(self@).len(),
    {
        let mut n_items: u32 = 0;

        // Only show these entries without any targeted element.
        if self.target_flags.is_empty() {
            if self.engine_type == EngineType::WebKit {
                n_items += 1;
            }
            n_items += 1;
        }

        n_items += 2;

        if self.target_flags.intersects(ContextMenuTargetFlags::link().union(ContextMenuTargetFlags::media())) {
            n_items += 3;
        }

        if self.target_flags.contains(ContextMenuTargetFlags::editable()) {
            n_items += 1;
        }

        n_items
    }

    /// Item at `index`, if the menu has that many items.
    pub fn item(&self, index: u32) -> (item: Option<ContextMenuItem>)
        requires
            self@.engine_type == EngineType::Dummy ==> index != switch_index(self@),
        ensures
            item == (if index < menu_items(self@).len() {
                Some(menu_items(self@)[index as int])
            } else {
                None
            }),
    {
        let ghost orig = index;
        let ghost items = menu_items(self@);
        let ghost page = page_items(self@);
        let mut index = index;

        // Only show these entries without any targeted element.
        if self.target_flags.is_empty() {
            if index == 0 {
                if self.has_cookie_exception {
                    return Some(ContextMenuItem::RemoveCookieException);
                }
                return Some(ContextMenuItem::AddCookieException);
            }
            if index == 1 && self.engine_type == EngineType::WebKit {
                return Some(ContextMenuItem::Search);
            }
            if self.engine_type == EngineType::WebKit {
                index -= 1;
            }
            index -= 1;
        }
        assert(index + page.len() == orig);

        if index == 0 {
            return Some(ContextMenuItem::Reload);
        }
        if index == 1 {
            return match self.engine_type {
                EngineType::Servo => Some(ContextMenuItem::ReloadInWebKit),
                _ => Some(ContextMenuItem::ReloadInServo),
            };
        }
        index -= 2;

        if self.target_flags.intersects(ContextMenuTargetFlags::link().union(ContextMenuTargetFlags::media())) {
            if index == 0 {
                return Some(ContextMenuItem::CopyLink);
            }
            if index == 1 {
                return Some(ContextMenuItem::OpenInNewWindow);
            }
            if index == 2 {
                return Some(ContextMenuItem::OpenInNewTab);
            }
            index -= 3;
        }

        if self.target_flags.contains(ContextMenuTargetFlags::editable()) {
            if index == 0 {
                return Some(ContextMenuItem::Paste);
            }
        }

        None
    }
}

/// Work a context menu item asks of the browser.
pub enum ContextMenuAction {
    /// Persist cookies of the host.
    AddCookieException(String),
    /// Stop persisting cookies of the host.
    RemoveCookieException(String),
    /// Open the page search.
    StartSearch,
    /// Reload the page in another engine.
    SwitchEngine(EngineType),
    /// Reload the page.
    Reload,
    /// Open the URL in a new tab.
    OpenInTab(String),
    /// Open the URL in a new window.
    OpenInWindow(String),
    /// Copy the URL to the clipboard.
    SetClipboard(String),
    /// Paste the clipboard into the page.
    Paste,
}

/// Abstract form of a context menu action.
pub enum ContextMenuActionView {
    AddCookieException(Seq<char>),
    RemoveCookieException(Seq<char>),
    StartSearch,
    SwitchEngine(EngineType),
    Reload,
    OpenInTab(Seq<char>),
    OpenInWindow(Seq<char>),
    SetClipboard(Seq<char>),
    Paste,
}

impl View for ContextMenuAction {
    type V = ContextMenuActionView;

    open spec fn view(&self) -> ContextMenuActionView {
        match self {
            ContextMenuAction::AddCookieException(h) => ContextMenuActionView::AddCookieException(h@),
            ContextMenuAction::RemoveCookieException(h) => ContextMenuActionView::RemoveCookieException(
                h@,
            ),
            ContextMenuAction::StartSearch => ContextMenuActionView::StartSearch,
            ContextMenuAction::SwitchEngine(t) => ContextMenuActionView::SwitchEngine(*t),
            ContextMenuAction::Reload => ContextMenuActionView::Reload,
            ContextMenuAction::OpenInTab(u) => ContextMenuActionView::OpenInTab(u@),
            ContextMenuAction::OpenInWindow(u) => ContextMenuActionView::OpenInWindow(u@),
            ContextMenuAction::SetClipboard(u) => ContextMenuActionView::SetClipboard(u@),
            ContextMenuAction::Paste => ContextMenuActionView::Paste,
        }
    }
}

/// Action of an item: cookie items need the page host, link items the
/// target URL; without them the item does nothing.
pub open spec fn item_action(m: ContextMenuView, item: ContextMenuItem) -> Option<ContextMenuActionView> {
    match item {
        ContextMenuItem::AddCookieException => match m.host {
            Some(h) => Some(ContextMenuActionView::AddCookieException(h)),
            None => None,
        },
        ContextMenuItem::RemoveCookieException => match m.host {
            Some(h) => Some(ContextMenuActionView::RemoveCookieException(h)),
            None => None,
        },
        ContextMenuItem::Search => Some(ContextMenuActionView::StartSearch),
        ContextMenuItem::ReloadInWebKit => Some(ContextMenuActionView::SwitchEngine(EngineType::WebKit)),
        ContextMenuItem::ReloadInServo => Some(ContextMenuActionView::SwitchEngine(EngineType::Servo)),
        ContextMenuItem::Reload => Some(ContextMenuActionView::Reload),
        ContextMenuItem::OpenInNewTab => match m.target_url {
            Some(u) => Some(ContextMenuActionView::OpenInTab(u)),
            None => None,
        },
        ContextMenuItem::OpenInNewWindow => match m.target_url {
            Some(u) => Some(ContextMenuActionView::OpenInWindow(u)),
            None => None,
        },
        ContextMenuItem::CopyLink => match m.target_url {
            Some(u) => Some(ContextMenuActionView::SetClipboard(u)),
            None => None,
        },
        ContextMenuItem::Paste => Some(ContextMenuActionView::Paste),
    }
}

/// A menu for a link or media element shows the three link items, and with
/// a known URL each acts on it as its label says: "Copy Link" puts it on the
/// clipboard, "Open in New Window" opens it in a new window and "Open in New
/// Tab" in a new tab.
pub proof fn law_link_items(m: ContextMenuView, u: Seq<char>)
    requires
        m.target_flags.link || m.target_flags.media,
        m.target_url == Some(u),
    ensures
        menu_items(m).contains(ContextMenuItem::CopyLink),
        menu_items(m).contains(ContextMenuItem::OpenInNewWindow),
        menu_items(m).contains(ContextMenuItem::OpenInNewTab),
        item_action(m, ContextMenuItem::CopyLink) == Some(ContextMenuActionView::SetClipboard(u)),
        item_action(m, ContextMenuItem::OpenInNewWindow) == Some(ContextMenuActionView::OpenInWindow(u)),
        item_action(m, ContextMenuItem::OpenInNewTab) == Some(ContextMenuActionView::OpenInTab(u)),
{
    let items = menu_items(m);
    let n = page_items(m).len() as int + 2;
    assert(items[n] == ContextMenuItem::CopyLink);
    assert(items[n + 1] == ContextMenuItem::OpenInNewWindow);
    assert(items[n + 2] == ContextMenuItem::OpenInNewTab);
}

/// View of an optional action.
pub open spec fn action_view(a: Option<ContextMenuAction>) -> Option<ContextMenuActionView> {
    match a {
        Some(a) => Some(a@),
        None => None,
    }
}

impl ContextMenu {
    /// URL of the context menu's target resource.
    pub fn url(&self) -> (u: Option<&str>)
        ensures
            match u {
                Some(s) => self@.target_url == Some(s@),
                None => self@.target_url is None,
            },
    {
        match &self.target_url {
            Some(url) => Some(url.as_str()),
            None => None,
        }
    }

    /// Option menu entries for this menu.
    pub fn items(&self) -> (items: Vec<OptionMenuItem>)
        requires
            self@.engine_type != EngineType::Dummy,
        ensures
            items.len() == menu_items(self@).len(),
            forall|i: int|
                0 <= i < items.len() ==> {
                    &&& (#[trigger] items[i]).label@ == item_label(menu_items(self@)[i])
                    &&& !items[i].disabled
                    &&& !items[i].selected
                },
    {
        let mut items: Vec<OptionMenuItem> = Vec::new();
        let n = self.len();
        let mut i: u32 = 0;
        while i < n
            invariant
                self@.engine_type != EngineType::Dummy,
                n == menu_items(self@).len(),
                i <= n,
                items.len() == i,
                forall|j: int|
                    0 <= j < i ==> {
                        &&& (#[trigger] items[j]).label@ == item_label(menu_items(self@)[j])
                        &&& !items[j].disabled
                        &&& !items[j].selected
                    },
            decreases n - i,
        {
            if let Some(item) = self.item(i) {
                let label = item.label();
                items.push(OptionMenuItem { label: String::from_str(label), disabled: false, selected: false });
            }
            i = i + 1;
        }
        items
    }

    /// Action for activating the item at `index`, if any.
    pub fn activate_item(&self, index: u32) -> (action: Option<ContextMenuAction>)
        requires
            self@.engine_type == EngineType::Dummy ==> index != switch_index(self@),
        ensures
            action_view(action) == (if index < menu_items(self@).len() {
                item_action(self@, menu_items(self@)[index as int])
            } else {
                None
            }),
    {
        let item = match self.item(index) {
            Some(item) => item,
            None => return None,
        };
        match item {
            ContextMenuItem::AddCookieException => match &self.host {
                Some(host) => Some(ContextMenuAction::AddCookieException(host.clone())),
                None => None,
            },
            ContextMenuItem::RemoveCookieException => match &self.host {
                Some(host) => Some(ContextMenuAction::RemoveCookieException(host.clone())),
                None => None,
            },
            ContextMenuItem::Search => Some(ContextMenuAction::StartSearch),
            ContextMenuItem::ReloadInWebKit => Some(ContextMenuAction::SwitchEngine(EngineType::WebKit)),
            ContextMenuItem::ReloadInServo => Some(ContextMenuAction::SwitchEngine(EngineType::Servo)),
            ContextMenuItem::Reload => Some(ContextMenuAction::Reload),
            ContextMenuItem::OpenInNewTab => match self.url() {
                Some(url) => Some(ContextMenuAction::OpenInTab(String::from_str(url))),
                None => None,
            },
            ContextMenuItem::OpenInNewWindow => match self.url() {
                Some(url) => Some(ContextMenuAction::OpenInWindow(String::from_str(url))),
                None => None,
            },
            ContextMenuItem::CopyLink => match self.url() {
                Some(url) => Some(ContextMenuAction::SetClipboard(String::from_str(url))),
                None => None,
            },
            ContextMenuItem::Paste => Some(ContextMenuAction::Paste),
        }
    }
}

/// Hosts of preference pairs.
pub open spec fn pair_hosts(pairs: Seq<(String, EngineType)>) -> Seq<Seq<char>> {
    pairs.map_values(|p: (String, EngineType)| p.0@)
}

/// Map built from loaded pairs, a later pair for a host replacing an earlier one.
pub open spec fn loaded_preferences(pairs: Seq<(String, EngineType)>) -> Map<Seq<char>, EngineType>
    decreases pairs.len(),
{
    if pairs.len() == 0 {
        Map::empty()
    } else {
        loaded_preferences(pairs.drop_last()).insert(pairs.last().0@, pairs.last().1)
    }
}

/// Preference stored for the host of `url`.
pub open spec fn preference_for(prefs: Map<Seq<char>, EngineType>, url: Seq<char>) -> Option<EngineType> {
    match url_host(url) {
        Some(h) => if prefs.dom().contains(h) {
            Some(prefs[h])
        } else {
            None
        },
        None => None,
    }
}

/// Preferences after preferring `engine_type` for the host of `url`; a URL
/// without host changes nothing.
pub open spec fn preferences_after_set(
    prefs: Map<Seq<char>, EngineType>,
    url: Seq<char>,
    engine_type: EngineType,
) -> Map<Seq<char>, EngineType> {
    match url_host(url) {
        Some(h) => prefs.insert(h, engine_type),
        None => prefs,
    }
}

/// Host-based browser engine preference.
///
/// Persisting a preference is up to the caller: `set` returns the host whose
/// preference changed.
pub struct EnginePreference {
    preferences: Vec<(String, EngineType)>,
}

impl EnginePreference {
    /// No host occurs twice.
    #[verifier::type_invariant]
    closed spec fn unique_hosts(&self) -> bool {
        pair_hosts(self.preferences@).no_duplicates()
    }
}

impl View for EnginePreference {
    type V = Map<Seq<char>, EngineType>;

    closed spec fn view(&self) -> Map<Seq<char>, EngineType> {
        let hosts = pair_hosts(self.preferences@);
        Map::new(|h: Seq<char>| hosts.contains(h), |h: Seq<char>| self.preferences@[hosts.index_of(h)].1)
    }
}

impl EnginePreference {
    /// Position of `host` among the stored pairs.
    fn position(&self, host: &String) -> (r: Option<usize>)
        ensures
            match r {
                Some(i) => i < self.preferences.len() && self.preferences@[i as int].0@ == host@,
                None => !pair_hosts(self.preferences@).contains(host@),
            },
    {
        let mut i: usize = 0;
        while i < self.preferences.len()
            invariant
                i <= self.preferences.len(),
                forall|j: int| 0 <= j < i ==> self.preferences@[j].0@ != host@,
            decreases self.preferences.len() - i,
        {
            if self.preferences[i].0 == *host {
                return Some(i);
            }
            i = i + 1;
        }
        proof {
            let hosts = pair_hosts(self.preferences@);
            assert forall|j: int| 0 <= j < hosts.len() implies hosts[j] != host@ by {
                assert(hosts[j] == self.preferences@[j].0@);
            }
        }
        None
    }

    /// Prefer `engine_type` for `host`.
    pub fn set_host(&mut self, host: String, engine_type: EngineType)
        ensures
            final(self)@ == old(self)@.insert(host@, engine_type),
    {
        proof {
            use_type_invariant(&*self);
        }
        let ghost old_pairs = self.preferences@;
        let ghost old_hosts = pair_hosts(old_pairs);
        match self.position(&host) {
            Some(i) => {
                let ghost h = host@;
                let mut pairs: Vec<(String, EngineType)> = Vec::new();
                std::mem::swap(&mut pairs, &mut self.preferences);
                pairs.set(i, (host, engine_type));
                proof {
                    let hosts = pair_hosts(pairs@);
                    assert(hosts =~= old_hosts);
                }
                self.preferences = pairs;
                proof {
                    let hosts = pair_hosts(self.preferences@);
                    assert(hosts =~= old_hosts);
                    assert(old_hosts[i as int] == h);
                    assert(old_hosts.index_of(h) == i as int);
                    assert forall|k: Seq<char>| #[trigger] old_hosts.contains(k) && k != h implies
                        old_hosts.index_of(k) != i as int by {}
                    assert(self@ =~= old(self)@.insert(h, engine_type));
                }
            },
            None => {
                let ghost h = host@;
                let mut pairs: Vec<(String, EngineType)> = Vec::new();
                std::mem::swap(&mut pairs, &mut self.preferences);
                pairs.push((host, engine_type));
                proof {
                    let hosts = pair_hosts(pairs@);
                    assert(hosts =~= old_hosts.push(h));
                }
                self.preferences = pairs;
                proof {
                    let hosts = pair_hosts(self.preferences@);
                    assert(hosts =~= old_hosts.push(h));
                    assert(hosts.no_duplicates());
                    assert(hosts[old_hosts.len() as int] == h);
                    assert(hosts.index_of(h) == old_hosts.len() as int);
                    assert forall|k: Seq<char>| #[trigger] old_hosts.contains(k) implies hosts.contains(
                        k,
                    ) && k != h && hosts.index_of(k) == old_hosts.index_of(k) by {
                        let j = old_hosts.index_of(k);
                        assert(hosts[j] == k);
                        let j2 = hosts.index_of(k);
                        assert(hosts[j2] == k);
                    }
                    assert forall|k: Seq<char>| #[trigger] hosts.contains(k) && k != h implies
                        old_hosts.contains(k) by {
                        let j = hosts.index_of(k);
                        assert(j < old_hosts.len());
                        assert(old_hosts[j] == k);
                    }
                    assert(self@ =~= old(self)@.insert(h, engine_type));
                }
            },
        }
    }

    /// Preferences loaded from storage; without stored data there are none.
    pub fn new(loaded: Option<Vec<(String, EngineType)>>) -> (p: Self)
        ensures
            p@ == match loaded {
                Some(pairs) => loaded_preferences(pairs@),
                None => Map::empty(),
            },
    {
        let mut p = EnginePreference { preferences: Vec::new() };
        assert(p@ =~= Map::empty());
        match loaded {
            Some(pairs) => {
                let mut i: usize = 0;
                while i < pairs.len()
                    invariant
                        i <= pairs.len(),
                        p@ == loaded_preferences(pairs@.take(i as int)),
                    decreases pairs.len() - i,
                {
                    let host = pairs[i].0.clone();
                    p.set_host(host, pairs[i].1);
                    proof {
                        assert(pairs@.take(i + 1).drop_last() =~= pairs@.take(i as int));
                    }
                    i = i + 1;
                }
                assert(pairs@.take(pairs.len() as int) =~= pairs@);
                p
            },
            None => p,
        }
    }

    /// Engine preferred for `host`.
    pub fn get_host(&self, host: &str) -> (t: Option<EngineType>)
        ensures
            t == (if self@.dom().contains(host@) {
                Some(self@[host@])
            } else {
                None
            }),
    {
        proof {
            use_type_invariant(self);
        }
        let owned = host.to_owned();
        match self.position(&owned) {
            Some(i) => {
                proof {
                    let hosts = pair_hosts(self.preferences@);
                    assert(hosts[i as int] == host@);
                    assert(hosts.index_of(host@) == i as int);
                }
                Some(self.preferences[i].1)
            },
            None => None,
        }
    }

    /// Engine preferred for the host of `url`.
    pub fn get(&self, url: &str) -> (t: Option<EngineType>)
        ensures
            t == preference_for(self@, url@),
    {
        match parse_url_host(url) {
            Some(host) => self.get_host(host.as_str()),
            None => None,
        }
    }

    /// Prefer `engine_type` for the host of `url`, returning that host; URLs
    /// without a valid host are ignored.
    pub fn set(&mut self, url: &str, engine_type: EngineType) -> (host: Option<String>)
        ensures
            final(self)@ == preferences_after_set(old(self)@, url@, engine_type),
            opt_view(host) == url_host(url@),
    {
        match parse_url_host(url) {
            Some(host) => {
                let persisted = host.clone();
                self.set_host(host, engine_type);
                Some(persisted)
            },
            None => None,
        }
    }
}

/// Reading a preference back gives what was last set for the URL's host, and
/// setting one host leaves the others unchanged.
pub proof fn law_preference_read_after_write(
    prefs: Map<Seq<char>, EngineType>,
    url: Seq<char>,
    other: Seq<char>,
    engine_type: EngineType,
)
    requires
        url_host(url) is Some,
    ensures
        preference_for(preferences_after_set(prefs, url, engine_type), url) == Some(engine_type),
        url_host(other) != url_host(url) ==> preference_for(
            preferences_after_set(prefs, url, engine_type),
            other,
        ) == preference_for(prefs, other),
{
}

/// Unique identifier for one engine instance.
#[derive(PartialEq, Eq, Structural, Copy, Clone, Debug, Hash)]
pub struct EngineId {
    window_id: usize,
    group_id: GroupId,
    id: usize,
}

/// Abstract form of an engine identifier.
pub struct EngineIdView {
    pub window_id: usize,
    pub group_uuid: u128,
    pub id: usize,
}

impl View for EngineId {
    type V = EngineIdView;

    closed spec fn view(&self) -> EngineIdView {
        EngineIdView { window_id: self.window_id, group_uuid: self.group_id.value(), id: self.id }
    }
}

impl EngineId {
    /// Identifier of engine number `id` in a window and tab group; the caller
    /// numbers engines from a process-wide counter.
    pub fn new(window_id: usize, group_id: GroupId, id: usize) -> (e: Self)
        ensures
            e@ == (EngineIdView { window_id, group_uuid: group_id.value(), id }),
    {
        EngineId { window_id, group_id, id }
    }

    /// Get the engine's window.
    pub fn window_id(&self) -> (w: usize)
        ensures
            w == self@.window_id,
    {
        self.window_id
    }

    /// Get the engine's tab group.
    pub fn group_id(&self) -> (g: GroupId)
        ensures
            g.value() == self@.group_uuid,
    {
        self.group_id
    }

    /// The engine's number.
    pub fn number(&self) -> (n: usize)
        ensures
            n == self@.id,
    {
        self.id
    }
}

/// URI an unloaded engine keeps of its page: none for an empty or blank page.
pub open spec fn kept_uri(uri: Seq<char>) -> Option<Seq<char>> {
    if uri.len() == 0 || uri == "about:blank"@ {
        None
    } else {
        Some(uri)
    }
}

/// Current URI of an engine being unloaded, filtering out blank pages.
pub fn unloaded_uri(uri: &str) -> (kept: Option<String>)
    ensures
        opt_view(kept) == kept_uri(uri@),
{
    let owned = uri.to_owned();
    if owned.as_str().is_empty() || owned == "about:blank".to_owned() {
        None
    } else {
        Some(owned)
    }
}

} // verus!
