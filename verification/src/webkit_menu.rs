//! Context menus built from WebKit hit tests.

use vstd::prelude::*;
use vstd::string::StringExecFns;

use crate::engine::{
    action_view, contains_string, item_label, opt_view, ContextMenuAction, ContextMenuActionView,
    ContextMenuItem,
};
use crate::option_menu::OptionMenuItem;
use crate::text::string_views;

verus! {

/// Kinds of element a WebKit hit test found under the pointer.
#[derive(PartialEq, Eq, Structural, Copy, Clone, Debug)]
pub struct HitTestContext {
    pub document: bool,
    pub link: bool,
    pub image: bool,
    pub media: bool,
    pub editable: bool,
    pub scrollbar: bool,
    pub selection: bool,
}

/// Whether the hit test found the bare document and nothing else.
pub open spec fn document_only(c: HitTestContext) -> bool {
    c == HitTestContext {
        document: true,
        link: false,
        image: false,
        media: false,
        editable: false,
        scrollbar: false,
        selection: false,
    }
}

/// Abstract state of a WebKit context menu.
pub struct WebKitContextMenuView {
    pub context: HitTestContext,
    pub has_cookie_exception: bool,
    pub host: Option<Seq<char>>,
    pub link_uri: Option<Seq<char>>,
    pub image_uri: Option<Seq<char>>,
    pub media_uri: Option<Seq<char>>,
}

/// Custom context menu based on a WebKit hit test.
pub struct WebKitContextMenu {
    context: HitTestContext,
    has_cookie_exception: bool,
    host: Option<String>,
    link_uri: Option<String>,
    image_uri: Option<String>,
    media_uri: Option<String>,
}

impl View for WebKitContextMenu {
    type V = WebKitContextMenuView;

    closed spec fn view(&self) -> WebKitContextMenuView {
        WebKitContextMenuView {
            context: self.context,
            has_cookie_exception: self.has_cookie_exception,
            host: opt_view(self.host),
            link_uri: opt_view(self.link_uri),
            image_uri: opt_view(self.image_uri),
            media_uri: opt_view(self.media_uri),
        }
    }
}

/// Items of a WebKit context menu, in order.
pub open spec fn webkit_menu_items(m: WebKitContextMenuView) -> Seq<ContextMenuItem> {
    let page = if document_only(m.context) {
        let cookie = if m.has_cookie_exception {
            ContextMenuItem::RemoveCookieException
        } else {
            ContextMenuItem::AddCookieException
        };
        seq![cookie, ContextMenuItem::Search]
    } else {
        Seq::empty()
    };
    let reload = if m.context.document {
        seq![ContextMenuItem::Reload]
    } else {
        Seq::empty()
    };
    let targeted = if m.context.link || m.context.image || m.context.media {
        seq![ContextMenuItem::CopyLink, ContextMenuItem::OpenInNewWindow, ContextMenuItem::OpenInNewTab]
    } else {
        Seq::empty()
    };
    let editable = if m.context.editable {
        seq![ContextMenuItem::Paste]
    } else {
        Seq::empty()
    };
    page + reload + targeted + editable
}

/// URI of the targeted resource: a link's, else an image's, else a media
/// element's.
pub open spec fn webkit_target_uri(m: WebKitContextMenuView) -> Option<Seq<char>> {
    if m.context.link {
        m.link_uri
    } else if m.context.image {
        m.image_uri
    } else if m.context.media {
        m.media_uri
    } else {
        None
    }
}

/// Action of an item: cookie items need the page host, link items the
/// target URI; without them the item does nothing.
pub open spec fn webkit_item_action(m: WebKitContextMenuView, item: ContextMenuItem) -> Option<ContextMenuActionView> {
    match item {
        ContextMenuItem::AddCookieException => match m.host {
            Some(h) => Some(ContextMenuActionView::AddCookieException(h)),
            None => None,
        },
        ContextMenuItem::RemoveCookieException => match m.host {
            Some(h) => Some(ContextMenuActionView::RemoveCookieException(h)),
            None => None,
        },
        ContextMenuItem::Search => Some(ContextMenuActionView::StartSearch),
        ContextMenuItem::Reload => Some(ContextMenuActionView::Reload),
        ContextMenuItem::OpenInNewTab => match webkit_target_uri(m) {
            Some(u) => Some(ContextMenuActionView::OpenInTab(u)),
            None => None,
        },
        ContextMenuItem::OpenInNewWindow => match webkit_target_uri(m) {
            Some(u) => Some(ContextMenuActionView::OpenInWindow(u)),
            None => None,
        },
        ContextMenuItem::CopyLink => match webkit_target_uri(m) {
            Some(u) => Some(ContextMenuActionView::SetClipboard(u)),
            None => None,
        },
        ContextMenuItem::Paste => Some(ContextMenuActionView::Paste),
        _ => None,
    }
}

impl WebKitContextMenu {
    /// Menu for a hit test; `host` is the page's host, kept only for the bare
    /// document, where it has a cookie exception when whitelisted.
    pub fn new(
        context: HitTestContext,
        host: Option<String>,
        cookie_hosts: &Vec<String>,
        link_uri: Option<String>,
        image_uri: Option<String>,
        media_uri: Option<String>,
    ) -> (m: Self)
        ensures
            m@.context == context,
            m@.host == (if document_only(context) {
                opt_view(host)
            } else {
                None
            }),
            m@.has_cookie_exception == (m@.host matches Some(h) && string_views(cookie_hosts@).contains(h)),
            m@.link_uri == opt_view(link_uri),
            m@.image_uri == opt_view(image_uri),
            m@.media_uri == opt_view(media_uri),
    {
        let document = context == HitTestContext {
            document: true,
            link: false,
            image: false,
            media: false,
            editable: false,
            scrollbar: false,
            selection: false,
        };
        let (host, has_cookie_exception) = if document {
            match host {
                Some(h) => {
                    let whitelisted = contains_string(cookie_hosts, &h);
                    (Some(h), whitelisted)
                },
                None => (None, false),
            }
        } else {
            (None, false)
        };
        WebKitContextMenu { context, has_cookie_exception, host, link_uri, image_uri, media_uri }
    }

    /// Whether the hit test found the bare document.
    fn is_document_only(&self) -> (r: bool)
        ensures
            r == document_only(self@.context),
    {
        self.context == HitTestContext {
            document: true,
            link: false,
            image: false,
            media: false,
            editable: false,
            scrollbar: false,
            selection: false,
        }
    }

    /// Number of items in the menu.
    pub fn n_items(&self) -> (n: u32)
        ensures
            n == webkit_menu_items(self@).len(),
    {
        let mut n_items: u32 = 0;

        // Only show these entries without any targeted element.
        if self.is_document_only() {
            n_items += 2;
        }

        if self.context.document {
            n_items += 1;
        }

        if self.context.link || self.context.image || self.context.media {
            n_items += 3;
        }

        if self.context.editable {
            n_items += 1;
        }

        n_items
    }

    /// Get the item at the specified index.
    pub fn item(&self, index: u32) -> (item: Option<ContextMenuItem>)
        ensures
            item == (if index < webkit_menu_items(self@).len() {
                Some(webkit_menu_items(self@)[index as int])
            } else {
                None
            }),
    {
        let mut index = index;

        // Only show these entries without any targeted element.
        if self.is_document_only() {
            if index == 0 {
                if self.has_cookie_exception {
                    return Some(ContextMenuItem::RemoveCookieException);
                }
                return Some(ContextMenuItem::AddCookieException);
            }
            if index == 1 {
                return Some(ContextMenuItem::Search);
            }
            index -= 2;
        }

        if self.context.document {
            if index == 0 {
                return Some(ContextMenuItem::Reload);
            }
            index -= 1;
        }

        if self.context.link || self.context.image || self.context.media {
            if index == 0 {
                return Some(ContextMenuItem::CopyLink);
            }
            if index == 1 {
                return Some(ContextMenuItem::OpenInNewWindow);
            }
            if index == 2 {
                return Some(ContextMenuItem::OpenInNewTab);
            }
            index -= 3;
        }

        if self.context.editable {
            if index == 0 {
                return Some(ContextMenuItem::Paste);
            }
        }

        None
    }

    /// Option menu entries for this menu: every item enabled and unselected.
    pub fn items(&self) -> (items: Vec<OptionMenuItem>)
        ensures
            items.len() == webkit_menu_items(self@).len(),
            forall|i: int|
                0 <= i < items.len() ==> {
                    &&& (#[trigger] items[i]).label@ == item_label(webkit_menu_items(self@)[i])
                    &&& !items[i].disabled
                    &&& !items[i].selected
                },
    {
        let mut items: Vec<OptionMenuItem> = Vec::new();
        let n = self.n_items();
        let mut i: u32 = 0;
        while i < n
            invariant
                n == webkit_menu_items(self@).len(),
                i <= n,
                items.len() == i,
                forall|j: int|
                    0 <= j < i ==> {
                        &&& (#[trigger] items[j]).label@ == item_label(webkit_menu_items(self@)[j])
                        &&& !items[j].disabled
                        &&& !items[j].selected
                    },
            decreases n - i,
        {
            if let Some(item) = self.item(i) {
                let label = item.label();
                items.push(OptionMenuItem { label: String::from_str(label), disabled: false, selected: false });
            }
            i = i + 1;
        }
        items
    }

    /// Get URI for the context menu's target resource.
    pub fn uri(&self) -> (u: Option<String>)
        ensures
            opt_view(u) == webkit_target_uri(self@),
    {
        if self.context.link {
            self.link_uri.clone()
        } else if self.context.image {
            self.image_uri.clone()
        } else if self.context.media {
            self.media_uri.clone()
        } else {
            None
        }
    }

    /// Action for activating the item at `index`, if any.
    pub fn activate_item(&self, index: u32) -> (action: Option<ContextMenuAction>)
        ensures
            action_view(action) == (if index < webkit_menu_items(self@).len() {
                webkit_item_action(self@, webkit_menu_items(self@)[index as int])
            } else {
                None
            }),
    {
        let item = match self.item(index) {
            Some(item) => item,
            None => return None,
        };
        match item {
            ContextMenuItem::AddCookieException => match &self.host {
                Some(host) => Some(ContextMenuAction::AddCookieException(host.clone())),
                None => None,
            },
            ContextMenuItem::RemoveCookieException => match &self.host {
                Some(host) => Some(ContextMenuAction::RemoveCookieException(host.clone())),
                None => None,
            },
            ContextMenuItem::Search => Some(ContextMenuAction::StartSearch),
            ContextMenuItem::Reload => Some(ContextMenuAction::Reload),
            ContextMenuItem::OpenInNewTab => match self.uri() {
                Some(uri) => Some(ContextMenuAction::OpenInTab(uri)),
                None => None,
            },
            ContextMenuItem::OpenInNewWindow => match self.uri() {
                Some(uri) => Some(ContextMenuAction::OpenInWindow(uri)),
                None => None,
            },
            ContextMenuItem::CopyLink => match self.uri() {
                Some(uri) => Some(ContextMenuAction::SetClipboard(uri)),
                None => None,
            },
            ContextMenuItem::Paste => Some(ContextMenuAction::Paste),
            _ => None,
        }
    }
}

/// A menu for a link, image or media element with a known URI shows the
/// three link items, and each acts on that URI as its label says: "Copy
/// Link" puts it on the clipboard, "Open in New Window" opens it in a new
/// window and "Open in New Tab" in a new tab.
pub proof fn law_webkit_link_items(m: WebKitContextMenuView, u: Seq<char>)
    requires
        webkit_target_uri(m) == Some(u),
    ensures
        webkit_menu_items(m).contains(ContextMenuItem::CopyLink),
        webkit_menu_items(m).contains(ContextMenuItem::OpenInNewWindow),
        webkit_menu_items(m).contains(ContextMenuItem::OpenInNewTab),
        webkit_item_action(m, ContextMenuItem::CopyLink) == Some(ContextMenuActionView::SetClipboard(u)),
        webkit_item_action(m, ContextMenuItem::OpenInNewWindow) == Some(
            ContextMenuActionView::OpenInWindow(u),
        ),
        webkit_item_action(m, ContextMenuItem::OpenInNewTab) == Some(ContextMenuActionView::OpenInTab(u)),
{
    let items = webkit_menu_items(m);
    let page = if document_only(m.context) {
        let cookie = if m.has_cookie_exception {
            ContextMenuItem::RemoveCookieException
        } else {
            ContextMenuItem::AddCookieException
        };
        seq![cookie, ContextMenuItem::Search]
    } else {
        Seq::empty()
    };
    let reload = if m.context.document {
        seq![ContextMenuItem::Reload]
    } else {
        Seq::empty()
    };
    let n = page.len() as int + reload.len() as int;
    assert(items[n] == ContextMenuItem::CopyLink);
    assert(items[n + 1] == ContextMenuItem::OpenInNewWindow);
    assert(items[n + 2] == ContextMenuItem::OpenInNewTab);
}

} // verus!
