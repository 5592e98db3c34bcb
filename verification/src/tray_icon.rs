//! The tray icons: what the shell shows, what it is to show, and what it is told.

use vstd::prelude::*;

use crate::badge;
use crate::binary64::Binary64;
use crate::native_interop::WM_APP_TRAY;
use crate::text;
use crate::utf16;

verus! {

/// The id by which the shell knows the icon of Anthropic.
pub const CLAUDE_TRAY_ICON_ID: u32 = 1;

/// The id by which the shell knows the icon of Codex.
pub const CODEX_TRAY_ICON_ID: u32 = 2;

/// Menu item ID for toggling widget visibility.
pub const IDM_TOGGLE_WIDGET: u16 = 50;

/// The message that the left mouse button was released.
pub const WM_LBUTTONUP: u32 = 0x0202;

/// The message that the right mouse button was released.
pub const WM_RBUTTONUP: u32 = 0x0205;

/// Actions that a message of the tray requests from the main window.
#[derive(Clone, Copy, Debug, PartialEq, Eq, Structural)]
pub enum TrayAction {
    Nothing,
    ToggleWidget,
    ShowContextMenu,
}

/// Which service a tray icon is of.
#[derive(Clone, Copy, Debug, PartialEq, Eq, Structural)]
pub enum TrayIconKind {
    Claude,
    Codex,
}

impl TrayIconKind {
    /// The id by which the shell knows the icon.
    pub open spec fn shell_id(self) -> u32 {
        match self {
            TrayIconKind::Claude => CLAUDE_TRAY_ICON_ID,
            TrayIconKind::Codex => CODEX_TRAY_ICON_ID,
        }
    }

    /// The place of the icon among the shown ones.
    pub open spec fn place(self) -> int {
        match self {
            TrayIconKind::Claude => 0,
            TrayIconKind::Codex => 1,
        }
    }

    /// The id by which the shell knows the icon.
    pub fn id(self) -> (id: u32)
        ensures
            id == self.shell_id(),
    {
        match self {
            TrayIconKind::Claude => CLAUDE_TRAY_ICON_ID,
            TrayIconKind::Codex => CODEX_TRAY_ICON_ID,
        }
    }

    /// The place of the icon among the shown ones.
    pub fn slot(self) -> (slot: usize)
        ensures
            slot == self.place(),
            slot < 2,
    {
        match self {
            TrayIconKind::Claude => 0,
            TrayIconKind::Codex => 1,
        }
    }
}

/// Icons of different kinds have different ids and different places.
pub proof fn law_kinds_are_told_apart(a: TrayIconKind, b: TrayIconKind)
    ensures
        a.shell_id() == b.shell_id() <==> a == b,
        a.place() == b.place() <==> a == b,
{
}

/// What a tray icon is to show.
#[derive(Clone, Debug)]
pub struct TrayIconData {
    pub kind: TrayIconKind,
    pub percent: Option<Binary64>,
    pub tooltip: String,
}

/// What the shell shows for one icon.
#[derive(Clone, Debug, PartialEq, Eq)]
pub struct ShownIcon {
    pub key: Option<u32>,
    pub tooltip: String,
}

/// The model of a [`ShownIcon`].
pub struct Icon {
    pub key: Option<u32>,
    pub tooltip: Seq<char>,
}

impl View for ShownIcon {
    type V = Icon;

    open spec fn view(&self) -> Icon {
        Icon { key: self.key, tooltip: self.tooltip@ }
    }
}

/// What the shell shows of the data of an icon: the rendered percentage and the tooltip.
pub open spec fn icon_of(data: TrayIconData) -> Icon {
    Icon { key: badge::render_key_of(data.percent), tooltip: data.tooltip@ }
}

impl ShownIcon {
    /// What the shell shows of the data of an icon.
    pub fn from_data(data: &TrayIconData) -> (icon: ShownIcon)
        ensures
            icon@ == icon_of(*data),
    {
        ShownIcon {
            key: badge::icon_render_key(data.percent),
            tooltip: text::copy(data.tooltip.as_str()),
        }
    }

    /// A copy of the icon.
    fn copy(&self) -> (icon: ShownIcon)
        ensures
            icon@ == self@,
    {
        ShownIcon { key: self.key, tooltip: text::copy(self.tooltip.as_str()) }
    }
}

/// Shell operation that moves one icon from what is shown to what is wanted.
#[derive(Clone, Copy, Debug, PartialEq, Eq, Structural)]
pub enum SyncOp {
    Add,
    Modify,
    Skip,
    Remove,
}

/// The operation that moves an icon from what is shown to what is wanted: none if that is
/// the same.
pub open spec fn planned(shown: Option<Icon>, wanted: Option<Icon>) -> SyncOp {
    if shown == wanted {
        SyncOp::Skip
    } else if shown is None {
        SyncOp::Add
    } else if wanted is None {
        SyncOp::Remove
    } else {
        SyncOp::Modify
    }
}

/// The model of an icon that may not be there.
pub open spec fn icon_view(icon: Option<ShownIcon>) -> Option<Icon> {
    match icon {
        Some(i) => Some(i@),
        None => None,
    }
}

/// Decides what to do with one icon. Unchanged icons are skipped entirely, so that polls
/// that change nothing build no icons and make no shell calls.
pub fn plan_sync(shown: Option<&ShownIcon>, wanted: Option<&ShownIcon>) -> (op: SyncOp)
    ensures
        op == planned(
            match shown {
                Some(i) => Some(i@),
                None => None,
            },
            match wanted {
                Some(i) => Some(i@),
                None => None,
            },
        ),
{
    match (shown, wanted) {
        (None, None) => SyncOp::Skip,
        (None, Some(_)) => SyncOp::Add,
        (Some(_), None) => SyncOp::Remove,
        (Some(current), Some(next)) => {
            if current.key == next.key && text::same_text(
                current.tooltip.as_str(),
                next.tooltip.as_str(),
            ) {
                SyncOp::Skip
            } else {
                SyncOp::Modify
            }
        },
    }
}

/// What the shell shows, per kind.
#[derive(Clone, Debug)]
pub struct ShownIcons {
    claude: Option<ShownIcon>,
    codex: Option<ShownIcon>,
}

impl ShownIcons {
    /// What is shown of a kind.
    pub closed spec fn of(self, kind: TrayIconKind) -> Option<Icon> {
        match kind {
            TrayIconKind::Claude => icon_view(self.claude),
            TrayIconKind::Codex => icon_view(self.codex),
        }
    }

    /// Nothing is shown.
    pub fn new() -> (shown: ShownIcons)
        ensures
            forall|kind: TrayIconKind| #[trigger] shown.of(kind) is None,
    {
        ShownIcons { claude: None, codex: None }
    }

    /// What is shown of a kind.
    pub fn shown_icon(&self, kind: TrayIconKind) -> (icon: Option<ShownIcon>)
        ensures
            icon_view(icon) == self.of(kind),
    {
        let slot = match kind {
            TrayIconKind::Claude => &self.claude,
            TrayIconKind::Codex => &self.codex,
        };
        match slot {
            Some(icon) => Some(icon.copy()),
            None => None,
        }
    }

    /// Records what is shown of a kind.
    pub fn set_shown_icon(&mut self, kind: TrayIconKind, value: Option<ShownIcon>)
        ensures
            final(self).of(kind) == icon_view(value),
            forall|other: TrayIconKind|
                other != kind ==> #[trigger] final(self).of(other) == old(self).of(other),
    {
        match kind {
            TrayIconKind::Claude => self.claude = value,
            TrayIconKind::Codex => self.codex = value,
        }
    }
}

/// Records that an icon was removed from the shell.
pub fn remove(shown: &mut ShownIcons, kind: TrayIconKind)
    ensures
        final(shown).of(kind) is None,
        forall|other: TrayIconKind|
            other != kind ==> #[trigger] final(shown).of(other) == old(shown).of(other),
{
    shown.set_shown_icon(kind, None);
}

/// Records that all icons were removed from the shell.
pub fn remove_all(shown: &mut ShownIcons)
    ensures
        forall|kind: TrayIconKind| #[trigger] final(shown).of(kind) is None,
{
    remove(shown, TrayIconKind::Claude);
    remove(shown, TrayIconKind::Codex);
}

/// What the shell is told about an icon.
#[derive(Clone, Copy, Debug, PartialEq, Eq, Structural)]
pub enum ShellMessage {
    Add,
    Modify,
}

/// What is done about one icon to bring the shell in line.
#[derive(Clone, Copy, Debug, PartialEq, Eq, Structural)]
pub enum SyncStep {
    /// Nothing.
    Skip,
    /// Remove the icon from the shell.
    Remove,
    /// Build the icon for the data at this place and send it, with the first message; if
    /// the shell does not accept that, with the second one.
    Notify { at: usize, first: ShellMessage, fallback: ShellMessage },
}

/// The first place of the data for a kind, or the number of them.
pub open spec fn data_place(icons: Seq<TrayIconData>, kind: TrayIconKind) -> int
    decreases icons.len(),
{
    if icons.len() == 0 {
        0
    } else if icons[0].kind == kind {
        0
    } else {
        1 + data_place(icons.drop_first(), kind)
    }
}

/// What is to be shown of a kind: what the first data for it say.
pub open spec fn wanted_icon(icons: Seq<TrayIconData>, kind: TrayIconKind) -> Option<Icon> {
    let at = data_place(icons, kind);
    if at < icons.len() {
        Some(icon_of(icons[at]))
    } else {
        None
    }
}

/// What is done about one icon. One that was never sent is added, one that is shown is
/// modified; each falls back to the other, in case the shell has forgotten the icon or
/// still knows it.
pub open spec fn sync_next(
    shown: Option<Icon>,
    icons: Seq<TrayIconData>,
    kind: TrayIconKind,
) -> SyncStep {
    match planned(shown, wanted_icon(icons, kind)) {
        SyncOp::Skip => SyncStep::Skip,
        SyncOp::Remove => SyncStep::Remove,
        SyncOp::Add => SyncStep::Notify {
            at: data_place(icons, kind) as usize,
            first: ShellMessage::Add,
            fallback: ShellMessage::Modify,
        },
        SyncOp::Modify => SyncStep::Notify {
            at: data_place(icons, kind) as usize,
            first: ShellMessage::Modify,
            fallback: ShellMessage::Add,
        },
    }
}

/// What is shown after that was done: what was wanted if the shell accepted it, nothing if
/// it did not.
pub open spec fn shown_after(
    shown: Option<Icon>,
    icons: Seq<TrayIconData>,
    kind: TrayIconKind,
    accepted: bool,
) -> Option<Icon> {
    match sync_next(shown, icons, kind) {
        SyncStep::Skip => shown,
        SyncStep::Remove => None,
        SyncStep::Notify { .. } => if accepted {
            wanted_icon(icons, kind)
        } else {
            None
        },
    }
}

/// `data_place` is where no place in front holds the kind, and which holds it or is the
/// end.
proof fn lemma_data_place(icons: Seq<TrayIconData>, kind: TrayIconKind, i: int)
    requires
        0 <= i <= icons.len(),
        forall|j: int| 0 <= j < i ==> (#[trigger] icons[j]).kind != kind,
        i < icons.len() ==> icons[i].kind == kind,
    ensures
        data_place(icons, kind) == i,
    decreases icons.len(),
{
    if icons.len() > 0 && icons[0].kind != kind {
        let rest = icons.drop_first();
        assert forall|j: int| 0 <= j < i - 1 implies (#[trigger] rest[j]).kind != kind by {
            assert(rest[j] == icons[j + 1]);
        }
        lemma_data_place(rest, kind, i - 1);
    }
}

/// Finds the first data for a kind.
fn find_data(icons: &[TrayIconData], kind: TrayIconKind) -> (at: usize)
    ensures
        at == data_place(icons@, kind),
        at <= icons@.len(),
{
    let mut at: usize = 0;
    while at < icons.len() && icons[at].kind != kind
        invariant
            at <= icons@.len(),
            forall|j: int| 0 <= j < at ==> (#[trigger] icons@[j]).kind != kind,
        decreases icons@.len() - at,
    {
        at += 1;
    }
    proof {
        lemma_data_place(icons@, kind, at as int);
    }
    at
}

/// Decides what is done about the icon of a kind to bring the shell in line with `icons`.
///
/// Only an icon whose rendered percentage or tooltip changed is touched: an unchanged one
/// costs no drawing and no call of the shell.
pub fn sync(shown: &ShownIcons, icons: &[TrayIconData], kind: TrayIconKind) -> (step: SyncStep)
    ensures
        step == sync_next(shown.of(kind), icons@, kind),
        step matches SyncStep::Notify { at, .. } ==> at == data_place(icons@, kind) && at
            < icons@.len() && icons@[at as int].kind == kind,
{
    let at = find_data(icons, kind);
    let wanted = if at < icons.len() {
        Some(ShownIcon::from_data(&icons[at]))
    } else {
        None
    };
    proof {
        if at < icons@.len() {
            lemma_place_holds_kind(icons@, kind);
        }
    }
    let current = shown.shown_icon(kind);
    match plan_sync(current.as_ref(), wanted.as_ref()) {
        SyncOp::Skip => SyncStep::Skip,
        SyncOp::Remove => SyncStep::Remove,
        SyncOp::Add => SyncStep::Notify {
            at,
            first: ShellMessage::Add,
            fallback: ShellMessage::Modify,
        },
        SyncOp::Modify => SyncStep::Notify {
            at,
            first: ShellMessage::Modify,
            fallback: ShellMessage::Add,
        },
    }
}

/// A place that is not the end holds the kind.
proof fn lemma_place_holds_kind(icons: Seq<TrayIconData>, kind: TrayIconKind)
    ensures
        0 <= data_place(icons, kind) <= icons.len(),
        data_place(icons, kind) < icons.len() ==> icons[data_place(icons, kind)].kind == kind,
    decreases icons.len(),
{
    if icons.len() > 0 && icons[0].kind != kind {
        lemma_place_holds_kind(icons.drop_first(), kind);
    }
}

/// Records what came of bringing the icon of a kind in line: whether the shell accepted
/// what it was sent.
pub fn synced(
    shown: &mut ShownIcons,
    icons: &[TrayIconData],
    kind: TrayIconKind,
    accepted: bool,
)
    ensures
        final(shown).of(kind) == shown_after(old(shown).of(kind), icons@, kind, accepted),
        forall|other: TrayIconKind|
            other != kind ==> #[trigger] final(shown).of(other) == old(shown).of(other),
{
    match sync(shown, icons, kind) {
        SyncStep::Skip => {},
        SyncStep::Remove => remove(shown, kind),
        SyncStep::Notify { at, .. } => {
            let value = if accepted {
                Some(ShownIcon::from_data(&icons[at]))
            } else {
                None
            };
            shown.set_shown_icon(kind, value);
        },
    }
}

/// Bringing the shell in line twice with the same data does nothing the second time, if
/// the shell accepted what it was sent; and it then shows what is wanted.
pub proof fn law_sync_settles(
    shown: Option<Icon>,
    icons: Seq<TrayIconData>,
    kind: TrayIconKind,
)
    ensures
        shown_after(shown, icons, kind, true) == wanted_icon(icons, kind),
        sync_next(shown_after(shown, icons, kind, true), icons, kind) is Skip,
{
}

/// An icon that the shell did not accept is sent again the next time, as a new one.
pub proof fn law_refused_icon_is_added_again(
    shown: Option<Icon>,
    icons: Seq<TrayIconData>,
    kind: TrayIconKind,
)
    requires
        sync_next(shown, icons, kind) is Notify,
    ensures
        shown_after(shown, icons, kind, false) is None,
        sync_next(None, icons, kind) matches SyncStep::Notify { first, .. } && first
            == ShellMessage::Add,
{
}

/// New data with the same rendered percentage and the same tooltip cost nothing.
pub proof fn law_unchanged_icon_is_skipped(
    shown: Option<Icon>,
    before: Seq<TrayIconData>,
    after: Seq<TrayIconData>,
    kind: TrayIconKind,
)
    requires
        shown == wanted_icon(before, kind),
        wanted_icon(before, kind) == wanted_icon(after, kind),
    ensures
        sync_next(shown, after, kind) is Skip,
        shown_after(shown, after, kind, true) == shown,
{
}

// Flags of what a message to the shell sets.
pub const NIF_MESSAGE: u32 = 0x1;

pub const NIF_ICON: u32 = 0x2;

pub const NIF_TIP: u32 = 0x4;

pub const NIF_INFO: u32 = 0x10;

/// The flag of a balloon that warns.
pub const NIIF_WARNING: u32 = 0x2;

/// A message to the shell about an icon.
#[derive(Clone, Copy, Debug, PartialEq, Eq, Structural)]
pub struct Notification {
    pub id: u32,
    pub flags: u32,
    pub callback_message: u32,
}

/// Makes the message that tells the shell about an icon. If the icon could not be built,
/// the shell keeps the one that it shows, rather than replacing it with none.
pub fn notify_icon(kind: TrayIconKind, icon_built: bool) -> (message: Notification)
    ensures
        message.id == kind.shell_id(),
        message.callback_message == WM_APP_TRAY,
        message.flags == NIF_MESSAGE + NIF_TIP + (if icon_built {
            NIF_ICON as int
        } else {
            0
        }),
{
    let flags = if icon_built {
        NIF_MESSAGE + NIF_TIP + NIF_ICON
    } else {
        NIF_MESSAGE + NIF_TIP
    };
    Notification { id: kind.id(), flags, callback_message: WM_APP_TRAY }
}

/// A balloon that the shell shows at an icon.
#[derive(Clone, Copy, Debug)]
pub struct Balloon {
    pub id: u32,
    pub flags: u32,
    pub info_flags: u32,
    pub title: [u16; 64],
    pub message: [u16; 256],
}

/// A buffer full of zeros.
pub open spec fn zeros(size: nat) -> Seq<u16> {
    Seq::new(size, |i: int| 0u16)
}

/// Makes the balloon that tells the user that a new login is required.
pub fn notify_balloon(kind: TrayIconKind, title: &str, message: &str) -> (balloon: Balloon)
    ensures
        balloon.id == kind.shell_id(),
        balloon.flags == NIF_INFO,
        balloon.info_flags == NIIF_WARNING,
        balloon.title@ == utf16::copied(title@, zeros(64)),
        balloon.message@ == utf16::copied(message@, zeros(256)),
{
    let mut title_buf: [u16; 64] = [0u16; 64];
    let mut message_buf: [u16; 256] = [0u16; 256];
    assert(title_buf@ =~= zeros(64));
    assert(message_buf@ =~= zeros(256));
    utf16::copy_wide(title, &mut title_buf);
    copy_wide_256(message, &mut message_buf);
    Balloon {
        id: kind.id(),
        flags: NIF_INFO,
        info_flags: NIIF_WARNING,
        title: title_buf,
        message: message_buf,
    }
}

/// The message in a parameter: its lowest 32 bits.
pub open spec fn mouse_message(lparam: i64) -> int {
    lparam as int % 0x1_0000_0000
}

/// Interprets a message of the tray: what it requests.
pub fn handle_message(lparam: i64) -> (action: TrayAction)
    ensures
        action == (if mouse_message(lparam) == WM_LBUTTONUP {
            TrayAction::ToggleWidget
        } else if mouse_message(lparam) == WM_RBUTTONUP {
            TrayAction::ShowContextMenu
        } else {
            TrayAction::Nothing
        }),
{
    let bits = lparam as u64;
    assert(bits == if lparam >= 0 {
        lparam as int
    } else {
        lparam + 0x1_0000_0000_0000_0000
    }) by (bit_vector)
        requires
            bits == lparam as u64,
    ;
    let mouse: u64 = bits % 0x1_0000_0000;
    if mouse == WM_LBUTTONUP as u64 {
        TrayAction::ToggleWidget
    } else if mouse == WM_RBUTTONUP as u64 {
        TrayAction::ShowContextMenu
    } else {
        TrayAction::Nothing
    }
}

/// Copies a string into a 256-wide buffer.
pub fn copy_wide_256(s: &str, buf: &mut [u16; 256])
    ensures
        final(buf)@ == utf16::copied(s@, old(buf)@),
{
    utf16::copy_wide(s, buf)
}

/// Copies a string into the buffer of a tooltip (at most 127 units and a zero).
pub fn copy_to_tip(s: &str, tip: &mut [u16; 128])
    ensures
        final(tip)@ == utf16::copied(s@, old(tip)@),
{
    utf16::copy_wide(s, tip)
}

/// What is wanted of a kind is what the first data for it say: the rendered percentage and
/// the tooltip; nothing if there are no data for it.
pub proof fn law_wanted_is_what_the_first_data_say(
    icons: Seq<TrayIconData>,
    kind: TrayIconKind,
    i: int,
)
    requires
        0 <= i <= icons.len(),
        forall|j: int| 0 <= j < i ==> (#[trigger] icons[j]).kind != kind,
        i < icons.len() ==> icons[i].kind == kind,
    ensures
        i == icons.len() ==> wanted_icon(icons, kind) is None,
        i < icons.len() ==> (wanted_icon(icons, kind) matches Some(icon) && icon.tooltip
            == icons[i].tooltip@ && icon.key == badge::render_key_of(icons[i].percent)),
{
    lemma_data_place(icons, kind, i);
}

/// The shell is told exactly what changed: nothing if it shows what is wanted; to remove the
/// icon if none is wanted; to add it if none is shown, and to modify it if another one is,
/// each with the other message where the first is not accepted, and with the first data for
/// the kind.
pub proof fn law_sync_step_in_cases(
    shown: Option<Icon>,
    icons: Seq<TrayIconData>,
    kind: TrayIconKind,
)
    requires
        icons.len() <= usize::MAX,
    ensures
        ({
            let wanted = wanted_icon(icons, kind);
            let step = sync_next(shown, icons, kind);
            &&& step is Skip <==> shown == wanted
            &&& step is Remove <==> shown is Some && wanted is None
            &&& step is Notify <==> wanted is Some && shown != wanted
            &&& step matches SyncStep::Notify { at, first, fallback } ==> {
                &&& at < icons.len() && icons[at as int].kind == kind
                &&& wanted == Some(icon_of(icons[at as int]))
                &&& first is Add <==> shown is None
                &&& fallback is Add <==> shown is Some
            }
        }),
{
    lemma_place_holds_kind(icons, kind);
}

/// What is recorded as shown afterwards is what the shell shows: what it was told if it
/// accepted that, nothing if it refused, and what it showed if it was told nothing.
pub proof fn law_record_follows_the_shell(
    shown: Option<Icon>,
    icons: Seq<TrayIconData>,
    kind: TrayIconKind,
)
    ensures
        shown_after(shown, icons, kind, true) == wanted_icon(icons, kind),
        shown == wanted_icon(icons, kind) ==> shown_after(shown, icons, kind, false) == shown,
        shown != wanted_icon(icons, kind) ==> shown_after(shown, icons, kind, false) is None,
{
}

/// A release of the left button toggles the widget, one of the right button shows the menu,
/// and no other message does anything.
pub proof fn law_mouse_buttons(lparam: i64, action: TrayAction)
    requires
        call_ensures(handle_message, (lparam,), action),
    ensures
        action is ToggleWidget <==> lparam as int % 0x1_0000_0000 == 0x202,
        action is ShowContextMenu <==> lparam as int % 0x1_0000_0000 == 0x205,
{
}

/// The shell is never told to replace an icon by one that could not be built.
pub proof fn law_unbuilt_icon_is_not_sent(
    kind: TrayIconKind,
    icon_built: bool,
    message: Notification,
)
    requires
        call_ensures(notify_icon, (kind, icon_built), message),
    ensures
        message.flags == (if icon_built {
            7int
        } else {
            5
        }),
        message.id == kind.shell_id(),
{
}

} // verus!
