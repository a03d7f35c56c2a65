use crate::ids::WindowId;
use vstd::prelude::*;

verus! {

/// The kinds of notification counters the policy maintains.
#[derive(Clone, Copy, PartialEq, Eq, Structural, Debug)]
pub enum NotificationKind {
    FriendRequest,
    Message,
    Settings,
}

/// Per-kind notification counters.
#[derive(Clone, Copy, PartialEq, Eq, Structural, Debug)]
pub struct Notifications {
    pub friends: u32,
    pub messages: u32,
    pub settings: u32,
}

/// The counter value for one kind.
pub open spec fn kind_count(n: Notifications, kind: NotificationKind) -> u32 {
    match kind {
        NotificationKind::FriendRequest => n.friends,
        NotificationKind::Message => n.messages,
        NotificationKind::Settings => n.settings,
    }
}

/// The counters with one kind set to a value.
pub open spec fn with_kind_count(n: Notifications, kind: NotificationKind, v: u32)
    -> Notifications {
    match kind {
        NotificationKind::FriendRequest => Notifications { friends: v, ..n },
        NotificationKind::Message => Notifications { messages: v, ..n },
        NotificationKind::Settings => Notifications { settings: v, ..n },
    }
}

/// A saturating counter add.
pub open spec fn sat_add_u32(a: u32, b: u32) -> u32 {
    if a + b <= u32::MAX {
        (a + b) as u32
    } else {
        u32::MAX
    }
}

/// A saturating counter subtract.
pub open spec fn sat_sub_u32(a: u32, b: u32) -> u32 {
    if a >= b {
        (a - b) as u32
    } else {
        0
    }
}

impl Notifications {
    /// All counters at zero.
    pub fn new() -> (r: Notifications)
        ensures
            r == (Notifications { friends: 0u32, messages: 0u32, settings: 0u32 }),
    {
        Notifications { friends: 0, messages: 0, settings: 0 }
    }

    /// Raises one kind's counter, saturating at the largest value. The
    /// counters deliberately track every qualifying event, read or not:
    /// gating by focus and per-category configuration applies to the
    /// out-of-process alert and sound (the policy module decides those),
    /// while badge counts are cleared explicitly when their surface is
    /// opened.
    pub fn increment(&mut self, kind: NotificationKind, count: u32)
        ensures
            *final(self) == with_kind_count(
                *old(self),
                kind,
                sat_add_u32(kind_count(*old(self), kind), count),
            ),
    {
        match kind {
            NotificationKind::FriendRequest => self.friends = self.friends.saturating_add(count),
            NotificationKind::Message => self.messages = self.messages.saturating_add(count),
            NotificationKind::Settings => self.settings = self.settings.saturating_add(count),
        }
    }

    /// Lowers one kind's counter, saturating at zero.
    pub fn decrement(&mut self, kind: NotificationKind, count: u32)
        ensures
            *final(self) == with_kind_count(
                *old(self),
                kind,
                sat_sub_u32(kind_count(*old(self), kind), count),
            ),
    {
        match kind {
            NotificationKind::FriendRequest => self.friends = self.friends.saturating_sub(count),
            NotificationKind::Message => self.messages = self.messages.saturating_sub(count),
            NotificationKind::Settings => self.settings = self.settings.saturating_sub(count),
        }
    }

    /// Clears one kind's counter.
    pub fn clear_kind(&mut self, kind: NotificationKind)
        ensures
            *final(self) == with_kind_count(*old(self), kind, 0u32),
    {
        match kind {
            NotificationKind::FriendRequest => self.friends = 0,
            NotificationKind::Message => self.messages = 0,
            NotificationKind::Settings => self.settings = 0,
        }
    }

    /// Clears every counter.
    pub fn clear_all(&mut self)
        ensures
            *final(self) == (Notifications { friends: 0u32, messages: 0u32, settings: 0u32 }),
    {
        self.friends = 0;
        self.messages = 0;
        self.settings = 0;
    }
}

/// A transient toast message with a countdown lifetime, decremented once
/// per fixed tick and removed at zero.
#[derive(Debug)]
pub struct ToastNotification {
    pub title: String,
    pub content: String,
    pub initial_time: u32,
    pub remaining_time: u32,
}

/// The mathematical model of a toast.
#[verifier::ext_equal]
pub ghost struct ToastView {
    pub title: Seq<char>,
    pub content: Seq<char>,
    pub initial_time: u32,
    pub remaining_time: u32,
}

impl DeepView for ToastNotification {
    type V = ToastView;

    open spec fn deep_view(&self) -> ToastView {
        ToastView {
            title: self.title@,
            content: self.content@,
            initial_time: self.initial_time,
            remaining_time: self.remaining_time,
        }
    }
}

impl View for ToastNotification {
    type V = ToastView;

    open spec fn view(&self) -> ToastView {
        self.deep_view()
    }
}

impl Clone for ToastNotification {
    fn clone(&self) -> (r: Self)
        ensures
            r@ == self@,
    {
        let r = ToastNotification {
            title: self.title.clone(),
            content: self.content.clone(),
            initial_time: self.initial_time,
            remaining_time: self.remaining_time,
        };
        proof {
            assert(r@ =~= self@);
        }
        r
    }
}

impl ToastNotification {
    /// A toast with a full countdown.
    pub fn new(title: String, content: String, lifetime: u32) -> (r: ToastNotification)
        ensures
            r@ == (ToastView {
                title: title@,
                content: content@,
                initial_time: lifetime,
                remaining_time: lifetime,
            }),
    {
        let r = ToastNotification { title, content, initial_time: lifetime,
            remaining_time: lifetime };
        proof {
            assert(r@ =~= (ToastView {
                title: r.title@,
                content: r.content@,
                initial_time: lifetime,
                remaining_time: lifetime,
            }));
        }
        r
    }

    /// One tick of the countdown, saturating at zero.
    pub fn decrement_time(&mut self)
        ensures
            (final(self)@ == ToastView {
                remaining_time: sat_sub_u32(old(self).remaining_time, 1),
                ..old(self)@
            }),
    {
        self.remaining_time = self.remaining_time.saturating_sub(1);
    }

    /// Restarts the countdown from its initial lifetime.
    pub fn reset_time(&mut self)
        ensures
            (final(self)@ == ToastView {
                remaining_time: old(self).initial_time,
                ..old(self)@
            }),
    {
        self.remaining_time = self.initial_time;
    }

    /// The ticks left before the toast decays.
    pub fn remaining_time(&self) -> (r: u32)
        ensures
            r == self.remaining_time,
    {
        self.remaining_time
    }
}

/// A colour theme selection.
#[derive(Debug)]
pub struct Theme {
    pub name: String,
}

impl Clone for Theme {
    fn clone(&self) -> (r: Self)
        ensures
            r@ == self@,
    {
        Theme { name: self.name.clone() }
    }
}

impl DeepView for Theme {
    type V = Seq<char>;

    open spec fn deep_view(&self) -> Seq<char> {
        self.name@
    }
}

impl View for Theme {
    type V = Seq<char>;

    open spec fn view(&self) -> Seq<char> {
        self.name@
    }
}

/// A font selection.
#[derive(Debug)]
pub struct Font {
    pub name: String,
}

impl Clone for Font {
    fn clone(&self) -> (r: Self)
        ensures
            r@ == self@,
    {
        Font { name: self.name.clone() }
    }
}

impl DeepView for Font {
    type V = Seq<char>;

    open spec fn deep_view(&self) -> Seq<char> {
        self.name@
    }
}

impl View for Font {
    type V = Seq<char>;

    open spec fn view(&self) -> Seq<char> {
        self.name@
    }
}

/// What the window system reports about the application window.
#[derive(Clone, Copy, PartialEq, Eq, Structural, Debug)]
pub struct WindowMeta {
    pub focused: bool,
    pub maximized: bool,
    pub minimal_view: bool,
}

/// Which top-level layout the UI currently shows.
#[derive(Clone, Copy, PartialEq, Eq, Structural, Debug)]
pub enum Layout {
    Welcome,
    Compose,
    Friends,
    Settings,
    Storage,
}

/// UI-transient state: counters, toasts, theme and font selection, window
/// metadata and the current layout.
#[derive(Debug)]
pub struct UI {
    pub notifications: Notifications,
    pub toast_notifications: Vec<(u128, ToastNotification)>,
    pub theme: Option<Theme>,
    pub font: Option<Font>,
    pub enable_overlay: bool,
    pub overlays: Vec<WindowId>,
    pub sidebar_hidden: bool,
    pub metadata: WindowMeta,
    pub current_layout: Layout,
    pub cached_username: Option<String>,
    pub muted: bool,
    pub silenced: bool,
    pub popout_media_player: bool,
    pub call_active: bool,
}

/// The mathematical model of the UI-transient state.
#[verifier::ext_equal]
pub ghost struct UIView {
    pub notifications: Notifications,
    pub toast_notifications: Seq<(u128, ToastView)>,
    pub theme: Option<Seq<char>>,
    pub font: Option<Seq<char>>,
    pub enable_overlay: bool,
    pub overlays: Seq<WindowId>,
    pub sidebar_hidden: bool,
    pub metadata: WindowMeta,
    pub current_layout: Layout,
    pub cached_username: Option<Seq<char>>,
    pub muted: bool,
    pub silenced: bool,
    pub popout_media_player: bool,
    pub call_active: bool,
}

impl DeepView for UI {
    type V = UIView;

    open spec fn deep_view(&self) -> UIView {
        UIView {
            notifications: self.notifications,
            toast_notifications: self.toast_notifications.deep_view(),
            theme: self.theme.deep_view(),
            font: self.font.deep_view(),
            enable_overlay: self.enable_overlay,
            overlays: self.overlays@,
            sidebar_hidden: self.sidebar_hidden,
            metadata: self.metadata,
            current_layout: self.current_layout,
            cached_username: self.cached_username.deep_view(),
            muted: self.muted,
            silenced: self.silenced,
            popout_media_player: self.popout_media_player,
            call_active: self.call_active,
        }
    }
}

impl View for UI {
    type V = UIView;

    open spec fn view(&self) -> UIView {
        self.deep_view()
    }
}

/// The toast keys, in entry order.
pub open spec fn toast_keys(t: Seq<(u128, ToastView)>) -> Seq<u128> {
    t.map_values(|e: (u128, ToastView)| e.0)
}

/// The default UI state.
pub open spec fn default_ui_view() -> UIView {
    UIView {
        notifications: Notifications { friends: 0u32, messages: 0u32, settings: 0u32 },
        toast_notifications: Seq::<(u128, ToastView)>::empty(),
        theme: None,
        font: None,
        enable_overlay: false,
        overlays: Seq::<WindowId>::empty(),
        sidebar_hidden: false,
        metadata: WindowMeta { focused: false, maximized: false, minimal_view: false },
        current_layout: Layout::Welcome,
        cached_username: None,
        muted: false,
        silenced: false,
        popout_media_player: false,
        call_active: false,
    }
}

impl UI {
    /// The structural invariant: no toast key occurs twice.
    pub open spec fn wf(self) -> bool {
        toast_keys(self@.toast_notifications).no_duplicates()
    }

    /// Fresh UI state.
    pub fn new() -> (r: UI)
        ensures
            r@ == default_ui_view(),
            r.wf(),
    {
        let r = UI {
            notifications: Notifications::new(),
            toast_notifications: Vec::new(),
            theme: None,
            font: None,
            enable_overlay: false,
            overlays: Vec::new(),
            sidebar_hidden: false,
            metadata: WindowMeta { focused: false, maximized: false, minimal_view: false },
            current_layout: Layout::Welcome,
            cached_username: None,
            muted: false,
            silenced: false,
            popout_media_player: false,
            call_active: false,
        };
        proof {
            assert(r.toast_notifications.deep_view()
                =~= Seq::<(u128, ToastView)>::empty());
            assert(r@ =~= default_ui_view());
        }
        r
    }

    /// Whether some toast key equals the given key.
    pub open spec fn has_toast_key(self, key: u128) -> bool {
        exists|i: int| 0 <= i < self@.toast_notifications.len()
            && self@.toast_notifications[i].0 == key
    }

    /// Index of the first toast entry carrying the key.
    pub open spec fn first_toast_index(self, key: u128) -> int {
        first_toast_index_in(self@.toast_notifications, key)
    }

    /// Enqueues a toast under a freshly generated key: replaces the entry if
    /// the key is already taken, appends it otherwise.
    pub fn insert_toast(&mut self, key: u128, toast: ToastNotification)
        ensures
            old(self).wf() ==> final(self).wf(),
            ({
                let t0 = old(self)@.toast_notifications;
                if old(self).has_toast_key(key) {
                    final(self)@ == UIView {
                        toast_notifications: t0.update(
                            first_toast_index_in(t0, key),
                            (key, toast@),
                        ),
                        ..old(self)@
                    }
                } else {
                    final(self)@ == UIView {
                        toast_notifications: t0.push((key, toast@)),
                        ..old(self)@
                    }
                }
            }),
    {
        let ghost t0 = self@.toast_notifications;
        let mut i: usize = 0;
        let n = self.toast_notifications.len();
        while i < n
            invariant
                n == self.toast_notifications.len(),
                i <= n,
                *self == *old(self),
                forall|k: int| 0 <= k < i ==> t0[k].0 != key,
                t0 == self@.toast_notifications,
            decreases n - i,
    {
            if self.toast_notifications[i].0 == key {
                proof {
                    lemma_first_toast_index(t0, key, i as int);
                    assert(t0[i as int].0 == key);
                    assert(old(self).has_toast_key(key));
                }
                self.toast_notifications.set(i, (key, toast));
                proof {
                    assert(self.toast_notifications.deep_view()
                        =~= t0.update(i as int, (key, toast@)));
                    assert(self@ =~= (UIView {
                        toast_notifications: t0.update(
                            first_toast_index_in(t0, key),
                            (key, toast@),
                        ),
                        ..old(self)@
                    }));
                    if old(self).wf() {
                        assert(toast_keys(self@.toast_notifications)
                            =~= toast_keys(t0));
                    }
                }
                return;
            }
            i += 1;
        }
        self.toast_notifications.push((key, toast));
        proof {
            assert(self.toast_notifications.deep_view() =~= t0.push((key, toast@)));
            assert(self@ =~= (UIView {
                toast_notifications: t0.push((key, toast@)),
                ..old(self)@
            }));
            if old(self).wf() {
                let ks = toast_keys(self@.toast_notifications);
                assert(ks =~= toast_keys(t0).push(key));
                assert forall|p: int, q: int| 0 <= p < q < ks.len()
                    implies ks[p] != ks[q] by {
                    if q == ks.len() - 1 {
                        assert(toast_keys(t0)[p] == t0[p].0);
                    }
                }
            }
        }
    }

    /// Removes the toast carrying the key, if any.
    pub fn remove_toast(&mut self, key: u128)
        ensures
            old(self).wf() ==> final(self).wf(),
            ({
                let t0 = old(self)@.toast_notifications;
                if old(self).has_toast_key(key) {
                    final(self)@ == UIView {
                        toast_notifications: t0.remove(first_toast_index_in(t0, key)),
                        ..old(self)@
                    }
                } else {
                    final(self)@ == old(self)@
                }
            }),
    {
        let ghost t0 = self@.toast_notifications;
        let mut i: usize = 0;
        let n = self.toast_notifications.len();
        while i < n
            invariant
                n == self.toast_notifications.len(),
                i <= n,
                *self == *old(self),
                forall|k: int| 0 <= k < i ==> t0[k].0 != key,
                t0 == self@.toast_notifications,
            decreases n - i,
        {
            if self.toast_notifications[i].0 == key {
                proof {
                    lemma_first_toast_index(t0, key, i as int);
                    assert(t0[i as int].0 == key);
                    assert(old(self).has_toast_key(key));
                }
                self.toast_notifications.remove(i);
                proof {
                    assert(self.toast_notifications.deep_view()
                        =~= t0.remove(i as int));
                    assert(self@ =~= (UIView {
                        toast_notifications: t0.remove(first_toast_index_in(t0, key)),
                        ..old(self)@
                    }));
                    if old(self).wf() {
                        assert(toast_keys(self@.toast_notifications)
                            =~= toast_keys(t0).remove(i as int));
                        assert forall|p: int, q: int|
                            0 <= p < q < toast_keys(self@.toast_notifications).len()
                            implies toast_keys(self@.toast_notifications)[p]
                                != toast_keys(self@.toast_notifications)[q] by {
                            let ks = toast_keys(t0);
                            let pp = if p < i as int { p } else { p + 1 };
                            let qq = if q < i as int { q } else { q + 1 };
                            assert(toast_keys(self@.toast_notifications)[p] == ks[pp]);
                            assert(toast_keys(self@.toast_notifications)[q] == ks[qq]);
                        }
                    }
                }
                return;
            }
            i += 1;
        }
    }

    /// Restarts the countdown of the toast carrying the key, if any.
    pub fn reset_toast_timer(&mut self, key: u128)
        ensures
            old(self).wf() ==> final(self).wf(),
            ({
                let t0 = old(self)@.toast_notifications;
                if old(self).has_toast_key(key) {
                    let i = first_toast_index_in(t0, key);
                    final(self)@ == UIView {
                        toast_notifications: t0.update(i, (
                            key,
                            ToastView { remaining_time: t0[i].1.initial_time, ..t0[i].1 },
                        )),
                        ..old(self)@
                    }
                } else {
                    final(self)@ == old(self)@
                }
            }),
    {
        let ghost t0 = self@.toast_notifications;
        let mut i: usize = 0;
        let n = self.toast_notifications.len();
        while i < n
            invariant
                n == self.toast_notifications.len(),
                i <= n,
                *self == *old(self),
                forall|k: int| 0 <= k < i ==> t0[k].0 != key,
                t0 == self@.toast_notifications,
            decreases n - i,
        {
            if self.toast_notifications[i].0 == key {
                proof {
                    lemma_first_toast_index(t0, key, i as int);
                    assert(t0[i as int].0 == key);
                    assert(old(self).has_toast_key(key));
                }
                let mut entry = self.toast_notifications.remove(i);
                entry.1.reset_time();
                self.toast_notifications.insert(i, entry);
                proof {
                    assert(self.toast_notifications.deep_view() =~= t0.update(
                        i as int,
                        (key, ToastView {
                            remaining_time: t0[i as int].1.initial_time,
                            ..t0[i as int].1
                        }),
                    ));
                    assert(self@ =~= (UIView {
                        toast_notifications: t0.update(i as int, (
                            key,
                            ToastView {
                                remaining_time: t0[i as int].1.initial_time,
                                ..t0[i as int].1
                            },
                        )),
                        ..old(self)@
                    }));
                    if old(self).wf() {
                        assert(toast_keys(self@.toast_notifications)
                            =~= toast_keys(t0));
                    }
                }
                return;
            }
            i += 1;
        }
    }

    /// Whether any toast is pending.
    pub fn has_toasts(&self) -> (r: bool)
        ensures
            r == (self@.toast_notifications.len() > 0),
    {
        self.toast_notifications.len() > 0
    }
}

/// One decay tick applied to every toast: each countdown drops by one and
/// the toasts that reach zero are removed.
pub open spec fn decayed_toasts(t: Seq<(u128, ToastView)>) -> Seq<(u128, ToastView)> {
    t.map_values(
        |e: (u128, ToastView)| (e.0, ToastView {
            remaining_time: sat_sub_u32(e.1.remaining_time, 1),
            ..e.1
        }),
    ).filter(|e: (u128, ToastView)| e.1.remaining_time > 0)
}

impl UI {
    /// The entry occurs among the first `bound` positions of `t0`.
    pub open spec fn toast_within(t0: Seq<(u128, ToastView)>, bound: int,
        e: (u128, ToastView)) -> bool {
        exists|m: int| 0 <= m < bound && t0[m] == e
    }

    /// Applies one decay tick to every toast and drops the expired ones;
    /// returns whether any toast was dropped.
    pub fn decrement_toasts(&mut self) -> (removed: bool)
        ensures
            old(self).wf() ==> final(self).wf(),
            (final(self)@ == UIView {
                toast_notifications: decayed_toasts(old(self)@.toast_notifications),
                ..old(self)@
            }),
            removed == (final(self)@.toast_notifications.len()
                != old(self)@.toast_notifications.len()),
    {
        let ghost t0 = self@.toast_notifications;
        let ghost dec = |e: (u128, ToastView)| (e.0, ToastView {
            remaining_time: sat_sub_u32(e.1.remaining_time, 1),
            ..e.1
        });
        let ghost keep = |e: (u128, ToastView)| e.1.remaining_time > 0;
        let ghost m0 = t0.map_values(dec);
        let mut kept: Vec<(u128, ToastNotification)> = Vec::new();
        let mut i: usize = 0;
        let n = self.toast_notifications.len();
        while i < n
            invariant
                n == self.toast_notifications.len(),
                i <= n,
                *self == *old(self),
                t0 == self@.toast_notifications,
                dec == (|e: (u128, ToastView)| (e.0, ToastView {
                    remaining_time: sat_sub_u32(e.1.remaining_time, 1),
                    ..e.1
                })),
                keep == (|e: (u128, ToastView)| e.1.remaining_time > 0),
                m0 == t0.map_values(dec),
                kept.deep_view() == m0.take(i as int).filter(keep),
                forall|k: int| 0 <= k < kept.deep_view().len()
                    ==> #[trigger] UI::toast_within(m0, i as int, kept.deep_view()[k]),
                old(self).wf() ==> toast_keys(kept.deep_view()).no_duplicates(),
            decreases n - i,
        {
            proof {
                assert(m0.take(i as int + 1) =~= m0.take(i as int).push(m0[i as int]));
                assert(m0.take(i as int + 1).drop_last() =~= m0.take(i as int));
                reveal(Seq::filter);
            }
            let ghost kept0 = kept.deep_view();
            let entry = &self.toast_notifications[i];
            let key = entry.0;
            let mut toast = entry.1.clone();
            toast.decrement_time();
            let alive = toast.remaining_time() > 0;
            proof {
                assert((key, toast@) == m0[i as int]);
            }
            if alive {
                kept.push((key, toast));
                proof {
                    assert(kept.deep_view() =~= kept0.push(m0[i as int]));
                    assert(kept.deep_view() =~= m0.take(i as int + 1).filter(keep));
                    assert forall|k: int| 0 <= k < kept.deep_view().len()
                        implies #[trigger] UI::toast_within(m0, i as int + 1,
                            kept.deep_view()[k]) by {
                        if k == kept.deep_view().len() - 1 {
                            assert(m0[i as int] == kept.deep_view()[k]);
                        } else {
                            assert(kept.deep_view()[k] == kept0[k]);
                            assert(UI::toast_within(m0, i as int, kept0[k]));
                        }
                    }
                    if old(self).wf() {
                        let ks = toast_keys(kept.deep_view());
                        assert(ks =~= toast_keys(kept0).push(key));
                        assert forall|pp: int, q: int| 0 <= pp < q < ks.len()
                            implies ks[pp] != ks[q] by {
                            if q == ks.len() - 1 {
                                assert(UI::toast_within(m0, i as int, kept0[pp]));
                                let m = choose|m: int| 0 <= m < i as int
                                    && m0[m] == kept0[pp];
                                assert(toast_keys(t0)[m] == t0[m].0);
                                assert(m0[m].0 == t0[m].0);
                                assert(toast_keys(t0)[i as int] == t0[i as int].0);
                                assert(m0[i as int].0 == t0[i as int].0);
                                assert(ks[pp] == kept0[pp].0);
                            } else {
                                assert(toast_keys(kept0)[pp] == ks[pp]);
                                assert(toast_keys(kept0)[q] == ks[q]);
                            }
                        }
                    }
                }
            } else {
                proof {
                    assert(kept.deep_view() =~= m0.take(i as int + 1).filter(keep));
                    assert forall|k: int| 0 <= k < kept.deep_view().len()
                        implies #[trigger] UI::toast_within(m0, i as int + 1,
                            kept.deep_view()[k]) by {
                        assert(UI::toast_within(m0, i as int, kept.deep_view()[k]));
                    }
                }
            }
            i += 1;
        }
        proof {
            assert(m0.take(m0.len() as int) =~= m0);
        }
        let removed = kept.len() != self.toast_notifications.len();
        self.toast_notifications = kept;
        proof {
            assert(self@ =~= (UIView {
                toast_notifications: decayed_toasts(t0),
                ..old(self)@
            }));
        }
        removed
    }

    /// Flips the mute flag.
    pub fn toggle_muted(&mut self)
        ensures
            (final(self)@ == UIView { muted: !old(self).muted, ..old(self)@ }),
            final(self).wf() == old(self).wf(),
    {
        self.muted = !self.muted;
    }

    /// Flips the silence flag.
    pub fn toggle_silenced(&mut self)
        ensures
            (final(self)@ == UIView { silenced: !old(self).silenced, ..old(self)@ }),
            final(self).wf() == old(self).wf(),
    {
        self.silenced = !self.silenced;
    }

    /// Registers an overlay window handle.
    pub fn add_overlay(&mut self, w: WindowId)
        ensures
            (final(self)@ == UIView {
                overlays: old(self)@.overlays.push(w),
                ..old(self)@
            }),
            final(self).wf() == old(self).wf(),
    {
        self.overlays.push(w);
        proof {
            assert(self@ =~= (UIView {
                overlays: old(self)@.overlays.push(w),
                ..old(self)@
            }));
        }
    }

    /// Drops every overlay registered under the window handle.
    pub fn remove_overlay(&mut self, w: WindowId)
        ensures
            (final(self)@ == UIView {
                overlays: old(self)@.overlays.filter(|x: WindowId| x != w),
                ..old(self)@
            }),
            final(self).wf() == old(self).wf(),
    {
        let ghost s0 = self@.overlays;
        let ghost pred = |x: WindowId| x != w;
        let mut kept: Vec<WindowId> = Vec::new();
        let mut i: usize = 0;
        let n = self.overlays.len();
        while i < n
            invariant
                n == self.overlays.len(),
                i <= n,
                *self == *old(self),
                s0 == self@.overlays,
                pred == (|x: WindowId| x != w),
                kept@ == s0.take(i as int).filter(pred),
            decreases n - i,
        {
            proof {
                assert(s0.take(i as int + 1) =~= s0.take(i as int).push(s0[i as int]));
                assert(s0.take(i as int + 1).drop_last() =~= s0.take(i as int));
                reveal(Seq::filter);
            }
            let x = self.overlays[i];
            if x.0 != w.0 {
                kept.push(x);
                proof {
                    assert(kept@ =~= s0.take(i as int + 1).filter(pred));
                }
            } else {
                proof {
                    assert(kept@ =~= s0.take(i as int + 1).filter(pred));
                }
            }
            i += 1;
        }
        proof {
            assert(s0.take(s0.len() as int) =~= s0);
        }
        self.overlays = kept;
        proof {
            assert(self@ =~= (UIView {
                overlays: s0.filter(pred),
                ..old(self)@
            }));
        }
    }

    /// Clears every overlay handle.
    pub fn clear_overlays(&mut self)
        ensures
            (final(self)@ == UIView {
                overlays: Seq::<WindowId>::empty(),
                ..old(self)@
            }),
            final(self).wf() == old(self).wf(),
    {
        self.overlays = Vec::new();
        proof {
            assert(self@ =~= (UIView {
                overlays: Seq::<WindowId>::empty(),
                ..old(self)@
            }));
        }
    }
}

/// An exact copy of a toast table.
pub fn clone_toasts(v: &Vec<(u128, ToastNotification)>) -> (r: Vec<(u128, ToastNotification)>)
    ensures
        r.deep_view() == v.deep_view(),
{
    let mut r: Vec<(u128, ToastNotification)> = Vec::new();
    let mut i: usize = 0;
    while i < v.len()
        invariant
            i <= v.len(),
            r.deep_view() == v.deep_view().take(i as int),
        decreases v.len() - i,
    {
        let ghost rq0 = r@;
        let ghost rv0 = r.deep_view();
        let entry = (v[i].0, v[i].1.clone());
        r.push(entry);
        proof {
            assert(entry.deep_view() == v.deep_view()[i as int]);
            assert(r@ == rq0.push(entry));
            assert forall|k: int| 0 <= k < rv0.len() + 1
                implies r.deep_view()[k] == v.deep_view().take(i as int + 1)[k] by {
                assert(r.deep_view()[k] == r@[k].deep_view());
                if k < rv0.len() {
                    assert(r@[k] == rq0[k]);
                    assert(rq0[k].deep_view() == rv0[k]);
                    assert(rv0[k] == v.deep_view().take(i as int)[k]);
                } else {
                    assert(r@[k] == entry);
                }
            }
            assert(r.deep_view() =~= v.deep_view().take(i as int + 1));
        }
        i += 1;
    }
    proof {
        assert(v.deep_view().take(v@.len() as int) =~= v.deep_view());
    }
    r
}

/// An exact copy of an overlay list.
pub fn copy_windows(v: &Vec<WindowId>) -> (r: Vec<WindowId>)
    ensures
        r@ == v@,
{
    let mut r: Vec<WindowId> = Vec::new();
    let mut i: usize = 0;
    while i < v.len()
        invariant
            i <= v.len(),
            r@ == v@.take(i as int),
        decreases v.len() - i,
    {
        r.push(v[i]);
        proof {
            assert(v@.take(i as int + 1) =~= v@.take(i as int).push(v@[i as int]));
        }
        i += 1;
    }
    proof {
        assert(v@.take(v@.len() as int) =~= v@);
    }
    r
}

impl Clone for UI {
    fn clone(&self) -> (r: Self)
        ensures
            r@ == self@,
            r.wf() == self.wf(),
    {
        let r = UI {
            notifications: self.notifications,
            toast_notifications: clone_toasts(&self.toast_notifications),
            theme: self.theme.clone(),
            font: self.font.clone(),
            enable_overlay: self.enable_overlay,
            overlays: copy_windows(&self.overlays),
            sidebar_hidden: self.sidebar_hidden,
            metadata: self.metadata,
            current_layout: self.current_layout,
            cached_username: self.cached_username.clone(),
            muted: self.muted,
            silenced: self.silenced,
            popout_media_player: self.popout_media_player,
            call_active: self.call_active,
        };
        proof {
            assert(r.theme.deep_view() =~= self.theme.deep_view()) by {
                if self.theme is Some {
                    assert(vstd::pervasive::cloned::<Theme>(
                        self.theme.unwrap(),
                        r.theme.unwrap(),
                    ));
                }
            }
            assert(r.font.deep_view() =~= self.font.deep_view()) by {
                if self.font is Some {
                    assert(vstd::pervasive::cloned::<Font>(
                        self.font.unwrap(),
                        r.font.unwrap(),
                    ));
                }
            }
            assert(r@ =~= self@);
        }
        r
    }
}

/// Index of the first toast entry carrying the key (meaningful only when
/// one exists).
pub open spec fn first_toast_index_in(t: Seq<(u128, ToastView)>, key: u128) -> int
    decreases t.len(),
{
    if t.len() == 0 {
        0
    } else if t[0].0 == key {
        0
    } else {
        1 + first_toast_index_in(t.drop_first(), key)
    }
}

/// A position whose key matches, before which no key matches, is the first
/// matching position.
pub proof fn lemma_first_toast_index(t: Seq<(u128, ToastView)>, key: u128, j: int)
    requires
        0 <= j < t.len(),
        t[j].0 == key,
        forall|k: int| 0 <= k < j ==> t[k].0 != key,
    ensures
        first_toast_index_in(t, key) == j,
    decreases j,
{
    if j == 0 {
    } else {
        lemma_first_toast_index(t.drop_first(), key, j - 1);
    }
}

} // verus!
