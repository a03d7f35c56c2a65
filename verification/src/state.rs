use crate::chat::{Chat, ChatView};
use crate::config::Configuration;
use crate::friends::{Friends, FriendsView};
use crate::identity::Identity;
use crate::ids::{ChatId, Did};
use crate::settings::{default_settings_view, Settings, SettingsView};
use crate::ui::{default_ui_view, toast_keys, UIView, UI};
use vstd::prelude::*;
use vstd::string::StringExecFns;

verus! {

/// The conversation side of the snapshot: the conversation table, the
/// active pointers, the sidebar ordering and the favorites ordering.
#[derive(Debug)]
pub struct Chats {
    pub all: Vec<Chat>,
    pub active: Option<ChatId>,
    pub active_media: Option<ChatId>,
    pub in_sidebar: Vec<ChatId>,
    pub favorites: Vec<ChatId>,
}

/// The mathematical model of the conversation side.
#[verifier::ext_equal]
pub ghost struct ChatsView {
    pub all: Seq<ChatView>,
    pub active: Option<ChatId>,
    pub active_media: Option<ChatId>,
    pub in_sidebar: Seq<ChatId>,
    pub favorites: Seq<ChatId>,
}

impl DeepView for Chats {
    type V = ChatsView;

    open spec fn deep_view(&self) -> ChatsView {
        ChatsView {
            all: self.all.deep_view(),
            active: self.active,
            active_media: self.active_media,
            in_sidebar: self.in_sidebar@,
            favorites: self.favorites@,
        }
    }
}

impl View for Chats {
    type V = ChatsView;

    open spec fn view(&self) -> ChatsView {
        self.deep_view()
    }
}

/// The conversation identifiers of a table, in table order.
pub open spec fn chat_ids(all: Seq<ChatView>) -> Seq<ChatId> {
    all.map_values(|c: ChatView| c.id)
}

/// The keys of an identity table, in table order.
pub open spec fn ident_dids(ids: Seq<Identity>) -> Seq<Did> {
    ids.map_values(|x: Identity| x.did)
}

/// Whether the table holds a conversation under the identifier.
pub open spec fn has_chat(all: Seq<ChatView>, id: ChatId) -> bool {
    exists|i: int| 0 <= i < all.len() && all[i].id == id
}

/// Index of the first conversation carrying the identifier (meaningful
/// only when `has_chat` holds; under the table invariant it is the only
/// one).
pub open spec fn chat_index_of(all: Seq<ChatView>, id: ChatId) -> int
    decreases all.len(),
{
    if all.len() == 0 {
        0
    } else if all[0].id == id {
        0
    } else {
        1 + chat_index_of(all.drop_first(), id)
    }
}

/// A position whose identifier matches, before which none matches, is the
/// first matching position.
pub proof fn lemma_chat_index_of(all: Seq<ChatView>, id: ChatId, j: int)
    requires
        0 <= j < all.len(),
        all[j].id == id,
        forall|k: int| 0 <= k < j ==> all[k].id != id,
    ensures
        has_chat(all, id),
        chat_index_of(all, id) == j,
    decreases j,
{
    if j == 0 {
    } else {
        lemma_chat_index_of(all.drop_first(), id, j - 1);
    }
}

/// When the table holds the identifier, the first matching position is in
/// range, matches, and nothing before it matches.
pub proof fn lemma_chat_index_bounds(all: Seq<ChatView>, id: ChatId)
    requires
        has_chat(all, id),
    ensures
        0 <= chat_index_of(all, id) < all.len(),
        all[chat_index_of(all, id)].id == id,
        forall|k: int| 0 <= k < chat_index_of(all, id) ==> all[k].id != id,
    decreases all.len(),
{
    if all.len() == 0 {
    } else if all[0].id == id {
    } else {
        assert(has_chat(all.drop_first(), id)) by {
            let i = choose|i: int| 0 <= i < all.len() && all[i].id == id;
            assert(all.drop_first()[i - 1].id == id);
        }
        lemma_chat_index_bounds(all.drop_first(), id);
        assert forall|k: int| 0 <= k < chat_index_of(all, id) implies all[k].id != id by {
            if k > 0 {
                assert(all.drop_first()[k - 1] == all[k]);
            }
        }
    }
}

/// Whether the table holds an identity under the key.
pub open spec fn has_ident(ids: Seq<Identity>, d: Did) -> bool {
    exists|i: int| 0 <= i < ids.len() && ids[i].did == d
}

/// Index of the first identity carrying the key.
pub open spec fn ident_index_of(ids: Seq<Identity>, d: Did) -> int
    decreases ids.len(),
{
    if ids.len() == 0 {
        0
    } else if ids[0].did == d {
        0
    } else {
        1 + ident_index_of(ids.drop_first(), d)
    }
}

/// A position whose key matches, before which none matches, is the first
/// matching position.
pub proof fn lemma_ident_index_of(ids: Seq<Identity>, d: Did, j: int)
    requires
        0 <= j < ids.len(),
        ids[j].did == d,
        forall|k: int| 0 <= k < j ==> ids[k].did != d,
    ensures
        has_ident(ids, d),
        ident_index_of(ids, d) == j,
    decreases j,
{
    if j == 0 {
    } else {
        lemma_ident_index_of(ids.drop_first(), d, j - 1);
    }
}

/// The root aggregate: the whole in-memory application state, owned and
/// mutated by one writer through `mutate` and `process_warp_event` alone.
#[derive(Debug)]
pub struct State {
    pub id: Did,
    pub route: String,
    pub chats: Chats,
    pub friends: Friends,
    pub settings: Settings,
    pub ui: UI,
    pub configuration: Configuration,
    pub identities: Vec<Identity>,
    pub initialized: bool,
}

/// The mathematical model of the whole snapshot.
#[verifier::ext_equal]
pub ghost struct StateView {
    pub id: Did,
    pub route: Seq<char>,
    pub chats: ChatsView,
    pub friends: FriendsView,
    pub settings: SettingsView,
    pub ui: UIView,
    pub configuration: Configuration,
    pub identities: Seq<Identity>,
    pub initialized: bool,
}

impl DeepView for State {
    type V = StateView;

    open spec fn deep_view(&self) -> StateView {
        StateView {
            id: self.id,
            route: self.route@,
            chats: self.chats.deep_view(),
            friends: self.friends.deep_view(),
            settings: self.settings.deep_view(),
            ui: self.ui.deep_view(),
            configuration: self.configuration,
            identities: self.identities@,
            initialized: self.initialized,
        }
    }
}

impl View for State {
    type V = StateView;

    open spec fn view(&self) -> StateView {
        self.deep_view()
    }
}

impl StateView {
    /// The snapshot's structural invariant: every conversation well-formed
    /// under a unique identifier, the friendship graph's four-set
    /// invariant, unique toast keys, and a unique key per cached identity.
    pub open spec fn wf(self) -> bool {
        &&& forall|i: int| 0 <= i < self.chats.all.len()
            ==> (#[trigger] self.chats.all[i]).wf()
        &&& chat_ids(self.chats.all).no_duplicates()
        &&& self.chats.favorites.no_duplicates()
        &&& self.friends.wf()
        &&& toast_keys(self.ui.toast_notifications).no_duplicates()
        &&& ident_dids(self.identities).no_duplicates()
    }

    /// The snapshot with the conversation at one table position replaced.
    pub open spec fn with_chat_at(self, i: int, c: ChatView) -> StateView {
        StateView {
            chats: ChatsView { all: self.chats.all.update(i, c), ..self.chats },
            ..self
        }
    }

    /// The default snapshot: everything empty, nothing initialized.
    pub open spec fn default_view() -> StateView {
        StateView {
            id: Did(0),
            route: Seq::<char>::empty(),
            chats: ChatsView {
                all: Seq::<ChatView>::empty(),
                active: None,
                active_media: None,
                in_sidebar: Seq::<ChatId>::empty(),
                favorites: Seq::<ChatId>::empty(),
            },
            friends: FriendsView {
                all: Seq::<Did>::empty(),
                incoming_requests: Seq::<Did>::empty(),
                outgoing_requests: Seq::<Did>::empty(),
                blocked: Seq::<Did>::empty(),
            },
            settings: default_settings_view(),
            ui: default_ui_view(),
            configuration: Configuration::default_spec(),
            identities: Seq::<Identity>::empty(),
            initialized: false,
        }
    }
}

impl State {
    /// The structural invariant, on the executable value.
    pub open spec fn wf(self) -> bool {
        self.deep_view().wf()
    }

    /// Constructs a fresh snapshot with default values.
    pub fn new() -> (r: State)
        ensures
            r@ == StateView::default_view(),
            r.wf(),
    {
        let r = State {
            id: Did(0),
            route: String::new(),
            chats: Chats {
                all: Vec::new(),
                active: None,
                active_media: None,
                in_sidebar: Vec::new(),
                favorites: Vec::new(),
            },
            friends: Friends::new(),
            settings: Settings::new(),
            ui: UI::new(),
            configuration: Configuration::new(),
            identities: Vec::new(),
            initialized: false,
        };
        proof {
            assert(r.chats.all.deep_view() =~= Seq::<ChatView>::empty());
            assert(r@ =~= StateView::default_view());
            assert(chat_ids(r@.chats.all) =~= Seq::<ChatId>::empty());
            assert(ident_dids(r@.identities) =~= Seq::<Identity>::empty()
                .map_values(|x: Identity| x.did));
        }
        r
    }

    /// The user's own key.
    pub fn did_key(&self) -> (r: Did)
        ensures
            r == self.id,
    {
        self.id
    }

    /// Read access to the conversation side.
    pub fn chats(&self) -> (r: &Chats)
        ensures
            r == &self.chats,
    {
        &self.chats
    }

    /// Read access to the friendship graph.
    pub fn friends(&self) -> (r: &Friends)
        ensures
            r == &self.friends,
    {
        &self.friends
    }

    /// Index of the conversation carrying the identifier, if present.
    pub fn find_chat_index(&self, id: ChatId) -> (r: Option<usize>)
        ensures
            match r {
                Some(i) => i < self@.chats.all.len() && has_chat(self@.chats.all, id)
                    && chat_index_of(self@.chats.all, id) == i as int
                    && self@.chats.all[i as int].id == id,
                None => !has_chat(self@.chats.all, id),
            },
    {
        let ghost all = self@.chats.all;
        let mut i: usize = 0;
        let n = self.chats.all.len();
        while i < n
            invariant
                n == self.chats.all.len(),
                i <= n,
                all == self@.chats.all,
                forall|k: int| 0 <= k < i ==> all[k].id != id,
            decreases n - i,
        {
            if self.chats.all[i].id.0 == id.0 {
                proof {
                    lemma_chat_index_of(all, id, i as int);
                }
                return Some(i);
            }
            i += 1;
        }
        None
    }

    /// Index of the cached identity carrying the key, if present.
    pub fn find_identity_index(&self, d: Did) -> (r: Option<usize>)
        ensures
            match r {
                Some(i) => i < self@.identities.len() && has_ident(self@.identities, d)
                    && ident_index_of(self@.identities, d) == i as int
                    && self@.identities[i as int].did == d,
                None => !has_ident(self@.identities, d),
            },
    {
        let ghost ids = self@.identities;
        let mut i: usize = 0;
        let n = self.identities.len();
        while i < n
            invariant
                n == self.identities.len(),
                i <= n,
                ids == self@.identities,
                forall|k: int| 0 <= k < i ==> ids[k].did != d,
            decreases n - i,
        {
            if self.identities[i].did.0 == d.0 {
                proof {
                    lemma_ident_index_of(ids, d, i as int);
                }
                return Some(i);
            }
            i += 1;
        }
        None
    }
}

/// The favorites list without every occurrence of an identifier.
pub open spec fn without_cid(s: Seq<ChatId>, id: ChatId) -> Seq<ChatId> {
    s.filter(|x: ChatId| x != id)
}

/// An ordering with the identifier moved (or inserted) at the front.
pub open spec fn to_front(s: Seq<ChatId>, id: ChatId) -> Seq<ChatId> {
    seq![id] + without_cid(s, id)
}

/// A snapshot whose conversation table was updated at one position keeps
/// the structural invariant when the new conversation is well-formed and
/// keeps its identifier.
pub proof fn lemma_wf_update_chat(s0: StateView, i: int, c: ChatView)
    requires
        s0.wf(),
        0 <= i < s0.chats.all.len(),
        c.wf(),
        c.id == s0.chats.all[i].id,
    ensures
        s0.with_chat_at(i, c).wf(),
{
    let s1 = s0.with_chat_at(i, c);
    assert(chat_ids(s1.chats.all) =~= chat_ids(s0.chats.all));
}

/// A snapshot change that leaves the conversation table, the friendship
/// graph, the toasts and the identity table untouched keeps the
/// structural invariant.
pub proof fn lemma_wf_same_tables(s0: StateView, s1: StateView)
    requires
        s0.wf(),
        s1.chats.all == s0.chats.all,
        s1.chats.favorites.no_duplicates(),
        s1.friends == s0.friends,
        s1.ui.toast_notifications == s0.ui.toast_notifications,
        s1.identities == s0.identities,
    ensures
        s1.wf(),
{
}

impl State {
    /// Resets a conversation's unread counter to zero; a no-op when the
    /// table holds no such conversation.
    pub fn clear_unreads(&mut self, chat_id: ChatId)
        ensures
            old(self).wf() ==> final(self).wf(),
            ({
                let all = old(self)@.chats.all;
                if has_chat(all, chat_id) {
                    let i = chat_index_of(all, chat_id);
                    final(self)@ == old(self)@.with_chat_at(
                        i,
                        ChatView { unreads: 0, ..all[i] },
                    )
                } else {
                    final(self)@ == old(self)@
                }
            }),
    {
        let ghost all0 = self@.chats.all;
        if let Some(i) = self.find_chat_index(chat_id) {
            let mut chat = self.chats.all[i].clone();
            chat.clear_unreads();
            self.chats.all.set(i, chat);
            proof {
                assert(self.chats.all.deep_view()
                    =~= all0.update(i as int, ChatView { unreads: 0, ..all0[i as int] }));
                assert(self@ =~= old(self)@.with_chat_at(
                    i as int,
                    ChatView { unreads: 0, ..all0[i as int] },
                ));
                if old(self).wf() {
                    lemma_wf_update_chat(old(self)@, i as int,
                        ChatView { unreads: 0, ..all0[i as int] });
                }
            }
        }
    }

    /// Stores a draft on a conversation; a no-op when absent.
    pub fn set_chat_draft(&mut self, chat_id: ChatId, value: String)
        ensures
            old(self).wf() ==> final(self).wf(),
            ({
                let all = old(self)@.chats.all;
                if has_chat(all, chat_id) {
                    let i = chat_index_of(all, chat_id);
                    final(self)@ == old(self)@.with_chat_at(
                        i,
                        ChatView { draft: Some(value@), ..all[i] },
                    )
                } else {
                    final(self)@ == old(self)@
                }
            }),
    {
        let ghost all0 = self@.chats.all;
        if let Some(i) = self.find_chat_index(chat_id) {
            let mut chat = self.chats.all[i].clone();
            let ghost v = value@;
            chat.set_draft(Some(value));
            self.chats.all.set(i, chat);
            proof {
                assert(self.chats.all.deep_view()
                    =~= all0.update(i as int, ChatView { draft: Some(v), ..all0[i as int] }));
                assert(self@ =~= old(self)@.with_chat_at(
                    i as int,
                    ChatView { draft: Some(v), ..all0[i as int] },
                ));
                if old(self).wf() {
                    lemma_wf_update_chat(old(self)@, i as int,
                        ChatView { draft: Some(v), ..all0[i as int] });
                }
            }
        }
    }

    /// Clears a conversation's draft; a no-op when absent.
    pub fn clear_chat_draft(&mut self, chat_id: ChatId)
        ensures
            old(self).wf() ==> final(self).wf(),
            ({
                let all = old(self)@.chats.all;
                if has_chat(all, chat_id) {
                    let i = chat_index_of(all, chat_id);
                    final(self)@ == old(self)@.with_chat_at(
                        i,
                        ChatView { draft: None, ..all[i] },
                    )
                } else {
                    final(self)@ == old(self)@
                }
            }),
    {
        let ghost all0 = self@.chats.all;
        if let Some(i) = self.find_chat_index(chat_id) {
            let mut chat = self.chats.all[i].clone();
            chat.set_draft(None);
            self.chats.all.set(i, chat);
            proof {
                assert(self.chats.all.deep_view()
                    =~= all0.update(i as int, ChatView { draft: None, ..all0[i as int] }));
                assert(self@ =~= old(self)@.with_chat_at(
                    i as int,
                    ChatView { draft: None, ..all0[i as int] },
                ));
                if old(self).wf() {
                    lemma_wf_update_chat(old(self)@, i as int,
                        ChatView { draft: None, ..all0[i as int] });
                }
            }
        }
    }

    /// Begins replying to a message within a conversation; a no-op when the
    /// conversation is absent.
    pub fn start_replying(&mut self, chat_id: ChatId, message: &crate::message::ChatMessage)
        ensures
            old(self).wf() ==> final(self).wf(),
            ({
                let all = old(self)@.chats.all;
                if has_chat(all, chat_id) {
                    let i = chat_index_of(all, chat_id);
                    final(self)@ == old(self)@.with_chat_at(
                        i,
                        ChatView { replying_to: Some(message.deep_view()), ..all[i] },
                    )
                } else {
                    final(self)@ == old(self)@
                }
            }),
    {
        let ghost all0 = self@.chats.all;
        if let Some(i) = self.find_chat_index(chat_id) {
            let mut chat = self.chats.all[i].clone();
            chat.set_replying_to(Some(message.clone()));
            self.chats.all.set(i, chat);
            proof {
                assert(self.chats.all.deep_view() =~= all0.update(
                    i as int,
                    ChatView { replying_to: Some(message.deep_view()), ..all0[i as int] },
                ));
                assert(self@ =~= old(self)@.with_chat_at(
                    i as int,
                    ChatView { replying_to: Some(message.deep_view()), ..all0[i as int] },
                ));
                if old(self).wf() {
                    lemma_wf_update_chat(old(self)@, i as int,
                        ChatView { replying_to: Some(message.deep_view()), ..all0[i as int] });
                }
            }
        }
    }

    /// Cancels a pending reply within a conversation; a no-op when absent.
    pub fn cancel_reply(&mut self, chat_id: ChatId)
        ensures
            old(self).wf() ==> final(self).wf(),
            ({
                let all = old(self)@.chats.all;
                if has_chat(all, chat_id) {
                    let i = chat_index_of(all, chat_id);
                    final(self)@ == old(self)@.with_chat_at(
                        i,
                        ChatView { replying_to: None, ..all[i] },
                    )
                } else {
                    final(self)@ == old(self)@
                }
            }),
    {
        let ghost all0 = self@.chats.all;
        if let Some(i) = self.find_chat_index(chat_id) {
            let mut chat = self.chats.all[i].clone();
            chat.set_replying_to(None);
            self.chats.all.set(i, chat);
            proof {
                assert(self.chats.all.deep_view() =~= all0.update(
                    i as int,
                    ChatView { replying_to: None, ..all0[i as int] },
                ));
                assert(self@ =~= old(self)@.with_chat_at(
                    i as int,
                    ChatView { replying_to: None, ..all0[i as int] },
                ));
                if old(self).wf() {
                    lemma_wf_update_chat(old(self)@, i as int,
                        ChatView { replying_to: None, ..all0[i as int] });
                }
            }
        }
    }

    /// Notes that a conversation's full history is loaded; a no-op when
    /// absent.
    pub fn finished_loading_chat(&mut self, chat_id: ChatId)
        ensures
            old(self).wf() ==> final(self).wf(),
            ({
                let all = old(self)@.chats.all;
                if has_chat(all, chat_id) {
                    let i = chat_index_of(all, chat_id);
                    final(self)@ == old(self)@.with_chat_at(
                        i,
                        ChatView { has_more_messages: false, ..all[i] },
                    )
                } else {
                    final(self)@ == old(self)@
                }
            }),
    {
        let ghost all0 = self@.chats.all;
        if let Some(i) = self.find_chat_index(chat_id) {
            let mut chat = self.chats.all[i].clone();
            chat.set_has_more(false);
            self.chats.all.set(i, chat);
            proof {
                assert(self.chats.all.deep_view() =~= all0.update(
                    i as int,
                    ChatView { has_more_messages: false, ..all0[i as int] },
                ));
                assert(self@ =~= old(self)@.with_chat_at(
                    i as int,
                    ChatView { has_more_messages: false, ..all0[i as int] },
                ));
                if old(self).wf() {
                    lemma_wf_update_chat(old(self)@, i as int,
                        ChatView { has_more_messages: false, ..all0[i as int] });
                }
            }
        }
    }
}

/// A key found after a removal was there before, and is not the removed
/// one.
pub proof fn lemma_without_cid_contains(s: Seq<ChatId>, id: ChatId, x: ChatId)
    requires
        without_cid(s, id).contains(x),
    ensures
        s.contains(x),
        x != id,
    decreases s.len(),
{
    reveal(Seq::filter);
    if s.len() == 0 {
    } else {
        let rest = s.drop_last();
        if s.last() != id && x == s.last() {
            assert(s[s.len() - 1] == x);
        } else {
            assert(without_cid(rest, id).contains(x));
            lemma_without_cid_contains(rest, id, x);
            let i = choose|i: int| 0 <= i < rest.len() && rest[i] == x;
            assert(s[i] == x);
        }
    }
}

/// Removal keeps a duplicate-free ordering duplicate-free.
pub proof fn lemma_without_cid_nodup(s: Seq<ChatId>, id: ChatId)
    requires
        s.no_duplicates(),
    ensures
        without_cid(s, id).no_duplicates(),
    decreases s.len(),
{
    reveal(Seq::filter);
    if s.len() == 0 {
    } else {
        let rest = s.drop_last();
        assert(rest.no_duplicates());
        lemma_without_cid_nodup(rest, id);
        if s.last() != id {
            let f = without_cid(rest, id);
            if f.contains(s.last()) {
                lemma_without_cid_contains(rest, id, s.last());
                let i = choose|i: int| 0 <= i < rest.len() && rest[i] == s.last();
                assert(s[i] == s[s.len() - 1]);
                assert(false);
            }
            assert forall|p: int, q: int| 0 <= p < q < f.push(s.last()).len()
                implies f.push(s.last())[p] != f.push(s.last())[q] by {
                if q < f.len() {
                } else {
                    assert(f.push(s.last())[q] == s.last());
                    assert(f.contains(f[p]));
                }
            }
            assert(without_cid(s, id) == f.push(s.last()));
        }
    }
}

/// Drops every occurrence of an identifier from an ordering.
pub fn remove_cid(v: &mut Vec<ChatId>, id: ChatId)
    ensures
        final(v)@ == without_cid(old(v)@, id),
{
    let ghost s0 = v@;
    let mut kept: Vec<ChatId> = Vec::new();
    let mut i: usize = 0;
    let n = v.len();
    while i < n
        invariant
            n == v.len(),
            i <= n,
            s0 == v@,
            kept@ == without_cid(s0.take(i as int), id),
        decreases n - i,
    {
        proof {
            assert(s0.take(i as int + 1) =~= s0.take(i as int).push(s0[i as int]));
            assert(s0.take(i as int + 1).drop_last() =~= s0.take(i as int));
            reveal(Seq::filter);
        }
        let x = v[i];
        if x.0 != id.0 {
            kept.push(x);
            proof {
                assert(kept@ =~= without_cid(s0.take(i as int + 1), id));
            }
        } else {
            proof {
                assert(kept@ =~= without_cid(s0.take(i as int + 1), id));
            }
        }
        i += 1;
    }
    proof {
        assert(s0.take(s0.len() as int) =~= s0);
    }
    *v = kept;
}

/// Membership test on an ordering.
pub fn contains_cid(v: &Vec<ChatId>, id: ChatId) -> (r: bool)
    ensures
        r == v@.contains(id),
{
    let mut i: usize = 0;
    while i < v.len()
        invariant
            i <= v.len(),
            forall|j: int| 0 <= j < i ==> v@[j] != id,
        decreases v.len() - i,
    {
        if v[i].0 == id.0 {
            return true;
        }
        i += 1;
    }
    false
}

impl State {
    /// Adds a conversation to the favorites ordering, unless present.
    pub fn favorite(&mut self, chat_id: ChatId)
        ensures
            old(self).wf() ==> final(self).wf(),
            ({
                let f0 = old(self)@.chats.favorites;
                if f0.contains(chat_id) {
                    final(self)@ == old(self)@
                } else {
                    final(self)@ == StateView {
                        chats: ChatsView { favorites: f0.push(chat_id), ..old(self)@.chats },
                        ..old(self)@
                    }
                }
            }),
    {
        if !contains_cid(&self.chats.favorites, chat_id) {
            self.chats.favorites.push(chat_id);
            proof {
                assert(self@ =~= (StateView {
                    chats: ChatsView {
                        favorites: old(self)@.chats.favorites.push(chat_id),
                        ..old(self)@.chats
                    },
                    ..old(self)@
                }));
                if old(self).wf() {
                    lemma_wf_same_tables(old(self)@, self@);
                }
            }
        }
    }

    /// Removes a conversation from the favorites ordering.
    pub fn unfavorite(&mut self, chat_id: ChatId)
        ensures
            old(self).wf() ==> final(self).wf(),
            (final(self)@ == StateView {
                chats: ChatsView {
                    favorites: without_cid(old(self)@.chats.favorites, chat_id),
                    ..old(self)@.chats
                },
                ..old(self)@
            }),
    {
        remove_cid(&mut self.chats.favorites, chat_id);
        proof {
            assert(self@ =~= (StateView {
                chats: ChatsView {
                    favorites: without_cid(old(self)@.chats.favorites, chat_id),
                    ..old(self)@.chats
                },
                ..old(self)@
            }));
            if old(self).wf() {
                lemma_without_cid_nodup(old(self)@.chats.favorites, chat_id);
                lemma_wf_same_tables(old(self)@, self@);
            }
        }
    }

    /// Toggles a conversation's membership in the favorites ordering:
    /// present at some first position, it is removed there; absent, it is
    /// appended.
    pub fn toggle_favorite(&mut self, chat_id: ChatId)
        ensures
            old(self).wf() ==> final(self).wf(),
            ({
                let f0 = old(self)@.chats.favorites;
                if f0.contains(chat_id) {
                    final(self)@ == StateView {
                        chats: ChatsView {
                            favorites: f0.remove(first_cid_index(f0, chat_id)),
                            ..old(self)@.chats
                        },
                        ..old(self)@
                    }
                } else {
                    final(self)@ == StateView {
                        chats: ChatsView { favorites: f0.push(chat_id), ..old(self)@.chats },
                        ..old(self)@
                    }
                }
            }),
    {
        let ghost f0 = self@.chats.favorites;
        let mut i: usize = 0;
        let n = self.chats.favorites.len();
        while i < n
            invariant
                n == self.chats.favorites.len(),
                i <= n,
                *self == *old(self),
                f0 == self@.chats.favorites,
                forall|k: int| 0 <= k < i ==> f0[k] != chat_id,
            decreases n - i,
        {
            if self.chats.favorites[i].0 == chat_id.0 {
                proof {
                    lemma_first_cid_index(f0, chat_id, i as int);
                    assert(f0[i as int] == chat_id);
                }
                self.chats.favorites.remove(i);
                proof {
                    assert(self@ =~= (StateView {
                        chats: ChatsView {
                            favorites: f0.remove(first_cid_index(f0, chat_id)),
                            ..old(self)@.chats
                        },
                        ..old(self)@
                    }));
                    if old(self).wf() {
                        lemma_wf_same_tables(old(self)@, self@);
                    }
                }
                return;
            }
            i += 1;
        }
        self.chats.favorites.push(chat_id);
        proof {
            assert(self@ =~= (StateView {
                chats: ChatsView { favorites: f0.push(chat_id), ..old(self)@.chats },
                ..old(self)@
            }));
            if old(self).wf() {
                lemma_wf_same_tables(old(self)@, self@);
            }
        }
    }

    /// Removes a conversation from the sidebar ordering, and clears the
    /// active pointer if it pointed there.
    pub fn remove_sidebar_chat(&mut self, chat_id: ChatId)
        ensures
            old(self).wf() ==> final(self).wf(),
            (final(self)@ == StateView {
                chats: ChatsView {
                    in_sidebar: without_cid(old(self)@.chats.in_sidebar, chat_id),
                    active: if old(self)@.chats.active == Some(chat_id) {
                        None
                    } else {
                        old(self)@.chats.active
                    },
                    ..old(self)@.chats
                },
                ..old(self)@
            }),
    {
        remove_cid(&mut self.chats.in_sidebar, chat_id);
        let clear = match self.chats.active {
            Some(a) => a.0 == chat_id.0,
            None => false,
        };
        if clear {
            self.chats.active = None;
        }
        proof {
            assert(self@ =~= (StateView {
                chats: ChatsView {
                    in_sidebar: without_cid(old(self)@.chats.in_sidebar, chat_id),
                    active: if old(self)@.chats.active == Some(chat_id) {
                        None
                    } else {
                        old(self)@.chats.active
                    },
                    ..old(self)@.chats
                },
                ..old(self)@
            }));
            if old(self).wf() {
                lemma_wf_same_tables(old(self)@, self@);
            }
        }
    }

    /// Moves a conversation to the top of the sidebar ordering, inserting
    /// it if absent.
    pub fn send_chat_to_top_of_sidebar(&mut self, chat_id: ChatId)
        ensures
            old(self).wf() ==> final(self).wf(),
            (final(self)@ == StateView {
                chats: ChatsView {
                    in_sidebar: to_front(old(self)@.chats.in_sidebar, chat_id),
                    ..old(self)@.chats
                },
                ..old(self)@
            }),
    {
        remove_cid(&mut self.chats.in_sidebar, chat_id);
        self.chats.in_sidebar.insert(0, chat_id);
        proof {
            let ghost w = without_cid(old(self)@.chats.in_sidebar, chat_id);
            assert(w.insert(0, chat_id) =~= seq![chat_id] + w);
            assert(self@ =~= (StateView {
                chats: ChatsView {
                    in_sidebar: to_front(old(self)@.chats.in_sidebar, chat_id),
                    ..old(self)@.chats
                },
                ..old(self)@
            }));
            if old(self).wf() {
                lemma_wf_same_tables(old(self)@, self@);
            }
        }
    }

    /// Clears the active-conversation pointer.
    pub fn clear_active_chat(&mut self)
        ensures
            old(self).wf() ==> final(self).wf(),
            (final(self)@ == StateView {
                chats: ChatsView { active: None, ..old(self)@.chats },
                ..old(self)@
            }),
    {
        self.chats.active = None;
        proof {
            assert(self@ =~= (StateView {
                chats: ChatsView { active: None, ..old(self)@.chats },
                ..old(self)@
            }));
            if old(self).wf() {
                lemma_wf_same_tables(old(self)@, self@);
            }
        }
    }

    /// Makes a conversation the active one: moves it to the top of the
    /// sidebar when asked (otherwise inserts it only if absent), and
    /// resets its unread counter.
    #[verifier::rlimit(60)]
    pub fn set_active_chat(&mut self, chat_id: ChatId, should_move_to_top: bool)
        ensures
            old(self).wf() ==> final(self).wf(),
            ({
                let s0 = old(self)@;
                let sidebar1 = if should_move_to_top {
                    to_front(s0.chats.in_sidebar, chat_id)
                } else if s0.chats.in_sidebar.contains(chat_id) {
                    s0.chats.in_sidebar
                } else {
                    seq![chat_id] + s0.chats.in_sidebar
                };
                let all1 = if has_chat(s0.chats.all, chat_id) {
                    s0.chats.all.update(
                        chat_index_of(s0.chats.all, chat_id),
                        ChatView { unreads: 0, ..s0.chats.all[chat_index_of(s0.chats.all,
                            chat_id)] },
                    )
                } else {
                    s0.chats.all
                };
                final(self)@ == StateView {
                    chats: ChatsView {
                        active: Some(chat_id),
                        in_sidebar: sidebar1,
                        all: all1,
                        ..s0.chats
                    },
                    ..s0
                }
            }),
    {
        self.chats.active = Some(chat_id);
        if should_move_to_top {
            remove_cid(&mut self.chats.in_sidebar, chat_id);
            self.chats.in_sidebar.insert(0, chat_id);
            proof {
                let ghost w = without_cid(old(self)@.chats.in_sidebar, chat_id);
                assert(w.insert(0, chat_id) =~= seq![chat_id] + w);
            }
        } else if !contains_cid(&self.chats.in_sidebar, chat_id) {
            self.chats.in_sidebar.insert(0, chat_id);
            proof {
                let ghost w = old(self)@.chats.in_sidebar;
                assert(w.insert(0, chat_id) =~= seq![chat_id] + w);
            }
        }
        let ghost mid = self@;
        let ghost all0 = self@.chats.all;
        if let Some(i) = self.find_chat_index(chat_id) {
            let mut chat = self.chats.all[i].clone();
            chat.clear_unreads();
            self.chats.all.set(i, chat);
            proof {
                assert(self.chats.all.deep_view()
                    =~= all0.update(i as int, ChatView { unreads: 0, ..all0[i as int] }));
            }
        }
        proof {
            let s0 = old(self)@;
            let sidebar1 = if should_move_to_top {
                to_front(s0.chats.in_sidebar, chat_id)
            } else if s0.chats.in_sidebar.contains(chat_id) {
                s0.chats.in_sidebar
            } else {
                seq![chat_id] + s0.chats.in_sidebar
            };
            let all1 = if has_chat(s0.chats.all, chat_id) {
                s0.chats.all.update(
                    chat_index_of(s0.chats.all, chat_id),
                    ChatView { unreads: 0, ..s0.chats.all[chat_index_of(s0.chats.all,
                        chat_id)] },
                )
            } else {
                s0.chats.all
            };
            assert(self@ =~= (StateView {
                chats: ChatsView {
                    active: Some(chat_id),
                    in_sidebar: sidebar1,
                    all: all1,
                    ..s0.chats
                },
                ..s0
            }));
            if old(self).wf() {
                if has_chat(s0.chats.all, chat_id) {
                    let i = chat_index_of(s0.chats.all, chat_id);
                    assert(chat_ids(all1) =~= chat_ids(s0.chats.all));
                }
            }
        }
    }

    /// Makes a conversation the active media one.
    pub fn set_active_media(&mut self, chat_id: ChatId)
        ensures
            old(self).wf() ==> final(self).wf(),
            (final(self)@ == StateView {
                chats: ChatsView { active_media: Some(chat_id), ..old(self)@.chats },
                ui: UIView { call_active: true, ..old(self)@.ui },
                ..old(self)@
            }),
    {
        self.chats.active_media = Some(chat_id);
        self.ui.call_active = true;
        proof {
            assert(self@ =~= (StateView {
                chats: ChatsView { active_media: Some(chat_id), ..old(self)@.chats },
                ui: UIView { call_active: true, ..old(self)@.ui },
                ..old(self)@
            }));
            if old(self).wf() {
                lemma_wf_same_tables(old(self)@, self@);
            }
        }
    }

    /// Hangs up: clears the active media pointer, the popout player and
    /// the call flag.
    pub fn disable_media(&mut self)
        ensures
            old(self).wf() ==> final(self).wf(),
            (final(self)@ == StateView {
                chats: ChatsView { active_media: None, ..old(self)@.chats },
                ui: UIView {
                    call_active: false,
                    popout_media_player: false,
                    ..old(self)@.ui
                },
                ..old(self)@
            }),
    {
        self.chats.active_media = None;
        self.ui.popout_media_player = false;
        self.ui.call_active = false;
        proof {
            assert(self@ =~= (StateView {
                chats: ChatsView { active_media: None, ..old(self)@.chats },
                ui: UIView {
                    call_active: false,
                    popout_media_player: false,
                    ..old(self)@.ui
                },
                ..old(self)@
            }));
            if old(self).wf() {
                lemma_wf_same_tables(old(self)@, self@);
            }
        }
    }
}

/// Index of the first position of an identifier in an ordering.
pub open spec fn first_cid_index(s: Seq<ChatId>, id: ChatId) -> int
    decreases s.len(),
{
    if s.len() == 0 {
        0
    } else if s[0] == id {
        0
    } else {
        1 + first_cid_index(s.drop_first(), id)
    }
}

/// A matching position before which nothing matches is the first one.
pub proof fn lemma_first_cid_index(s: Seq<ChatId>, id: ChatId, j: int)
    requires
        0 <= j < s.len(),
        s[j] == id,
        forall|k: int| 0 <= k < j ==> s[k] != id,
    ensures
        s.contains(id),
        first_cid_index(s, id) == j,
    decreases j,
{
    if j == 0 {
    } else {
        lemma_first_cid_index(s.drop_first(), id, j - 1);
    }
}

impl State {
    /// Sets the active route.
    pub fn set_active_route(&mut self, to: String)
        ensures
            old(self).wf() ==> final(self).wf(),
            (final(self)@ == StateView { route: to@, ..old(self)@ }),
    {
        self.route = to;
        proof {
            assert(self@ =~= (StateView { route: self.route@, ..old(self)@ }));
            if old(self).wf() {
                lemma_wf_same_tables(old(self)@, self@);
            }
        }
    }

    /// Sets the user's language.
    pub fn set_language(&mut self, language: String)
        ensures
            old(self).wf() ==> final(self).wf(),
            (final(self)@ == StateView {
                settings: SettingsView { language: language@, ..old(self)@.settings },
                ..old(self)@
            }),
    {
        let ghost l = language@;
        self.settings.language = language;
        proof {
            assert(self@ =~= (StateView {
                settings: SettingsView { language: l, ..old(self)@.settings },
                ..old(self)@
            }));
            if old(self).wf() {
                lemma_wf_same_tables(old(self)@, self@);
            }
        }
    }

    /// Selects a theme.
    pub fn set_theme(&mut self, theme: Option<crate::ui::Theme>)
        ensures
            old(self).wf() ==> final(self).wf(),
            (final(self)@ == StateView {
                ui: UIView { theme: theme.deep_view(), ..old(self)@.ui },
                ..old(self)@
            }),
    {
        self.ui.theme = theme;
        proof {
            assert(self@ =~= (StateView {
                ui: UIView { theme: self.ui.theme.deep_view(), ..old(self)@.ui },
                ..old(self)@
            }));
            if old(self).wf() {
                lemma_wf_same_tables(old(self)@, self@);
            }
        }
    }

    /// Selects a font.
    pub fn set_font(&mut self, font: Option<crate::ui::Font>)
        ensures
            old(self).wf() ==> final(self).wf(),
            (final(self)@ == StateView {
                ui: UIView { font: font.deep_view(), ..old(self)@.ui },
                ..old(self)@
            }),
    {
        self.ui.font = font;
        proof {
            assert(self@ =~= (StateView {
                ui: UIView { font: self.ui.font.deep_view(), ..old(self)@.ui },
                ..old(self)@
            }));
            if old(self).wf() {
                lemma_wf_same_tables(old(self)@, self@);
            }
        }
    }

    /// Updates the display of the overlay: disabling it also clears the
    /// registered overlay handles.
    pub fn toggle_overlay(&mut self, enabled: bool)
        ensures
            old(self).wf() ==> final(self).wf(),
            (final(self)@ == StateView {
                ui: UIView {
                    enable_overlay: enabled,
                    overlays: if enabled {
                        old(self)@.ui.overlays
                    } else {
                        Seq::<crate::ids::WindowId>::empty()
                    },
                    ..old(self)@.ui
                },
                ..old(self)@
            }),
    {
        self.ui.enable_overlay = enabled;
        if !enabled {
            self.ui.clear_overlays();
        }
        proof {
            assert(self@ =~= (StateView {
                ui: UIView {
                    enable_overlay: enabled,
                    overlays: if enabled {
                        old(self)@.ui.overlays
                    } else {
                        Seq::<crate::ids::WindowId>::empty()
                    },
                    ..old(self)@.ui
                },
                ..old(self)@
            }));
            if old(self).wf() {
                lemma_wf_same_tables(old(self)@, self@);
            }
        }
    }

    /// Drops every overlay registered under a window handle.
    pub fn remove_window(&mut self, w: crate::ids::WindowId)
        ensures
            old(self).wf() ==> final(self).wf(),
            (final(self)@ == StateView {
                ui: UIView {
                    overlays: old(self)@.ui.overlays.filter(
                        |x: crate::ids::WindowId| x != w,
                    ),
                    ..old(self)@.ui
                },
                ..old(self)@
            }),
    {
        self.ui.remove_overlay(w);
        proof {
            assert(self@ =~= (StateView {
                ui: UIView {
                    overlays: old(self)@.ui.overlays.filter(
                        |x: crate::ids::WindowId| x != w,
                    ),
                    ..old(self)@.ui
                },
                ..old(self)@
            }));
            if old(self).wf() {
                lemma_wf_same_tables(old(self)@, self@);
            }
        }
    }

    /// Flips the mute flag.
    pub fn toggle_mute(&mut self)
        ensures
            old(self).wf() ==> final(self).wf(),
            (final(self)@ == StateView {
                ui: UIView { muted: !old(self)@.ui.muted, ..old(self)@.ui },
                ..old(self)@
            }),
    {
        self.ui.toggle_muted();
        proof {
            assert(self@ =~= (StateView {
                ui: UIView { muted: !old(self)@.ui.muted, ..old(self)@.ui },
                ..old(self)@
            }));
            if old(self).wf() {
                lemma_wf_same_tables(old(self)@, self@);
            }
        }
    }

    /// Flips the silence flag.
    pub fn toggle_silence(&mut self)
        ensures
            old(self).wf() ==> final(self).wf(),
            (final(self)@ == StateView {
                ui: UIView { silenced: !old(self)@.ui.silenced, ..old(self)@.ui },
                ..old(self)@
            }),
    {
        self.ui.toggle_silenced();
        proof {
            assert(self@ =~= (StateView {
                ui: UIView { silenced: !old(self)@.ui.silenced, ..old(self)@.ui },
                ..old(self)@
            }));
            if old(self).wf() {
                lemma_wf_same_tables(old(self)@, self@);
            }
        }
    }

    /// Records that a software update is available, once per version:
    /// a version already noted changes nothing; a new one is stored and
    /// the settings notification counter is raised by one.
    pub fn update_available(&mut self, version: String)
        ensures
            old(self).wf() ==> final(self).wf(),
            ({
                let s0 = old(self)@;
                if s0.settings.update_available == Some(version@) {
                    final(self)@ == s0
                } else {
                    final(self)@ == StateView {
                        settings: SettingsView {
                            update_available: Some(version@),
                            ..s0.settings
                        },
                        ui: UIView {
                            notifications: crate::ui::with_kind_count(
                                s0.ui.notifications,
                                crate::ui::NotificationKind::Settings,
                                crate::ui::sat_add_u32(s0.ui.notifications.settings, 1),
                            ),
                            ..s0.ui
                        },
                        ..s0
                    }
                }
            }),
    {
        let same = match &self.settings.update_available {
            Some(v) => string_eq(v, &version),
            None => false,
        };
        if !same {
            let ghost ver = version@;
            self.settings.update_available = Some(version);
            self.ui.notifications.increment(crate::ui::NotificationKind::Settings, 1);
            proof {
                assert(self@ =~= (StateView {
                    settings: SettingsView {
                        update_available: Some(ver),
                        ..old(self)@.settings
                    },
                    ui: UIView {
                        notifications: crate::ui::with_kind_count(
                            old(self)@.ui.notifications,
                            crate::ui::NotificationKind::Settings,
                            crate::ui::sat_add_u32(old(self)@.ui.notifications.settings, 1),
                        ),
                        ..old(self)@.ui
                    },
                    ..old(self)@
                }));
                if old(self).wf() {
                    lemma_wf_same_tables(old(self)@, self@);
                }
            }
        }
    }

    /// Notes the dismissal of the advertised update and lowers the
    /// settings notification counter.
    pub fn dismiss_update(&mut self)
        ensures
            old(self).wf() ==> final(self).wf(),
            (final(self)@ == StateView {
                settings: SettingsView {
                    update_available: None,
                    update_dismissed: old(self)@.settings.update_available,
                    ..old(self)@.settings
                },
                ui: UIView {
                    notifications: crate::ui::with_kind_count(
                        old(self)@.ui.notifications,
                        crate::ui::NotificationKind::Settings,
                        crate::ui::sat_sub_u32(old(self)@.ui.notifications.settings, 1),
                    ),
                    ..old(self)@.ui
                },
                ..old(self)@
            }),
    {
        self.settings.update_dismissed = self.settings.update_available.take();
        self.ui.notifications.decrement(crate::ui::NotificationKind::Settings, 1);
        proof {
            assert(self@ =~= (StateView {
                settings: SettingsView {
                    update_available: None,
                    update_dismissed: old(self)@.settings.update_available,
                    ..old(self)@.settings
                },
                ui: UIView {
                    notifications: crate::ui::with_kind_count(
                        old(self)@.ui.notifications,
                        crate::ui::NotificationKind::Settings,
                        crate::ui::sat_sub_u32(old(self)@.ui.notifications.settings, 1),
                    ),
                    ..old(self)@.ui
                },
                ..old(self)@
            }));
            if old(self).wf() {
                lemma_wf_same_tables(old(self)@, self@);
            }
        }
    }
}

/// Character-for-character equality of two strings.
pub fn string_eq(a: &String, b: &String) -> (r: bool)
    ensures
        r == (a@ == b@),
{
    a.eq(b)
}

impl State {
    /// Inserts an identity, or replaces the cached one under the same key.
    pub fn upsert_identity(&mut self, ident: Identity)
        ensures
            old(self).wf() ==> final(self).wf(),
            ({
                let ids = old(self)@.identities;
                if has_ident(ids, ident.did) {
                    final(self)@ == StateView {
                        identities: ids.update(ident_index_of(ids, ident.did), ident),
                        ..old(self)@
                    }
                } else {
                    final(self)@ == StateView {
                        identities: ids.push(ident),
                        ..old(self)@
                    }
                }
            }),
    {
        let ghost ids = self@.identities;
        if let Some(i) = self.find_identity_index(ident.did) {
            let ghost d = ident.did;
            self.identities.set(i, ident);
            proof {
                assert(self@ =~= (StateView {
                    identities: ids.update(ident_index_of(ids, d), ids.update(
                        ident_index_of(ids, d),
                        self.identities@[i as int],
                    )[i as int]),
                    ..old(self)@
                }));
                if old(self).wf() {
                    assert(ident_dids(self@.identities) =~= ident_dids(ids));
                    lemma_wf_same_tables_ident(old(self)@, self@);
                }
            }
        } else {
            self.identities.push(ident);
            proof {
                assert(self@ =~= (StateView {
                    identities: ids.push(self.identities@[ids.len() as int]),
                    ..old(self)@
                }));
                if old(self).wf() {
                    let ks = ident_dids(self@.identities);
                    assert(ks =~= ident_dids(ids).push(self.identities@[ids.len() as int].did));
                    assert forall|p: int, q: int| 0 <= p < q < ks.len()
                        implies ks[p] != ks[q] by {
                        if q == ks.len() - 1 {
                            assert(ident_dids(ids)[p] == ids[p].did);
                            assert(!has_ident(ids, ks[q]));
                        }
                    }
                    lemma_wf_same_tables_ident(old(self)@, self@);
                }
            }
        }
    }

    /// Replaces a cached identity; a no-op when the key is not cached.
    pub fn update_identity(&mut self, d: Did, ident: Identity)
        requires
            ident.did == d,
        ensures
            old(self).wf() ==> final(self).wf(),
            ({
                let ids = old(self)@.identities;
                if has_ident(ids, d) {
                    final(self)@ == StateView {
                        identities: ids.update(ident_index_of(ids, d), ident),
                        ..old(self)@
                    }
                } else {
                    final(self)@ == old(self)@
                }
            }),
    {
        let ghost ids = self@.identities;
        if let Some(i) = self.find_identity_index(d) {
            self.identities.set(i, ident);
            proof {
                if old(self).wf() {
                    assert(ident_dids(self@.identities) =~= ident_dids(ids));
                    lemma_wf_same_tables_ident(old(self)@, self@);
                }
            }
        }
    }

    /// Presence correction on message receipt: a sender cached as offline
    /// is promoted to online, to be corrected by the periodic identity
    /// refresh. Any other cached presence is left alone.
    pub fn update_identity_status_hack(&mut self, d: Did)
        ensures
            old(self).wf() ==> final(self).wf(),
            ({
                let ids = old(self)@.identities;
                if has_ident(ids, d) {
                    let i = ident_index_of(ids, d);
                    final(self)@ == StateView {
                        identities: ids.update(i, Identity {
                            status: if ids[i].status == crate::identity::IdentityStatus::Offline {
                                crate::identity::IdentityStatus::Online
                            } else {
                                ids[i].status
                            },
                            ..ids[i]
                        }),
                        ..old(self)@
                    }
                } else {
                    final(self)@ == old(self)@
                }
            }),
    {
        let ghost ids = self@.identities;
        if let Some(i) = self.find_identity_index(d) {
            let mut ident = self.identities[i].clone();
            if matches!(ident.status, crate::identity::IdentityStatus::Offline) {
                ident.status = crate::identity::IdentityStatus::Online;
            }
            self.identities.set(i, ident);
            proof {
                let gi = ident_index_of(ids, d);
                assert(self@.identities =~= ids.update(gi, Identity {
                    status: if ids[gi].status == crate::identity::IdentityStatus::Offline {
                        crate::identity::IdentityStatus::Online
                    } else {
                        ids[gi].status
                    },
                    ..ids[gi]
                }));
                assert(self@ =~= (StateView {
                    identities: self@.identities,
                    ..old(self)@
                }));
                if old(self).wf() {
                    assert(ident_dids(self@.identities) =~= ident_dids(ids));
                    lemma_wf_same_tables_ident(old(self)@, self@);
                }
            }
        }
    }

    /// Stores the user's own identity: sets the own key, caches the
    /// username for display, and upserts the identity into the table.
    pub fn set_own_identity(&mut self, ident: Identity)
        ensures
            old(self).wf() ==> final(self).wf(),
            ({
                let s0 = old(self)@;
                let mid = StateView {
                    id: ident.did,
                    ui: UIView { cached_username: Some(ident.username@), ..s0.ui },
                    ..s0
                };
                if has_ident(s0.identities, ident.did) {
                    final(self)@ == StateView {
                        identities: s0.identities.update(
                            ident_index_of(s0.identities, ident.did),
                            ident,
                        ),
                        ..mid
                    }
                } else {
                    final(self)@ == StateView {
                        identities: s0.identities.push(ident),
                        ..mid
                    }
                }
            }),
    {
        self.id = ident.did;
        self.ui.cached_username = Some(ident.username.clone());
        self.upsert_identity(ident);
    }

    /// Sets the cached platform hint on the user's own identity.
    pub fn mock_own_platform(&mut self, platform: crate::identity::Platform)
        ensures
            old(self).wf() ==> final(self).wf(),
            ({
                let ids = old(self)@.identities;
                let me = old(self)@.id;
                if has_ident(ids, me) {
                    let i = ident_index_of(ids, me);
                    final(self)@ == StateView {
                        identities: ids.update(i, Identity { platform, ..ids[i] }),
                        ..old(self)@
                    }
                } else {
                    final(self)@ == old(self)@
                }
            }),
    {
        let ghost ids = self@.identities;
        let me = self.id;
        if let Some(i) = self.find_identity_index(me) {
            let mut ident = self.identities[i].clone();
            ident.platform = platform;
            self.identities.set(i, ident);
            proof {
                let gi = ident_index_of(ids, me);
                assert(self@.identities =~= ids.update(gi, Identity {
                    platform,
                    ..ids[gi]
                }));
                assert(self@ =~= (StateView { identities: self@.identities, ..old(self)@ }));
                if old(self).wf() {
                    assert(ident_dids(self@.identities) =~= ident_dids(ids));
                    lemma_wf_same_tables_ident(old(self)@, self@);
                }
            }
        }
    }
}

/// A snapshot change that leaves the conversation table, the friendship
/// graph and the toasts untouched, and keeps the identity keys
/// duplicate-free, keeps the structural invariant.
pub proof fn lemma_wf_same_tables_ident(s0: StateView, s1: StateView)
    requires
        s0.wf(),
        s1.chats.all == s0.chats.all,
        s1.chats.favorites == s0.chats.favorites,
        s1.friends == s0.friends,
        s1.ui.toast_notifications == s0.ui.toast_notifications,
        ident_dids(s1.identities).no_duplicates(),
    ensures
        s1.wf(),
{
}

/// The identities recorded with an upsert each: how the identity table
/// looks after caching one identity.
pub open spec fn upserted(ids: Seq<Identity>, ident: Identity) -> Seq<Identity> {
    if has_ident(ids, ident.did) {
        ids.update(ident_index_of(ids, ident.did), ident)
    } else {
        ids.push(ident)
    }
}

impl State {
    /// Whether the key is a confirmed friend.
    pub fn has_friend_with_did(&self, d: Did) -> (r: bool)
        ensures
            r == self@.friends.all.contains(d),
    {
        self.friends.has_friend(d)
    }

    /// Whether the key is blocked.
    pub fn is_blocked(&self, d: Did) -> (r: bool)
        ensures
            r == self@.friends.blocked.contains(d),
    {
        self.friends.is_blocked(d)
    }

    /// Records an outgoing friend request and caches the identity.
    pub fn new_outgoing_request(&mut self, ident: &Identity)
        ensures
            old(self).wf() ==> final(self).wf(),
            ({
                let s0 = old(self)@;
                let f1 = if s0.friends.all.contains(ident.did)
                    || s0.friends.incoming_requests.contains(ident.did) {
                    s0.friends
                } else {
                    FriendsView {
                        outgoing_requests: crate::friends::with_did(
                            s0.friends.outgoing_requests,
                            ident.did,
                        ),
                        ..s0.friends
                    }
                };
                final(self)@ == StateView {
                    friends: f1,
                    identities: upserted(s0.identities, *ident),
                    ..s0
                }
            }),
    {
        self.friends.new_outgoing_request(ident.did);
        self.upsert_identity(ident.clone());
        proof {
            assert(self@ =~= (StateView {
                friends: self@.friends,
                identities: upserted(old(self)@.identities, *ident),
                ..old(self)@
            }));
        }
    }

    /// Records an incoming friend request and caches the identity.
    pub fn new_incoming_request(&mut self, ident: &Identity)
        ensures
            old(self).wf() ==> final(self).wf(),
            ({
                let s0 = old(self)@;
                let f1 = if s0.friends.all.contains(ident.did)
                    || s0.friends.outgoing_requests.contains(ident.did) {
                    s0.friends
                } else {
                    FriendsView {
                        incoming_requests: crate::friends::with_did(
                            s0.friends.incoming_requests,
                            ident.did,
                        ),
                        ..s0.friends
                    }
                };
                final(self)@ == StateView {
                    friends: f1,
                    identities: upserted(s0.identities, *ident),
                    ..s0
                }
            }),
    {
        self.friends.new_incoming_request(ident.did);
        self.upsert_identity(ident.clone());
        proof {
            assert(self@ =~= (StateView {
                friends: self@.friends,
                identities: upserted(old(self)@.identities, *ident),
                ..old(self)@
            }));
        }
    }

    /// Moves a key from both request lists into the friends list, in one
    /// step, and caches the identity.
    pub fn complete_request(&mut self, ident: &Identity)
        ensures
            old(self).wf() ==> final(self).wf(),
            ({
                let s0 = old(self)@;
                final(self)@ == StateView {
                    friends: FriendsView {
                        all: crate::friends::with_did(s0.friends.all, ident.did),
                        incoming_requests: crate::friends::without_did(
                            s0.friends.incoming_requests,
                            ident.did,
                        ),
                        outgoing_requests: crate::friends::without_did(
                            s0.friends.outgoing_requests,
                            ident.did,
                        ),
                        ..s0.friends
                    },
                    identities: upserted(s0.identities, *ident),
                    ..s0
                }
            }),
    {
        self.friends.complete_request(ident.did);
        self.upsert_identity(ident.clone());
        proof {
            assert(self@ =~= (StateView {
                friends: self@.friends,
                identities: upserted(old(self)@.identities, *ident),
                ..old(self)@
            }));
        }
    }

    /// Drops a key from both request lists.
    pub fn cancel_request(&mut self, d: Did)
        ensures
            old(self).wf() ==> final(self).wf(),
            (final(self)@ == StateView {
                friends: FriendsView {
                    incoming_requests: crate::friends::without_did(
                        old(self)@.friends.incoming_requests,
                        d,
                    ),
                    outgoing_requests: crate::friends::without_did(
                        old(self)@.friends.outgoing_requests,
                        d,
                    ),
                    ..old(self)@.friends
                },
                ..old(self)@
            }),
    {
        self.friends.cancel_request(d);
        proof {
            assert(self@ =~= (StateView {
                friends: self@.friends,
                ..old(self)@
            }));
        }
    }

    /// Unblocks a key.
    pub fn unblock(&mut self, d: Did)
        ensures
            old(self).wf() ==> final(self).wf(),
            (final(self)@ == StateView {
                friends: FriendsView {
                    blocked: crate::friends::without_did(old(self)@.friends.blocked, d),
                    ..old(self)@.friends
                },
                ..old(self)@
            }),
    {
        self.friends.unblock(d);
        proof {
            assert(self@ =~= (StateView {
                friends: self@.friends,
                ..old(self)@
            }));
        }
    }
}

/// Whether a conversation is the direct one with a given key.
pub open spec fn is_direct_with(c: ChatView, d: Did) -> bool {
    c.kind == crate::chat::ChatKind::Direct && c.participants.contains(d)
}

/// Whether the table holds a direct conversation with the key.
pub open spec fn has_direct_chat_with(all: Seq<ChatView>, d: Did) -> bool {
    exists|i: int| 0 <= i < all.len() && is_direct_with(all[i], d)
}

/// Index of the first direct conversation with the key.
pub open spec fn direct_chat_index(all: Seq<ChatView>, d: Did) -> int
    decreases all.len(),
{
    if all.len() == 0 {
        0
    } else if is_direct_with(all[0], d) {
        0
    } else {
        1 + direct_chat_index(all.drop_first(), d)
    }
}

/// A matching position before which nothing matches is the first one.
pub proof fn lemma_direct_chat_index(all: Seq<ChatView>, d: Did, j: int)
    requires
        0 <= j < all.len(),
        is_direct_with(all[j], d),
        forall|k: int| 0 <= k < j ==> !is_direct_with(all[k], d),
    ensures
        has_direct_chat_with(all, d),
        direct_chat_index(all, d) == j,
    decreases j,
{
    if j == 0 {
    } else {
        lemma_direct_chat_index(all.drop_first(), d, j - 1);
    }
}

/// What removing a friendship does to the conversation side: when a
/// direct conversation with the key exists, the active pointer is cleared
/// if it pointed there and the conversation leaves the favorites.
pub open spec fn chats_after_unfriend(c: ChatsView, d: Did) -> ChatsView {
    if has_direct_chat_with(c.all, d) {
        let cid = c.all[direct_chat_index(c.all, d)].id;
        ChatsView {
            active: if c.active == Some(cid) {
                None
            } else {
                c.active
            },
            favorites: without_cid(c.favorites, cid),
            ..c
        }
    } else {
        c
    }
}

impl State {
    /// Index of the first direct conversation with the key, if any.
    fn find_direct_chat_index(&self, d: Did) -> (r: Option<usize>)
        ensures
            match r {
                Some(i) => i < self@.chats.all.len()
                    && has_direct_chat_with(self@.chats.all, d)
                    && direct_chat_index(self@.chats.all, d) == i as int,
                None => !has_direct_chat_with(self@.chats.all, d),
            },
    {
        let ghost all = self@.chats.all;
        let mut i: usize = 0;
        let n = self.chats.all.len();
        while i < n
            invariant
                n == self.chats.all.len(),
                i <= n,
                all == self@.chats.all,
                forall|k: int| 0 <= k < i ==> !is_direct_with(all[k], d),
            decreases n - i,
        {
            let c = &self.chats.all[i];
            let direct = matches!(c.kind, crate::chat::ChatKind::Direct);
            if direct && crate::message::contains_did(&c.participants, d) {
                proof {
                    assert(is_direct_with(all[i as int], d));
                    lemma_direct_chat_index(all, d, i as int);
                }
                return Some(i);
            }
            proof {
                assert(!is_direct_with(all[i as int], d));
            }
            i += 1;
        }
        None
    }

    /// Removes a friendship: drops the key from the friends list; when a
    /// direct conversation with that friend exists, clears the active
    /// pointer if it pointed there and removes that conversation from the
    /// favorites.
    pub fn remove_friend(&mut self, d: Did)
        ensures
            old(self).wf() ==> final(self).wf(),
            (final(self)@ == StateView {
                friends: FriendsView {
                    all: crate::friends::without_did(old(self)@.friends.all, d),
                    ..old(self)@.friends
                },
                chats: chats_after_unfriend(old(self)@.chats, d),
                ..old(self)@
            }),
    {
        self.friends.remove_friend_key(d);
        if let Some(i) = self.find_direct_chat_index(d) {
            let cid = self.chats.all[i].id;
            let clear = match self.chats.active {
                Some(a) => a.0 == cid.0,
                None => false,
            };
            if clear {
                self.chats.active = None;
            }
            remove_cid(&mut self.chats.favorites, cid);
            proof {
                if old(self).wf() {
                    lemma_without_cid_nodup(old(self)@.chats.favorites, cid);
                }
            }
        }
        proof {
            assert(self@ =~= (StateView {
                friends: FriendsView {
                    all: crate::friends::without_did(old(self)@.friends.all, d),
                    ..old(self)@.friends
                },
                chats: chats_after_unfriend(old(self)@.chats, d),
                ..old(self)@
            }));
        }
    }

    /// Blocks a key: updates the four friendship sets and performs the
    /// same conversation cleanup as removing the friendship. The cached
    /// identity stays, so a blocked user's name remains visible.
    pub fn block(&mut self, d: Did)
        ensures
            old(self).wf() ==> final(self).wf(),
            (final(self)@ == StateView {
                friends: FriendsView {
                    all: crate::friends::without_did(old(self)@.friends.all, d),
                    incoming_requests: crate::friends::without_did(
                        old(self)@.friends.incoming_requests,
                        d,
                    ),
                    outgoing_requests: crate::friends::without_did(
                        old(self)@.friends.outgoing_requests,
                        d,
                    ),
                    blocked: crate::friends::with_did(old(self)@.friends.blocked, d),
                },
                chats: chats_after_unfriend(old(self)@.chats, d),
                ..old(self)@
            }),
    {
        self.friends.block(d);
        if let Some(i) = self.find_direct_chat_index(d) {
            let cid = self.chats.all[i].id;
            let clear = match self.chats.active {
                Some(a) => a.0 == cid.0,
                None => false,
            };
            if clear {
                self.chats.active = None;
            }
            remove_cid(&mut self.chats.favorites, cid);
            proof {
                if old(self).wf() {
                    lemma_without_cid_nodup(old(self)@.chats.favorites, cid);
                }
            }
        }
        proof {
            assert(self@ =~= (StateView {
                friends: FriendsView {
                    all: crate::friends::without_did(old(self)@.friends.all, d),
                    incoming_requests: crate::friends::without_did(
                        old(self)@.friends.incoming_requests,
                        d,
                    ),
                    outgoing_requests: crate::friends::without_did(
                        old(self)@.friends.outgoing_requests,
                        d,
                    ),
                    blocked: crate::friends::with_did(old(self)@.friends.blocked, d),
                },
                chats: chats_after_unfriend(old(self)@.chats, d),
                ..old(self)@
            }));
        }
    }
}

/// The typing map without the entry of one key, when present.
pub open spec fn typing_without(t: Seq<(Did, u64)>, d: Did) -> Seq<(Did, u64)> {
    if crate::chat::typing_has_key(t, d) {
        t.remove(crate::chat::first_typing_index(t, d))
    } else {
        t
    }
}

/// How a conversation takes one received or sent message: the sender's
/// typing entry is dropped, the message is appended to the log, and the
/// unread counter is raised when the conversation is not the one read.
pub open spec fn chat_with_message(c: ChatView, m: crate::message::MessageView,
    count_unread: bool) -> ChatView {
    ChatView {
        typing: typing_without(c.typing, m.sender),
        messages: crate::chat::log_step(c.messages, crate::chat::LogOp::Append(m)),
        unreads: if count_unread {
            crate::ui::sat_add_u32(c.unreads, 1)
        } else {
            c.unreads
        },
        ..c
    }
}

/// Whether a message arriving in the conversation counts as unread: it
/// does unless that conversation is open in the compose view.
pub open spec fn view_counts_unread(s: StateView, conversation_id: ChatId) -> bool {
    s.ui.current_layout != crate::ui::Layout::Compose
        || s.chats.active != Some(conversation_id)
}

impl State {
    /// Whether a message arriving in the conversation counts as unread:
    /// it does unless that conversation is open in the compose view.
    pub open spec fn counts_unread(self, conversation_id: ChatId) -> bool {
        view_counts_unread(self@, conversation_id)
    }

    /// Appends a message to a conversation's log, dropping the sender's
    /// typing entry and raising the unread counter unless the conversation
    /// is the one open in compose view; a no-op when the conversation is
    /// absent.
    pub fn add_msg_to_chat(&mut self, conversation_id: ChatId,
        message: crate::message::ChatMessage)
        ensures
            old(self).wf() ==> final(self).wf(),
            ({
                let all = old(self)@.chats.all;
                if has_chat(all, conversation_id) {
                    let i = chat_index_of(all, conversation_id);
                    final(self)@ == old(self)@.with_chat_at(i, chat_with_message(
                        all[i],
                        message.deep_view(),
                        old(self).counts_unread(conversation_id),
                    ))
                } else {
                    final(self)@ == old(self)@
                }
            }),
    {
        let ghost all0 = self@.chats.all;
        let count_unread = !matches!(self.ui.current_layout, crate::ui::Layout::Compose)
            || !matches!(self.chats.active, Some(a) if a.0 == conversation_id.0);
        if let Some(i) = self.find_chat_index(conversation_id) {
            let mut chat = self.chats.all[i].clone();
            chat.remove_typing(message.sender);
            chat.push_message(message);
            if count_unread {
                chat.bump_unreads();
            }
            proof {
                assert(chat@ =~= chat_with_message(
                    all0[i as int],
                    message.deep_view(),
                    old(self).counts_unread(conversation_id),
                ));
            }
            self.chats.all.set(i, chat);
            proof {
                let c1 = chat_with_message(all0[i as int], message.deep_view(),
                    old(self).counts_unread(conversation_id));
                assert(self.chats.all.deep_view() =~= all0.update(i as int, c1));
                assert(self@ =~= old(self)@.with_chat_at(i as int, c1));
                if old(self).wf() {
                    lemma_wf_update_chat(old(self)@, i as int, c1);
                }
            }
        }
    }

    /// Appends the echo of the user's own send: pushes the message and
    /// lowers the conversation's pending-outgoing counter; a no-op when
    /// the conversation is absent.
    pub fn add_sent_msg_to_chat(&mut self, conversation_id: ChatId,
        message: crate::message::ChatMessage)
        ensures
            old(self).wf() ==> final(self).wf(),
            ({
                let all = old(self)@.chats.all;
                if has_chat(all, conversation_id) {
                    let i = chat_index_of(all, conversation_id);
                    final(self)@ == old(self)@.with_chat_at(i, ChatView {
                        messages: crate::chat::log_step(
                            all[i].messages,
                            crate::chat::LogOp::Append(message.deep_view()),
                        ),
                        ..all[i]
                    })
                } else {
                    final(self)@ == old(self)@
                }
            }),
    {
        let ghost all0 = self@.chats.all;
        if let Some(i) = self.find_chat_index(conversation_id) {
            let mut chat = self.chats.all[i].clone();
            chat.push_message(message);
            self.chats.all.set(i, chat);
            proof {
                let c1 = ChatView {
                    messages: crate::chat::log_step(
                        all0[i as int].messages,
                        crate::chat::LogOp::Append(self.chats.all.deep_view()[i as int]
                            .messages.last()),
                    ),
                    ..all0[i as int]
                };
                assert(self.chats.all.deep_view() =~= all0.update(i as int, c1));
                assert(self@ =~= old(self)@.with_chat_at(i as int, c1));
                if old(self).wf() {
                    lemma_wf_update_chat(old(self)@, i as int, c1);
                }
            }
        }
    }

    /// Replaces an edited message in a conversation's log; a no-op when
    /// the conversation or the message is absent.
    pub fn replace_msg_in_chat(&mut self, conversation_id: ChatId,
        message: crate::message::ChatMessage)
        ensures
            old(self).wf() ==> final(self).wf(),
            ({
                let all = old(self)@.chats.all;
                if has_chat(all, conversation_id) {
                    let i = chat_index_of(all, conversation_id);
                    final(self)@ == old(self)@.with_chat_at(i, ChatView {
                        messages: crate::chat::log_step(
                            all[i].messages,
                            crate::chat::LogOp::Replace(message.deep_view()),
                        ),
                        ..all[i]
                    })
                } else {
                    final(self)@ == old(self)@
                }
            }),
    {
        let ghost all0 = self@.chats.all;
        let ghost mv = message.deep_view();
        if let Some(i) = self.find_chat_index(conversation_id) {
            let mut chat = self.chats.all[i].clone();
            chat.replace_message(message);
            self.chats.all.set(i, chat);
            proof {
                let c1 = ChatView {
                    messages: crate::chat::log_step(
                        all0[i as int].messages,
                        crate::chat::LogOp::Replace(mv),
                    ),
                    ..all0[i as int]
                };
                assert(self.chats.all.deep_view() =~= all0.update(i as int, c1));
                assert(self@ =~= old(self)@.with_chat_at(i as int, c1));
                if old(self).wf() {
                    lemma_wf_update_chat(old(self)@, i as int, c1);
                }
            }
        }
    }

    /// Removes a deleted message from a conversation's log; a no-op when
    /// the conversation is absent.
    pub fn remove_msg_from_chat(&mut self, conversation_id: ChatId,
        message_id: crate::ids::MsgId)
        ensures
            old(self).wf() ==> final(self).wf(),
            ({
                let all = old(self)@.chats.all;
                if has_chat(all, conversation_id) {
                    let i = chat_index_of(all, conversation_id);
                    final(self)@ == old(self)@.with_chat_at(i, ChatView {
                        messages: crate::chat::log_step(
                            all[i].messages,
                            crate::chat::LogOp::Remove(message_id),
                        ),
                        ..all[i]
                    })
                } else {
                    final(self)@ == old(self)@
                }
            }),
    {
        let ghost all0 = self@.chats.all;
        if let Some(i) = self.find_chat_index(conversation_id) {
            let mut chat = self.chats.all[i].clone();
            chat.remove_message(message_id);
            self.chats.all.set(i, chat);
            proof {
                let c1 = ChatView {
                    messages: crate::chat::log_step(
                        all0[i as int].messages,
                        crate::chat::LogOp::Remove(message_id),
                    ),
                    ..all0[i as int]
                };
                assert(self.chats.all.deep_view() =~= all0.update(i as int, c1));
                assert(self@ =~= old(self)@.with_chat_at(i as int, c1));
                if old(self).wf() {
                    lemma_wf_update_chat(old(self)@, i as int, c1);
                }
            }
        }
    }

    /// Applies a reaction update carried by a full message record to the
    /// conversation it names; a no-op, with nothing found, when the
    /// conversation or the message is absent.
    pub fn update_message(&mut self, message: crate::message::ChatMessage)
        ensures
            old(self).wf() ==> final(self).wf(),
            ({
                let all = old(self)@.chats.all;
                let cid = message.conversation_id;
                if has_chat(all, cid) {
                    let i = chat_index_of(all, cid);
                    let log0 = all[i].messages;
                    if crate::chat::log_has_msg(log0, message.id) {
                        let j = crate::chat::first_msg_index(log0, message.id);
                        final(self)@ == old(self)@.with_chat_at(i, ChatView {
                            messages: log0.update(j, crate::chat::reaction_merged_msg(
                                log0[j],
                                message.deep_view(),
                            )),
                            ..all[i]
                        })
                    } else {
                        final(self)@ == old(self)@
                    }
                } else {
                    final(self)@ == old(self)@
                }
            }),
    {
        let ghost all0 = self@.chats.all;
        let ghost mv = message.deep_view();
        let cid = message.conversation_id;
        if let Some(i) = self.find_chat_index(cid) {
            let mut chat = self.chats.all[i].clone();
            let updated = chat.apply_reaction_update(&message);
            if updated {
                self.chats.all.set(i, chat);
                proof {
                    let log0 = all0[i as int].messages;
                    let j = crate::chat::first_msg_index(log0, mv.id);
                    let c1 = ChatView {
                        messages: log0.update(j, crate::chat::reaction_merged_msg(
                            log0[j],
                            mv,
                        )),
                        ..all0[i as int]
                    };
                    assert(self.chats.all.deep_view() =~= all0.update(i as int, c1));
                    assert(self@ =~= old(self)@.with_chat_at(i as int, c1));
                    if old(self).wf() {
                        lemma_wf_update_chat(old(self)@, i as int, c1);
                    }
                }
            } else {
                proof {
                    assert(self@ =~= old(self)@);
                }
            }
        }
    }

    /// Raises the active conversation's pending-outgoing counter by one;
    /// a no-op without an active conversation present in the table.
    pub fn increment_outgoing_messages(&mut self)
        ensures
            old(self).wf() ==> final(self).wf(),
            ({
                let s0 = old(self)@;
                match s0.chats.active {
                    Some(cid) => if has_chat(s0.chats.all, cid) {
                        let i = chat_index_of(s0.chats.all, cid);
                        final(self)@ == s0.with_chat_at(i, ChatView {
                            pending_outgoing_messages: crate::ui::sat_add_u32(
                                s0.chats.all[i].pending_outgoing_messages,
                                1,
                            ),
                            ..s0.chats.all[i]
                        })
                    } else {
                        final(self)@ == s0
                    },
                    None => final(self)@ == s0,
                }
            }),
    {
        let ghost all0 = self@.chats.all;
        let active = self.chats.active;
        if let Some(cid) = active {
            if let Some(i) = self.find_chat_index(cid) {
                let mut chat = self.chats.all[i].clone();
                chat.increment_pending();
                self.chats.all.set(i, chat);
                proof {
                    let c1 = ChatView {
                        pending_outgoing_messages: crate::ui::sat_add_u32(
                            all0[i as int].pending_outgoing_messages,
                            1,
                        ),
                        ..all0[i as int]
                    };
                    assert(self.chats.all.deep_view() =~= all0.update(i as int, c1));
                    assert(self@ =~= old(self)@.with_chat_at(i as int, c1));
                    if old(self).wf() {
                        lemma_wf_update_chat(old(self)@, i as int, c1);
                    }
                }
            }
        }
    }

    /// Lowers a conversation's pending-outgoing counter by one, saturating
    /// at zero; a no-op when the conversation is absent.
    pub fn decrement_outgoing_messages(&mut self, conv_id: ChatId)
        ensures
            old(self).wf() ==> final(self).wf(),
            ({
                let all = old(self)@.chats.all;
                if has_chat(all, conv_id) {
                    let i = chat_index_of(all, conv_id);
                    final(self)@ == old(self)@.with_chat_at(i, ChatView {
                        pending_outgoing_messages: crate::ui::sat_sub_u32(
                            all[i].pending_outgoing_messages,
                            1,
                        ),
                        ..all[i]
                    })
                } else {
                    final(self)@ == old(self)@
                }
            }),
    {
        let ghost all0 = self@.chats.all;
        if let Some(i) = self.find_chat_index(conv_id) {
            let mut chat = self.chats.all[i].clone();
            chat.decrement_pending();
            self.chats.all.set(i, chat);
            proof {
                let c1 = ChatView {
                    pending_outgoing_messages: crate::ui::sat_sub_u32(
                        all0[i as int].pending_outgoing_messages,
                        1,
                    ),
                    ..all0[i as int]
                };
                assert(self.chats.all.deep_view() =~= all0.update(i as int, c1));
                assert(self@ =~= old(self)@.with_chat_at(i as int, c1));
                if old(self).wf() {
                    lemma_wf_update_chat(old(self)@, i as int, c1);
                }
            }
        }
    }

    /// Inserts an older page of messages, given newest first, at the
    /// oldest end of a conversation's log; a no-op when the conversation
    /// is absent.
    pub fn prepend_messages_to_chat(&mut self, conversation_id: ChatId,
        messages: Vec<crate::message::ChatMessage>)
        ensures
            old(self).wf() ==> final(self).wf(),
            ({
                let all = old(self)@.chats.all;
                if has_chat(all, conversation_id) {
                    let i = chat_index_of(all, conversation_id);
                    final(self)@ == old(self)@.with_chat_at(i, ChatView {
                        messages: messages.deep_view().reverse() + all[i].messages,
                        ..all[i]
                    })
                } else {
                    final(self)@ == old(self)@
                }
            }),
    {
        let ghost all0 = self@.chats.all;
        let ghost pv = messages.deep_view();
        if let Some(i) = self.find_chat_index(conversation_id) {
            let mut chat = self.chats.all[i].clone();
            chat.prepend_messages(messages);
            self.chats.all.set(i, chat);
            proof {
                let c1 = ChatView {
                    messages: pv.reverse() + all0[i as int].messages,
                    ..all0[i as int]
                };
                assert(self.chats.all.deep_view() =~= all0.update(i as int, c1));
                assert(self@ =~= old(self)@.with_chat_at(i as int, c1));
                if old(self).wf() {
                    lemma_wf_update_chat(old(self)@, i as int, c1);
                }
            }
        }
    }

    /// Records a typing indicator at the given tick; ignored for
    /// conversations missing from the sidebar ordering or from the table.
    pub fn typing_indicator(&mut self, conversation_id: ChatId, participant: Did, now: u64)
        ensures
            old(self).wf() ==> final(self).wf(),
            ({
                let s0 = old(self)@;
                if !s0.chats.in_sidebar.contains(conversation_id)
                    || !has_chat(s0.chats.all, conversation_id) {
                    final(self)@ == s0
                } else {
                    let i = chat_index_of(s0.chats.all, conversation_id);
                    let t0 = s0.chats.all[i].typing;
                    final(self)@ == s0.with_chat_at(i, ChatView {
                        typing: if crate::chat::typing_has_key(t0, participant) {
                            t0.update(
                                crate::chat::first_typing_index(t0, participant),
                                (participant, now),
                            )
                        } else {
                            t0.push((participant, now))
                        },
                        ..s0.chats.all[i]
                    })
                }
            }),
    {
        let ghost all0 = self@.chats.all;
        if !contains_cid(&self.chats.in_sidebar, conversation_id) {
            return;
        }
        if let Some(i) = self.find_chat_index(conversation_id) {
            let mut chat = self.chats.all[i].clone();
            chat.set_typing(participant, now);
            self.chats.all.set(i, chat);
            proof {
                let t0 = all0[i as int].typing;
                let c1 = ChatView {
                    typing: if crate::chat::typing_has_key(t0, participant) {
                        t0.update(
                            crate::chat::first_typing_index(t0, participant),
                            (participant, now),
                        )
                    } else {
                        t0.push((participant, now))
                    },
                    ..all0[i as int]
                };
                assert(self.chats.all.deep_view() =~= all0.update(i as int, c1));
                assert(self@ =~= old(self)@.with_chat_at(i as int, c1));
                if old(self).wf() {
                    assert(all0[i as int].wf());
                    lemma_wf_update_chat(old(self)@, i as int, c1);
                }
            }
        }
    }
}

/// How the whole conversation table looks after one maintenance pass that
/// drops stale typing entries from every conversation in the sidebar.
pub open spec fn chats_typing_pruned(c: ChatsView, now: u64) -> Seq<ChatView> {
    Seq::new(
        c.all.len(),
        |i: int| if c.in_sidebar.contains(c.all[i].id) {
            ChatView {
                typing: crate::chat::Chat::typing_pruned(c.all[i].typing, now),
                ..c.all[i]
            }
        } else {
            c.all[i]
        },
    )
}

impl State {
    /// Maintenance pass: drops stale typing entries from every conversation
    /// in the sidebar ordering; returns whether anything changed.
    pub fn clear_typing_indicator(&mut self, now: u64) -> (changed: bool)
        ensures
            old(self).wf() ==> final(self).wf(),
            (final(self)@ == StateView {
                chats: ChatsView {
                    all: chats_typing_pruned(old(self)@.chats, now),
                    ..old(self)@.chats
                },
                ..old(self)@
            }),
            changed == exists|k: int| 0 <= k < old(self)@.chats.all.len()
                && (#[trigger] final(self)@.chats.all[k]).typing.len()
                    != old(self)@.chats.all[k].typing.len(),
    {
        let ghost c0 = self@.chats;
        let mut changed = false;
        let mut i: usize = 0;
        let n = self.chats.all.len();
        while i < n
            invariant
                n == self.chats.all.len(),
                self@.chats.all.len() == c0.all.len(),
                i <= n,
                old(self)@.chats == c0,
                (self@ == StateView {
                    chats: ChatsView { all: self@.chats.all, ..c0 },
                    ..old(self)@
                }),
                forall|k: int| 0 <= k < i ==> self@.chats.all[k]
                    == chats_typing_pruned(c0, now)[k],
                forall|k: int| i <= k < n ==> self@.chats.all[k] == c0.all[k],
                old(self).wf() ==> self.wf(),
                changed == exists|k: int| 0 <= k < i
                    && (#[trigger] self@.chats.all[k]).typing.len()
                        != c0.all[k].typing.len(),
            decreases n - i,
        {
            let ghost pre = self@.chats.all;
            let ghost changed0 = changed;
            let cid = self.chats.all[i].id;
            if contains_cid(&self.chats.in_sidebar, cid) {
                let mut chat = self.chats.all[i].clone();
                let pruned = chat.prune_typing(now);
                if pruned {
                    changed = true;
                }
                self.chats.all.set(i, chat);
                proof {
                    let c1 = ChatView {
                        typing: crate::chat::Chat::typing_pruned(c0.all[i as int].typing, now),
                        ..c0.all[i as int]
                    };
                    assert(self.chats.all.deep_view() =~= pre.update(i as int, c1));
                    assert(self@ =~= (StateView {
                        chats: ChatsView { all: self@.chats.all, ..c0 },
                        ..old(self)@
                    }));
                    if old(self).wf() {
                        assert(chat_ids(self@.chats.all) =~= chat_ids(pre));
                    }
                    assert(self@.chats.all[i as int].typing.len()
                        != c0.all[i as int].typing.len() <==> pruned);
                    assert forall|k: int| 0 <= k < i
                        implies ((#[trigger] self@.chats.all[k]).typing.len()
                            != c0.all[k].typing.len()) == (pre[k].typing.len()
                            != c0.all[k].typing.len()) by {
                        assert(self@.chats.all[k] == pre[k]);
                    }
                    assert(changed == exists|k: int| 0 <= k < i + 1
                        && (#[trigger] self@.chats.all[k]).typing.len()
                            != c0.all[k].typing.len()) by {
                        if changed0 {
                            let w = choose|k: int| 0 <= k < i
                                && (#[trigger] pre[k]).typing.len()
                                    != c0.all[k].typing.len();
                            assert(self@.chats.all[w].typing.len()
                                != c0.all[w].typing.len());
                        } else if pruned {
                            assert(self@.chats.all[i as int].typing.len()
                                != c0.all[i as int].typing.len());
                        }
                    }
                }
            } else {
                proof {
                    assert(self@.chats.all[i as int].typing.len()
                        == c0.all[i as int].typing.len());
                }
            }
            i += 1;
        }
        proof {
            assert(self@.chats.all =~= chats_typing_pruned(c0, now));
        }
        changed
    }
}

/// The snapshot after a toast landed under one key: the toast entry is
/// replaced when the key is already taken, appended otherwise, and nothing
/// else moves.
pub open spec fn toast_enqueued(s0: StateView, s1: StateView, tv: crate::ui::ToastView,
    key: u128) -> bool {
    let t0 = s0.ui.toast_notifications;
    s1 == StateView {
        ui: UIView {
            toast_notifications: if crate::ui::toast_keys(t0).contains(key) {
                t0.update(crate::ui::first_toast_index_in(t0, key), (key, tv))
            } else {
                t0.push((key, tv))
            },
            ..s0.ui
        },
        ..s0
    }
}

impl State {
    /// Enqueues a toast under a freshly drawn random key. The key comes
    /// from a random generator: the toast lands under whatever key was
    /// drawn, replacing a toast only in the vanishing case of a collision.
    pub fn add_toast_notification(&mut self, toast: crate::ui::ToastNotification)
        ensures
            old(self).wf() ==> final(self).wf(),
            (exists|key: u128| #[trigger] toast_enqueued(old(self)@, final(self)@,
                toast@, key)),
    {
        let key = crate::ext::fresh_random_id();
        let ghost t0 = self@.ui.toast_notifications;
        self.ui.insert_toast(key, toast);
        proof {
            assert(self@ =~= (StateView {
                ui: self@.ui,
                ..old(self)@
            }));
            assert(old(self).ui.has_toast_key(key)
                == crate::ui::toast_keys(t0).contains(key)) by {
                if old(self).ui.has_toast_key(key) {
                    let i = choose|i: int| 0 <= i < t0.len() && t0[i].0 == key;
                    assert(crate::ui::toast_keys(t0)[i] == key);
                }
                if crate::ui::toast_keys(t0).contains(key) {
                    let i = choose|i: int| 0 <= i < crate::ui::toast_keys(t0).len()
                        && crate::ui::toast_keys(t0)[i] == key;
                    assert(t0[i].0 == key);
                }
            }
            assert(toast_enqueued(old(self)@, self@, toast@, key));
            if old(self).wf() {
                lemma_wf_same_tables_toast(old(self)@, self@);
            }
        }
    }

    /// Removes the toast carrying the key, if any.
    pub fn remove_toast(&mut self, key: u128)
        ensures
            old(self).wf() ==> final(self).wf(),
            ({
                let t0 = old(self)@.ui.toast_notifications;
                if crate::ui::toast_keys(t0).contains(key) {
                    final(self)@ == StateView {
                        ui: UIView {
                            toast_notifications: t0.remove(
                                crate::ui::first_toast_index_in(t0, key),
                            ),
                            ..old(self)@.ui
                        },
                        ..old(self)@
                    }
                } else {
                    final(self)@ == old(self)@
                }
            }),
    {
        let ghost t0 = self@.ui.toast_notifications;
        proof {
            lemma_toast_key_membership(t0, key, *old(self));
        }
        self.ui.remove_toast(key);
        proof {
            assert(self@ =~= (StateView { ui: self@.ui, ..old(self)@ }));
            if old(self).wf() {
                lemma_wf_same_tables_toast(old(self)@, self@);
            }
        }
    }

    /// Restarts the countdown of the toast carrying the key, if any.
    pub fn reset_toast_timer(&mut self, key: u128)
        ensures
            old(self).wf() ==> final(self).wf(),
            ({
                let t0 = old(self)@.ui.toast_notifications;
                if crate::ui::toast_keys(t0).contains(key) {
                    let i = crate::ui::first_toast_index_in(t0, key);
                    final(self)@ == StateView {
                        ui: UIView {
                            toast_notifications: t0.update(i, (
                                key,
                                crate::ui::ToastView {
                                    remaining_time: t0[i].1.initial_time,
                                    ..t0[i].1
                                },
                            )),
                            ..old(self)@.ui
                        },
                        ..old(self)@
                    }
                } else {
                    final(self)@ == old(self)@
                }
            }),
    {
        let ghost t0 = self@.ui.toast_notifications;
        proof {
            lemma_toast_key_membership(t0, key, *old(self));
        }
        self.ui.reset_toast_timer(key);
        proof {
            assert(self@ =~= (StateView { ui: self@.ui, ..old(self)@ }));
            if old(self).wf() {
                lemma_wf_same_tables_toast(old(self)@, self@);
            }
        }
    }

    /// Whether any toast is pending.
    pub fn has_toasts(&self) -> (r: bool)
        ensures
            r == (self@.ui.toast_notifications.len() > 0),
    {
        self.ui.has_toasts()
    }

    /// Applies one decay tick to every toast and drops the expired ones;
    /// returns whether any toast was dropped.
    pub fn decrement_toasts(&mut self) -> (removed: bool)
        ensures
            old(self).wf() ==> final(self).wf(),
            (final(self)@ == StateView {
                ui: UIView {
                    toast_notifications: crate::ui::decayed_toasts(
                        old(self)@.ui.toast_notifications,
                    ),
                    ..old(self)@.ui
                },
                ..old(self)@
            }),
            removed == (final(self)@.ui.toast_notifications.len()
                != old(self)@.ui.toast_notifications.len()),
    {
        let removed = self.ui.decrement_toasts();
        proof {
            assert(self@ =~= (StateView { ui: self@.ui, ..old(self)@ }));
            if old(self).wf() {
                lemma_wf_same_tables_toast(old(self)@, self@);
            }
        }
        removed
    }
}

/// The key-membership test used by the toast methods agrees with the
/// key-sequence view.
pub proof fn lemma_toast_key_membership(t0: Seq<(u128, crate::ui::ToastView)>, key: u128,
    st: State)
    requires
        t0 == st@.ui.toast_notifications,
    ensures
        st.ui.has_toast_key(key) == crate::ui::toast_keys(t0).contains(key),
{
    if st.ui.has_toast_key(key) {
        let i = choose|i: int| 0 <= i < t0.len() && t0[i].0 == key;
        assert(crate::ui::toast_keys(t0)[i] == key);
    }
    if crate::ui::toast_keys(t0).contains(key) {
        let i = choose|i: int| 0 <= i < crate::ui::toast_keys(t0).len()
            && crate::ui::toast_keys(t0)[i] == key;
        assert(t0[i].0 == key);
    }
}

/// A snapshot change that touches only the toasts, keeping their keys
/// duplicate-free, keeps the structural invariant.
pub proof fn lemma_wf_same_tables_toast(s0: StateView, s1: StateView)
    requires
        s0.wf(),
        s1.chats.all == s0.chats.all,
        s1.chats.favorites == s0.chats.favorites,
        s1.friends == s0.friends,
        toast_keys(s1.ui.toast_notifications).no_duplicates(),
        s1.identities == s0.identities,
    ensures
        s1.wf(),
{
}

/// Whether a key list is duplicate-free.
pub fn dids_nodup(v: &Vec<Did>) -> (r: bool)
    ensures
        r == v@.no_duplicates(),
{
    let mut i: usize = 0;
    while i < v.len()
        invariant
            i <= v.len(),
            forall|p: int, q: int| 0 <= p < q < v@.len() && p < i ==> v@[p] != v@[q],
        decreases v.len() - i,
    {
        let mut j: usize = i + 1;
        while j < v.len()
            invariant
                i < j <= v.len(),
                i < v.len(),
                forall|q: int| i < q < j ==> v@[i as int] != v@[q],
            decreases v.len() - j,
        {
            if v[i].0 == v[j].0 {
                return false;
            }
            j += 1;
        }
        i += 1;
    }
    true
}

/// Whether a typing map's keys are duplicate-free.
pub fn typing_nodup(v: &Vec<(Did, u64)>) -> (r: bool)
    ensures
        r == crate::chat::typing_keys(v@).no_duplicates(),
{
    let ghost ks = crate::chat::typing_keys(v@);
    let mut i: usize = 0;
    while i < v.len()
        invariant
            i <= v.len(),
            ks == crate::chat::typing_keys(v@),
            forall|p: int, q: int| 0 <= p < q < ks.len() && p < i ==> ks[p] != ks[q],
        decreases v.len() - i,
    {
        let mut j: usize = i + 1;
        while j < v.len()
            invariant
                i < j <= v.len(),
                i < v.len(),
                ks == crate::chat::typing_keys(v@),
                forall|q: int| i < q < j ==> ks[i as int] != ks[q],
            decreases v.len() - j,
        {
            if v[i].0.0 == v[j].0.0 {
                proof {
                    assert(ks[i as int] == v@[i as int].0);
                    assert(ks[j as int] == v@[j as int].0);
                }
                return false;
            }
            proof {
                assert(ks[i as int] == v@[i as int].0);
                assert(ks[j as int] == v@[j as int].0);
            }
            j += 1;
        }
        i += 1;
    }
    true
}

/// Whether a conversation value satisfies its structural invariant.
pub fn chat_is_wf(c: &Chat) -> (r: bool)
    ensures
        r == c.wf(),
{
    if !dids_nodup(&c.participants) {
        return false;
    }
    if !typing_nodup(&c.typing) {
        return false;
    }
    if matches!(c.kind, crate::chat::ChatKind::Direct) {
        if c.participants.len() != 2 || c.name.is_some() {
            return false;
        }
    }
    true
}

/// The identity table after caching a whole list, one upsert at a time.
pub open spec fn upserted_all(ids: Seq<Identity>, new: Seq<Identity>) -> Seq<Identity>
    decreases new.len(),
{
    if new.len() == 0 {
        ids
    } else {
        upserted(upserted_all(ids, new.drop_last()), new.last())
    }
}

impl State {
    /// Caches a whole list of identities, in order.
    pub fn register_identities(&mut self, idents: Vec<Identity>)
        ensures
            old(self).wf() ==> final(self).wf(),
            (final(self)@ == StateView {
                identities: upserted_all(old(self)@.identities, idents@),
                ..old(self)@
            }),
    {
        let ghost target = idents@;
        let mut idents = idents;
        let mut i: usize = 0;
        let n = idents.len();
        while i < n
            invariant
                n == idents.len(),
                i <= n,
                idents@ == target,
                old(self).wf() ==> self.wf(),
                (self@ == StateView {
                    identities: upserted_all(old(self)@.identities, target.take(i as int)),
                    ..old(self)@
                }),
            decreases n - i,
        {
            let ident = idents[i].clone();
            proof {
                assert(ident == target[i as int]);
            }
            self.upsert_identity(ident);
            proof {
                assert(target.take(i as int + 1).drop_last() =~= target.take(i as int));
                assert(target.take(i as int + 1).last() == target[i as int]);
            }
            i += 1;
        }
        proof {
            assert(target.take(target.len() as int) =~= target);
        }
    }

    /// Applies a conversation-created event: inserts (or replaces) the
    /// conversation in the table; when it was not yet in the sidebar
    /// ordering, also inserts it at the front and caches the participant
    /// identities carried by the event. A malformed conversation record is
    /// ignored.
    pub fn conversation_created(&mut self, chat: Chat, identities: Vec<Identity>)
        ensures
            old(self).wf() ==> final(self).wf(),
            ({
                let s0 = old(self)@;
                if !chat@.wf() {
                    final(self)@ == s0
                } else {
                    let fresh = !s0.chats.in_sidebar.contains(chat.id);
                    let mid = StateView {
                        chats: ChatsView {
                            in_sidebar: if fresh {
                                seq![chat.id] + s0.chats.in_sidebar
                            } else {
                                s0.chats.in_sidebar
                            },
                            ..s0.chats
                        },
                        identities: if fresh {
                            upserted_all(s0.identities, identities@)
                        } else {
                            s0.identities
                        },
                        ..s0
                    };
                    if has_chat(s0.chats.all, chat.id) {
                        final(self)@ == StateView {
                            chats: ChatsView {
                                all: mid.chats.all.update(
                                    chat_index_of(s0.chats.all, chat.id),
                                    chat@,
                                ),
                                ..mid.chats
                            },
                            ..mid
                        }
                    } else {
                        final(self)@ == StateView {
                            chats: ChatsView {
                                all: mid.chats.all.push(chat@),
                                ..mid.chats
                            },
                            ..mid
                        }
                    }
                }
            }),
    {
        if !chat_is_wf(&chat) {
            return;
        }
        let ghost s0 = old(self)@;
        let cid = chat.id;
        if !contains_cid(&self.chats.in_sidebar, cid) {
            self.chats.in_sidebar.insert(0, cid);
            proof {
                assert(self@.chats.in_sidebar =~= seq![cid] + s0.chats.in_sidebar);
            }
            self.register_identities(identities);
        }
        let ghost mid = self@;
        let ghost allm = self@.chats.all;
        if let Some(i) = self.find_chat_index(cid) {
            self.chats.all.set(i, chat);
            proof {
                assert(self.chats.all.deep_view() =~= allm.update(i as int,
                    self.chats.all.deep_view()[i as int]));
                assert(self@ =~= (StateView {
                    chats: ChatsView {
                        all: mid.chats.all.update(chat_index_of(s0.chats.all,
                            self.chats.all.deep_view()[i as int].id), self.chats.all
                            .deep_view()[i as int]),
                        ..mid.chats
                    },
                    ..mid
                }));
                if old(self).wf() {
                    assert(chat_ids(self@.chats.all) =~= chat_ids(s0.chats.all));
                }
            }
        } else {
            self.chats.all.push(chat);
            proof {
                assert(self.chats.all.deep_view() =~= allm.push(self.chats.all.deep_view()
                    .last()));
                assert(self@ =~= (StateView {
                    chats: ChatsView {
                        all: mid.chats.all.push(self.chats.all.deep_view().last()),
                        ..mid.chats
                    },
                    ..mid
                }));
                if old(self).wf() {
                    let ks = chat_ids(self@.chats.all);
                    assert(ks =~= chat_ids(s0.chats.all).push(cid));
                    assert forall|p: int, q: int| 0 <= p < q < ks.len()
                        implies ks[p] != ks[q] by {
                        if q == ks.len() - 1 {
                            assert(chat_ids(s0.chats.all)[p] == s0.chats.all[p].id);
                            assert(!has_chat(s0.chats.all, cid));
                        }
                    }
                }
            }
        }
    }

    /// Applies a conversation-deleted event: removes the conversation from
    /// the sidebar ordering and from the table, and clears the active
    /// pointer if it pointed there.
    pub fn conversation_deleted(&mut self, chat_id: ChatId)
        ensures
            old(self).wf() ==> final(self).wf(),
            ({
                let s0 = old(self)@;
                let all1 = if has_chat(s0.chats.all, chat_id) {
                    s0.chats.all.remove(chat_index_of(s0.chats.all, chat_id))
                } else {
                    s0.chats.all
                };
                final(self)@ == StateView {
                    chats: ChatsView {
                        all: all1,
                        in_sidebar: without_cid(s0.chats.in_sidebar, chat_id),
                        active: if s0.chats.active == Some(chat_id) {
                            None
                        } else {
                            s0.chats.active
                        },
                        ..s0.chats
                    },
                    ..s0
                }
            }),
    {
        let ghost s0 = old(self)@;
        remove_cid(&mut self.chats.in_sidebar, chat_id);
        let clear = match self.chats.active {
            Some(a) => a.0 == chat_id.0,
            None => false,
        };
        if clear {
            self.chats.active = None;
        }
        if let Some(i) = self.find_chat_index(chat_id) {
            self.chats.all.remove(i);
            proof {
                assert(self.chats.all.deep_view() =~= s0.chats.all.remove(i as int));
                assert(self@ =~= (StateView {
                    chats: ChatsView {
                        all: s0.chats.all.remove(chat_index_of(s0.chats.all, chat_id)),
                        in_sidebar: without_cid(s0.chats.in_sidebar, chat_id),
                        active: if s0.chats.active == Some(chat_id) {
                            None
                        } else {
                            s0.chats.active
                        },
                        ..s0.chats
                    },
                    ..s0
                }));
                if old(self).wf() {
                    let ks0 = chat_ids(s0.chats.all);
                    let ks1 = chat_ids(self@.chats.all);
                    assert(ks1 =~= ks0.remove(i as int));
                    assert forall|p: int, q: int| 0 <= p < q < ks1.len()
                        implies ks1[p] != ks1[q] by {
                        let pp = if p < i as int { p } else { p + 1 };
                        let qq = if q < i as int { q } else { q + 1 };
                        assert(ks1[p] == ks0[pp]);
                        assert(ks1[q] == ks0[qq]);
                    }
                }
            }
        } else {
            proof {
                assert(self@ =~= (StateView {
                    chats: ChatsView {
                        all: s0.chats.all,
                        in_sidebar: without_cid(s0.chats.in_sidebar, chat_id),
                        active: if s0.chats.active == Some(chat_id) {
                            None
                        } else {
                            s0.chats.active
                        },
                        ..s0.chats
                    },
                    ..s0
                }));
                if old(self).wf() {
                    lemma_wf_same_tables(old(self)@, self@);
                }
            }
        }
    }

    /// Applies a recipient change: recomputes the participant set from the
    /// authoritative backend record, not incrementally; a no-op when the
    /// conversation is absent.
    pub fn reset_chat_participants(&mut self, conversation_id: ChatId, recipients: &Vec<Did>)
        ensures
            old(self).wf() ==> final(self).wf(),
            ({
                let all = old(self)@.chats.all;
                if has_chat(all, conversation_id) {
                    let i = chat_index_of(all, conversation_id);
                    let deduped = crate::message::dedup_first(recipients@);
                    if all[i].kind == crate::chat::ChatKind::Direct && deduped.len() != 2 {
                        final(self)@ == old(self)@
                    } else {
                        final(self)@ == old(self)@.with_chat_at(i, ChatView {
                            participants: deduped,
                            ..all[i]
                        })
                    }
                } else {
                    final(self)@ == old(self)@
                }
            }),
    {
        let ghost all0 = self@.chats.all;
        if let Some(i) = self.find_chat_index(conversation_id) {
            let mut chat = self.chats.all[i].clone();
            let ghost c0 = chat@;
            chat.set_participants(recipients);
            proof {
                assert(c0 == all0[i as int]);
            }
            if matches!(chat.kind, crate::chat::ChatKind::Direct)
                && chat.participants.len() != 2 {
                proof {
                    let deduped = crate::message::dedup_first(recipients@);
                    if !(all0[i as int].kind == crate::chat::ChatKind::Direct
                        && deduped.len() != 2) {
                        assert(chat@.participants == deduped);
                        assert(false);
                    }
                    assert(self@ =~= old(self)@);
                }
                return;
            }
            self.chats.all.set(i, chat);
            proof {
                let deduped = crate::message::dedup_first(recipients@);
                if all0[i as int].kind == crate::chat::ChatKind::Direct
                    && deduped.len() != 2 {
                    assert(self.chats.all.deep_view()[i as int] == all0[i as int]);
                    assert(self.chats.all.deep_view() =~= all0);
                    assert(self@ =~= old(self)@);
                } else {
                    let c1 = ChatView { participants: deduped, ..all0[i as int] };
                    assert(self.chats.all.deep_view() =~= all0.update(i as int, c1));
                    assert(self@ =~= old(self)@.with_chat_at(i as int, c1));
                    if old(self).wf() {
                        lemma_wf_update_chat(old(self)@, i as int, c1);
                    }
                }
            }
        }
    }

    /// Applies a conversation-name change from the authoritative backend
    /// record; a no-op when the conversation is absent.
    pub fn set_conversation_name(&mut self, conversation_id: ChatId, name: Option<String>)
        ensures
            old(self).wf() ==> final(self).wf(),
            ({
                let all = old(self)@.chats.all;
                if has_chat(all, conversation_id) {
                    let i = chat_index_of(all, conversation_id);
                    if all[i].kind == crate::chat::ChatKind::Direct && name is Some {
                        final(self)@ == old(self)@
                    } else {
                        final(self)@ == old(self)@.with_chat_at(i, ChatView {
                            name: name.deep_view(),
                            ..all[i]
                        })
                    }
                } else {
                    final(self)@ == old(self)@
                }
            }),
    {
        let ghost all0 = self@.chats.all;
        let ghost nv = name.deep_view();
        if let Some(i) = self.find_chat_index(conversation_id) {
            let mut chat = self.chats.all[i].clone();
            let skipped = matches!(chat.kind, crate::chat::ChatKind::Direct)
                && name.is_some();
            chat.set_name(name);
            if skipped {
                proof {
                    assert(chat@ == all0[i as int]);
                    assert(self@ =~= old(self)@);
                }
                return;
            }
            self.chats.all.set(i, chat);
            proof {
                let c1 = ChatView { name: nv, ..all0[i as int] };
                assert(self.chats.all.deep_view() =~= all0.update(i as int, c1));
                assert(self@ =~= old(self)@.with_chat_at(i as int, c1));
                if old(self).wf() {
                    lemma_wf_update_chat(old(self)@, i as int, c1);
                }
            }
        }
    }
}

impl State {
    /// Records a presence change for a cached identity; a no-op when the
    /// key is not cached.
    pub fn set_presence(&mut self, d: Did, status: crate::identity::IdentityStatus)
        ensures
            old(self).wf() ==> final(self).wf(),
            ({
                let ids = old(self)@.identities;
                if has_ident(ids, d) {
                    let i = ident_index_of(ids, d);
                    final(self)@ == StateView {
                        identities: ids.update(i, Identity { status, ..ids[i] }),
                        ..old(self)@
                    }
                } else {
                    final(self)@ == old(self)@
                }
            }),
    {
        let ghost ids = self@.identities;
        if let Some(i) = self.find_identity_index(d) {
            let mut ident = self.identities[i].clone();
            ident.status = status;
            self.identities.set(i, ident);
            proof {
                let gi = ident_index_of(ids, d);
                assert(self@.identities =~= ids.update(gi, Identity { status, ..ids[gi] }));
                assert(self@ =~= (StateView { identities: self@.identities, ..old(self)@ }));
                if old(self).wf() {
                    assert(ident_dids(self@.identities) =~= ident_dids(ids));
                    lemma_wf_same_tables_ident(old(self)@, self@);
                }
            }
        }
    }

    /// The cached username under a key, when cached.
    pub fn cached_username_of(&self, d: Did) -> (r: Option<String>)
        ensures
            ({
                let ids = self@.identities;
                if has_ident(ids, d) {
                    r is Some && r.unwrap()@ == ids[ident_index_of(ids, d)].username@
                } else {
                    r is None
                }
            }),
    {
        if let Some(i) = self.find_identity_index(d) {
            Some(self.identities[i].username.clone())
        } else {
            None
        }
    }
}

/// An exact copy of an ordering of conversation identifiers.
pub fn copy_cids(v: &Vec<ChatId>) -> (r: Vec<ChatId>)
    ensures
        r@ == v@,
{
    let mut r: Vec<ChatId> = Vec::new();
    let mut i: usize = 0;
    while i < v.len()
        invariant
            i <= v.len(),
            r@ == v@.take(i as int),
        decreases v.len() - i,
    {
        r.push(v[i]);
        proof {
            assert(v@.take(i as int + 1) =~= v@.take(i as int).push(v@[i as int]));
        }
        i += 1;
    }
    proof {
        assert(v@.take(v@.len() as int) =~= v@);
    }
    r
}

/// An exact copy of a conversation table.
pub fn clone_chat_table(v: &Vec<Chat>) -> (r: Vec<Chat>)
    ensures
        r.deep_view() == v.deep_view(),
{
    let mut r: Vec<Chat> = Vec::new();
    let mut i: usize = 0;
    while i < v.len()
        invariant
            i <= v.len(),
            r.deep_view() == v.deep_view().take(i as int),
        decreases v.len() - i,
    {
        let ghost rq0 = r@;
        let ghost rv0 = r.deep_view();
        let c = v[i].clone();
        r.push(c);
        proof {
            assert(c.deep_view() == v.deep_view()[i as int]);
            assert(r@ == rq0.push(c));
            assert forall|k: int| 0 <= k < rv0.len() + 1
                implies r.deep_view()[k] == v.deep_view().take(i as int + 1)[k] by {
                assert(r.deep_view()[k] == r@[k].deep_view());
                if k < rv0.len() {
                    assert(r@[k] == rq0[k]);
                    assert(rq0[k].deep_view() == rv0[k]);
                    assert(rv0[k] == v.deep_view().take(i as int)[k]);
                } else {
                    assert(r@[k] == c);
                }
            }
            assert(r.deep_view() =~= v.deep_view().take(i as int + 1));
        }
        i += 1;
    }
    proof {
        assert(v.deep_view().take(v@.len() as int) =~= v.deep_view());
    }
    r
}

impl Clone for Chats {
    fn clone(&self) -> (r: Self)
        ensures
            r@ == self@,
    {
        let r = Chats {
            all: clone_chat_table(&self.all),
            active: self.active,
            active_media: self.active_media,
            in_sidebar: copy_cids(&self.in_sidebar),
            favorites: copy_cids(&self.favorites),
        };
        proof {
            assert(r@ =~= self@);
        }
        r
    }
}

/// One bootstrap conversation merged into the table: an already-known
/// conversation takes the fetched log, kind, pagination flag, name and
/// creator (keeping its UI fields); an unknown one is inserted whole. A
/// merge or insert that would break the conversation invariant is skipped.
pub open spec fn merged_chat(stored: ChatView, incoming: ChatView) -> ChatView {
    ChatView {
        messages: incoming.messages,
        kind: incoming.kind,
        has_more_messages: incoming.has_more_messages,
        name: incoming.name,
        creator: incoming.creator,
        ..stored
    }
}

/// A whole bootstrap table folded into the snapshot's table, in order.
pub open spec fn bootstrapped_chats(all: Seq<ChatView>, incoming: Seq<ChatView>)
    -> Seq<ChatView>
    decreases incoming.len(),
{
    if incoming.len() == 0 {
        all
    } else {
        let rest = bootstrapped_chats(all, incoming.drop_last());
        let c = incoming.last();
        if has_chat(rest, c.id) {
            let i = chat_index_of(rest, c.id);
            if merged_chat(rest[i], c).wf() {
                rest.update(i, merged_chat(rest[i], c))
            } else {
                rest
            }
        } else {
            if c.wf() {
                rest.push(c)
            } else {
                rest
            }
        }
    }
}

impl State {
    /// Resets the conversation table, the friendship graph and the
    /// settings to defaults (a sign-out).
    pub fn clear(&mut self)
        ensures
            old(self).wf() ==> final(self).wf(),
            (final(self)@ == StateView {
                chats: ChatsView {
                    all: Seq::<ChatView>::empty(),
                    active: None,
                    active_media: None,
                    in_sidebar: Seq::<ChatId>::empty(),
                    favorites: Seq::<ChatId>::empty(),
                },
                friends: FriendsView {
                    all: Seq::<Did>::empty(),
                    incoming_requests: Seq::<Did>::empty(),
                    outgoing_requests: Seq::<Did>::empty(),
                    blocked: Seq::<Did>::empty(),
                },
                settings: default_settings_view(),
                ..old(self)@
            }),
    {
        self.chats = Chats {
            all: Vec::new(),
            active: None,
            active_media: None,
            in_sidebar: Vec::new(),
            favorites: Vec::new(),
        };
        self.friends = Friends::new();
        self.settings = Settings::new();
        proof {
            assert(self.chats.all.deep_view() =~= Seq::<ChatView>::empty());
            assert(self@ =~= (StateView {
                chats: ChatsView {
                    all: Seq::<ChatView>::empty(),
                    active: None,
                    active_media: None,
                    in_sidebar: Seq::<ChatId>::empty(),
                    favorites: Seq::<ChatId>::empty(),
                },
                friends: FriendsView {
                    all: Seq::<Did>::empty(),
                    incoming_requests: Seq::<Did>::empty(),
                    outgoing_requests: Seq::<Did>::empty(),
                    blocked: Seq::<Did>::empty(),
                },
                settings: default_settings_view(),
                ..old(self)@
            }));
            if old(self).wf() {
                assert(chat_ids(self@.chats.all) =~= Seq::<ChatId>::empty());
            }
        }
    }

    /// Bootstraps the snapshot from the backend once its state is fetched:
    /// replaces the friendship graph, merges the fetched conversations into
    /// the table, caches the fetched identities, and marks the snapshot
    /// initialized so that event processing may begin.
    #[verifier::rlimit(100)]
    pub fn init_warp(&mut self, friends: Friends, chats: Vec<Chat>, identities: Vec<Identity>)
        requires
            friends.wf(),
        ensures
            old(self).wf() ==> final(self).wf(),
            (final(self)@ == StateView {
                friends: friends@,
                chats: ChatsView {
                    all: bootstrapped_chats(old(self)@.chats.all, chats.deep_view()),
                    ..old(self)@.chats
                },
                identities: upserted_all(old(self)@.identities, identities@),
                initialized: true,
                ..old(self)@
            }),
    {
        self.friends = friends;
        let ghost target = chats.deep_view();
        let mut chats = chats;
        let mut i: usize = 0;
        let n = chats.len();
        while i < n
            invariant
                n == chats.len(),
                i <= n,
                chats.deep_view() == target,
                old(self).wf() ==> self.wf(),
                (self@ == StateView {
                    friends: self@.friends,
                    chats: ChatsView {
                        all: bootstrapped_chats(old(self)@.chats.all,
                            target.take(i as int)),
                        ..old(self)@.chats
                    },
                    ..old(self)@
                }),
                self@.friends == friends@,
            decreases n - i,
        {
            proof {
                assert(target.take(i as int + 1).drop_last() =~= target.take(i as int));
                assert(target.take(i as int + 1).last() == target[i as int]);
            }
            let incoming = chats[i].clone();
            proof {
                assert(incoming@ == target[i as int]);
            }
            let ghost all_pre = self@.chats.all;
            if let Some(j) = self.find_chat_index(incoming.id) {
                let stored = &self.chats.all[j];
                let merged = Chat {
                    id: stored.id,
                    kind: incoming.kind,
                    participants: crate::chat::copy_dids(&stored.participants),
                    messages: incoming.messages,
                    name: incoming.name,
                    creator: incoming.creator,
                    unreads: stored.unreads,
                    pending_outgoing_messages: stored.pending_outgoing_messages,
                    typing: crate::chat::copy_typing(&stored.typing),
                    draft: stored.draft.clone(),
                    replying_to: stored.replying_to.clone(),
                    has_more_messages: incoming.has_more_messages,
                };
                proof {
                    assert(merged.replying_to.deep_view()
                        =~= stored.replying_to.deep_view()) by {
                        if stored.replying_to is Some {
                            assert(vstd::pervasive::cloned::<crate::message::ChatMessage>(
                                stored.replying_to.unwrap(),
                                merged.replying_to.unwrap(),
                            ));
                        }
                    }
                    assert(merged@ =~= merged_chat(all_pre[j as int], target[i as int]));
                }
                if chat_is_wf(&merged) {
                    self.chats.all.set(j, merged);
                    proof {
                        assert(self.chats.all.deep_view() =~= all_pre.update(
                            j as int,
                            merged_chat(all_pre[j as int], target[i as int]),
                        ));
                        if old(self).wf() {
                            assert(chat_ids(self@.chats.all) =~= chat_ids(all_pre));
                        }
                    }
                }
            } else {
                if chat_is_wf(&incoming) {
                    let ghost cid = incoming@.id;
                    self.chats.all.push(incoming);
                    proof {
                        assert(self.chats.all.deep_view()
                            =~= all_pre.push(target[i as int]));
                        if old(self).wf() {
                            let ks = chat_ids(self@.chats.all);
                            assert(ks =~= chat_ids(all_pre).push(cid));
                            assert forall|p: int, q: int| 0 <= p < q < ks.len()
                                implies ks[p] != ks[q] by {
                                if q == ks.len() - 1 {
                                    assert(chat_ids(all_pre)[p] == all_pre[p].id);
                                    assert(!has_chat(all_pre, cid));
                                }
                            }
                        }
                    }
                }
            }
            proof {
                assert(self@ =~= (StateView {
                    friends: self@.friends,
                    chats: ChatsView {
                        all: bootstrapped_chats(old(self)@.chats.all,
                            target.take(i as int + 1)),
                        ..old(self)@.chats
                    },
                    ..old(self)@
                }));
            }
            i += 1;
        }
        proof {
            assert(target.take(target.len() as int) =~= target);
        }
        self.register_identities(identities);
        self.initialized = true;
        proof {
            assert(self@ =~= (StateView {
                friends: friends@,
                chats: ChatsView {
                    all: bootstrapped_chats(old(self)@.chats.all, target),
                    ..old(self)@.chats
                },
                identities: upserted_all(old(self)@.identities, identities@),
                initialized: true,
                ..old(self)@
            }));
        }
    }

    /// A snapshot assembled from parts, for rehearsing the UI without a
    /// backend: the own identity is cached, the route points at the root,
    /// and the snapshot counts as initialized.
    pub fn mock(my_id: Identity, identities: Vec<Identity>, chats: Chats, friends: Friends)
        -> (r: State)
        ensures
            r@ == (StateView {
                id: my_id.did,
                route: "/"@,
                chats: chats@,
                friends: friends@,
                settings: default_settings_view(),
                ui: default_ui_view(),
                configuration: Configuration::default_spec(),
                identities: upserted_all(identities@, seq![my_id]),
                initialized: true,
            }),
    {
        let mut st = State {
            id: my_id.did,
            route: String::from_str("/"),
            chats,
            friends,
            settings: Settings::new(),
            ui: UI::new(),
            configuration: Configuration::new(),
            identities,
            initialized: true,
        };
        let ghost ids0 = st@.identities;
        let ghost pre = st@;
        st.upsert_identity(my_id);
        proof {
            assert(seq![my_id].drop_last() =~= Seq::<Identity>::empty());
            assert(seq![my_id].drop_last().len() == 0);
            assert(upserted_all(ids0, seq![my_id].drop_last()) == ids0);
            assert(seq![my_id].last() == my_id);
            assert(upserted_all(ids0, seq![my_id]) == upserted(ids0, my_id));
            assert(st@ =~= (StateView {
                identities: upserted(ids0, my_id),
                ..pre
            }));
        }
        st
    }
}

} // verus!
