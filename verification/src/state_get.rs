use crate::chat::{Chat, ChatKind, ChatView};
use crate::identity::Identity;
use crate::ids::{ChatId, Did};
use crate::state::{
    chat_index_of, direct_chat_index, has_chat, has_direct_chat_with, has_ident,
    ident_index_of, State,
};
use vstd::prelude::*;
use vstd::std_specs::iter::IteratorSpec;

verus! {

/// The characters of a string, as a vector.
pub fn string_chars(s: &String) -> (r: Vec<char>)
    ensures
        r@ == s@,
{
    broadcast use vstd::string::next_postcondition;
    broadcast use vstd::string::axiom_spec_iter;

    let mut it = s.as_str().chars();
    let mut r: Vec<char> = Vec::new();
    loop
        invariant
            it.obeys_prophetic_iter_laws(),
            IteratorSpec::decrease(&it) is Some,
            r@ + IteratorSpec::remaining(&it) == s@,
        ensures
            r@ == s@,
        decreases IteratorSpec::decrease(&it)->0,
    {
        match it.next() {
            Some(c) => {
                r.push(c);
                proof {
                    assert(r@ + IteratorSpec::remaining(&it) =~= s@);
                }
            },
            None => {
                proof {
                    assert(r@ =~= s@);
                }
                break;
            },
        }
    }
    r
}

/// Whether one character sequence begins with another.
pub open spec fn starts_with(s: Seq<char>, p: Seq<char>) -> bool {
    s.len() >= p.len() && s.take(p.len() as int) == p
}

/// Prefix test on strings, character for character.
pub fn string_starts_with(s: &String, prefix: &String) -> (r: bool)
    ensures
        r == starts_with(s@, prefix@),
{
    let sc = string_chars(s);
    let pc = string_chars(prefix);
    if sc.len() < pc.len() {
        proof {
            assert(!starts_with(s@, prefix@));
        }
        return false;
    }
    let mut i: usize = 0;
    while i < pc.len()
        invariant
            i <= pc.len(),
            pc.len() <= sc.len(),
            sc@ == s@,
            pc@ == prefix@,
            forall|k: int| 0 <= k < i ==> s@[k] == prefix@[k],
        decreases pc.len() - i,
    {
        if sc[i] != pc[i] {
            proof {
                assert(s@.take(prefix@.len() as int)[i as int] != prefix@[i as int]);
            }
            return false;
        }
        i += 1;
    }
    proof {
        assert(s@.take(prefix@.len() as int) =~= prefix@);
    }
    true
}

/// The conversations a list of identifiers names, in list order, skipping
/// identifiers the table does not hold.
pub open spec fn chats_by_ids(all: Seq<ChatView>, ids: Seq<ChatId>) -> Seq<ChatView>
    decreases ids.len(),
{
    if ids.len() == 0 {
        Seq::<ChatView>::empty()
    } else {
        let rest = chats_by_ids(all, ids.drop_last());
        if has_chat(all, ids.last()) {
            rest.push(all[chat_index_of(all, ids.last())])
        } else {
            rest
        }
    }
}

/// The identities a list of keys names, in list order, skipping keys the
/// table does not hold.
pub open spec fn idents_by_dids(table: Seq<Identity>, dids: Seq<Did>) -> Seq<Identity>
    decreases dids.len(),
{
    if dids.len() == 0 {
        Seq::<Identity>::empty()
    } else {
        let rest = idents_by_dids(table, dids.drop_last());
        if has_ident(table, dids.last()) {
            rest.push(table[ident_index_of(table, dids.last())])
        } else {
            rest
        }
    }
}

impl State {
    /// Resolves an ordering of conversation identifiers against the table.
    fn resolve_chats(&self, ids: &Vec<ChatId>) -> (r: Vec<Chat>)
        ensures
            r.deep_view() == chats_by_ids(self@.chats.all, ids@),
    {
        let mut r: Vec<Chat> = Vec::new();
        let mut i: usize = 0;
        while i < ids.len()
            invariant
                i <= ids.len(),
                r.deep_view() == chats_by_ids(self@.chats.all, ids@.take(i as int)),
            decreases ids.len() - i,
        {
            let ghost pre = ids@.take(i as int);
            proof {
                assert(ids@.take(i as int + 1).drop_last() =~= pre);
                assert(ids@.take(i as int + 1).last() == ids@[i as int]);
            }
            if let Some(j) = self.find_chat_index(ids[i]) {
                let ghost rv0 = r.deep_view();
                let c = self.chats.all[j].clone();
                r.push(c);
                proof {
                    assert(r.deep_view() =~= rv0.push(c.deep_view()));
                }
            }
            i += 1;
        }
        proof {
            assert(ids@.take(ids@.len() as int) =~= ids@);
        }
        r
    }

    /// Resolves a list of keys against the identity table.
    fn resolve_identities(&self, dids: &Vec<Did>) -> (r: Vec<Identity>)
        ensures
            r@ == idents_by_dids(self@.identities, dids@),
    {
        let mut r: Vec<Identity> = Vec::new();
        let mut i: usize = 0;
        while i < dids.len()
            invariant
                i <= dids.len(),
                r@ == idents_by_dids(self@.identities, dids@.take(i as int)),
            decreases dids.len() - i,
        {
            let ghost pre = dids@.take(i as int);
            proof {
                assert(dids@.take(i as int + 1).drop_last() =~= pre);
                assert(dids@.take(i as int + 1).last() == dids@[i as int]);
            }
            if let Some(j) = self.find_identity_index(dids[i]) {
                let ident = self.identities[j].clone();
                r.push(ident);
            }
            i += 1;
        }
        proof {
            assert(dids@.take(dids@.len() as int) =~= dids@);
        }
        r
    }

    /// The favorite conversations, in favorites order, skipping stale
    /// identifiers.
    pub fn chats_favorites(&self) -> (r: Vec<Chat>)
        ensures
            r.deep_view() == chats_by_ids(self@.chats.all, self@.chats.favorites),
    {
        self.resolve_chats(&self.chats.favorites)
    }

    /// The sidebar conversations, in sidebar order, skipping stale
    /// identifiers.
    pub fn chats_sidebar(&self) -> (r: Vec<Chat>)
        ensures
            r.deep_view() == chats_by_ids(self@.chats.all, self@.chats.in_sidebar),
    {
        self.resolve_chats(&self.chats.in_sidebar)
    }

    /// The cached identities of a conversation's participants.
    pub fn chat_participants(&self, chat: &Chat) -> (r: Vec<Identity>)
        ensures
            r@ == idents_by_dids(self@.identities, chat.participants@),
    {
        self.resolve_identities(&chat.participants)
    }

    /// The active conversation, if one is set and present.
    pub fn get_active_chat(&self) -> (r: Option<Chat>)
        ensures
            match self@.chats.active {
                Some(cid) => if has_chat(self@.chats.all, cid) {
                    r is Some && r.unwrap().deep_view()
                        == self@.chats.all[chat_index_of(self@.chats.all, cid)]
                } else {
                    r is None
                },
                None => r is None,
            },
    {
        let active = self.chats.active;
        if let Some(cid) = active {
            self.get_chat_by_id(cid)
        } else {
            None
        }
    }

    /// The conversation the active media session belongs to, if any.
    pub fn get_active_media_chat(&self) -> (r: Option<&Chat>)
        ensures
            match self@.chats.active_media {
                Some(cid) => if has_chat(self@.chats.all, cid) {
                    r is Some && r.unwrap().deep_view()
                        == self@.chats.all[chat_index_of(self@.chats.all, cid)]
                } else {
                    r is None
                },
                None => r is None,
            },
    {
        let active = self.chats.active_media;
        if let Some(cid) = active {
            if let Some(i) = self.find_chat_index(cid) {
                Some(&self.chats.all[i])
            } else {
                None
            }
        } else {
            None
        }
    }

    /// The conversation under an identifier, if present.
    pub fn get_chat_by_id(&self, id: ChatId) -> (r: Option<Chat>)
        ensures
            if has_chat(self@.chats.all, id) {
                r is Some && r.unwrap().deep_view()
                    == self@.chats.all[chat_index_of(self@.chats.all, id)]
            } else {
                r is None
            },
    {
        if let Some(i) = self.find_chat_index(id) {
            Some(self.chats.all[i].clone())
        } else {
            None
        }
    }

    /// The direct conversation with a friend, if one exists.
    pub fn get_chat_with_friend(&self, friend: Did) -> (r: Option<Chat>)
        ensures
            if has_direct_chat_with(self@.chats.all, friend) {
                r is Some && r.unwrap().deep_view()
                    == self@.chats.all[direct_chat_index(self@.chats.all, friend)]
            } else {
                r is None
            },
    {
        if let Some(i) = self.find_direct_chat_index_pub(friend) {
            Some(self.chats.all[i].clone())
        } else {
            None
        }
    }

    /// Index of the first direct conversation with the key, if any.
    fn find_direct_chat_index_pub(&self, d: Did) -> (r: Option<usize>)
        ensures
            match r {
                Some(i) => i < self@.chats.all.len()
                    && has_direct_chat_with(self@.chats.all, d)
                    && direct_chat_index(self@.chats.all, d) == i as int,
                None => !has_direct_chat_with(self@.chats.all, d),
            },
    {
        let ghost all = self@.chats.all;
        let mut i: usize = 0;
        let n = self.chats.all.len();
        while i < n
            invariant
                n == self.chats.all.len(),
                i <= n,
                all == self@.chats.all,
                forall|k: int| 0 <= k < i ==> !crate::state::is_direct_with(all[k], d),
            decreases n - i,
        {
            let c = &self.chats.all[i];
            let direct = matches!(c.kind, ChatKind::Direct);
            if direct && crate::message::contains_did(&c.participants, d) {
                proof {
                    assert(crate::state::is_direct_with(all[i as int], d));
                    crate::state::lemma_direct_chat_index(all, d, i as int);
                }
                return Some(i);
            }
            proof {
                assert(!crate::state::is_direct_with(all[i as int], d));
            }
            i += 1;
        }
        None
    }

    /// Whether a conversation is a favorite.
    pub fn is_favorite(&self, chat: &Chat) -> (r: bool)
        ensures
            r == self@.chats.favorites.contains(chat.id),
    {
        crate::state::contains_cid(&self.chats.favorites, chat.id)
    }

    /// Whether the active conversation carries a nonempty draft.
    pub fn active_chat_has_draft(&self) -> (r: bool)
        ensures
            r == match self@.chats.active {
                Some(cid) => has_chat(self@.chats.all, cid)
                    && match self@.chats.all[chat_index_of(self@.chats.all, cid)].draft {
                    Some(d) => d.len() > 0,
                    None => false,
                },
                None => false,
            },
    {
        let active = self.chats.active;
        if let Some(cid) = active {
            if let Some(i) = self.find_chat_index(cid) {
                match &self.chats.all[i].draft {
                    Some(d) => !d.as_str().is_empty(),
                    None => false,
                }
            } else {
                false
            }
        } else {
            false
        }
    }

    /// Whether the active conversation still waits on an optimistic send.
    pub fn active_chat_send_in_progress(&self) -> (r: bool)
        ensures
            r == match self@.chats.active {
                Some(cid) => has_chat(self@.chats.all, cid)
                    && self@.chats.all[chat_index_of(self@.chats.all,
                        cid)].pending_outgoing_messages > 0,
                None => false,
            },
    {
        let active = self.chats.active;
        if let Some(cid) = active {
            if let Some(i) = self.find_chat_index(cid) {
                self.chats.all[i].pending_outgoing_messages > 0
            } else {
                false
            }
        } else {
            false
        }
    }

    /// Whether messages can be sent to the active conversation: a direct
    /// conversation demands that every participant other than the user is
    /// a confirmed friend; a group conversation does not.
    #[verifier::loop_isolation(false)]
    pub fn can_use_active_chat(&self) -> (r: bool)
        ensures
            r == match self@.chats.active {
                Some(cid) => has_chat(self@.chats.all, cid) && ({
                    let c = self@.chats.all[chat_index_of(self@.chats.all, cid)];
                    c.kind != ChatKind::Direct || forall|k: int|
                        0 <= k < c.participants.len()
                        ==> #[trigger] c.participants[k] == self@.id
                            || self@.friends.all.contains(c.participants[k])
                }),
                None => false,
            },
    {
        let active = self.chats.active;
        if let Some(cid) = active {
            if let Some(i) = self.find_chat_index(cid) {
                proof {
                    assert(chat_index_of(self@.chats.all, cid) == i as int);
                }
                let ghost cv = self@.chats.all[chat_index_of(self@.chats.all, cid)];
                let c = &self.chats.all[i];
                proof {
                    assert(c.deep_view() == cv);
                }
                if !matches!(c.kind, ChatKind::Direct) {
                    return true;
                }
                let mut k: usize = 0;
                let n = c.participants.len();
                while k < n
                    invariant
                        n == c.participants.len(),
                        k <= n,
                        c == &self.chats.all[i as int],
                        i < self@.chats.all.len(),
                        c.deep_view() == cv,
                        cv.participants == c.participants@,
                        forall|m: int| 0 <= m < k
                            ==> #[trigger] cv.participants[m] == self@.id
                                || self@.friends.all.contains(cv.participants[m]),
                    decreases n - k,
                {
                    let p = c.participants[k];
                    if p.0 != self.id.0 && !self.friends.has_friend(p) {
                        proof {
                            assert(cv.participants[k as int] == p);
                            assert(!(cv.participants[k as int] == self@.id
                                || self@.friends.all.contains(cv.participants[k as int])));
                        }
                        return false;
                    }
                    k += 1;
                }
                proof {
                    assert forall|m: int| 0 <= m < cv.participants.len()
                        implies #[trigger] cv.participants[m] == self@.id
                            || self@.friends.all.contains(cv.participants[m]) by {}
                }
                true
            } else {
                false
            }
        } else {
            false
        }
    }

    /// The cached identity under a key, if present.
    pub fn get_identity(&self, d: Did) -> (r: Option<Identity>)
        ensures
            if has_ident(self@.identities, d) {
                r == Some(self@.identities[ident_index_of(self@.identities, d)])
            } else {
                r is None
            },
    {
        if let Some(i) = self.find_identity_index(d) {
            Some(self.identities[i].clone())
        } else {
            None
        }
    }

    /// The cached identities under a list of keys.
    pub fn get_identities(&self, dids: &Vec<Did>) -> (r: Vec<Identity>)
        ensures
            r@ == idents_by_dids(self@.identities, dids@),
    {
        self.resolve_identities(dids)
    }

    /// The user's own identity; a default when not yet cached.
    pub fn get_own_identity(&self) -> (r: Identity)
        ensures
            if has_ident(self@.identities, self@.id) {
                r == self@.identities[ident_index_of(self@.identities, self@.id)]
            } else {
                r.did == Did(0) && r.username@ == Seq::<char>::empty()
            },
    {
        if let Some(i) = self.find_identity_index(self.id) {
            self.identities[i].clone()
        } else {
            Identity::new(Did(0), String::new())
        }
    }

    /// Whether an identity is the user's own.
    pub fn is_me(&self, identity: &Identity) -> (r: bool)
        ensures
            r == (identity.did == self@.id),
    {
        identity.did.0 == self.id.0
    }

    /// The confirmed friends' cached identities.
    pub fn friend_identities(&self) -> (r: Vec<Identity>)
        ensures
            r@ == idents_by_dids(self@.identities, self@.friends.all),
    {
        self.resolve_identities(&self.friends.all)
    }

    /// The cached identities behind incoming friend requests.
    pub fn incoming_fr_identities(&self) -> (r: Vec<Identity>)
        ensures
            r@ == idents_by_dids(self@.identities, self@.friends.incoming_requests),
    {
        self.resolve_identities(&self.friends.incoming_requests)
    }

    /// The cached identities behind outgoing friend requests.
    pub fn outgoing_fr_identities(&self) -> (r: Vec<Identity>)
        ensures
            r@ == idents_by_dids(self@.identities, self@.friends.outgoing_requests),
    {
        self.resolve_identities(&self.friends.outgoing_requests)
    }

    /// The blocked keys' cached identities: blocking keeps the display
    /// data, so the names remain visible in a blocked list.
    pub fn blocked_fr_identities(&self) -> (r: Vec<Identity>)
        ensures
            r@ == idents_by_dids(self@.identities, self@.friends.blocked),
    {
        self.resolve_identities(&self.friends.blocked)
    }

    /// The user's own profile picture reference; empty when not cached.
    pub fn profile_picture(&self) -> (r: String)
        ensures
            r@ == if has_ident(self@.identities, self@.id) {
                self@.identities[ident_index_of(self@.identities, self@.id)].profile_picture@
            } else {
                Seq::<char>::empty()
            },
    {
        if let Some(i) = self.find_identity_index(self.id) {
            self.identities[i].profile_picture.clone()
        } else {
            String::new()
        }
    }

    /// The user's own profile banner reference; empty when not cached.
    pub fn profile_banner(&self) -> (r: String)
        ensures
            r@ == if has_ident(self@.identities, self@.id) {
                self@.identities[ident_index_of(self@.identities, self@.id)].profile_banner@
            } else {
                Seq::<char>::empty()
            },
    {
        if let Some(i) = self.find_identity_index(self.id) {
            self.identities[i].profile_banner.clone()
        } else {
            String::new()
        }
    }

    /// The user's own status message, if cached and set.
    pub fn status_message(&self) -> (r: Option<String>)
        ensures
            r.deep_view() == if has_ident(self@.identities, self@.id) {
                self@.identities[ident_index_of(self@.identities,
                    self@.id)].status_message.deep_view()
            } else {
                Option::<Seq<char>>::None
            },
    {
        if let Some(i) = self.find_identity_index(self.id) {
            self.identities[i].status_message.clone()
        } else {
            None
        }
    }

    /// The user's own display name; empty when not cached.
    pub fn username(&self) -> (r: String)
        ensures
            r@ == if has_ident(self@.identities, self@.id) {
                self@.identities[ident_index_of(self@.identities, self@.id)].username@
            } else {
                Seq::<char>::empty()
            },
    {
        if let Some(i) = self.find_identity_index(self.id) {
            self.identities[i].username.clone()
        } else {
            String::new()
        }
    }

    /// Everyone in a list but the user: the identities whose key differs
    /// from the own key, in list order.
    pub fn remove_self(&self, identities: &Vec<Identity>) -> (r: Vec<Identity>)
        ensures
            r@ == identities@.filter(|x: Identity| x.did != self@.id),
    {
        let ghost me = self@.id;
        let ghost s0 = identities@;
        let ghost pred = |x: Identity| x.did != me;
        let mut r: Vec<Identity> = Vec::new();
        let mut i: usize = 0;
        while i < identities.len()
            invariant
                i <= identities.len(),
                s0 == identities@,
                me == self@.id,
                pred == (|x: Identity| x.did != me),
                r@ == s0.take(i as int).filter(pred),
            decreases identities.len() - i,
        {
            proof {
                assert(s0.take(i as int + 1) =~= s0.take(i as int).push(s0[i as int]));
                assert(s0.take(i as int + 1).drop_last() =~= s0.take(i as int));
                reveal(Seq::filter);
            }
            if identities[i].did.0 != self.id.0 {
                let ident = identities[i].clone();
                r.push(ident);
                proof {
                    assert(r@ =~= s0.take(i as int + 1).filter(pred));
                }
            } else {
                proof {
                    assert(r@ =~= s0.take(i as int + 1).filter(pred));
                }
            }
            i += 1;
        }
        proof {
            assert(s0.take(s0.len() as int) =~= s0);
        }
        r
    }
}

} // verus!
