use crate::chat::{ChatKind, ChatView};
use crate::identity::Identity;
use crate::ids::{ChatId, Did};
use crate::state::{has_ident, ident_index_of, State};
use crate::state_get::{idents_by_dids, starts_with, string_starts_with};
use vstd::prelude::*;

verus! {

/// What a search hit points at: a participant or a conversation.
#[derive(Clone, Copy, PartialEq, Eq, Structural, Debug)]
pub enum Identifier {
    Did(Did),
    Uuid(ChatId),
}

/// One search hit: a display name and what it points at.
#[derive(Debug)]
pub struct Entry {
    pub display_name: String,
    pub id: Identifier,
}

/// The mathematical model of a search hit.
#[verifier::ext_equal]
pub ghost struct EntryView {
    pub display_name: Seq<char>,
    pub id: Identifier,
}

impl DeepView for Entry {
    type V = EntryView;

    open spec fn deep_view(&self) -> EntryView {
        EntryView { display_name: self.display_name@, id: self.id }
    }
}

impl View for Entry {
    type V = EntryView;

    open spec fn view(&self) -> EntryView {
        self.deep_view()
    }
}

impl Entry {
    /// A hit pointing at a participant.
    pub fn from_identity(name: String, did: Did) -> (r: Entry)
        ensures
            r@ == (EntryView { display_name: name@, id: Identifier::Did(did) }),
    {
        Entry { display_name: name, id: Identifier::Did(did) }
    }

    /// A hit pointing at a conversation.
    pub fn from_chat(name: String, id: ChatId) -> (r: Entry)
        ensures
            r@ == (EntryView { display_name: name@, id: Identifier::Uuid(id) }),
    {
        Entry { display_name: name, id: Identifier::Uuid(id) }
    }
}

/// Display names joined with a separator: empty for no names, the single
/// name alone, and otherwise separator-glued in order.
pub open spec fn joined_names(names: Seq<Seq<char>>, sep: Seq<char>) -> Seq<char>
    decreases names.len(),
{
    if names.len() == 0 {
        Seq::<char>::empty()
    } else if names.len() == 1 {
        names[0]
    } else {
        joined_names(names.drop_last(), sep) + sep + names.last()
    }
}

/// The usernames of a list of identities, in order.
pub open spec fn usernames_of(idents: Seq<Identity>) -> Seq<Seq<char>> {
    idents.map_values(|x: Identity| x.username@)
}

/// Joins usernames with a separator.
pub fn join_usernames_sep(identities: &Vec<Identity>, sep: &str) -> (r: String)
    ensures
        r@ == joined_names(usernames_of(identities@), sep@),
{
    let mut r = String::new();
    let mut i: usize = 0;
    while i < identities.len()
        invariant
            i <= identities.len(),
            r@ == joined_names(usernames_of(identities@.take(i as int)), sep@),
        decreases identities.len() - i,
    {
        let ghost pre = usernames_of(identities@.take(i as int));
        if i > 0 {
            r.append(sep);
        }
        r.append(identities[i].username.as_str());
        proof {
            let post = usernames_of(identities@.take(i as int + 1));
            assert(post.drop_last() =~= pre);
            assert(post.last() == identities@[i as int].username@);
            if i == 0 {
                assert(post.len() == 1);
            }
        }
        i += 1;
    }
    proof {
        assert(identities@.take(identities@.len() as int) =~= identities@);
        assert(usernames_of(identities@.take(identities@.len() as int))
            =~= usernames_of(identities@));
    }
    r
}

/// Whether a cached identity's display name begins with the prefix.
pub open spec fn ident_matches(x: Identity, p: Seq<char>) -> bool {
    starts_with(x.username@, p)
}

/// The search hits over an identity table for a name prefix, in table
/// order.
pub open spec fn identity_entries(ids: Seq<Identity>, p: Seq<char>) -> Seq<EntryView>
    decreases ids.len(),
{
    if ids.len() == 0 {
        Seq::<EntryView>::empty()
    } else {
        let rest = identity_entries(ids.drop_last(), p);
        if ident_matches(ids.last(), p) {
            rest.push(EntryView {
                display_name: ids.last().username@,
                id: Identifier::Did(ids.last().did),
            })
        } else {
            rest
        }
    }
}

/// Whether some cached participant of a conversation has a display name
/// beginning with the prefix.
pub open spec fn some_participant_matches(table: Seq<Identity>, c: ChatView, p: Seq<char>)
    -> bool {
    exists|k: int| 0 <= k < c.participants.len() && has_ident(table, c.participants[k])
        && starts_with(
            table[ident_index_of(table, c.participants[k])].username@,
            p,
        )
}

/// Whether a group conversation is a hit for a prefix: its name begins
/// with it, or some cached participant's display name does.
pub open spec fn group_matches(table: Seq<Identity>, c: ChatView, p: Seq<char>) -> bool {
    c.kind == ChatKind::Group && (match c.name {
        Some(n) => starts_with(n, p),
        None => false,
    } || some_participant_matches(table, c, p))
}

/// The display name a group hit carries: the conversation name when set,
/// otherwise the cached participants' names glued with a comma.
pub open spec fn group_display_name(table: Seq<Identity>, c: ChatView) -> Seq<char> {
    match c.name {
        Some(n) => n,
        None => joined_names(usernames_of(idents_by_dids(table, c.participants)), seq![',']),
    }
}

/// The search hits over the conversation table for a name prefix, in
/// table order.
pub open spec fn group_entries(table: Seq<Identity>, all: Seq<ChatView>, p: Seq<char>)
    -> Seq<EntryView>
    decreases all.len(),
{
    if all.len() == 0 {
        Seq::<EntryView>::empty()
    } else {
        let rest = group_entries(table, all.drop_last(), p);
        if group_matches(table, all.last(), p) {
            rest.push(EntryView {
                display_name: group_display_name(table, all.last()),
                id: Identifier::Uuid(all.last().id),
            })
        } else {
            rest
        }
    }
}

impl State {
    /// Linear-scan prefix search over the cached identities: the hits, in
    /// table order, whose display name begins with the prefix.
    pub fn search_identities(&self, name_prefix: &String) -> (r: Vec<Entry>)
        ensures
            r.deep_view() == identity_entries(self@.identities, name_prefix@),
    {
        let mut r: Vec<Entry> = Vec::new();
        let mut i: usize = 0;
        let n = self.identities.len();
        while i < n
            invariant
                n == self.identities.len(),
                i <= n,
                r.deep_view() == identity_entries(self@.identities.take(i as int),
                    name_prefix@),
            decreases n - i,
        {
            let ghost pre = self@.identities.take(i as int);
            proof {
                assert(self@.identities.take(i as int + 1).drop_last() =~= pre);
                assert(self@.identities.take(i as int + 1).last()
                    == self@.identities[i as int]);
            }
            let x = &self.identities[i];
            if string_starts_with(&x.username, name_prefix) {
                let ghost rv0 = r.deep_view();
                let e = Entry::from_identity(x.username.clone(), x.did);
                r.push(e);
                proof {
                    assert(r.deep_view() =~= rv0.push(e.deep_view()));
                }
            }
            i += 1;
        }
        proof {
            assert(self@.identities.take(self@.identities.len() as int) =~= self@.identities);
        }
        r
    }

    /// Linear-scan prefix search over the group conversations: a hit when
    /// the group's name, or some cached participant's display name, begins
    /// with the prefix; an unnamed group is displayed by its participants'
    /// names glued with a comma.
    pub fn search_group_chats(&self, name_prefix: &String) -> (r: Vec<Entry>)
        ensures
            r.deep_view() == group_entries(self@.identities, self@.chats.all, name_prefix@),
    {
        let mut r: Vec<Entry> = Vec::new();
        let mut i: usize = 0;
        let n = self.chats.all.len();
        while i < n
            invariant
                n == self.chats.all.len(),
                i <= n,
                r.deep_view() == group_entries(self@.identities,
                    self@.chats.all.take(i as int), name_prefix@),
            decreases n - i,
        {
            let ghost pre = self@.chats.all.take(i as int);
            proof {
                assert(self@.chats.all.take(i as int + 1).drop_last() =~= pre);
                assert(self@.chats.all.take(i as int + 1).last()
                    == self@.chats.all[i as int]);
            }
            let is_group = matches!(self.chats.all[i].kind, ChatKind::Group);
            if is_group {
                let name_match = match &self.chats.all[i].name {
                    Some(nm) => string_starts_with(nm, name_prefix),
                    None => false,
                };
                let user_match = self.some_participant_matches_exec(i, name_prefix);
                if name_match || user_match {
                    let ghost rv0 = r.deep_view();
                    let display = match &self.chats.all[i].name {
                        Some(nm) => nm.clone(),
                        None => {
                            let parts = self.get_identities(&self.chats.all[i].participants);
                            join_usernames_sep(&parts, ",")
                        },
                    };
                    proof {
                        reveal_strlit(",");
                        assert(","@ =~= seq![',']);
                        assert(display@ == group_display_name(self@.identities,
                            self@.chats.all[i as int]));
                    }
                    let e = Entry::from_chat(display, self.chats.all[i].id);
                    r.push(e);
                    proof {
                        assert(group_matches(self@.identities, self@.chats.all[i as int],
                            name_prefix@));
                        assert(r.deep_view() =~= rv0.push(e.deep_view()));
                    }
                } else {
                    proof {
                        assert(!group_matches(self@.identities, self@.chats.all[i as int],
                            name_prefix@));
                    }
                }
            }
            i += 1;
        }
        proof {
            assert(self@.chats.all.take(self@.chats.all.len() as int) =~= self@.chats.all);
        }
        r
    }

    /// Whether some cached participant of the conversation at a table
    /// position has a display name beginning with the prefix.
    #[verifier::loop_isolation(false)]
    fn some_participant_matches_exec(&self, i: usize, prefix: &String) -> (r: bool)
        requires
            i < self@.chats.all.len(),
        ensures
            r == some_participant_matches(self@.identities, self@.chats.all[i as int],
                prefix@),
    {
        let parts = &self.chats.all[i].participants;
        let ghost cv = self@.chats.all[i as int];
        let mut k: usize = 0;
        while k < parts.len()
            invariant
                parts == &self.chats.all[i as int].participants,
                cv.participants == parts@,
                k <= parts.len(),
                forall|m: int| 0 <= m < k ==> !(has_ident(self@.identities,
                    #[trigger] cv.participants[m]) && starts_with(
                    self@.identities[ident_index_of(self@.identities,
                        cv.participants[m])].username@,
                    prefix@,
                )),
            decreases parts.len() - k,
        {
            if let Some(j) = self.find_identity_index(parts[k]) {
                if string_starts_with(&self.identities[j].username, prefix) {
                    proof {
                        assert(has_ident(self@.identities, cv.participants[k as int]));
                    }
                    return true;
                }
            }
            k += 1;
        }
        false
    }

    /// Joins a list of display names for the compose header, comma-spaced.
    pub fn join_usernames(identities: &Vec<Identity>) -> (r: String)
        ensures
            r@ == joined_names(usernames_of(identities@), ", "@),
    {
        join_usernames_sep(identities, ", ")
    }
}

} // verus!
