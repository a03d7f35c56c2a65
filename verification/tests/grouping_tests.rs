use uplink_core::grouping::group_messages;
use uplink_core::ids::{ChatId, Did, MsgId};
use uplink_core::message::ChatMessage;
use uplink_core::roster::get_friends_by_first_letter;
use uplink_core::search::Identifier;
use uplink_core::state::State;
use uplink_core::translator::{
    convert_message_event, fetch_needed, FetchRequest, FetchResult, RawMessageEvent,
    TranslateError,
};
use uplink_core::events::MessageEvent;
use uplink_core::identity::Identity;

fn msg(id: u64, sender: u64, text: &str) -> ChatMessage {
    ChatMessage {
        id: MsgId(id),
        conversation_id: ChatId(1),
        sender: Did(sender),
        text: String::from(text),
        reactions: Vec::new(),
        key: String::from("k"),
        in_reply_to: None,
    }
}

#[test]
fn grouping_partitions_the_window_into_sender_runs() {
    let input = vec![msg(1, 2, "a"), msg(2, 2, "b"), msg(3, 1, "c"), msg(4, 2, "d")];
    let groups = group_messages(Did(1), 10, 2, &input);
    assert_eq!(groups.len(), 3);
    assert_eq!(groups[0].sender, Did(2));
    assert!(groups[0].remote);
    assert_eq!(groups[1].sender, Did(1));
    assert!(!groups[1].remote);
    assert_eq!(groups[2].sender, Did(2));
    // Concatenating the runs reproduces the window exactly.
    let flat: Vec<MsgId> = groups
        .iter()
        .flat_map(|g| g.messages.iter().map(|m| m.message.id))
        .collect();
    assert_eq!(flat, vec![MsgId(1), MsgId(2), MsgId(3), MsgId(4)]);
    // Each run flags exactly its first and its last message.
    for g in &groups {
        for (i, m) in g.messages.iter().enumerate() {
            assert_eq!(m.is_first, i == 0);
            assert_eq!(m.is_last, i == g.messages.len() - 1);
        }
    }
    // Exactly the two oldest window positions ask for more history.
    let fetch: Vec<bool> = groups
        .iter()
        .flat_map(|g| g.messages.iter().map(|m| m.should_fetch_more))
        .collect();
    assert_eq!(fetch, vec![true, true, false, false]);
}

#[test]
fn grouping_takes_only_the_most_recent_window() {
    let input = vec![msg(1, 2, "a"), msg(2, 2, "b"), msg(3, 2, "c")];
    let groups = group_messages(Did(1), 2, 9, &input);
    let flat: Vec<MsgId> = groups
        .iter()
        .flat_map(|g| g.messages.iter().map(|m| m.message.id))
        .collect();
    assert_eq!(flat, vec![MsgId(2), MsgId(3)]);
    // The look-ahead saturates at the window length.
    let fetch_count = groups
        .iter()
        .flat_map(|g| g.messages.iter())
        .filter(|m| m.should_fetch_more)
        .count();
    assert_eq!(fetch_count, 2);
}

#[test]
fn grouping_an_empty_window_yields_no_runs() {
    let input: Vec<ChatMessage> = Vec::new();
    let groups = group_messages(Did(1), 40, 5, &input);
    assert!(groups.is_empty());
}

#[test]
fn translator_resolves_each_event_kind() {
    let raw = RawMessageEvent::MessageReceived {
        conversation_id: ChatId(1),
        message_id: MsgId(9),
    };
    assert_eq!(
        fetch_needed(&raw),
        FetchRequest::MessageBody { conversation_id: ChatId(1), message_id: MsgId(9) }
    );
    let out = convert_message_event(raw, FetchResult::MessageBody(msg(9, 2, "hello")));
    match out {
        Ok(MessageEvent::Received { conversation_id, message }) => {
            assert_eq!(conversation_id, ChatId(1));
            assert_eq!(message.id, MsgId(9));
        },
        _ => panic!("expected a resolved received event"),
    }
}

#[test]
fn translator_fails_loudly_on_unsupported_kinds() {
    let out = convert_message_event(RawMessageEvent::Unsupported, FetchResult::Nothing);
    assert_eq!(out.unwrap_err(), TranslateError::Unsupported);
    let raw = RawMessageEvent::MessageEdited {
        conversation_id: ChatId(1),
        message_id: MsgId(9),
    };
    let out = convert_message_event(raw, FetchResult::Nothing);
    assert_eq!(out.unwrap_err(), TranslateError::MissingResolution);
}

#[test]
fn search_matches_username_prefixes() {
    let mut st = State::new();
    st.upsert_identity(Identity::new(Did(2), String::from("alice")));
    st.upsert_identity(Identity::new(Did(3), String::from("albert")));
    st.upsert_identity(Identity::new(Did(4), String::from("bob")));
    let hits = st.search_identities(&String::from("al"));
    assert_eq!(hits.len(), 2);
    assert_eq!(hits[0].display_name, String::from("alice"));
    assert_eq!(hits[0].id, Identifier::Did(Did(2)));
    assert_eq!(hits[1].display_name, String::from("albert"));
    let none = st.search_identities(&String::from("zz"));
    assert!(none.is_empty());
}

#[test]
fn group_search_matches_names_and_members() {
    let mut st = State::new();
    st.upsert_identity(Identity::new(Did(10), String::from("carol")));
    st.upsert_identity(Identity::new(Did(11), String::from("dave")));
    let named = uplink_core::chat::Chat::new(
        ChatId(8),
        uplink_core::chat::ChatKind::Group,
        vec![Did(10), Did(11)],
        Some(String::from("Team")),
        None,
    );
    let unnamed = uplink_core::chat::Chat::new(
        ChatId(9),
        uplink_core::chat::ChatKind::Group,
        vec![Did(10), Did(11)],
        None,
        None,
    );
    st.process_warp_event(
        uplink_core::events::WarpEvent::RayGun(
            uplink_core::events::RayGunEvent::ConversationCreated {
                chat: named,
                identities: Vec::new(),
            },
        ),
        0,
    );
    st.process_warp_event(
        uplink_core::events::WarpEvent::RayGun(
            uplink_core::events::RayGunEvent::ConversationCreated {
                chat: unnamed,
                identities: Vec::new(),
            },
        ),
        0,
    );
    let by_name = st.search_group_chats(&String::from("Te"));
    assert_eq!(by_name.len(), 1);
    assert_eq!(by_name[0].id, Identifier::Uuid(ChatId(8)));
    assert_eq!(by_name[0].display_name, String::from("Team"));
    let by_member = st.search_group_chats(&String::from("car"));
    assert_eq!(by_member.len(), 2);
    assert_eq!(by_member[1].id, Identifier::Uuid(ChatId(9)));
    assert_eq!(by_member[1].display_name, String::from("carol,dave"));
}

#[test]
fn roster_groups_by_lowered_first_letter_with_keys_ascending() {
    let friends = vec![
        Identity::new(Did(1), String::from("Zoe")),
        Identity::new(Did(2), String::from("adam")),
        Identity::new(Did(3), String::from("Arthur")),
        Identity::new(Did(4), String::from("zane")),
    ];
    let roster = get_friends_by_first_letter(friends);
    assert_eq!(roster.len(), 2);
    assert_eq!(roster[0].0, 'a');
    assert_eq!(roster[1].0, 'z');
    // Buckets are sorted ascending by display name ('A' sorts before 'a').
    let a_names: Vec<String> = roster[0].1.iter().map(|x| x.username.clone()).collect();
    assert_eq!(a_names, vec![String::from("Arthur"), String::from("adam")]);
    let z_names: Vec<String> = roster[1].1.iter().map(|x| x.username.clone()).collect();
    assert_eq!(z_names, vec![String::from("Zoe"), String::from("zane")]);
}

#[test]
fn roster_breaks_display_name_ties_by_key() {
    let friends = vec![
        Identity::new(Did(9), String::from("sam")),
        Identity::new(Did(3), String::from("sam")),
        Identity::new(Did(6), String::from("sal")),
    ];
    let roster = get_friends_by_first_letter(friends);
    assert_eq!(roster.len(), 1);
    assert_eq!(roster[0].0, 's');
    let keys: Vec<Did> = roster[0].1.iter().map(|x| x.did).collect();
    assert_eq!(keys, vec![Did(6), Did(3), Did(9)]);
}

#[test]
fn join_usernames_separates_with_comma_and_space() {
    let idents = vec![
        Identity::new(Did(1), String::from("a")),
        Identity::new(Did(2), String::from("b")),
    ];
    assert_eq!(State::join_usernames(&idents), String::from("a, b"));
    let one = vec![Identity::new(Did(1), String::from("solo"))];
    assert_eq!(State::join_usernames(&one), String::from("solo"));
    let none: Vec<Identity> = Vec::new();
    assert_eq!(State::join_usernames(&none), String::new());
}
