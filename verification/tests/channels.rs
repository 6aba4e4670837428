use chat_core::app::{
    copy_attachments, copy_messages, find_channel, sort_by_name, App, AppData, Channel,
    ChannelPosition, Config, Handled, Message, Names, Notification, Outgoing, SavedChannel,
    Snapshot, Submitted, User, Wanted,
};
use chat_core::content::{
    sort_content, Content, ContentBody, DataMessage, Metadata, Parcel, Sent, ServiceAddress,
    SyncMessage as SentRecord,
};
use chat_core::event::KeyCode;
use chat_core::ident::Uuid;
use chat_core::list::StatefulList;
use chat_core::order::string_le;
use chat_core::signal::{
    unpack, Attachment, ContactInfo, Envelope, GroupInfo, Incoming, InnerMessage, SyncMessage,
};

const OWN_ID: &str = "00000000-0000-0000-0000-000000000001";
const ALICE_ID: &str = "a1a2a3a4-b1b2-c1c2-d1d2-d3d4d5d6d7d8";
const ALICE: u128 = 0xa1a2a3a4b1b2c1c2d1d2d3d4d5d6d7d8;

fn app() -> App {
    App {
        config: Config {
            user: User { name: String::from("Me"), phone_number: String::from("+1000") },
        },
        should_quit: false,
        uuid: Uuid(1),
        data: AppData::default(),
    }
}

fn channel(id: &str, name: &str, is_group: bool) -> Channel {
    Channel::new(String::from(id), String::from(name), is_group)
}

fn app_with(channels: Vec<Channel>, selected: Option<usize>) -> App {
    let mut app = app();
    app.data.channels = StatefulList::with_items(channels);
    app.data.channels.state.select(selected);
    app
}

fn ids(app: &App) -> Vec<String> {
    let mut ids = Vec::new();
    for channel in &app.data.channels.items {
        ids.push(channel.id.clone());
    }
    ids
}

fn no_names() -> Names {
    Names { sender: None, group: None, counterpart: None }
}

fn inner(text: Option<&str>) -> InnerMessage {
    InnerMessage {
        message: text.map(String::from),
        attachments: None,
        group_info: None,
        destination: None,
    }
}

fn received(source: &str, text: &str, timestamp: u64) -> chat_core::signal::Message {
    chat_core::signal::Message {
        envelope: Envelope {
            source: String::from(source),
            timestamp,
            sync_message: None,
            data_message: Some(inner(Some(text))),
        },
    }
}

fn stored(from_id: u128, from: &str, text: &str, arrived_at: u64) -> Message {
    Message {
        from_id: Uuid(from_id),
        from: String::from(from),
        message: Some(String::from(text)),
        attachments: Vec::new(),
        arrived_at,
    }
}

#[test]
fn new_channel_is_empty() {
    let c = channel("+1", "One", false);
    assert_eq!(c.id, "+1");
    assert_eq!(c.name, "One");
    assert!(!c.is_group);
    assert!(c.messages.items.is_empty());
    assert_eq!(c.messages.state.selected(), None);
    assert_eq!(c.unread_messages, 0);
}

#[test]
fn find_channel_returns_the_first_of_the_kind() {
    let items = vec![
        channel("x", "group x", true),
        channel("y", "y", false),
        channel("x", "contact x", false),
    ];
    assert_eq!(find_channel(&items, &String::from("x"), None), Some(0));
    assert_eq!(find_channel(&items, &String::from("x"), Some(true)), Some(0));
    assert_eq!(find_channel(&items, &String::from("x"), Some(false)), Some(2));
    assert_eq!(find_channel(&items, &String::from("y"), Some(true)), None);
    assert_eq!(find_channel(&items, &String::from("z"), None), None);
}

#[test]
fn bubble_up_rotates_and_keeps_the_selected_channel() {
    let mut app = app_with(
        vec![channel("A", "a", false), channel("B", "b", false), channel("C", "c", false)],
        Some(1),
    );
    app.bubble_up_channel(2);
    assert_eq!(ids(&app), vec!["C", "A", "B"]);
    assert_eq!(app.data.channels.state.selected(), Some(2));
}

#[test]
fn bubble_up_of_the_selected_channel_selects_the_front() {
    let mut app = app_with(
        vec![
            channel("A", "a", false),
            channel("B", "b", false),
            channel("C", "c", false),
            channel("D", "d", false),
        ],
        Some(2),
    );
    app.bubble_up_channel(2);
    assert_eq!(ids(&app), vec!["C", "A", "B", "D"]);
    assert_eq!(app.data.channels.state.selected(), Some(0));
}

#[test]
fn bubble_up_below_the_selection_leaves_it() {
    let mut app = app_with(
        vec![
            channel("A", "a", false),
            channel("B", "b", false),
            channel("C", "c", false),
            channel("D", "d", false),
        ],
        Some(3),
    );
    app.bubble_up_channel(1);
    assert_eq!(ids(&app), vec!["B", "A", "C", "D"]);
    assert_eq!(app.data.channels.state.selected(), Some(3));
    app.bubble_up_channel(0);
    assert_eq!(ids(&app), vec!["B", "A", "C", "D"]);
    assert_eq!(app.data.channels.state.selected(), Some(3));
}

#[test]
fn incoming_message_for_third_channel_bubbles_it_up() {
    let mut app = app_with(
        vec![channel("A", "a", false), channel("B", "b", false), channel("C", "c", false)],
        Some(1),
    );
    let handled = app.on_message(Some(received("C", "hi", 1_600_000_000_123)), no_names());
    assert_eq!(
        handled,
        Some(Handled {
            notification: Some(Notification {
                summary: String::from("c"),
                body: String::from("hi"),
            }),
        })
    );
    assert_eq!(ids(&app), vec!["C", "A", "B"]);
    assert_eq!(app.data.channels.state.selected(), Some(2));
    assert_eq!(app.data.channels.items[2].id, "B");
    assert_eq!(app.data.channels.items[0].unread_messages, 1);
    assert_eq!(app.data.channels.items[0].messages.items, vec![stored(0, "c", "hi", 1_600_000_000_123)]);
}

#[test]
fn message_for_the_selected_channel_is_not_unread() {
    let mut a = channel("A", "a", false);
    a.unread_messages = 3;
    let mut app = app_with(vec![a, channel("B", "b", false)], Some(0));
    app.on_message(Some(received("A", "one", 1)), no_names());
    assert_eq!(app.data.channels.items[0].unread_messages, 0);
    app.on_message(Some(received("B", "two", 2)), no_names());
    app.on_message(Some(received("B", "three", 3)), no_names());
    assert_eq!(ids(&app), vec!["B", "A"]);
    assert_eq!(app.data.channels.items[0].unread_messages, 2);
    assert_eq!(app.data.channels.state.selected(), Some(1));
}

#[test]
fn message_from_an_unknown_sender_makes_a_channel() {
    let mut app = app_with(vec![channel("A", "a", false)], Some(0));
    let names = Names { sender: Some(String::from("Bob")), group: None, counterpart: None };
    let handled = app.on_message(Some(received("+2000", "hello", 9)), names);
    assert_eq!(
        handled.unwrap().notification,
        Some(Notification { summary: String::from("Bob"), body: String::from("hello") })
    );
    assert_eq!(ids(&app), vec!["+2000", "A"]);
    assert_eq!(app.data.channels.items[0].name, "Bob");
    assert!(!app.data.channels.items[0].is_group);
    assert_eq!(app.data.channels.items[0].messages.items, vec![stored(0, "Bob", "hello", 9)]);
    assert_eq!(app.data.channels.state.selected(), Some(1));
}

#[test]
fn resolved_name_is_written_back_into_the_history() {
    let mut app = app();
    app.on_message(Some(received("+15551234", "first", 1)), no_names());
    assert_eq!(app.data.channels.items[0].id, "+15551234");
    assert_eq!(app.data.channels.items[0].name, "+15551234");
    assert_eq!(app.data.channels.items[0].messages.items[0].from, "+15551234");
    app.on_message(Some(received("+15551234", "second", 2)), no_names());
    assert_eq!(app.data.channels.items[0].name, "+15551234");
    let names = Names { sender: Some(String::from("Alice")), group: None, counterpart: None };
    app.on_message(Some(received("+15551234", "third", 3)), names);
    assert_eq!(app.data.channels.items.len(), 1);
    assert_eq!(app.data.channels.items[0].name, "Alice");
    assert_eq!(
        app.data.channels.items[0].messages.items,
        vec![
            stored(0, "Alice", "first", 1),
            stored(0, "Alice", "second", 2),
            stored(0, "Alice", "third", 3),
        ]
    );
}

#[test]
fn backfill_reaches_messages_in_other_channels() {
    let mut group = channel("g1", "Team", true);
    group.messages.items.push(stored(0, "+2000", "in the group", 1));
    group.messages.items.push(stored(0, "Carol", "me too", 2));
    let mut app = app_with(vec![group], None);
    let name = app.resolve_contact_name(String::from("+2000"), Some(String::from("Bob")));
    assert_eq!(name, "Bob");
    assert_eq!(app.data.channels.items[0].name, "Team");
    assert_eq!(app.data.channels.items[0].messages.items[0].from, "Bob");
    assert_eq!(app.data.channels.items[0].messages.items[1].from, "Carol");
    assert_eq!(ids(&app), vec!["g1", "+2000"]);
    assert_eq!(app.data.channels.items[1].name, "Bob");
}

#[test]
fn known_contact_name_is_not_asked_for() {
    let mut app = app_with(vec![channel("+2000", "Bob", false)], None);
    let name = app.resolve_contact_name(String::from("+2000"), Some(String::from("Robert")));
    assert_eq!(name, "Bob");
    assert_eq!(app.data.channels.items[0].name, "Bob");
    let name = app.resolve_contact_name(String::from("+1000"), Some(String::from("Other")));
    assert_eq!(name, "Me");
    assert_eq!(ids(&app), vec!["+2000", "+1000"]);
    assert_eq!(app.data.channels.items[1].name, "Me");
    let name = app.resolve_contact_name(String::from("+3000"), None);
    assert_eq!(name, "+3000");
    assert_eq!(app.data.channels.items[2].name, "+3000");
}

#[test]
fn wanted_names_say_what_to_ask() {
    let app = app_with(
        vec![channel("+2000", "Bob", false), channel("+3000", "+3000", false)],
        None,
    );
    let phone = String::from("+1000");
    let from_bob = unpack(received("+2000", "x", 1), &phone).unwrap();
    assert_eq!(
        app.wanted_names(&from_bob),
        Wanted { sender: false, group: false, counterpart: false }
    );
    let from_raw = unpack(received("+3000", "x", 1), &phone).unwrap();
    assert_eq!(
        app.wanted_names(&from_raw),
        Wanted { sender: true, group: false, counterpart: false }
    );
    let from_new = unpack(received("+4000", "x", 1), &phone).unwrap();
    assert_eq!(
        app.wanted_names(&from_new),
        Wanted { sender: true, group: false, counterpart: false }
    );
    let mut in_group = received("+2000", "x", 1);
    in_group.envelope.data_message.as_mut().unwrap().group_info =
        Some(GroupInfo { group_id: String::from("g1"), name: None });
    let in_group = unpack(in_group, &phone).unwrap();
    assert_eq!(
        app.wanted_names(&in_group),
        Wanted { sender: false, group: true, counterpart: false }
    );
    let mut sent = received("+1000", "x", 1);
    sent.envelope.data_message.as_mut().unwrap().destination = Some(String::from("+5000"));
    let sent = unpack(sent, &phone).unwrap();
    assert_eq!(
        app.wanted_names(&sent),
        Wanted { sender: false, group: false, counterpart: true }
    );
}

#[test]
fn group_message_makes_a_group_channel_and_notifies() {
    let mut app = app_with(vec![channel("+2000", "Bob", false)], Some(0));
    let mut message = received("+2000", "hi all", 5);
    message.envelope.data_message.as_mut().unwrap().group_info =
        Some(GroupInfo { group_id: String::from("g1"), name: None });
    let names = Names { sender: None, group: Some(String::from("Team")), counterpart: None };
    let handled = app.on_message(Some(message), names).unwrap();
    assert_eq!(
        handled.notification,
        Some(Notification { summary: String::from("Bob in Team"), body: String::from("hi all") })
    );
    assert_eq!(ids(&app), vec!["g1", "+2000"]);
    assert!(app.data.channels.items[0].is_group);
    assert_eq!(app.data.channels.items[0].name, "Team");
    assert_eq!(app.data.channels.items[0].unread_messages, 1);
    assert_eq!(app.data.channels.state.selected(), Some(1));
}

#[test]
fn group_without_a_name_is_called_by_its_identity() {
    let mut app = app();
    let mut message = received("+2000", "hi", 5);
    message.envelope.data_message.as_mut().unwrap().group_info =
        Some(GroupInfo { group_id: String::from("g7"), name: None });
    app.on_message(Some(message), no_names());
    assert_eq!(ids(&app), vec!["g7", "+2000"]);
    assert_eq!(app.data.channels.items[0].name, "g7");
    assert_eq!(app.data.channels.items[0].messages.items[0].from, "+2000");
}

#[test]
fn group_and_contact_of_the_same_identity_are_two_channels() {
    let mut app = app_with(vec![channel("x", "contact x", false)], None);
    let mut message = received("+2000", "hi", 5);
    message.envelope.data_message.as_mut().unwrap().group_info =
        Some(GroupInfo { group_id: String::from("x"), name: None });
    app.on_message(Some(message), no_names());
    assert_eq!(ids(&app), vec!["x", "x", "+2000"]);
    assert!(app.data.channels.items[0].is_group);
    assert!(!app.data.channels.items[1].is_group);
}

#[test]
fn copy_of_a_sent_message_goes_to_the_destination() {
    let mut app = app();
    let mut copy = inner(Some("on my way"));
    copy.destination = Some(String::from("+5000"));
    let message = chat_core::signal::Message {
        envelope: Envelope {
            source: String::from("+1000"),
            timestamp: 77,
            sync_message: Some(SyncMessage { sent_message: copy }),
            data_message: Some(inner(Some("ignored"))),
        },
    };
    let names = Names { sender: None, group: None, counterpart: Some(String::from("Eve")) };
    let handled = app.on_message(Some(message), names).unwrap();
    assert_eq!(handled.notification, None);
    assert_eq!(ids(&app), vec!["+5000", "+1000"]);
    assert_eq!(app.data.channels.items[0].name, "Eve");
    assert_eq!(app.data.channels.items[0].messages.items, vec![stored(0, "Me", "on my way", 77)]);
    assert_eq!(app.data.channels.items[1].name, "Me");
}

#[test]
fn copy_of_a_sent_message_to_an_unnamed_contact() {
    let mut app = app();
    let mut copy = inner(Some("hello"));
    copy.destination = Some(String::from("+5000"));
    let mut message = received("+1000", "", 78);
    message.envelope.data_message = Some(copy);
    app.on_message(Some(message), no_names());
    assert_eq!(ids(&app), vec!["+5000", "+1000"]);
    assert_eq!(app.data.channels.items[0].name, "+5000");
}

#[test]
fn messages_without_content_are_dropped() {
    let mut app = app_with(vec![channel("A", "a", false)], Some(0));
    let before = app.clone();
    assert_eq!(app.on_message(None, no_names()), None);
    let mut empty = received("A", "x", 1);
    empty.envelope.data_message = None;
    assert_eq!(app.on_message(Some(empty), no_names()), None);
    let mut bare = received("A", "x", 1);
    bare.envelope.data_message = Some(inner(None));
    assert_eq!(app.on_message(Some(bare), no_names()), None);
    let mut no_files = received("A", "x", 1);
    no_files.envelope.data_message.as_mut().unwrap().message = None;
    no_files.envelope.data_message.as_mut().unwrap().attachments = Some(Vec::new());
    assert_eq!(app.on_message(Some(no_files), no_names()), None);
    let without_destination = received("+1000", "to whom", 1);
    assert_eq!(app.on_message(Some(without_destination), no_names()), None);
    assert_eq!(app, before);
}

#[test]
fn message_with_a_file_only_is_stored_without_a_notice() {
    let mut app = app_with(vec![channel("A", "a", false)], None);
    let file = Attachment {
        id: String::from("f1"),
        content_type: String::from("image/png"),
        filename: String::from("cat.png"),
        size: 1234,
    };
    let mut message = received("A", "x", 4);
    message.envelope.data_message.as_mut().unwrap().message = None;
    message.envelope.data_message.as_mut().unwrap().attachments = Some(vec![file.clone()]);
    let handled = app.on_message(Some(message), no_names());
    assert_eq!(handled, Some(Handled { notification: None }));
    let kept = &app.data.channels.items[0].messages.items[0];
    assert_eq!(kept.message, None);
    assert_eq!(kept.attachments, vec![file]);
    assert_eq!(kept.arrived_at, 4);
}

#[test]
fn message_with_empty_text_gives_no_notice() {
    let mut app = app_with(vec![channel("A", "a", false)], None);
    let handled = app.on_message(Some(received("A", "", 4)), no_names());
    assert_eq!(handled, Some(Handled { notification: None }));
    assert_eq!(app.data.channels.items[0].messages.items.len(), 1);
}

#[test]
fn unpack_takes_a_message_apart() {
    let mut message = received("+2000", "hi", 42);
    message.envelope.data_message.as_mut().unwrap().group_info =
        Some(GroupInfo { group_id: String::from("g1"), name: Some(String::from("unused")) });
    let incoming = unpack(message, &String::from("+1000"));
    assert_eq!(
        incoming,
        Some(Incoming {
            source: String::from("+2000"),
            channel_id: String::from("g1"),
            is_group: true,
            is_from_me: false,
            text: Some(String::from("hi")),
            attachments: Vec::new(),
            arrived_at: 42,
        })
    );
}

#[test]
fn listing_adds_only_unknown_channels() {
    let mut app = app_with(vec![channel("A", "local a", false), channel("B", "b", true)], Some(1));
    app.on_channels(vec![
        channel("C", "c", false),
        channel("A", "remote a", false),
        channel("B", "remote b", false),
        channel("D", "d", true),
        channel("C", "c again", true),
    ]);
    assert_eq!(ids(&app), vec!["A", "B", "C", "D"]);
    assert_eq!(app.data.channels.items[0].name, "local a");
    assert_eq!(app.data.channels.items[2].name, "c");
    assert_eq!(app.data.channels.state.selected(), Some(1));
    app.on_channels(Vec::new());
    assert_eq!(ids(&app), vec!["A", "B", "C", "D"]);
}

fn note(destination: &str, text: &str, timestamp: u64) -> Content {
    Content {
        metadata: Metadata { sender: ServiceAddress { uuid: Some(Uuid(1)), phonenumber: None } },
        body: ContentBody::SynchronizeMessage(SentRecord {
            sent: Some(Sent {
                destination_uuid: Some(String::from(destination)),
                timestamp: Some(timestamp),
                message: Some(DataMessage {
                    body: Some(String::from(text)),
                    group_v2: false,
                    timestamp: Some(timestamp),
                    profile_key: None,
                }),
            }),
        }),
    }
}

fn direct(uuid: u128, phone: &str, text: &str, timestamp: u64, key: Vec<u8>) -> Content {
    Content {
        metadata: Metadata {
            sender: ServiceAddress {
                uuid: Some(Uuid(uuid)),
                phonenumber: Some(String::from(phone)),
            },
        },
        body: ContentBody::DataMessage(DataMessage {
            body: Some(String::from(text)),
            group_v2: false,
            timestamp: Some(timestamp),
            profile_key: Some(key),
        }),
    }
}

#[test]
fn note_to_self_goes_to_the_own_channel() {
    let mut app = app_with(vec![channel("A", "a", false)], Some(0));
    assert!(app.on_pressage_message(note(OWN_ID, "remember", 11), None));
    assert_eq!(ids(&app), vec![OWN_ID, "A"]);
    assert_eq!(app.data.channels.items[0].name, "Me");
    assert!(!app.data.channels.items[0].is_group);
    assert_eq!(app.data.channels.items[0].messages.items, vec![stored(1, "Me", "remember", 11)]);
    assert_eq!(app.data.channels.items[0].unread_messages, 1);
    assert_eq!(app.data.channels.state.selected(), Some(1));
    let upper = "{00000000-0000-0000-0000-000000000001}";
    assert!(app.on_pressage_message(note(upper, "again", 12), None));
    assert_eq!(ids(&app), vec![OWN_ID, "A"]);
    assert_eq!(app.data.channels.items[0].messages.items.len(), 2);
    assert_eq!(app.data.channels.items[0].unread_messages, 2);
}

#[test]
fn sent_record_for_someone_else_is_ignored() {
    let mut app = app();
    let before = app.clone();
    assert!(!app.on_pressage_message(note(ALICE_ID, "to alice", 11), None));
    assert!(!app.on_pressage_message(note("not an identifier", "x", 11), None));
    assert_eq!(app, before);
}

#[test]
fn direct_message_makes_a_channel_named_by_the_profile() {
    let mut app = app();
    let content = direct(ALICE, "+2000", "hi", 21, vec![7u8; 32]);
    let parcel = sort_content(content.clone(), Uuid(1));
    assert!(app.profile_name_wanted(&parcel));
    assert!(app.on_pressage_message(content, Some(String::from("Alice"))));
    assert_eq!(ids(&app), vec![ALICE_ID]);
    assert_eq!(app.data.channels.items[0].name, "Alice");
    assert_eq!(app.data.channels.items[0].messages.items, vec![stored(ALICE, "Alice", "hi", 21)]);
    let again = direct(ALICE, "+2000", "more", 22, vec![7u8; 32]);
    assert!(!app.profile_name_wanted(&sort_content(again.clone(), Uuid(1))));
    assert!(app.on_pressage_message(again, Some(String::from("Changed"))));
    assert_eq!(app.data.channels.items.len(), 1);
    assert_eq!(app.data.channels.items[0].name, "Alice");
    assert_eq!(app.data.channels.items[0].messages.items[1], stored(ALICE, "Alice", "more", 22));
}

#[test]
fn direct_message_falls_back_to_the_phone_number() {
    let mut app = app();
    let short_key = direct(ALICE, "+2000", "hi", 21, vec![7u8; 31]);
    assert!(!app.profile_name_wanted(&sort_content(short_key.clone(), Uuid(1))));
    assert!(app.on_pressage_message(short_key, Some(String::from("Alice"))));
    assert_eq!(app.data.channels.items[0].name, "+2000");
    assert_eq!(app.data.channels.items[0].messages.items, vec![stored(ALICE, "+2000", "hi", 21)]);
    let mut app = app_with(Vec::new(), None);
    let unknown = direct(2, "+3000", "hi", 21, vec![7u8; 32]);
    assert!(app.on_pressage_message(unknown, None));
    assert_eq!(ids(&app), vec!["00000000-0000-0000-0000-000000000002"]);
    assert_eq!(app.data.channels.items[0].name, "+3000");
    assert_eq!(app.data.channels.items[0].messages.items[0].from_id, Uuid(2));
}

#[test]
fn other_content_is_ignored() {
    let mut app = app_with(vec![channel("A", "a", false)], Some(0));
    let before = app.clone();
    let mut in_group = direct(ALICE, "+2000", "hi", 21, vec![7u8; 32]);
    if let ContentBody::DataMessage(message) = &mut in_group.body {
        message.group_v2 = true;
    }
    assert_eq!(sort_content(in_group.clone(), Uuid(1)), Parcel::Ignored);
    assert!(!app.on_pressage_message(in_group, None));
    let mut no_phone = direct(ALICE, "+2000", "hi", 21, vec![7u8; 32]);
    no_phone.metadata.sender.phonenumber = None;
    assert!(!app.on_pressage_message(no_phone, None));
    let mut no_text = direct(ALICE, "+2000", "hi", 21, vec![7u8; 32]);
    if let ContentBody::DataMessage(message) = &mut no_text.body {
        message.body = None;
    }
    assert!(!app.on_pressage_message(no_text, None));
    let other = Content {
        metadata: Metadata { sender: ServiceAddress { uuid: None, phonenumber: None } },
        body: ContentBody::Other,
    };
    assert!(!app.on_pressage_message(other, None));
    let no_record = Content {
        metadata: Metadata { sender: ServiceAddress { uuid: None, phonenumber: None } },
        body: ContentBody::SynchronizeMessage(SentRecord { sent: None }),
    };
    assert!(!app.on_pressage_message(no_record, None));
    assert_eq!(app, before);
}

#[test]
fn own_channel_is_found_by_the_identifier_in_text() {
    let mut app = app_with(vec![channel("A", "a", false), channel(OWN_ID, "Notes", false)], None);
    assert_eq!(app.ensure_own_channel_exists(), 1);
    assert_eq!(app.data.channels.items.len(), 2);
    let mut app = app_with(vec![channel("A", "a", false)], None);
    app.uuid = Uuid(ALICE);
    assert_eq!(app.ensure_own_channel_exists(), 1);
    assert_eq!(ids(&app), vec!["A", ALICE_ID]);
    assert_eq!(app.data.channels.items[1].name, "Me");
}

#[test]
fn contact_channel_is_made_once() {
    let mut app = app();
    let first = app.ensure_contact_channel_exists(
        Uuid(ALICE),
        vec![0u8; 32],
        String::from("+2000"),
        Some(String::from("Alice")),
    );
    assert_eq!(first, 0);
    let second = app.ensure_contact_channel_exists(
        Uuid(ALICE),
        vec![0u8; 32],
        String::from("+2000"),
        Some(String::from("Other")),
    );
    assert_eq!(second, 0);
    assert_eq!(ids(&app), vec![ALICE_ID]);
    assert_eq!(app.data.channels.items[0].name, "Alice");
}

#[test]
fn sending_stores_the_input_and_clears_it() {
    let mut target = channel(ALICE_ID, "Alice", false);
    target.unread_messages = 2;
    let mut app = app_with(vec![channel("A", "a", false), target], Some(1));
    for c in "héllo".chars() {
        app.put_char(c);
    }
    let outcome = app.on_key(KeyCode::Enter, 1_700_000_000_000);
    assert_eq!(
        outcome,
        Some(Submitted {
            outgoing: Some(Outgoing {
                recipient: Uuid(ALICE),
                body: String::from("héllo"),
                timestamp: 1_700_000_000_000,
            }),
        })
    );
    assert_eq!(app.data.input, "");
    assert_eq!(app.data.input_cursor, 0);
    assert_eq!(app.data.input_cursor_chars, 0);
    assert_eq!(ids(&app), vec![ALICE_ID, "A"]);
    assert_eq!(app.data.channels.state.selected(), Some(0));
    assert_eq!(app.data.channels.items[0].unread_messages, 0);
    assert_eq!(
        app.data.channels.items[0].messages.items,
        vec![stored(1, "Me", "héllo", 1_700_000_000_000)]
    );
}

#[test]
fn two_sends_to_the_top_channel_keep_the_order() {
    let mut app = app_with(
        vec![channel(ALICE_ID, "Alice", false), channel("B", "b", false), channel("C", "c", true)],
        Some(0),
    );
    app.put_char('1');
    assert!(app.send_input(0, 10).outgoing.is_some());
    app.put_char('2');
    assert!(app.send_input(0, 11).outgoing.is_some());
    assert_eq!(ids(&app), vec![ALICE_ID, "B", "C"]);
    assert_eq!(app.data.channels.state.selected(), Some(0));
    assert_eq!(
        app.data.channels.items[0].messages.items,
        vec![stored(1, "Me", "1", 10), stored(1, "Me", "2", 11)]
    );
}

#[test]
fn sending_stores_the_message_whatever_the_identity_reads_as() {
    let mut other = channel("A", "a", false);
    other.unread_messages = 3;
    let mut app = app_with(vec![other, channel("+15551234", "Bob", false)], Some(1));
    app.put_char('h');
    app.put_char('i');
    assert_eq!(app.send_input(1, 10), Submitted { outgoing: None });
    assert_eq!(app.data.input, "");
    assert_eq!((app.data.input_cursor, app.data.input_cursor_chars), (0, 0));
    assert_eq!(ids(&app), vec!["+15551234", "A"]);
    assert_eq!(app.data.channels.state.selected(), Some(0));
    assert_eq!(app.data.channels.items[0].messages.items, vec![stored(1, "Me", "hi", 10)]);
    assert_eq!(app.data.channels.items[1].unread_messages, 3);
    app.put_char('x');
    assert_eq!(app.on_key(KeyCode::Enter, 11), Some(Submitted { outgoing: None }));
    assert_eq!(app.data.channels.items[0].messages.items.len(), 2);
}

#[test]
fn sending_to_another_channel_clears_the_selected_one() {
    let mut selected = channel("A", "a", false);
    selected.unread_messages = 3;
    let mut target = channel(ALICE_ID, "Alice", false);
    target.unread_messages = 2;
    let mut app = app_with(vec![selected, target], Some(0));
    app.put_char('x');
    assert!(app.send_input(1, 10).outgoing.is_some());
    assert_eq!(ids(&app), vec![ALICE_ID, "A"]);
    assert_eq!(app.data.channels.state.selected(), Some(1));
    assert_eq!(app.data.channels.items[0].unread_messages, 2);
    assert_eq!(app.data.channels.items[1].unread_messages, 0);
}

#[test]
fn sending_reads_the_identifier_in_other_notations() {
    let simple = "A1A2A3A4B1B2C1C2D1D2D3D4D5D6D7D8";
    let mut app = app_with(vec![channel(simple, "Alice", false)], Some(0));
    app.put_char('x');
    let outgoing = app.send_input(0, 10).outgoing.unwrap();
    assert_eq!(outgoing.recipient, Uuid(ALICE));
}

#[test]
fn channel_made_for_a_contact_can_be_sent_to() {
    let mut app = app();
    let idx = app.ensure_contact_channel_exists(
        Uuid(ALICE),
        Vec::new(),
        String::from("+2000"),
        None,
    );
    app.data.channels.state.select(Some(idx));
    app.put_char('x');
    let sent = app.on_key(KeyCode::Enter, 12).unwrap();
    assert_eq!(
        sent.outgoing,
        Some(Outgoing { recipient: Uuid(ALICE), body: String::from("x"), timestamp: 12 })
    );
    let own = app.ensure_own_channel_exists();
    app.put_char('y');
    assert_eq!(app.send_input(own, 13).outgoing.unwrap().recipient, Uuid(1));
}

#[test]
fn unread_count_is_cleared_for_the_selected_channel_only() {
    let mut a = channel("A", "a", false);
    a.unread_messages = 4;
    let mut b = channel("B", "b", false);
    b.unread_messages = 5;
    let mut app = app_with(vec![a, b], Some(1));
    assert!(app.reset_unread_messages());
    assert_eq!(app.data.channels.items[0].unread_messages, 4);
    assert_eq!(app.data.channels.items[1].unread_messages, 0);
    assert!(!app.reset_unread_messages());
    app.data.channels.state.select(None);
    assert!(!app.reset_unread_messages());
    assert_eq!(app.data.channels.items[0].unread_messages, 4);
}

#[test]
fn add_message_counts_and_moves() {
    let mut app = app_with(vec![channel("A", "a", false), channel("B", "b", false)], Some(0));
    app.add_message_to_channel(1, stored(9, "b", "x", 1));
    assert_eq!(ids(&app), vec!["B", "A"]);
    assert_eq!(app.data.channels.items[0].unread_messages, 1);
    assert_eq!(app.data.channels.state.selected(), Some(1));
    app.add_message_to_channel(1, stored(9, "a", "y", 2));
    assert_eq!(ids(&app), vec!["A", "B"]);
    assert_eq!(app.data.channels.items[0].unread_messages, 0);
    assert_eq!(app.data.channels.state.selected(), Some(0));
}

#[test]
fn first_run_lists_groups_then_contacts_by_name() {
    let groups = vec![
        GroupInfo { group_id: String::from("g2"), name: Some(String::from("Zebra")) },
        GroupInfo { group_id: String::from("g1"), name: None },
        GroupInfo { group_id: String::from("g3"), name: Some(String::from("Apes")) },
    ];
    let contacts = vec![
        ContactInfo { phone_number: String::from("+2"), name: String::from("bob") },
        ContactInfo { phone_number: String::from("+1"), name: String::from("Alice") },
        ContactInfo { phone_number: String::from("+3"), name: String::from("alice") },
        ContactInfo { phone_number: String::from("+4"), name: String::from("Émile") },
        ContactInfo { phone_number: String::from("+5"), name: String::from("Al") },
    ];
    let data = AppData::init_from_signal(groups, contacts);
    let mut listed = Vec::new();
    for channel in &data.channels.items {
        listed.push((channel.id.as_str(), channel.name.as_str(), channel.is_group));
    }
    assert_eq!(
        listed,
        vec![
            ("g3", "Apes", true),
            ("g2", "Zebra", true),
            ("g1", "g1", true),
            ("+5", "Al", false),
            ("+1", "Alice", false),
            ("+3", "alice", false),
            ("+2", "bob", false),
            ("+4", "Émile", false),
        ]
    );
    assert_eq!(data.channels.state.selected(), Some(0));
    assert_eq!(data.chanpos, ChannelPosition { top: 0, upside: 0, downside: 0 });
    assert_eq!(data.input, "");
    assert_eq!((data.input_cursor, data.input_cursor_chars), (0, 0));
}

#[test]
fn first_run_without_channels_selects_nothing() {
    let data = AppData::init_from_signal(Vec::new(), Vec::new());
    assert!(data.channels.items.is_empty());
    assert_eq!(data.channels.state.selected(), None);
}

#[test]
fn sorting_keeps_the_order_of_equal_names() {
    let sorted = sort_by_name(vec![
        channel("3", "Sam", false),
        channel("1", "Sam", false),
        channel("2", "Pat", false),
        channel("0", "Sam", true),
        channel("4", "", false),
    ]);
    let mut order = Vec::new();
    for channel in &sorted {
        order.push(channel.id.as_str());
    }
    assert_eq!(order, vec!["4", "2", "3", "1", "0"]);
}

#[test]
fn snapshot_keeps_channels_and_input() {
    let mut first = channel("A", "a", false);
    first.messages.items.push(stored(3, "a", "one", 1));
    first.messages.items.push(stored(1, "Me", "two", 2));
    first.messages.state.select(Some(1));
    first.unread_messages = 1;
    let mut app = app_with(vec![first, channel("g", "Team", true)], Some(1));
    app.data.chanpos = ChannelPosition { top: 1, upside: 0, downside: 3 };
    for c in "dräft".chars() {
        app.put_char(c);
    }
    app.on_left();
    let snapshot = app.save();
    assert_eq!(snapshot, app.data.snapshot());
    assert_eq!(
        snapshot,
        Snapshot {
            channels: vec![
                SavedChannel {
                    id: String::from("A"),
                    name: String::from("a"),
                    is_group: false,
                    messages: vec![stored(3, "a", "one", 1), stored(1, "Me", "two", 2)],
                    unread_messages: 1,
                },
                SavedChannel {
                    id: String::from("g"),
                    name: String::from("Team"),
                    is_group: true,
                    messages: Vec::new(),
                    unread_messages: 0,
                },
            ],
            input: String::from("dräft"),
        }
    );
    let restored = AppData::from_snapshot(snapshot);
    assert_eq!(restored.channels.items.len(), 2);
    assert_eq!(restored.channels.items[0].id, "A");
    assert_eq!(restored.channels.items[0].name, "a");
    assert_eq!(restored.channels.items[0].unread_messages, 1);
    assert_eq!(restored.channels.items[0].messages.items, app.data.channels.items[0].messages.items);
    assert_eq!(restored.channels.items[0].messages.state.selected(), None);
    assert_eq!(restored.channels.items[1], channel("g", "Team", true));
    assert_eq!(restored.channels.state.selected(), None);
    assert_eq!(restored.chanpos, ChannelPosition::default());
    assert_eq!(restored.input, "dräft");
    assert_eq!(restored.input_cursor, 6);
    assert_eq!(restored.input_cursor_chars, 5);
    assert!(restored.cursor_is_consistent());
}

#[test]
fn start_selects_the_first_channel() {
    let config = Config {
        user: User { name: String::from("Me"), phone_number: String::from("+1000") },
    };
    let mut data = AppData::default();
    data.channels.items.push(channel("A", "a", false));
    data.channels.items.push(channel("B", "b", false));
    let (app, save) = App::try_new(config.clone(), Uuid(5), data.clone());
    assert!(save);
    assert!(!app.should_quit);
    assert_eq!(app.uuid, Uuid(5));
    assert_eq!(app.config, config);
    assert_eq!(app.data.channels.state.selected(), Some(0));
    assert_eq!(app.data.channels.items, data.channels.items);
    data.channels.state.select(Some(1));
    let (app, save) = App::try_new(config.clone(), Uuid(5), data);
    assert!(!save);
    assert_eq!(app.data.channels.state.selected(), Some(1));
    let (app, save) = App::try_new(config, Uuid(5), AppData::default());
    assert!(!save);
    assert_eq!(app.data.channels.state.selected(), None);
    assert_eq!(app.data, AppData::default());
}

#[test]
fn names_are_ordered_by_their_bytes() {
    let le = |a: &str, b: &str| string_le(&String::from(a), &String::from(b));
    assert!(le("", ""));
    assert!(le("", "a"));
    assert!(!le("a", ""));
    assert!(le("a", "a"));
    assert!(le("a", "ab"));
    assert!(!le("ab", "a"));
    assert!(le("Zebra", "apple"));
    assert!(!le("apple", "Zebra"));
    assert!(le("z", "é"));
    assert!(!le("é", "z"));
    assert!(le("é", "日"));
    assert!(le("日", "😀"));
    assert!(!le("😀", "日"));
}

#[test]
fn nil_identifier_is_zero() {
    assert_eq!(Uuid::nil(), Uuid(0));
    assert_eq!(Uuid::default(), Uuid(0));
}

#[test]
fn copies_are_equal_to_what_they_copy() {
    let file = Attachment {
        id: String::from("f1"),
        content_type: String::from("text/plain"),
        filename: String::from("notes.txt"),
        size: 12,
    };
    let mut with_file = stored(4, "a", "see the file", 8);
    with_file.attachments.push(file.clone());
    let mut without_text = stored(5, "b", "", 9);
    without_text.message = None;
    let messages = vec![with_file, without_text];
    assert_eq!(copy_attachments(&messages[0].attachments), vec![file]);
    assert_eq!(copy_messages(&messages), messages);
    assert_eq!(copy_messages(&Vec::new()), Vec::new());
}
