use chat_core::app::{App, AppData, Channel, ChannelPosition, Config, Message, User};
use chat_core::ident::Uuid;
use chat_core::list::StatefulList;

fn app_with(count: usize, selected: Option<usize>, position: ChannelPosition) -> App {
    let mut items = Vec::new();
    for i in 0..count {
        items.push(Channel::new(format!("id{}", i), format!("name{}", i), false));
    }
    let mut data = AppData::default();
    data.channels = StatefulList::with_items(items);
    data.channels.state.select(selected);
    data.chanpos = position;
    App {
        config: Config {
            user: User { name: String::from("Me"), phone_number: String::from("+1000") },
        },
        should_quit: false,
        uuid: Uuid(1),
        data,
    }
}

fn window(top: usize, upside: u16, downside: u16) -> ChannelPosition {
    ChannelPosition { top, upside, downside }
}

#[test]
fn default_window_is_at_the_top() {
    assert_eq!(ChannelPosition::default(), window(0, 0, 0));
}

#[test]
fn up_and_down_on_an_empty_list_select_nothing() {
    let mut app = app_with(0, None, window(0, 0, 0));
    assert!(!app.on_up());
    assert_eq!(app.data.channels.state.selected(), None);
    assert_eq!(app.data.chanpos, window(0, 0, 0));
    assert!(!app.on_down());
    assert_eq!(app.data.channels.state.selected(), None);
    assert_eq!(app.data.chanpos, window(1, 0, 0));
    let mut app = app_with(0, None, window(0, 0, 4));
    assert!(!app.on_down());
    assert!(!app.on_up());
    assert_eq!(app.data.channels.state.selected(), None);
    assert_eq!(app.data.chanpos, window(0, 0, 4));
}

#[test]
fn down_moves_the_selection_inside_the_window() {
    let mut app = app_with(5, Some(0), window(0, 0, 2));
    app.on_down();
    assert_eq!(app.data.channels.state.selected(), Some(1));
    assert_eq!(app.data.chanpos, window(0, 1, 1));
    app.on_down();
    assert_eq!(app.data.channels.state.selected(), Some(2));
    assert_eq!(app.data.chanpos, window(0, 2, 0));
}

#[test]
fn down_at_the_bottom_row_scrolls_the_window() {
    let mut app = app_with(5, Some(2), window(0, 2, 0));
    app.on_down();
    assert_eq!(app.data.channels.state.selected(), Some(3));
    assert_eq!(app.data.chanpos, window(1, 2, 0));
    app.on_down();
    assert_eq!(app.data.channels.state.selected(), Some(4));
    assert_eq!(app.data.chanpos, window(2, 2, 0));
}

#[test]
fn down_from_the_last_channel_shows_the_start() {
    let mut app = app_with(5, Some(4), window(2, 2, 0));
    app.on_down();
    assert_eq!(app.data.channels.state.selected(), Some(0));
    assert_eq!(app.data.chanpos, window(0, 0, 2));
}

#[test]
fn down_from_the_last_channel_of_a_short_list() {
    let mut app = app_with(3, Some(2), window(0, 2, 7));
    app.on_down();
    assert_eq!(app.data.channels.state.selected(), Some(0));
    assert_eq!(app.data.chanpos, window(0, 0, 3));
}

#[test]
fn up_moves_the_selection_inside_the_window() {
    let mut app = app_with(5, Some(3), window(1, 2, 0));
    app.on_up();
    assert_eq!(app.data.channels.state.selected(), Some(2));
    assert_eq!(app.data.chanpos, window(1, 1, 1));
    app.on_up();
    assert_eq!(app.data.channels.state.selected(), Some(1));
    assert_eq!(app.data.chanpos, window(1, 0, 2));
}

#[test]
fn up_at_the_top_row_scrolls_the_window() {
    let mut app = app_with(5, Some(1), window(1, 0, 2));
    app.on_up();
    assert_eq!(app.data.channels.state.selected(), Some(0));
    assert_eq!(app.data.chanpos, window(0, 0, 2));
}

#[test]
fn up_from_the_first_channel_shows_the_end() {
    let mut app = app_with(5, Some(0), window(0, 0, 2));
    app.on_up();
    assert_eq!(app.data.channels.state.selected(), Some(4));
    assert_eq!(app.data.chanpos, window(2, 2, 0));
}

#[test]
fn single_channel_stays_selected() {
    let mut app = app_with(1, Some(0), window(0, 0, 0));
    app.on_up();
    assert_eq!(app.data.channels.state.selected(), Some(0));
    assert_eq!(app.data.chanpos, window(0, 0, 0));
    app.on_down();
    assert_eq!(app.data.channels.state.selected(), Some(0));
    assert_eq!(app.data.chanpos, window(0, 0, 0));
}

#[test]
fn window_follows_the_selection_round_the_list() {
    let mut app = app_with(7, Some(0), window(0, 0, 3));
    for _ in 0..20 {
        app.on_down();
        let selected = app.data.channels.state.selected().unwrap();
        assert_eq!(app.data.chanpos.top + app.data.chanpos.upside as usize, selected);
        assert_eq!(app.data.chanpos.upside + app.data.chanpos.downside, 3);
    }
    for _ in 0..20 {
        app.on_up();
        let selected = app.data.channels.state.selected().unwrap();
        assert_eq!(app.data.chanpos.top + app.data.chanpos.upside as usize, selected);
        assert_eq!(app.data.chanpos.upside + app.data.chanpos.downside, 3);
    }
}

#[test]
fn steps_select_the_first_channel_where_none_is_selected() {
    let mut app = app_with(3, None, window(0, 0, 2));
    app.on_down();
    assert_eq!(app.data.channels.state.selected(), Some(0));
    assert_eq!(app.data.chanpos, window(0, 0, 1));
    let mut app = app_with(3, None, window(0, 0, 2));
    app.on_up();
    assert_eq!(app.data.channels.state.selected(), Some(0));
    assert_eq!(app.data.chanpos, window(0, 0, 2));
}

#[test]
fn leaving_a_channel_clears_its_unread_count() {
    let mut app = app_with(3, Some(1), window(0, 1, 1));
    app.data.channels.items[1].unread_messages = 2;
    app.data.channels.items[2].unread_messages = 5;
    assert!(app.on_down());
    assert_eq!(app.data.channels.items[1].unread_messages, 0);
    assert_eq!(app.data.channels.items[2].unread_messages, 5);
    assert!(app.on_up());
    assert_eq!(app.data.channels.items[2].unread_messages, 0);
    assert!(!app.on_up());
}

#[test]
fn paging_moves_the_selection_in_the_messages() {
    let mut app = app_with(2, Some(1), window(0, 1, 0));
    for i in 0..3u64 {
        app.data.channels.items[1].messages.items.push(Message {
            from_id: Uuid(0),
            from: String::from("x"),
            message: None,
            attachments: Vec::new(),
            arrived_at: i,
        });
    }
    app.on_pgup();
    assert_eq!(app.data.channels.items[1].messages.state.selected(), Some(0));
    app.on_pgup();
    assert_eq!(app.data.channels.items[1].messages.state.selected(), Some(1));
    app.on_pgdn();
    app.on_pgdn();
    assert_eq!(app.data.channels.items[1].messages.state.selected(), Some(2));
    assert_eq!(app.data.channels.items[0].messages.state.selected(), None);
    assert_eq!(app.data.channels.state.selected(), Some(1));
}

#[test]
fn paging_without_selection_uses_the_first_channel() {
    let mut app = app_with(2, None, window(0, 0, 0));
    app.data.channels.items[0].messages.items.push(Message {
        from_id: Uuid(0),
        from: String::from("x"),
        message: None,
        attachments: Vec::new(),
        arrived_at: 0,
    });
    app.on_pgdn();
    assert_eq!(app.data.channels.items[0].messages.state.selected(), Some(0));
    app.on_pgup();
    assert_eq!(app.data.channels.items[1].messages.state.selected(), None);
    let mut empty = app_with(0, None, window(0, 0, 0));
    empty.on_pgup();
    empty.on_pgdn();
    assert!(empty.data.channels.items.is_empty());
}

#[test]
fn checks_before_a_step() {
    let mut app = app_with(3, Some(0), window(0, 0, 2));
    assert!(app.selection_is_valid());
    assert!(app.can_go_up());
    assert!(app.can_go_down());
    assert!(app.unread_counts_in_range());
    app.data.chanpos = window(0, 0, 3);
    assert!(app.can_go_up());
    app.data.chanpos = window(0, 1, u16::MAX);
    assert!(app.can_go_up());
    app.data.channels.state.select(Some(1));
    app.data.chanpos = window(1, 0, u16::MAX);
    assert!(app.can_go_up());
    app.data.chanpos = window(0, 1, u16::MAX);
    assert!(!app.can_go_up());
    app.data.chanpos = window(0, u16::MAX, 1);
    assert!(!app.can_go_down());
    app.data.chanpos = window(usize::MAX, 0, 0);
    assert!(!app.can_go_down());
    app.data.channels.state.select(Some(3));
    assert!(!app.selection_is_valid());
    app.data.channels.items[2].unread_messages = usize::MAX;
    assert!(!app.unread_counts_in_range());
    app.data.channels.items[2].unread_messages = usize::MAX - 1;
    assert!(app.unread_counts_in_range());
}

#[test]
fn up_from_the_first_channel_of_a_short_list() {
    let mut app = app_with(3, Some(0), window(0, 0, 9));
    app.on_up();
    assert_eq!(app.data.channels.state.selected(), Some(2));
    assert_eq!(app.data.chanpos, window(0, 9, 0));
    app.on_down();
    assert_eq!(app.data.channels.state.selected(), Some(0));
    assert_eq!(app.data.chanpos, window(0, 0, 9));
    let mut app = app_with(3, Some(0), window(0, 0, 2));
    app.on_up();
    assert_eq!(app.data.chanpos, window(0, 2, 0));
    let mut app = app_with(3, Some(0), window(0, 0, 3));
    app.on_up();
    assert_eq!(app.data.chanpos, window(0, 3, 0));
}
