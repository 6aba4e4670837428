use chat_core::app::{App, AppData, Config, User};
use chat_core::event::KeyCode;
use chat_core::ident::Uuid;
use chat_core::text::{byte_len, char_len_utf8};

fn app_with_input(text: &str) -> App {
    let mut app = App {
        config: Config {
            user: User { name: String::from("Me"), phone_number: String::from("+1000") },
        },
        should_quit: false,
        uuid: Uuid(1),
        data: AppData::default(),
    };
    for c in text.chars() {
        app.put_char(c);
    }
    app
}

fn cursor(app: &App) -> (usize, usize) {
    (app.data.input_cursor, app.data.input_cursor_chars)
}

#[test]
fn lengths_of_characters_in_utf8() {
    assert_eq!(char_len_utf8('a'), 1);
    assert_eq!(char_len_utf8('\u{7f}'), 1);
    assert_eq!(char_len_utf8('\u{80}'), 2);
    assert_eq!(char_len_utf8('é'), 2);
    assert_eq!(char_len_utf8('\u{7ff}'), 2);
    assert_eq!(char_len_utf8('\u{800}'), 3);
    assert_eq!(char_len_utf8('日'), 3);
    assert_eq!(char_len_utf8('\u{ffff}'), 3);
    assert_eq!(char_len_utf8('\u{10000}'), 4);
    assert_eq!(char_len_utf8('😀'), 4);
    assert_eq!(byte_len(&String::from("aé日😀")), 10);
}

#[test]
fn typing_moves_the_cursor_by_the_encoded_length() {
    let app = app_with_input("aé日");
    assert_eq!(app.data.input, "aé日");
    assert_eq!(cursor(&app), (6, 3));
    assert!(app.data.cursor_is_consistent());
}

#[test]
fn typing_in_the_middle_inserts_at_the_cursor() {
    let mut app = app_with_input("ac");
    assert_eq!(app.on_left(), Some(()));
    app.put_char('é');
    assert_eq!(app.data.input, "aéc");
    assert_eq!(cursor(&app), (3, 2));
    app.put_char('b');
    assert_eq!(app.data.input, "aébc");
    assert_eq!(cursor(&app), (4, 3));
}

#[test]
fn left_steps_over_whole_characters() {
    let mut app = app_with_input("aé日");
    assert_eq!(app.on_left(), Some(()));
    assert_eq!(cursor(&app), (3, 2));
    assert_eq!(app.on_left(), Some(()));
    assert_eq!(cursor(&app), (1, 1));
    assert_eq!(app.on_left(), Some(()));
    assert_eq!(cursor(&app), (0, 0));
    assert_eq!(app.on_left(), None);
    assert_eq!(cursor(&app), (0, 0));
    assert_eq!(app.data.input, "aé日");
}

#[test]
fn right_steps_over_whole_characters() {
    let mut app = app_with_input("aé日😀");
    app.on_home();
    assert_eq!(cursor(&app), (0, 0));
    assert_eq!(app.on_right(), Some(()));
    assert_eq!(cursor(&app), (1, 1));
    assert_eq!(app.on_right(), Some(()));
    assert_eq!(cursor(&app), (3, 2));
    assert_eq!(app.on_right(), Some(()));
    assert_eq!(cursor(&app), (6, 3));
    assert_eq!(app.on_right(), Some(()));
    assert_eq!(cursor(&app), (10, 4));
    assert_eq!(app.on_right(), None);
    assert_eq!(cursor(&app), (10, 4));
}

#[test]
fn backspace_removes_the_character_before_the_cursor() {
    let mut app = app_with_input("aé日");
    assert_eq!(app.on_backspace(), Some(()));
    assert_eq!(app.data.input, "aé");
    assert_eq!(cursor(&app), (3, 2));
    assert_eq!(app.on_left(), Some(()));
    assert_eq!(app.on_backspace(), Some(()));
    assert_eq!(app.data.input, "é");
    assert_eq!(cursor(&app), (0, 0));
    assert_eq!(app.on_backspace(), None);
    assert_eq!(app.data.input, "é");
    assert_eq!(cursor(&app), (0, 0));
}

#[test]
fn edits_keep_the_cursor_consistent() {
    let mut app = app_with_input("grüße 日本 ok");
    assert!(app.data.cursor_is_consistent());
    app.on_alt_left();
    assert!(app.data.cursor_is_consistent());
    app.on_delete_word();
    assert!(app.data.cursor_is_consistent());
    app.put_char('€');
    assert!(app.data.cursor_is_consistent());
    app.on_left();
    app.on_left();
    app.on_backspace();
    assert!(app.data.cursor_is_consistent());
    app.on_alt_right();
    assert!(app.data.cursor_is_consistent());
    app.on_delete_suffix();
    assert!(app.data.cursor_is_consistent());
    let prefix = &app.data.input[..app.data.input_cursor];
    assert_eq!(prefix.chars().count(), app.data.input_cursor_chars);
}

#[test]
fn consistency_check_sees_a_wrong_cursor() {
    let mut app = app_with_input("aé");
    assert!(app.data.cursor_is_consistent());
    app.data.input_cursor = 2;
    assert!(!app.data.cursor_is_consistent());
    app.data.input_cursor = 3;
    app.data.input_cursor_chars = 1;
    assert!(!app.data.cursor_is_consistent());
    app.data.input_cursor_chars = 3;
    assert!(!app.data.cursor_is_consistent());
    app.data.input_cursor_chars = 2;
    assert!(app.data.cursor_is_consistent());
}

#[test]
fn word_left_goes_to_the_start_of_the_word() {
    let mut app = app_with_input("hello world");
    app.on_alt_left();
    assert_eq!(cursor(&app), (6, 6));
    app.on_alt_left();
    assert_eq!(cursor(&app), (0, 0));
    app.on_alt_left();
    assert_eq!(cursor(&app), (0, 0));
}

#[test]
fn word_left_over_two_spaces() {
    let mut app = app_with_input("foo  bar");
    app.on_alt_left();
    assert_eq!(cursor(&app), (5, 5));
}

#[test]
fn word_left_passes_a_word_of_one_letter() {
    let mut app = app_with_input("a b");
    app.on_alt_left();
    assert_eq!(cursor(&app), (0, 0));
}

#[test]
fn word_right_goes_to_the_start_of_the_next_word() {
    let mut app = app_with_input("hello world foo");
    app.on_home();
    app.on_alt_right();
    assert_eq!(cursor(&app), (6, 6));
    app.on_alt_right();
    assert_eq!(cursor(&app), (12, 12));
    app.on_alt_right();
    assert_eq!(cursor(&app), (15, 15));
    app.on_alt_right();
    assert_eq!(cursor(&app), (15, 15));
}

#[test]
fn word_right_over_characters_of_several_bytes() {
    let mut app = app_with_input("grüße 日本");
    app.on_home();
    app.on_alt_right();
    assert_eq!(cursor(&app), (8, 6));
    app.on_alt_right();
    assert_eq!(cursor(&app), (14, 8));
}

#[test]
fn word_left_then_delete_word_leaves_the_last_word() {
    let mut app = app_with_input("hello world");
    app.on_alt_left();
    assert_eq!(app.on_delete_word(), None);
    assert_eq!(app.data.input, "world");
    assert_eq!(cursor(&app), (0, 0));
}

#[test]
fn delete_word_at_the_start_deletes_nothing() {
    let mut app = app_with_input("hello world");
    app.on_alt_left();
    app.on_alt_left();
    assert_eq!(cursor(&app), (0, 0));
    assert_eq!(app.on_delete_word(), None);
    assert_eq!(app.data.input, "hello world");
}

#[test]
fn delete_word_takes_spaces_then_the_word() {
    let mut app = app_with_input("foo bar  ");
    assert_eq!(app.on_delete_word(), Some(()));
    assert_eq!(app.data.input, "foo ");
    assert_eq!(cursor(&app), (4, 4));
}

#[test]
fn delete_word_in_the_middle_keeps_what_follows() {
    let mut app = app_with_input("foo bar baz");
    app.on_alt_left();
    app.on_left();
    assert_eq!(cursor(&app), (7, 7));
    assert_eq!(app.on_delete_word(), Some(()));
    assert_eq!(app.data.input, "foo  baz");
    assert_eq!(cursor(&app), (4, 4));
}

#[test]
fn delete_word_of_spaces_only_reaches_the_start() {
    let mut app = app_with_input("   ");
    assert_eq!(app.on_delete_word(), None);
    assert_eq!(app.data.input, "");
    assert_eq!(cursor(&app), (0, 0));
}

#[test]
fn only_the_ascii_space_ends_a_word() {
    let mut app = app_with_input("foo\u{3000}bar\u{a0}baz");
    assert_eq!(app.on_delete_word(), None);
    assert_eq!(app.data.input, "");
    let mut app = app_with_input("foo\u{3000}bar baz");
    app.on_alt_left();
    assert_eq!(cursor(&app), (10, 8));
    app.on_alt_left();
    assert_eq!(cursor(&app), (0, 0));
}

#[test]
fn delete_word_removes_characters_of_several_bytes() {
    let mut app = app_with_input("ok grüße");
    assert_eq!(app.on_delete_word(), Some(()));
    assert_eq!(app.data.input, "ok ");
    assert_eq!(cursor(&app), (3, 3));
}

#[test]
fn home_and_end_move_to_the_ends() {
    let mut app = app_with_input("hello");
    app.on_home();
    assert_eq!(cursor(&app), (0, 0));
    app.on_end();
    assert_eq!(cursor(&app), (5, 5));
    assert!(app.data.cursor_is_consistent());
}

#[test]
fn end_counts_terminal_columns() {
    let mut app = app_with_input("日本");
    assert_eq!(cursor(&app), (6, 2));
    app.on_end();
    assert_eq!(cursor(&app), (6, 4));
    assert!(!app.data.cursor_is_consistent());
    app.on_home();
    assert!(app.data.cursor_is_consistent());
}

#[test]
fn delete_suffix_cuts_at_the_cursor() {
    let mut app = app_with_input("héllo");
    app.on_left();
    app.on_left();
    app.on_left();
    assert_eq!(cursor(&app), (3, 2));
    app.on_delete_suffix();
    assert_eq!(app.data.input, "hé");
    assert_eq!(cursor(&app), (3, 2));
    app.on_delete_suffix();
    assert_eq!(app.data.input, "hé");
}

#[test]
fn keys_edit_the_input() {
    let mut app = app_with_input("");
    assert_eq!(app.on_key(KeyCode::Char('h'), 0), None);
    assert_eq!(app.on_key(KeyCode::Char('\r'), 0), None);
    assert_eq!(app.on_key(KeyCode::Char('i'), 0), None);
    assert_eq!(app.data.input, "h\ni");
    assert_eq!(app.on_key(KeyCode::Home, 0), None);
    assert_eq!(cursor(&app), (0, 0));
    assert_eq!(app.on_key(KeyCode::Backspace, 0), None);
    assert_eq!(app.data.input, "h\ni");
    assert_eq!(app.on_key(KeyCode::Tab, 0), None);
    assert_eq!(app.on_key(KeyCode::F(5), 0), None);
    assert_eq!(app.data.input, "h\ni");
    assert_eq!(cursor(&app), (0, 0));
    assert_eq!(app.on_right(), Some(()));
    assert_eq!(app.on_right(), Some(()));
    assert_eq!(app.on_key(KeyCode::Backspace, 0), None);
    assert_eq!(app.data.input, "hi");
    assert_eq!(cursor(&app), (1, 1));
}

#[test]
fn enter_without_a_selected_channel_keeps_the_input() {
    let mut app = app_with_input("hello");
    assert_eq!(app.on_key(KeyCode::Enter, 5), None);
    assert_eq!(app.data.input, "hello");
    let mut app = app_with_input("");
    assert_eq!(app.on_key(KeyCode::Enter, 5), None);
    assert_eq!(app.data.input, "");
}

#[test]
fn count_that_lags_behind_stops_at_zero() {
    let mut app = app_with_input("a\nb");
    assert_eq!(cursor(&app), (3, 3));
    app.on_end();
    assert_eq!(cursor(&app), (3, 2));
    assert!(app.data.cursor_on_char_boundary());
    assert!(!app.data.cursor_is_consistent());
    assert_eq!(app.on_left(), Some(()));
    assert_eq!(cursor(&app), (2, 1));
    assert_eq!(app.on_left(), Some(()));
    assert_eq!(cursor(&app), (1, 0));
    assert_eq!(app.on_left(), Some(()));
    assert_eq!(cursor(&app), (0, 0));
    assert_eq!(app.on_left(), None);
    assert!(app.data.cursor_is_consistent());
}

#[test]
fn count_that_runs_ahead_keeps_its_lead() {
    let mut app = app_with_input("日本 語");
    app.on_end();
    assert_eq!(cursor(&app), (10, 7));
    assert_eq!(app.on_backspace(), Some(()));
    assert_eq!(app.data.input, "日本 ");
    assert_eq!(cursor(&app), (7, 6));
    app.put_char('x');
    assert_eq!(cursor(&app), (8, 7));
    app.on_alt_left();
    assert_eq!(cursor(&app), (0, 3));
    app.on_alt_right();
    assert_eq!(cursor(&app), (7, 6));
    assert_eq!(app.on_delete_word(), None);
    assert_eq!(app.data.input, "x");
    assert_eq!(cursor(&app), (0, 3));
    assert!(app.data.cursor_on_char_boundary());
}

#[test]
fn boundary_check_sees_a_cursor_inside_a_character() {
    let mut app = app_with_input("aé");
    assert!(app.data.cursor_on_char_boundary());
    app.data.input_cursor = 2;
    assert!(!app.data.cursor_on_char_boundary());
    app.data.input_cursor = 4;
    assert!(!app.data.cursor_on_char_boundary());
    app.data.input_cursor = 1;
    assert!(app.data.cursor_on_char_boundary());
}
