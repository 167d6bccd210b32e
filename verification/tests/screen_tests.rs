use interpolation_engine::screen::{edit_line, Key, KeyCode, Layout, Mode, Reply, Screen};
use interpolation_engine::ui::UiEvent;

fn plain(code: KeyCode) -> Key {
    Key { code, control: false }
}

fn control(code: KeyCode) -> Key {
    Key { code, control: true }
}

fn typed(screen: &mut Screen, text: &str) {
    for c in text.chars() {
        screen.handle_key(plain(KeyCode::Char(c)));
    }
}

fn history() -> Vec<String> {
    vec!["first line".to_string(), "second".to_string(), "third line".to_string()]
}

fn line(screen: &Screen) -> (String, usize) {
    match &screen.mode {
        Mode::Input { buffer, cursor, .. } => (buffer.iter().collect(), *cursor),
        Mode::Search { buffer, .. } => (buffer.iter().collect(), usize::MAX),
        _ => (String::new(), usize::MAX),
    }
}

fn waiting(history: Vec<String>, default: &str) -> Screen {
    let mut s = Screen::new(history);
    s.begin_input("Say something\n> ", default, true);
    s
}

#[test]
fn a_prompt_is_split_at_its_last_line_feed() {
    let s = waiting(Vec::new(), "abc");
    assert_eq!(s.info, "Say something");
    match &s.mode {
        Mode::Input { prompt_inline, buffer, cursor, allow_menu_toggle } => {
            assert_eq!(prompt_inline, "> ");
            assert_eq!(buffer.iter().collect::<String>(), "abc");
            assert_eq!(*cursor, 3);
            assert!(*allow_menu_toggle);
        }
        other => panic!("not waiting for a line: {other:?}"),
    }
}

#[test]
fn characters_are_typed_at_the_cursor() {
    let mut s = waiting(Vec::new(), "");
    typed(&mut s, "helo");
    assert_eq!(line(&s), ("helo".to_string(), 4));
    s.handle_key(plain(KeyCode::Left));
    let r = s.handle_key(plain(KeyCode::Char('l')));
    assert!(r.changed && !r.quit && r.event.is_none());
    assert!(matches!(r.reply, Reply::Nothing));
    assert_eq!(line(&s), ("hello".to_string(), 4));
    s.handle_key(control(KeyCode::Char('n')));
    assert_eq!(line(&s), ("hell\no".to_string(), 5));
}

#[test]
fn backspace_and_delete_take_one_character() {
    let mut s = waiting(Vec::new(), "abcd");
    s.handle_key(plain(KeyCode::Backspace));
    assert_eq!(line(&s), ("abc".to_string(), 3));
    assert!(!s.handle_key(plain(KeyCode::Delete)).changed);
    s.handle_key(plain(KeyCode::Home));
    assert!(s.handle_key(plain(KeyCode::Backspace)).changed);
    assert_eq!(line(&s), ("abc".to_string(), 0));
    assert!(s.handle_key(plain(KeyCode::Delete)).changed);
    assert_eq!(line(&s), ("bc".to_string(), 0));
}

#[test]
fn the_cursor_moves_by_characters_words_and_to_the_ends() {
    let mut s = waiting(Vec::new(), "one two  three");
    s.handle_key(control(KeyCode::Left));
    assert_eq!(line(&s).1, 9);
    s.handle_key(control(KeyCode::Left));
    assert_eq!(line(&s).1, 4);
    s.handle_key(plain(KeyCode::Left));
    assert_eq!(line(&s).1, 3);
    s.handle_key(control(KeyCode::Right));
    assert_eq!(line(&s).1, 7);
    s.handle_key(plain(KeyCode::Right));
    assert_eq!(line(&s).1, 8);
    s.handle_key(control(KeyCode::Char('a')));
    assert_eq!(line(&s).1, 0);
    s.handle_key(plain(KeyCode::Left));
    assert_eq!(line(&s).1, 0);
    s.handle_key(control(KeyCode::Char('e')));
    assert_eq!(line(&s).1, 14);
    s.handle_key(plain(KeyCode::Right));
    assert_eq!(line(&s).1, 14);
    s.handle_key(plain(KeyCode::Home));
    assert_eq!(line(&s).1, 0);
    s.handle_key(plain(KeyCode::End));
    assert_eq!(line(&s).1, 14);
}

#[test]
fn control_w_takes_the_word_before_the_cursor() {
    let mut s = waiting(Vec::new(), "one two  three");
    s.handle_key(control(KeyCode::Char('w')));
    assert_eq!(line(&s), ("one two  ".to_string(), 9));
    s.handle_key(control(KeyCode::Char('w')));
    assert_eq!(line(&s), ("one ".to_string(), 4));
    s.handle_key(plain(KeyCode::Home));
    s.handle_key(control(KeyCode::Char('w')));
    assert_eq!(line(&s), ("one ".to_string(), 0));
}

#[test]
fn a_cursor_behind_the_end_counts_as_one_at_the_end() {
    let mut buffer: Vec<char> = "ab".chars().collect();
    let mut cursor = 7;
    assert!(edit_line(&mut buffer, &mut cursor, plain(KeyCode::Char('c'))));
    assert_eq!(buffer, vec!['a', 'b', 'c']);
    assert_eq!(cursor, 3);
    assert!(!edit_line(&mut buffer, &mut cursor, plain(KeyCode::Enter)));
    assert!(!edit_line(&mut buffer, &mut cursor, control(KeyCode::Home)));
    assert_eq!((buffer.len(), cursor), (3, 3));
}

#[test]
fn enter_gives_the_line_and_ends_the_wait() {
    let mut s = waiting(history(), "");
    typed(&mut s, "hi {there}");
    let r = s.handle_key(plain(KeyCode::Enter));
    assert!(r.changed && !r.quit);
    assert!(matches!(r.reply, Reply::Text(ref t) if t == "hi {there}"));
    assert!(matches!(s.mode, Mode::Idle));
    assert_eq!(s.history, history());
}

#[test]
fn the_arrows_walk_through_the_earlier_lines() {
    let mut s = waiting(history(), "");
    typed(&mut s, "draft");
    assert!(s.handle_key(plain(KeyCode::Down)).changed);
    assert_eq!(line(&s), ("draft".to_string(), 5));
    s.handle_key(plain(KeyCode::Up));
    assert_eq!(line(&s), ("third line".to_string(), 10));
    assert_eq!(s.history_cursor, Some(2));
    s.handle_key(plain(KeyCode::Up));
    s.handle_key(plain(KeyCode::Up));
    assert_eq!(line(&s), ("first line".to_string(), 10));
    s.handle_key(plain(KeyCode::Up));
    assert_eq!(line(&s), ("first line".to_string(), 10));
    assert_eq!(s.history_cursor, Some(0));
    s.handle_key(plain(KeyCode::Down));
    assert_eq!(line(&s), ("second".to_string(), 6));
    s.handle_key(plain(KeyCode::Down));
    s.handle_key(plain(KeyCode::Down));
    assert_eq!(line(&s), ("draft".to_string(), 5));
    assert_eq!(s.history_cursor, None);
    assert!(s.history_stash.is_none());
}

#[test]
fn editing_ends_the_walk_through_the_earlier_lines() {
    let mut s = waiting(history(), "");
    s.handle_key(plain(KeyCode::Up));
    assert_eq!(s.history_cursor, Some(2));
    s.handle_key(plain(KeyCode::Char('!')));
    assert_eq!(s.history_cursor, None);
    assert_eq!(line(&s), ("third line!".to_string(), 11));
}

#[test]
fn without_earlier_lines_the_arrows_do_nothing() {
    let mut s = waiting(Vec::new(), "x");
    assert!(!s.handle_key(plain(KeyCode::Up)).changed);
    assert!(!s.handle_key(plain(KeyCode::Down)).changed);
    assert_eq!(line(&s), ("x".to_string(), 1));
}

#[test]
fn a_search_shows_the_last_earlier_line_that_holds_the_query() {
    let mut s = waiting(history(), "draft");
    assert!(s.handle_key(control(KeyCode::Char('r'))).changed);
    assert_eq!(line(&s).0, "third line");
    typed(&mut s, "line");
    assert_eq!(line(&s).0, "third line");
    s.handle_key(control(KeyCode::Char('r')));
    assert_eq!(line(&s).0, "first line");
    s.handle_key(control(KeyCode::Char('r')));
    assert_eq!(line(&s).0, "third line");
    typed(&mut s, "x");
    assert_eq!(line(&s).0, "draft");
    match &s.mode {
        Mode::Search { query, original, match_index, .. } => {
            assert_eq!(query.iter().collect::<String>(), "linex");
            assert_eq!(original.iter().collect::<String>(), "draft");
            assert_eq!(*match_index, None);
        }
        other => panic!("not searching: {other:?}"),
    }
    s.handle_key(plain(KeyCode::Backspace));
    assert_eq!(line(&s).0, "third line");
    typed(&mut s, "q");
    s.handle_key(control(KeyCode::Char('r')));
    assert_eq!(line(&s).0, "draft");
}

#[test]
fn enter_takes_the_line_that_the_search_shows() {
    let mut s = waiting(history(), "");
    s.handle_key(control(KeyCode::Char('r')));
    typed(&mut s, "sec");
    let r = s.handle_key(plain(KeyCode::Enter));
    assert!(matches!(r.reply, Reply::Nothing));
    assert_eq!(line(&s), ("second".to_string(), 6));
    assert!(matches!(s.mode, Mode::Input { .. }));
    let r = s.handle_key(plain(KeyCode::Enter));
    assert!(matches!(r.reply, Reply::Text(ref t) if t == "second"));
}

#[test]
fn a_key_that_scrolls_ends_a_search() {
    let mut s = waiting(history(), "");
    s.handle_key(control(KeyCode::Char('r')));
    let r = s.handle_key(plain(KeyCode::PageUp));
    assert!(!r.changed);
    assert!(matches!(s.mode, Mode::Idle));
    let mut s = waiting(history(), "");
    s.handle_key(control(KeyCode::Char('r')));
    assert!(!s.handle_key(plain(KeyCode::Left)).changed);
    assert!(matches!(s.mode, Mode::Search { .. }));
}

#[test]
fn a_choice_is_made_by_its_key_or_by_its_text() {
    let options = || vec!["yes".to_string(), "no".to_string(), "x".to_string()];
    let mut s = Screen::new(Vec::new());
    s.begin_choice(options(), Some("Go on?".to_string()), true);
    assert!(!s.handle_key(plain(KeyCode::Char('7'))).changed);
    assert!(!s.handle_key(plain(KeyCode::Enter)).changed);
    let r = s.handle_key(plain(KeyCode::Char('2')));
    assert!(matches!(r.reply, Reply::Index(1)));
    assert!(matches!(s.mode, Mode::Idle));
    s.begin_choice(options(), None, true);
    let r = s.handle_key(plain(KeyCode::Char('x')));
    assert!(matches!(r.reply, Reply::Index(2)));
    let many: Vec<String> = (0..12).map(|i| format!("option {i}")).collect();
    s.begin_choice(many, None, true);
    assert!(!s.handle_key(plain(KeyCode::Char('1'))).changed);
    let r = s.handle_key(plain(KeyCode::Char('c')));
    assert!(matches!(r.reply, Reply::Index(2)));
}

#[test]
fn with_nothing_to_choose_from_any_key_answers() {
    let mut s = Screen::new(Vec::new());
    s.begin_choice(Vec::new(), None, true);
    let r = s.handle_key(plain(KeyCode::Other));
    assert!(r.changed);
    assert!(matches!(r.reply, Reply::Index(0)));
    assert!(matches!(s.mode, Mode::Idle));
}

#[test]
fn escape_asks_for_the_menu_unless_the_wait_bars_it() {
    let mut s = waiting(Vec::new(), "abc");
    let r = s.handle_key(plain(KeyCode::Esc));
    assert!(r.changed && !r.quit);
    assert_eq!(r.event, Some(UiEvent::ToggleMenu));
    assert!(matches!(s.mode, Mode::Idle));
    let r = s.handle_key(plain(KeyCode::Esc));
    assert_eq!(r.event, Some(UiEvent::ToggleMenu));
    s.begin_input("> ", "", false);
    let r = s.handle_key(plain(KeyCode::Esc));
    assert_eq!(r.event, None);
    assert!(matches!(s.mode, Mode::Idle));
    s.begin_choice(vec!["a".to_string()], None, false);
    assert_eq!(s.handle_key(plain(KeyCode::Esc)).event, None);
    s.begin_input("> ", "", false);
    s.handle_key(control(KeyCode::Char('r')));
    assert_eq!(s.handle_key(plain(KeyCode::Esc)).event, Some(UiEvent::ToggleMenu));
}

#[test]
fn control_c_asks_for_the_end() {
    let mut s = waiting(Vec::new(), "abc");
    let r = s.handle_key(control(KeyCode::Char('c')));
    assert!(r.quit && r.changed);
    assert_eq!(r.event, Some(UiEvent::Quit));
    assert_eq!(line(&s), ("abc".to_string(), 3));
    let r = s.handle_key(plain(KeyCode::Char('c')));
    assert!(!r.quit);
    assert_eq!(line(&s), ("abcc".to_string(), 4));
}

#[test]
fn the_output_scrolls_once_it_was_drawn() {
    let mut s = Screen::new(Vec::new());
    assert!(!s.handle_key(plain(KeyCode::PageUp)).changed);
    assert!(!s.handle_mouse(true));
    s.last_layout = Some(Layout { output_height: 10, max_scroll: 25 });
    s.output_scroll = 25;
    assert!(s.handle_key(plain(KeyCode::PageUp)).changed);
    assert_eq!((s.output_scroll, s.auto_scroll), (15, false));
    assert!(s.handle_mouse(true));
    assert_eq!(s.output_scroll, 12);
    assert!(s.handle_mouse(false));
    assert_eq!(s.output_scroll, 15);
    assert!(s.handle_key(control(KeyCode::Up)).changed);
    assert_eq!(s.output_scroll, 14);
    assert!(!s.handle_key(plain(KeyCode::Up)).changed);
    assert!(s.handle_key(plain(KeyCode::Home)).changed);
    assert_eq!((s.output_scroll, s.auto_scroll), (0, false));
    assert!(!s.handle_key(plain(KeyCode::PageUp)).changed);
    assert!(s.handle_key(plain(KeyCode::PageDown)).changed);
    assert_eq!(s.output_scroll, 10);
    assert!(s.handle_key(plain(KeyCode::End)).changed);
    assert_eq!((s.output_scroll, s.auto_scroll), (25, true));
    assert!(!s.handle_key(plain(KeyCode::End)).changed);
    assert!(!s.handle_key(plain(KeyCode::PageDown)).changed);
}

#[test]
fn while_a_line_is_typed_the_pages_scroll_and_home_needs_control() {
    let mut s = waiting(Vec::new(), "abc");
    s.last_layout = Some(Layout { output_height: 4, max_scroll: 9 });
    s.output_scroll = 9;
    assert!(s.handle_key(plain(KeyCode::PageUp)).changed);
    assert_eq!(s.output_scroll, 5);
    assert!(s.handle_key(control(KeyCode::Home)).changed);
    assert_eq!(s.output_scroll, 0);
    assert_eq!(line(&s), ("abc".to_string(), 3));
    s.handle_key(plain(KeyCode::Home));
    assert_eq!(line(&s).1, 0);
    assert_eq!(s.output_scroll, 0);
}

#[test]
fn what_is_written_is_followed_until_the_output_is_scrolled() {
    let mut s = Screen::new(Vec::new());
    s.write("one\n");
    s.write("two\n");
    assert_eq!(s.output.iter().collect::<String>(), "one\ntwo\n");
    s.last_layout = Some(Layout { output_height: 1, max_scroll: 2 });
    s.write("three");
    assert_eq!(s.output_scroll, 2);
    s.handle_mouse(true);
    assert_eq!((s.output_scroll, s.auto_scroll), (0, false));
    s.last_layout = Some(Layout { output_height: 1, max_scroll: 5 });
    s.write("\nfour");
    assert_eq!(s.output_scroll, 0);
    s.set_output("all new");
    assert_eq!(s.output.iter().collect::<String>(), "all new");
    s.clear();
    assert!(s.output.is_empty());
    assert_eq!((s.output_scroll, s.auto_scroll), (0, true));
}

#[test]
fn cancelling_ends_the_wait() {
    let mut s = Screen::new(Vec::new());
    assert!(!s.cancel_input());
    s.begin_input("> ", "", true);
    assert!(s.cancel_input());
    assert!(matches!(s.mode, Mode::Idle));
}

#[test]
fn a_frame_shares_the_rows_out() {
    let mut s = Screen::new(Vec::new());
    s.write("1\n2\n3\n4\n5\n6\n7\n8");
    let f = s.frame(10, 5);
    assert_eq!((f.output_height, f.info_height, f.prompt_height), (5, 0, 0));
    assert_eq!((f.max_scroll, f.scroll_offset), (3, 3));
    assert!(f.cursor.is_none());
    assert_eq!(f.output_text, "1\n2\n3\n4\n5\n6\n7\n8");
    let layout = s.last_layout.unwrap();
    assert_eq!((layout.output_height, layout.max_scroll), (5, 3));

    s.begin_input("What is\nyour name?\n> ", "abcdefghijkl", true);
    s.handle_key(plain(KeyCode::Left));
    let f = s.frame(10, 5);
    assert_eq!(f.info_text, "What is\nyour name?");
    assert_eq!(f.prompt_text, "> abcdefghijkl");
    assert_eq!((f.output_height, f.info_height, f.prompt_height), (1, 2, 2));
    assert_eq!(f.max_scroll, 7);
    let at = f.cursor.unwrap();
    assert!(at.in_prompt);
    assert_eq!((at.row, at.col), (1, 3));

    s.output_scroll = 2;
    s.auto_scroll = false;
    assert_eq!(s.frame(10, 5).scroll_offset, 2);
    s.output_scroll = 50;
    assert_eq!(s.frame(10, 5).scroll_offset, 7);
    assert!(s.frame(0, 5).cursor.is_none());
}

#[test]
fn a_frame_lists_the_options_and_shows_what_is_looked_for() {
    let mut s = Screen::new(history());
    s.begin_choice(vec!["yes".to_string(), "no".to_string()], Some("Go on?".to_string()), true);
    let f = s.frame(20, 10);
    assert_eq!(f.info_text, "Go on?\n(1) yes\n(2) no");
    assert_eq!(f.prompt_text, "");
    assert_eq!((f.output_height, f.info_height, f.prompt_height), (7, 3, 0));
    assert!(f.cursor.is_none());
    s.begin_choice(vec!["yes".to_string(), "no".to_string()], None, true);
    assert_eq!(s.frame(20, 10).info_text, "(1) yes\n(2) no");

    s.begin_input("> ", "", true);
    s.handle_key(control(KeyCode::Char('r')));
    typed(&mut s, "sec");
    let f = s.frame(20, 10);
    assert_eq!(f.info_text, "reverse-i-search: sec");
    assert_eq!(f.prompt_text, "> second");
    let at = f.cursor.unwrap();
    assert!(!at.in_prompt);
    assert_eq!((at.row, at.col), (1, 1));
}
