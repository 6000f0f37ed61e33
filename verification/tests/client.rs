use hat::entity::{AnyWindowHandle, WindowId};
use hat::pane::PaneId;
use hat::window::{Rect, Window, WindowConfig};
use hat::chat::{scroll_offset, Chat, ChatLine, ChatMessage, RoomId};
use hat::hat::{Hat, HatCommand, HatEvent};
use hat::input_message::{InputEvent, InputMessage};
use hat::keystroke::Keystroke;
use hat::path::{decode_sanitized, sanitize};
use hat::state::{AddressBook, CurrentPersona, CurrentTopic};
use hat::ui::InfoBlock;

fn key(text: &str) -> Keystroke {
    Keystroke::parse(text).unwrap()
}

fn typed(input: &mut InputMessage, text: &str) {
    for c in text.chars() {
        if c == ' ' {
            input.insert_space_at_cursor_pos();
        } else {
            input.on_keystroke(&key(&c.to_string()));
        }
    }
}

#[test]
fn input_types_at_cursor() {
    let mut input = InputMessage::new(0);
    typed(&mut input, "hllo");
    assert_eq!(input.lines(), vec!["hllo"]);
    assert_eq!(input.cursor(), (4, 0));
    input.move_left();
    input.move_left();
    input.move_left();
    typed(&mut input, "e");
    assert_eq!(input.lines(), vec!["hello"]);
    assert_eq!(input.cursor(), (2, 0));
}

#[test]
fn input_shift_letter_types_uppercase() {
    let mut input = InputMessage::new(0);
    input.on_keystroke(&key("shift-h"));
    input.on_keystroke(&key("i"));
    assert_eq!(input.lines(), vec!["Hi"]);
}

#[test]
fn input_keystroke_without_character_changes_nothing() {
    let mut input = InputMessage::new(0);
    input.move_right();
    input.move_right();
    input.on_keystroke(&key("enter"));
    assert_eq!(input.lines(), vec![""]);
    assert_eq!(input.cursor(), (2, 0));
}

#[test]
fn input_type_then_delete_restores() {
    let mut input = InputMessage::new(0);
    typed(&mut input, "abc");
    input.move_left();
    let before = input.lines();
    let at = input.fix_cursor_pos();
    typed(&mut input, "x");
    assert_eq!(input.lines(), vec!["abxc"]);
    input.delete_at_cursor_pos();
    assert_eq!(input.lines(), before);
    assert_eq!(input.cursor(), at);
}

#[test]
fn input_delete_at_line_start_does_nothing() {
    let mut input = InputMessage::new(0);
    typed(&mut input, "ab");
    input.move_left();
    input.move_left();
    input.delete_at_cursor_pos();
    assert_eq!(input.lines(), vec!["ab"]);
    assert_eq!(input.cursor(), (0, 0));
}

#[test]
fn input_new_line_splits_at_cursor() {
    let mut input = InputMessage::new(0);
    typed(&mut input, "hello");
    input.move_left();
    input.move_left();
    input.insert_new_line_at_cursor_pos();
    assert_eq!(input.lines(), vec!["hel", "lo"]);
    assert_eq!(input.cursor(), (0, 1));
    assert_eq!(input.lines().concat(), "hello");
}

#[test]
fn input_space_goes_to_line_end() {
    let mut input = InputMessage::new(0);
    typed(&mut input, "ab");
    input.move_left();
    input.insert_space_at_cursor_pos();
    assert_eq!(input.lines(), vec!["ab "]);
    assert_eq!(input.cursor(), (2, 0));
}

#[test]
fn input_cursor_moves_are_clamped() {
    let mut input = InputMessage::new(0);
    typed(&mut input, "ab");
    input.insert_new_line_at_cursor_pos();
    typed(&mut input, "cdef");
    input.move_up();
    assert_eq!(input.cursor(), (4, 0));
    assert_eq!(input.fix_cursor_pos(), (2, 0));
    input.move_down();
    input.move_down();
    assert_eq!(input.cursor(), (4, 1));
    input.move_up();
    input.move_up();
    assert_eq!(input.cursor(), (4, 0));
    input.move_left();
    assert_eq!(input.cursor(), (1, 0));
}

#[test]
fn input_send_hands_out_lines_and_clears() {
    let mut input = InputMessage::new(0);
    assert_eq!(input.send_message(), None);
    typed(&mut input, "hi");
    input.insert_new_line_at_cursor_pos();
    typed(&mut input, "there");
    let sent = input.send_message();
    assert_eq!(sent, Some(InputEvent::Submit { data: vec!["hi".to_string(), "there".to_string()] }));
    assert_eq!(input.lines(), vec![""]);
    assert_eq!(input.cursor(), (0, 0));
    assert_eq!(input.send_message(), None);
}

#[test]
fn input_cursor_blinks() {
    let mut input = InputMessage::new(1000);
    assert!(input.cursor_visible());
    input.tick_cursor(1499);
    assert!(input.cursor_visible());
    input.tick_cursor(1500);
    assert!(!input.cursor_visible());
    input.tick_cursor(1700);
    assert!(!input.cursor_visible());
    input.tick_cursor(2000);
    assert!(input.cursor_visible());
    input.tick_cursor(10);
    assert!(input.cursor_visible());
}

#[test]
fn address_book_keeps_first_shown_persona() {
    let mut book = AddressBook::new();
    assert_eq!(book.get(&"p1".to_string()), None);
    assert!(!book.is_known(&"p1".to_string()));
    book.insert("p1".to_string(), "alice".to_string(), true);
    assert_eq!(book.get(&"p1".to_string()), Some("alice".to_string()));
    book.insert("p1".to_string(), "bob".to_string(), true);
    assert_eq!(book.get(&"p1".to_string()), Some("alice".to_string()));
    book.insert("p2".to_string(), "carol".to_string(), false);
    assert_eq!(book.get(&"p2".to_string()), None);
    let (personas, shown) = book.to_parts();
    assert_eq!(shown, vec![("p1".to_string(), "alice".to_string())]);
    let p1 = personas.iter().find(|(k, _)| k == "p1").unwrap();
    assert_eq!(p1.1, vec!["alice".to_string(), "bob".to_string()]);
    book.insert("p1".to_string(), "bob".to_string(), false);
    let (personas, _) = book.to_parts();
    assert_eq!(personas.iter().find(|(k, _)| k == "p1").unwrap().1.len(), 2);
}

#[test]
fn address_book_from_parts() {
    let book = AddressBook::from_parts(
        vec![("p".to_string(), vec!["x".to_string()])],
        vec![("p".to_string(), "y".to_string())],
    );
    assert_eq!(book.get(&"p".to_string()), Some("y".to_string()));
}

#[test]
fn persona_and_topic() {
    let p = CurrentPersona::new(Some("alice".to_string()));
    assert_eq!(p.0, "alice");
    let t = CurrentTopic::new("global".to_string());
    assert_eq!(t.name(), "global");
    let info = InfoBlock::new(&p);
    assert_eq!(info.lines(&"10:00:00 AM".to_string()), vec!["persona: alice", "time: 10:00:00 AM"]);
}

fn message(from: &str, lines: &[&str], ts: u64) -> ChatMessage {
    ChatMessage { from: from.to_string(), content: lines.iter().map(|s| s.to_string()).collect(), ts_millis: ts }
}

#[test]
fn chat_lines_show_rooms_messages() {
    let topic = CurrentTopic::new("global".to_string());
    let mut chat = Chat::new("me1234".to_string(), &topic);
    let mut book = AddressBook::new();
    book.insert("peerABCD".to_string(), "bob".to_string(), true);
    chat.push_message(&RoomId::room(&"global".to_string()), message("peerABCD", &["hi", "there"], 5));
    chat.push_message(&RoomId::room(&"other".to_string()), message("peerABCD", &["elsewhere"], 6));
    chat.push_message(&RoomId::room(&"global".to_string()), message("me1234", &["yo"], 7));
    chat.push_message(&RoomId::room(&"global".to_string()), message("zz", &[], 8));
    assert_eq!(chat.room_timestamps(&"global".to_string()), vec![5, 7, 8]);
    assert_eq!(chat.title(), "chat/global");
    let times = vec!["01:00 PM".to_string(), "01:01 PM".to_string(), "01:02 PM".to_string()];
    let lines = chat.render_lines(&"global".to_string(), &book, &times);
    let line = |t: &str, s: Option<bool>| ChatLine { text: t.to_string(), sender: s };
    assert_eq!(
        lines,
        vec![
            line("bob#ABCD: 01:00 PM", Some(false)),
            line("hi", None),
            line("there", None),
            line("?#1234: 01:01 PM", Some(true)),
            line("yo", None),
            line("?#zz: 01:02 PM", Some(false)),
        ]
    );
    assert_eq!(chat.render_lines(&"nowhere".to_string(), &book, &vec![]), vec![]);
}

#[test]
fn chat_scroll_offset() {
    assert_eq!(scroll_offset(10, 4), 6);
    assert_eq!(scroll_offset(3, 5), 0);
    assert_eq!(scroll_offset(70000, 0), 4464);
}

#[test]
fn hat_asks_unknown_senders_for_persona() {
    let topic = CurrentTopic::new("global".to_string());
    let mut chat = Chat::new("me".to_string(), &topic);
    let mut book = AddressBook::new();
    Hat::register_self(&mut book, "me".to_string(), &CurrentPersona::new(Some("alice".to_string())));
    assert_eq!(book.get(&"me".to_string()), Some("alice".to_string()));
    let room = RoomId::room(&"global".to_string());
    let r = Hat::on_event(&mut chat, &mut book, HatEvent::ChatMessageReceived { room: room.clone(), message: message("p9", &["hey"], 1) });
    assert_eq!(r, Some(HatCommand::RequestPersona { peer: "p9".to_string() }));
    let r = Hat::on_event(&mut chat, &mut book, HatEvent::PersonaReceived { peer: "p9".to_string(), persona: "zed".to_string() });
    assert_eq!(r, None);
    let r = Hat::on_event(&mut chat, &mut book, HatEvent::ChatMessageReceived { room: room.clone(), message: message("p9", &["again"], 2) });
    assert_eq!(r, None);
    let r = Hat::on_event(&mut chat, &mut book, HatEvent::ChatMessageReceived { room, message: message("me", &["mine"], 3) });
    assert_eq!(r, None);
    assert_eq!(chat.room_timestamps(&"global".to_string()), vec![1, 2, 3]);
    assert_eq!(Hat::on_event(&mut chat, &mut book, HatEvent::Other), None);
}

#[test]
fn hat_commands() {
    let topic = CurrentTopic::new("global".to_string());
    assert_eq!(Hat::join_command(&topic), HatCommand::JoinRoom { name: "global".to_string() });
    let cmd = Hat::on_submit(InputEvent::Submit { data: vec!["a".to_string()] }, &topic, &"me".to_string());
    assert_eq!(
        cmd,
        HatCommand::SendRoomMessage { room: RoomId("global".to_string()), from: "me".to_string(), message: vec!["a".to_string()] }
    );
}

#[test]
fn sanitize_round_trip() {
    assert_eq!(sanitize("alice"), "YWxpY2U");
    assert_eq!(sanitize("a/b?"), "YS9iPw");
    assert_eq!(decode_sanitized("YWxpY2U"), "alice");
    for name in ["", "x", "émile ✓", "peer/../../etc"] {
        assert_eq!(decode_sanitized(&sanitize(name)), name);
    }
}

#[test]
fn network_message_text() {
    assert_eq!(Hat::message_text(b"hi there".to_vec()), "hi there");
    assert_eq!(Hat::message_text(vec![0xff, 0xfe]), "");
    assert_eq!(Hat::message_text("ünï".as_bytes().to_vec()), "ünï");
}

#[test]
fn network_command_joins_lines() {
    let cmd = HatCommand::SendRoomMessage {
        room: RoomId("global".to_string()),
        from: "me".to_string(),
        message: vec!["a".to_string(), "bc".to_string()],
    };
    assert_eq!(
        Hat::network_command(&cmd),
        Some(hat::hat::HatNetworkCommand::SendMessage { topic: "global".to_string(), message: b"a\nbc".to_vec() })
    );
    assert_eq!(Hat::network_command(&HatCommand::RequestPersona { peer: "p".to_string() }), None);
    assert_eq!(Hat::join_lines(&vec![]), "");
    assert_eq!(Hat::join_lines(&vec!["x".to_string()]), "x");
}

#[test]
fn keystroke_key_char_uses_unicode_lowercase() {
    let k = Keystroke::parse("\u{212A}").unwrap();
    assert_eq!(k.key, "\u{212A}");
    assert_eq!(k.key_char, Some("k".to_string()));
    let e = Keystroke::parse("\u{e9}").unwrap();
    assert_eq!(e.key_char, None);
}

#[test]
fn decode_sanitized_refuses_other_text() {
    assert_eq!(hat::path::try_decode_sanitized("YWxpY2U"), Some("alice".to_string()));
    assert_eq!(hat::path::try_decode_sanitized("*not base64*"), None);
    assert_eq!(hat::path::try_decode_sanitized("_w"), None);
}

#[test]
fn input_types_any_text() {
    let mut input = InputMessage::new(0);
    typed(&mut input, "ab");
    input.move_left();
    let mut k = key("x");
    k.key_char = Some("é€".to_string());
    input.on_keystroke(&k);
    assert_eq!(input.lines(), vec!["aé€b"]);
    assert_eq!(input.cursor(), (3, 0));
}

#[test]
fn input_cursor_column_counts_bytes() {
    let mut input = InputMessage::new(0);
    let mut k = key("x");
    k.key_char = Some("é".to_string());
    input.on_keystroke(&k);
    // The line is two bytes long, so the column may go up to two.
    input.move_right();
    input.move_right();
    input.move_right();
    assert_eq!(input.fix_cursor_pos(), (2, 0));
    assert!(!input.cursor_in_line());
}

#[test]
fn sanitize_alphabet_and_length() {
    assert_eq!(sanitize("hello"), "aGVsbG8");
    for name in ["", "a", "ab", "abc", "name/with.dots=", "Ünïcödé ✓"] {
        let s = sanitize(name);
        assert_eq!(s.len(), (4 * name.len() + 2) / 3);
        assert!(s.chars().all(|c| c.is_ascii_alphanumeric() || c == '-' || c == '_'));
    }
}

#[test]
fn hat_lays_out_the_window() {
    let area = Rect { x: 0, y: 0, width: 80, height: 24 };
    let mut w: Window<&'static str, u32> = Window::new(AnyWindowHandle::new::<u8>(WindowId(1)), WindowConfig { area });
    Hat::lay_out(&mut w, "info", "chat", "input", "empty");
    assert_eq!(w.active_pane, Some(PaneId(2)));
    assert_eq!(w.next_pane_id, 7);
    assert_eq!(w.active_view(), Some(&"input"));
    let root = w.root.as_ref().unwrap();
    assert_eq!(root.find(PaneId(1)).unwrap().view, "info");
    assert_eq!(root.find(PaneId(3)).unwrap().view, "chat");
    assert_eq!(root.find(PaneId(6)).unwrap().view, "empty");
    assert!(root.find(PaneId(4)).is_none());
}
