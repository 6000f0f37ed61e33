use hat::error::KeymapError;
use hat::key_context::KeyContext;
use hat::keybindings::{BindingValue, KeyBindingsFile, KeyBindingsFileSection, TermModifiers};
use hat::keystroke::{Keystroke, Modifiers};

fn mods(shift: bool, control: bool, alt: bool, meta: bool) -> Modifiers {
    Modifiers { none: false, shift, control, alt, meta }
}

fn ks(m: Modifiers, key: &str, key_char: Option<&str>) -> Keystroke {
    Keystroke { modifiers: m, key: key.to_string(), key_char: key_char.map(|s| s.to_string()) }
}

#[test]
fn keystroke_with_control() {
    let k = Keystroke::parse("ctrl-a").unwrap();
    assert_eq!(k, ks(mods(false, true, false, false), "a", Some("a")));
}

#[test]
fn keystroke_uppercase_letter_is_shift() {
    let upper = Keystroke::parse("A").unwrap();
    let shifted = Keystroke::parse("shift-a").unwrap();
    assert_eq!(upper, ks(mods(true, false, false, false), "a", Some("A")));
    assert_eq!(upper, shifted);
}

#[test]
fn keystroke_modifier_words_ignore_case() {
    let k = Keystroke::parse("CTRL-Alt-SHIFT-cmd-x").unwrap();
    assert_eq!(k, ks(mods(true, true, true, true), "x", Some("X")));
    assert_eq!(Keystroke::parse("super-k").unwrap().modifiers, mods(false, false, false, true));
    assert_eq!(Keystroke::parse("win-k").unwrap().modifiers, mods(false, false, false, true));
    assert_eq!(Keystroke::parse("meta-k").unwrap().modifiers, mods(false, false, false, true));
}

#[test]
fn keystroke_dash_key() {
    let k = Keystroke::parse("ctrl--").unwrap();
    assert_eq!(k, ks(mods(false, true, false, false), "-", None));
}

#[test]
fn keystroke_named_keys_case_insensitive() {
    let a = Keystroke::parse("Enter").unwrap();
    let b = Keystroke::parse("ENTER").unwrap();
    assert_eq!(a, ks(mods(false, false, false, false), "enter", None));
    assert_eq!(a, b);
    assert_eq!(Keystroke::parse("tab").unwrap(), ks(mods(false, false, false, false), "tab", None));
}

#[test]
fn keystroke_key_then_arrow_piece() {
    let k = Keystroke::parse("a->b").unwrap();
    assert_eq!(k, ks(mods(false, false, false, false), "a", None));
}

#[test]
fn keystroke_empty_text_is_empty_key() {
    let k = Keystroke::parse("").unwrap();
    assert_eq!(k, ks(mods(false, false, false, false), "", None));
}

#[test]
fn keystroke_refused() {
    assert_eq!(Keystroke::parse("ctrl"), Err(KeymapError::InvalidKeystroke("ctrl".to_string())));
    assert_eq!(Keystroke::parse("a-b"), Err(KeymapError::InvalidKeystroke("a-b".to_string())));
}

#[test]
fn keystroke_same_as() {
    let a = Keystroke::parse("ctrl-a").unwrap();
    let b = Keystroke::parse("CTRL-a").unwrap();
    let c = Keystroke::parse("alt-a").unwrap();
    assert!(a.same_as(&b));
    assert!(!a.same_as(&c));
}

#[test]
fn modifier_bits() {
    assert_eq!(mods(true, true, false, false).bits(), 6);
    assert_eq!(Modifiers { none: true, shift: false, control: false, alt: true, meta: true }.bits(), 25);
}

fn ident(k: &KeyContext) -> &str {
    match k {
        KeyContext::Ident(s) => s,
        _ => panic!("not an identifier: {:?}", k),
    }
}

#[test]
fn key_context_identifier() {
    let k = KeyContext::parse("  editor  ").unwrap();
    assert_eq!(ident(&k), "editor");
}

#[test]
fn key_context_equality_and_not() {
    match KeyContext::parse("mode == insert").unwrap() {
        KeyContext::Eq(a, b) => {
            assert_eq!(a, "mode");
            assert_eq!(b, "insert");
        },
        k => panic!("{:?}", k),
    }
    match KeyContext::parse("mode != insert").unwrap() {
        KeyContext::NEq(a, b) => {
            assert_eq!(a, "mode");
            assert_eq!(b, "insert");
        },
        k => panic!("{:?}", k),
    }
    match KeyContext::parse("!editor").unwrap() {
        KeyContext::Not(x) => assert_eq!(ident(&x), "editor"),
        k => panic!("{:?}", k),
    }
}

#[test]
fn key_context_operators_group_to_the_right() {
    match KeyContext::parse("a || b && c").unwrap() {
        KeyContext::Or(a, rest) => {
            assert_eq!(ident(&a), "a");
            match *rest {
                KeyContext::And(b, c) => {
                    assert_eq!(ident(&b), "b");
                    assert_eq!(ident(&c), "c");
                },
                k => panic!("{:?}", k),
            }
        },
        k => panic!("{:?}", k),
    }
    match KeyContext::parse("a && b || c").unwrap() {
        KeyContext::And(a, rest) => {
            assert_eq!(ident(&a), "a");
            assert!(matches!(*rest, KeyContext::Or(_, _)));
        },
        k => panic!("{:?}", k),
    }
}

#[test]
fn key_context_errors() {
    assert_eq!(KeyContext::parse("").unwrap_err(), KeymapError::UnexpectedEnd);
    assert_eq!(KeyContext::parse("1a").unwrap_err(), KeymapError::UnexpectedChar('1'));
    assert_eq!(
        KeyContext::parse("a == !b").unwrap_err(),
        KeymapError::IdentExpected(
            Box::new(KeyContext::Ident("a".to_string())),
            Box::new(KeyContext::Not(Box::new(KeyContext::Ident("b".to_string())))),
        )
    );
    assert_eq!(KeyContext::parse("a b").unwrap_err(), KeymapError::Unexpected("b".to_string()));
    assert_eq!(KeyContext::parse("a &&").unwrap_err(), KeymapError::UnexpectedEnd);
}

fn section(context: &str, bindings: Vec<(&str, BindingValue)>) -> KeyBindingsFileSection {
    KeyBindingsFileSection {
        context: context.to_string(),
        bindings: bindings.into_iter().map(|(k, v)| (k.to_string(), v)).collect(),
    }
}

fn action(name: &str) -> BindingValue {
    BindingValue::Str(name.to_string())
}

#[test]
fn keymap_file_bindings_in_order() {
    let file = KeyBindingsFile {
        keybindings: vec![
            section("", vec![("ctrl-q", action("quit")), ("x  y", action("two"))]),
            section("input", vec![("enter", action("SendMessage"))]),
        ],
    };
    let b = file.parse().unwrap();
    assert_eq!(b.0.len(), 3);
    assert_eq!(b.0[0].action, "quit");
    assert_eq!(b.0[0].keystrokes, vec![Keystroke::parse("ctrl-q").unwrap()]);
    assert!(b.0[0].key_context.is_none());
    assert_eq!(b.0[1].action, "two");
    assert_eq!(b.0[1].keystrokes, vec![Keystroke::parse("x").unwrap(), Keystroke::parse("y").unwrap()]);
    assert_eq!(b.0[2].action, "input::SendMessage");
    assert_eq!(ident(b.0[2].key_context.as_ref().unwrap()), "input");
}

#[test]
fn keymap_file_skips_words_that_are_no_keystroke() {
    let file = KeyBindingsFile { keybindings: vec![section("", vec![("ctrl a-b tab", action("go"))])] };
    let b = file.parse().unwrap();
    assert_eq!(b.0[0].keystrokes, vec![Keystroke::parse("tab").unwrap()]);
}

#[test]
fn keymap_file_errors() {
    let bad_action = KeyBindingsFile { keybindings: vec![section("", vec![("a", BindingValue::Other)])] };
    assert_eq!(bad_action.parse().unwrap_err(), KeymapError::ActionNotString);
    let bad_context = KeyBindingsFile { keybindings: vec![section("1x", vec![("a", action("go"))])] };
    assert_eq!(bad_context.parse().unwrap_err(), KeymapError::UnexpectedChar('1'));
}

#[test]
fn key_event_selects_bindings() {
    let file = KeyBindingsFile {
        keybindings: vec![section("", vec![("ctrl-c", action("quit")), ("a", action("x")), ("ctrl-c ctrl-d", action("y"))])],
    };
    let b = file.parse().unwrap();
    let control = TermModifiers { shift: false, control: true, alt: false, super_key: false, hyper: false, meta: false };
    let (k, idx) = b.resolve_key_event(&control, "c").unwrap();
    assert_eq!(k, Keystroke::parse("ctrl-c").unwrap());
    assert_eq!(idx, vec![0, 2]);
    let none = TermModifiers { shift: false, control: false, alt: false, super_key: false, hyper: false, meta: false };
    let (_, idx) = b.resolve_key_event(&none, "a").unwrap();
    assert_eq!(idx, vec![1]);
    let two = TermModifiers { shift: true, control: true, alt: false, super_key: false, hyper: false, meta: false };
    let (k, _) = b.resolve_key_event(&two, "c").unwrap();
    assert_eq!(k, Keystroke::parse("c").unwrap());
    assert!(b.resolve_key_event(&none, "a-b").is_none());
}

#[test]
fn key_event_text_prefixes() {
    let sup = TermModifiers { shift: false, control: false, alt: false, super_key: true, hyper: false, meta: false };
    assert_eq!(hat::keybindings::key_event_text_exec(&sup, "k"), "meta-k");
    let alt = TermModifiers { shift: false, control: false, alt: true, super_key: false, hyper: false, meta: false };
    assert_eq!(hat::keybindings::key_event_text_exec(&alt, "Enter"), "alt-Enter");
}

#[test]
fn keymap_file_parts_concatenate() {
    let a = section("", vec![("ctrl-q", action("quit"))]);
    let b = section("input", vec![("left", action("CursorLeft"))]);
    let whole = KeyBindingsFile { keybindings: vec![a.clone(), b.clone()] }.parse().unwrap();
    let first = KeyBindingsFile { keybindings: vec![a] }.parse().unwrap();
    let second = KeyBindingsFile { keybindings: vec![b] }.parse().unwrap();
    let names: Vec<&String> = whole.0.iter().map(|k| &k.action).collect();
    let parts: Vec<&String> = first.0.iter().chain(second.0.iter()).map(|k| &k.action).collect();
    assert_eq!(names, parts);
    let bad = section("", vec![("x", BindingValue::Other)]);
    let broken = KeyBindingsFile { keybindings: vec![bad, section("1", vec![])] }.parse();
    assert_eq!(broken.unwrap_err(), KeymapError::ActionNotString);
}

#[test]
fn keystroke_modifier_order_and_repetition() {
    assert_eq!(Keystroke::parse("ctrl-alt-a").unwrap(), Keystroke::parse("alt-ctrl-a").unwrap());
    assert_eq!(Keystroke::parse("Shift-META-enter").unwrap(), Keystroke::parse("meta-shift-enter").unwrap());
    assert_eq!(Keystroke::parse("ctrl-ctrl-a").unwrap(), Keystroke::parse("ctrl-a").unwrap());
    assert_eq!(Keystroke::parse("cmd-win-x").unwrap(), Keystroke::parse("super-x").unwrap());
}

#[test]
fn keystroke_ascii_case_ignored() {
    assert_eq!(Keystroke::parse("CTRL-ALT-Enter").unwrap(), Keystroke::parse("ctrl-alt-enter").unwrap());
    assert_eq!(Keystroke::parse("Ctrl-Tab").unwrap(), Keystroke::parse("ctrl-tab").unwrap());
    // A lone uppercase letter at the end is the exception: it also holds shift.
    assert_ne!(Keystroke::parse("ctrl-A").unwrap(), Keystroke::parse("ctrl-a").unwrap());
}

#[test]
fn keystroke_parsed_shape() {
    for text in ["ctrl-a", "shift-b", "alt-Enter", "K", "ctrl--", "f1->x"] {
        let k = Keystroke::parse(text).unwrap();
        assert!(!k.modifiers.none);
        if !text.contains('>') {
            assert_eq!(k.key, k.key.to_ascii_lowercase());
        }
        if let Some(c) = &k.key_char {
            assert_eq!(c.len(), 1);
            let expected = if k.modifiers.shift { k.key.to_uppercase() } else { k.key.to_lowercase() };
            assert_eq!(*c, expected);
        }
    }
    assert_eq!(Keystroke::parse("shift-b").unwrap().key_char, Some("B".to_string()));
    assert_eq!(Keystroke::parse("alt-Enter").unwrap().key_char, None);
}

fn names(k: &KeyContext, out: &mut Vec<String>) {
    match k {
        KeyContext::Ident(a) => out.push(a.clone()),
        KeyContext::Eq(a, b) | KeyContext::NEq(a, b) => {
            out.push(a.clone());
            out.push(b.clone());
        }
        KeyContext::Not(x) => names(x, out),
        KeyContext::And(x, y) | KeyContext::Or(x, y) => {
            names(x, out);
            names(y, out);
        }
    }
}

#[test]
fn key_context_names_are_identifiers() {
    let source = "editor && !mode || _x == état";
    match KeyContext::parse(source) {
        Ok(k) => {
            let mut out = Vec::new();
            names(&k, &mut out);
            assert_eq!(out, vec!["editor", "mode", "_x", "état"]);
            for n in out {
                let first = n.chars().next().unwrap();
                assert!(!first.is_numeric() && (first.is_alphanumeric() || first == '_'));
                assert!(n.chars().all(|c| c.is_alphanumeric() || c == '_'));
                assert!(source.contains(n.as_str()));
            }
        }
        Err(e) => panic!("refused: {:?}", e),
    }
}

#[test]
fn remove_whitespace_skips_leading_white_space() {
    assert_eq!(hat::key_context::remove_whitespace(" \t a b "), "a b ");
    assert_eq!(hat::key_context::remove_whitespace("\u{3000}\u{2028}x"), "x");
    assert_eq!(hat::key_context::remove_whitespace("   "), "");
    assert_eq!(hat::key_context::remove_whitespace("x "), "x ");
}

#[test]
fn keystroke_key_char_of_ascii_keys() {
    assert_eq!(Keystroke::parse("ctrl-a").unwrap().key_char, Some("a".to_string()));
    assert_eq!(Keystroke::parse("alt-shift-z").unwrap().key_char, Some("Z".to_string()));
    assert_eq!(Keystroke::parse("ctrl-Q").unwrap().key_char, Some("Q".to_string()));
    assert_eq!(Keystroke::parse("ctrl-tab").unwrap().key_char, None);
    assert_eq!(Keystroke::parse("ctrl--").unwrap().key_char, None);
    assert_eq!(Keystroke::parse("7").unwrap().key_char, Some("7".to_string()));
}

#[test]
fn key_context_ascii_identifiers() {
    assert_eq!(ident(&KeyContext::parse("a").unwrap()), "a");
    assert_eq!(ident(&KeyContext::parse("_9").unwrap()), "_9");
    assert_eq!(KeyContext::parse("9a").unwrap_err(), KeymapError::UnexpectedChar('9'));
    assert_eq!(KeyContext::parse("a-b").unwrap_err(), KeymapError::Unexpected("-b".to_string()));
}
