use reversi::registry::Registry;
use reversi::text::{is_blank, str_eq, white_space};

#[test]
fn two_texts_are_equal_when_their_characters_are() {
    assert!(str_eq("", ""));
    assert!(str_eq("black", "black"));
    assert!(!str_eq("black", "blacK"));
    assert!(!str_eq("black", "blac"));
    assert!(!str_eq("", " "));
    assert!(str_eq("\u{e9}\u{1f600}", "\u{e9}\u{1f600}"));
    assert!(!str_eq("\u{e9}", "e\u{301}"));
}

#[test]
fn a_registry_keeps_the_order_of_insertion() {
    let mut registry: Registry<String> = Registry::new();
    assert_eq!(registry.len(), 0);
    assert_eq!(registry.insert("b".to_string(), "1".to_string()), None);
    assert_eq!(registry.insert("a".to_string(), "2".to_string()), None);
    assert_eq!(registry.insert("c".to_string(), "3".to_string()), None);
    assert_eq!(registry.insert("a".to_string(), "4".to_string()), Some("2".to_string()));
    assert_eq!(registry.len(), 3);
    assert_eq!(registry.key_at(0), "b");
    assert_eq!(registry.key_at(1), "a");
    assert_eq!(registry.key_at(2), "c");
    assert_eq!(registry.value_at(1), "4");
    assert_eq!(registry.position("c"), Some(2));
    assert_eq!(registry.position("d"), None);
    assert!(registry.contains_key("a"));
    assert!(!registry.contains_key("d"));
    assert_eq!(registry.get("b"), Some(&"1".to_string()));
    assert_eq!(registry.get("d"), None);
}

#[test]
fn removing_from_a_registry() {
    let mut registry: Registry<String> = Registry::new();
    for key in ["a", "b", "c", "d"] {
        registry.insert(key.to_string(), key.to_uppercase());
    }
    assert_eq!(registry.remove("b"), Some("B".to_string()));
    assert_eq!(registry.remove("b"), None);
    assert_eq!(registry.len(), 3);
    assert_eq!(registry.key_at(1), "c");
    assert_eq!(registry.pop_front(), Some(("a".to_string(), "A".to_string())));
    assert_eq!(registry.pop_front(), Some(("c".to_string(), "C".to_string())));
    assert_eq!(registry.len(), 1);
    assert_eq!(registry.get("d"), Some(&"D".to_string()));
    assert_eq!(registry.pop_front(), Some(("d".to_string(), "D".to_string())));
    assert_eq!(registry.pop_front(), None);
}

#[test]
fn changing_a_value_of_a_registry_in_place() {
    let mut registry: Registry<String> = Registry::new();
    registry.insert("a".to_string(), "1".to_string());
    registry.insert("b".to_string(), "2".to_string());
    match registry.get_mut("a") {
        Some(value) => value.push('!'),
        None => panic!("the key is there"),
    }
    assert!(registry.get_mut("z").is_none());
    assert_eq!(registry.get("a"), Some(&"1!".to_string()));
    assert_eq!(registry.get("b"), Some(&"2".to_string()));
    assert_eq!(registry.key_at(0), "a");
}

#[test]
fn white_space_is_what_the_standard_library_calls_white_space() {
    let mut code: u32 = 0;
    let mut white = 0;
    while code <= 0x10ffff {
        if let Some(c) = char::from_u32(code) {
            assert_eq!(white_space(c), c.is_whitespace());
            if white_space(c) {
                white += 1;
            }
        }
        code += 1;
    }
    assert_eq!(white, 25);
}

#[test]
fn a_text_is_blank_when_trimming_leaves_nothing() {
    for text in ["", " ", "\t\r\n", "\u{a0}\u{3000}\u{2028}", "\u{85}\u{1680}\u{205f}"] {
        assert!(is_blank(text));
        assert!(text.trim().is_empty());
    }
    for text in ["a", " a ", "\u{200b}", "\u{180e}", "  .", "\u{feff}"] {
        assert!(!is_blank(text));
        assert!(!text.trim().is_empty());
    }
}
