use satlink::table::NameTable;
use satlink::text;

#[test]
fn numbers_read_like_the_standard_ones() {
    for n in [0u128, 7, 10, 99, 100, 1234567890, u64::MAX as u128, u128::MAX] {
        assert_eq!(text::number(n), n.to_string());
    }
    for n in [0i128, -1, 42, -1000, i64::MIN as i128, i128::MAX] {
        assert_eq!(text::signed_number(n), n.to_string());
    }
}

#[test]
fn trimming_agrees_with_the_standard_one() {
    let spaces = [
        '\u{9}', '\u{a}', '\u{b}', '\u{c}', '\u{d}', ' ', '\u{85}', '\u{a0}', '\u{1680}',
        '\u{2000}', '\u{200a}', '\u{2028}', '\u{2029}', '\u{202f}', '\u{205f}', '\u{3000}',
    ];
    for c in spaces {
        let s = format!("{}a b{}{}", c, c, c);
        assert_eq!(text::trim(&s), s.trim());
        assert_eq!(text::trim(&s), "a b");
    }
    for c in ['\u{8}', '\u{200b}', '\u{180e}', '\u{feff}', 'x'] {
        let s = format!("{}a{}", c, c);
        assert_eq!(text::trim(&s), s.trim());
        assert_eq!(text::trim(&s), s);
    }
    assert_eq!(text::trim(""), "");
    assert_eq!(text::trim(" \n "), "");
}

#[test]
fn texts_are_joined_and_compared() {
    assert_eq!(text::join("a", "b"), "ab");
    assert_eq!(text::join3("a", "", "c"), "ac");
    assert!(text::same_text("µs", "µs"));
    assert!(!text::same_text("µs", "µt"));
    assert!(!text::same_text("a", "ab"));
    assert!(text::begins_with("ACK: x", "ACK:"));
    assert!(!text::begins_with("AC", "ACK:"));
    assert!(!text::begins_with("xACK:", "ACK:"));
}

#[test]
fn table_holds_one_value_for_a_name() {
    let mut t: NameTable<u32> = NameTable::new();
    assert_eq!(t.len(), 0);
    t.put("a", 1);
    t.put("b", 2);
    t.put("a", 3);
    assert_eq!(t.len(), 2);
    assert_eq!(t.get("a"), Some(&3));
    assert_eq!(t.find("b"), Some(1));
    assert_eq!(t.name_at(0), "a");
    assert_eq!(*t.value_at(1), 2);
    t.remove("a");
    t.remove("x");
    assert_eq!(t.len(), 1);
    assert_eq!(t.get("a"), None);
    assert_eq!(t.get("b"), Some(&2));
}
