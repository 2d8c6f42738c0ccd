use rizzler::registers::{normalize_name, RegisterEntry, RegisterKind, Registers};

fn text(r: &Registers, name: char) -> Option<&str> {
    r.read(name).map(|e| e.text.as_str())
}

#[test]
fn yank_fills_unnamed_and_zero() {
    let mut r = Registers::new();
    r.record_yank("hello", RegisterKind::Char, None);
    assert_eq!(text(&r, '"'), Some("hello"));
    assert_eq!(text(&r, '0'), Some("hello"));
    assert!(r.read('1').is_none());
}

#[test]
fn yank_to_named_also_fills_zero_and_unnamed() {
    let mut r = Registers::new();
    r.record_yank("hi", RegisterKind::Char, Some('a'));
    assert_eq!(text(&r, 'a'), Some("hi"));
    assert_eq!(text(&r, '"'), Some("hi"));
    assert_eq!(text(&r, '0'), Some("hi"));
}

#[test]
fn uppercase_named_appends() {
    let mut r = Registers::new();
    r.record_yank("foo", RegisterKind::Char, Some('a'));
    r.record_yank("bar", RegisterKind::Char, Some('A'));
    assert_eq!(text(&r, 'a'), Some("foobar"));
}

#[test]
fn uppercase_linewise_append_joins_with_newline() {
    let mut r = Registers::new();
    r.record_yank("foo", RegisterKind::Line, Some('a'));
    r.record_yank("bar", RegisterKind::Line, Some('A'));
    assert_eq!(text(&r, 'a'), Some("foo\nbar"));
}

#[test]
fn small_delete_fills_dash_not_numbered() {
    let mut r = Registers::new();
    r.record_delete("hi", RegisterKind::Char, None);
    assert_eq!(text(&r, '-'), Some("hi"));
    assert_eq!(text(&r, '"'), Some("hi"));
    assert!(r.read('1').is_none());
    assert!(r.read('0').is_none());
}

#[test]
fn linewise_delete_rotates_numbered() {
    let mut r = Registers::new();
    r.record_delete("first\n", RegisterKind::Line, None);
    assert_eq!(text(&r, '1'), Some("first\n"));
    r.record_delete("second\n", RegisterKind::Line, None);
    assert_eq!(text(&r, '1'), Some("second\n"));
    assert_eq!(text(&r, '2'), Some("first\n"));
}

#[test]
fn black_hole_drops_writes() {
    let mut r = Registers::new();
    r.record_delete("hi", RegisterKind::Char, Some('_'));
    assert!(r.read('_').is_none());
    assert!(r.read('"').is_none());
}

#[test]
fn quote_and_at_alias_unnamed() {
    let mut r = Registers::new();
    r.write('"', RegisterEntry::charwise("payload"));
    assert_eq!(text(&r, '"'), Some("payload"));
    assert_eq!(text(&r, '@'), Some("payload"));
}

#[test]
fn record_insert_drops_empty() {
    let mut r = Registers::new();
    r.record_insert("");
    assert!(r.read('.').is_none());
    r.record_insert("typed");
    assert_eq!(text(&r, '.'), Some("typed"));
}

#[test]
fn iter_sorts_by_name() {
    let mut r = Registers::new();
    r.record_yank("hi", RegisterKind::Char, Some('a'));
    r.record_delete("bye\n", RegisterKind::Line, None);
    let names: Vec<char> = r.iter().into_iter().map(|(c, _)| c).collect();
    assert_eq!(names, vec!['"', '0', '1', 'a']);
}

#[test]
fn numbered_registers_shift_down_to_nine() {
    let mut r = Registers::new();
    for i in 0..11 {
        r.record_delete(&format!("l{i}\n"), RegisterKind::Line, None);
    }
    assert_eq!(text(&r, '1'), Some("l10\n"));
    assert_eq!(text(&r, '2'), Some("l9\n"));
    assert_eq!(text(&r, '9'), Some("l2\n"));
}

#[test]
fn normalize_name_cases() {
    assert_eq!(normalize_name('A'), Some('a'));
    assert_eq!(normalize_name('z'), Some('z'));
    assert_eq!(normalize_name('@'), Some('"'));
    assert_eq!(normalize_name('7'), Some('7'));
    assert_eq!(normalize_name('='), Some('='));
    assert_eq!(normalize_name('!'), None);
    assert_eq!(normalize_name('é'), None);
}

#[test]
fn search_and_command_registers() {
    let mut r = Registers::new();
    r.record_search("foo");
    r.record_command("w");
    assert_eq!(text(&r, '/'), Some("foo"));
    assert_eq!(text(&r, ':'), Some("w"));
    assert_eq!(r.read('/').map(|e| e.kind), Some(RegisterKind::Char));
    r.clear();
    assert!(r.iter().is_empty());
}

#[test]
fn multiline_charwise_delete_is_not_small() {
    let mut r = Registers::new();
    r.record_delete("a\nb", RegisterKind::Char, Some('x'));
    assert_eq!(text(&r, '1'), Some("a\nb"));
    assert!(r.read('-').is_none());
    assert_eq!(text(&r, 'x'), Some("a\nb"));
    assert_eq!(r.unnamed().map(|e| e.text.as_str()), Some("a\nb"));
}
