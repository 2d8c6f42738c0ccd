use rizzler::search::{
    clear_overlays, miss_notice, pick_destination, run, Search, SearchDir, SearchOrigin,
};
use rizzler::text::buffer::{BufferId, FilePos};
use rizzler::text::props::{PropEntry, PropStore};
use rizzler::text::rope::rope_from_str;
use ropey::Rope;

fn pos(r: &Rope, c: usize) -> (usize, usize) {
    let row = r.char_to_line(c);
    (row, c - r.line_to_char(row))
}

fn setup(text: &str) -> (Search, PropStore<PropEntry>, Rope) {
    (Search::default(), PropStore::new(), rope_from_str(text))
}

#[test]
fn forward_inclusive_lands_on_first_match_at_origin() {
    let (mut s, mut props, rope) = setup("foo bar foo baz foo");
    let id = BufferId::default();
    let o = run(&mut s, &mut props, id, &rope, "foo", SearchDir::Forward, 0, true).unwrap();
    assert!(o.found);
    assert_eq!(props.overlays().len(), 3);
    assert_eq!(pos(&rope, o.dest.unwrap()), (0, 0));
}

#[test]
fn forward_exclusive_advances_past_current_match() {
    let (mut s, mut props, rope) = setup("foo bar foo baz foo");
    let id = BufferId::default();
    let o = run(&mut s, &mut props, id, &rope, "foo", SearchDir::Forward, 0, false).unwrap();
    assert_eq!(pos(&rope, o.dest.unwrap()), (0, 8));
}

#[test]
fn backward_picks_previous_match() {
    let (mut s, mut props, rope) = setup("foo bar foo baz foo");
    let id = BufferId::default();
    let o = run(&mut s, &mut props, id, &rope, "foo", SearchDir::Backward, 12, false).unwrap();
    assert_eq!(pos(&rope, o.dest.unwrap()), (0, 8));
}

#[test]
fn no_matches_leaves_cursor_alone() {
    let (mut s, mut props, rope) = setup("foo bar");
    let id = BufferId::default();
    let o = run(&mut s, &mut props, id, &rope, "zzz", SearchDir::Forward, 3, true).unwrap();
    assert!(!o.found);
    assert_eq!(o.dest, None);
}

#[test]
fn invalid_pattern_is_an_error() {
    let (mut s, mut props, rope) = setup("foo");
    let id = BufferId::default();
    let err = run(&mut s, &mut props, id, &rope, "[", SearchDir::Forward, 0, true);
    assert!(err.is_err());
    assert!(s.last_pattern().is_none());
}

#[test]
fn wrap_around_when_nothing_ahead_or_behind() {
    let (mut s, mut props, rope) = setup("ab ab ab");
    let id = BufferId(1);
    let o = run(&mut s, &mut props, id, &rope, "ab", SearchDir::Forward, 6, false).unwrap();
    assert_eq!(o.dest, Some(0));
    let o = run(&mut s, &mut props, id, &rope, "ab", SearchDir::Backward, 0, false).unwrap();
    assert_eq!(o.dest, Some(6));
    assert_eq!(s.last_dir(), SearchDir::Backward);
    assert_eq!(s.last_pattern(), Some("ab"));
}

#[test]
fn overlays_cover_matches_in_char_coordinates() {
    let (mut s, mut props, rope) = setup("é1\nxé1");
    let id = BufferId(3);
    let o = run(&mut s, &mut props, id, &rope, "é1", SearchDir::Forward, 0, true).unwrap();
    assert!(o.found);
    let ov = props.overlays();
    assert_eq!(ov.len(), 2);
    assert_eq!(ov[1].1.start, FilePos { col: 1, row: 1 });
    assert_eq!(ov[1].1.end, FilePos { col: 3, row: 1 });
    assert_eq!(ov[0].1.face.as_deref(), Some("search-match"));
}

#[test]
fn rerun_replaces_previous_overlays() {
    let (mut s, mut props, rope) = setup("a a a");
    let id = BufferId(2);
    run(&mut s, &mut props, id, &rope, "a", SearchDir::Forward, 0, true).unwrap();
    assert_eq!(props.overlays().len(), 3);
    let o = run(&mut s, &mut props, id, &rope, "a a", SearchDir::Forward, 0, true).unwrap();
    assert_eq!(props.overlays().len(), 1);
    assert!(o.other_clears.is_empty());
    let other = run(&mut s, &mut PropStore::new(), BufferId(9), &rope, "a", SearchDir::Forward, 0, true)
        .unwrap();
    assert_eq!(other.other_clears.len(), 1);
    assert_eq!(other.other_clears[0].0, id);
}

#[test]
fn clear_overlays_prefers_first_buffer() {
    let (mut s, mut props, rope) = setup("x x");
    let id = BufferId(4);
    run(&mut s, &mut props, id, &rope, "x", SearchDir::Forward, 0, true).unwrap();
    let others = clear_overlays(&mut s, Some(&mut props));
    assert!(others.is_empty());
    assert!(props.overlays().is_empty());
    run(&mut s, &mut props, id, &rope, "x", SearchDir::Forward, 0, true).unwrap();
    let others = clear_overlays(&mut s, None);
    assert_eq!(others.len(), 2);
}

#[test]
fn origin_and_target_bookkeeping() {
    let mut s = Search::default();
    let origin = SearchOrigin { buf: BufferId(5), cursor: FilePos { col: 2, row: 1 } };
    s.set_origin(origin);
    assert_eq!(s.origin(), Some(origin));
    assert_eq!(s.target_buf(), Some(BufferId(5)));
    assert_eq!(s.take_origin(), Some(origin));
    assert_eq!(s.origin(), None);
    assert_eq!(s.target_buf(), Some(BufferId(5)));
    s.clear_target();
    assert_eq!(s.target_buf(), None);
}

#[test]
fn pick_destination_examples() {
    let starts = vec![2, 5, 9];
    assert_eq!(pick_destination(&starts, SearchDir::Forward, 5, true), Some(5));
    assert_eq!(pick_destination(&starts, SearchDir::Forward, 5, false), Some(9));
    assert_eq!(pick_destination(&starts, SearchDir::Forward, 9, false), Some(2));
    assert_eq!(pick_destination(&starts, SearchDir::Backward, 5, true), Some(5));
    assert_eq!(pick_destination(&starts, SearchDir::Backward, 5, false), Some(2));
    assert_eq!(pick_destination(&starts, SearchDir::Backward, 2, false), Some(9));
    assert_eq!(pick_destination(&vec![], SearchDir::Forward, 0, true), None);
}

#[test]
fn notices_for_misses_and_bad_patterns() {
    assert_eq!(miss_notice(&Ok(false), "zz", true).as_deref(), Some("Pattern not found: zz"));
    assert_eq!(
        miss_notice(&Err("bad".to_string()), "[", true).as_deref(),
        Some("Invalid pattern: bad")
    );
    assert_eq!(miss_notice(&Ok(true), "zz", true), None);
    assert_eq!(miss_notice(&Ok(false), "zz", false), None);
}

#[test]
fn reverse_flips_direction() {
    assert_eq!(SearchDir::Forward.reverse(), SearchDir::Backward);
    assert_eq!(SearchDir::Backward.reverse().reverse(), SearchDir::Backward);
    assert_eq!(SearchDir::default(), SearchDir::Forward);
}
