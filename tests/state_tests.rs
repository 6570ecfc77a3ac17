use remy::{
    entries_from_feeds, handle_key_event, urls_from_list, Entry, EntryWithAuthor, Feed, Key,
    KeyOutcome, SelectedWindow, State,
};

fn entry(title: &str, updated: Option<i64>, authors: &[&str], contributors: &[&str]) -> Entry {
    Entry {
        title: Some(title.to_string()),
        updated,
        updated_label: None,
        authors: authors.iter().map(|a| a.to_string()).collect(),
        contributors: contributors.iter().map(|a| a.to_string()).collect(),
        body: Some(format!("<p>{}</p>", title)),
        links: vec![format!("https://example.com/{}", title)],
    }
}

fn titles(s: &State) -> Vec<String> {
    s.entries.iter().map(|e| e.entry.title.clone().unwrap()).collect()
}

fn sample_state() -> State {
    State::new(vec![
        Feed {
            authors: vec!["Feed A".to_string()],
            entries: vec![entry("a1", Some(10), &[], &[]), entry("a2", Some(30), &["Ann"], &[])],
        },
        Feed {
            authors: vec![],
            entries: vec![entry("b1", None, &[], &["Cy"]), entry("b2", Some(20), &[], &[])],
        },
    ])
}

#[test]
fn author_is_chosen_in_order() {
    assert_eq!(EntryWithAuthor::new(entry("x", None, &["A", "B"], &["C"]), Some("F".into())).author, "A");
    assert_eq!(EntryWithAuthor::new(entry("x", None, &[], &["C"]), Some("F".into())).author, "C");
    assert_eq!(EntryWithAuthor::new(entry("x", None, &[], &[]), Some("F".into())).author, "F");
    assert_eq!(EntryWithAuthor::new(entry("x", None, &[], &[]), None).author, "Unknown Author");
}

#[test]
fn entries_are_newest_first() {
    let s = sample_state();
    assert_eq!(titles(&s), vec!["a2", "b2", "a1", "b1"]);
    let authors: Vec<&str> = s.entries.iter().map(|e| e.author.as_str()).collect();
    assert_eq!(authors, vec!["Ann", "Unknown Author", "Feed A", "Cy"]);
    assert_eq!(s.selected_entry, 0);
    assert_eq!(s.selected_window, SelectedWindow::EntryList);
    assert_eq!(s.entry_scroll_offset, 0);
    assert!(!s.render_raw_html);
}

#[test]
fn equal_dates_keep_feed_order() {
    let es = entries_from_feeds(vec![Feed {
        authors: vec![],
        entries: vec![entry("first", Some(5), &[], &[]), entry("second", Some(5), &[], &[])],
    }]);
    let t: Vec<String> = es.iter().map(|e| e.entry.title.clone().unwrap()).collect();
    assert_eq!(t, vec!["first", "second"]);
}

#[test]
fn no_feeds_no_entries() {
    let s = State::new(vec![]);
    assert!(s.entries.is_empty());
}

#[test]
fn moving_through_the_list() {
    let mut s = sample_state();
    s.entry_scroll_offset = 7;
    s.move_up();
    assert_eq!(s.selected_entry, 0);
    assert_eq!(s.entry_scroll_offset, 7);
    s.move_down();
    assert_eq!(s.selected_entry, 1);
    assert_eq!(s.entry_scroll_offset, 0);
    s.move_down();
    s.move_down();
    s.move_down();
    assert_eq!(s.selected_entry, 3);
    s.move_up();
    assert_eq!(s.selected_entry, 2);
}

#[test]
fn scrolling_the_content() {
    let mut s = sample_state();
    s.move_right();
    assert_eq!(s.selected_window, SelectedWindow::EntryContent);
    s.move_down();
    s.move_down();
    assert_eq!(s.entry_scroll_offset, 2);
    assert_eq!(s.selected_entry, 0);
    s.move_up();
    s.move_up();
    s.move_up();
    assert_eq!(s.entry_scroll_offset, 0);
    s.entry_scroll_offset = u16::MAX;
    s.move_down();
    assert_eq!(s.entry_scroll_offset, u16::MAX);
    s.move_left();
    assert_eq!(s.selected_window, SelectedWindow::EntryList);
}

#[test]
fn help_popup_blocks_moves() {
    let mut s = sample_state();
    assert_eq!(handle_key_event(Key::Char('h'), &mut s), KeyOutcome::Continue);
    assert_eq!(s.selected_window, SelectedWindow::HelpPopup);
    s.move_down();
    s.move_right();
    assert_eq!(s.selected_entry, 0);
    assert_eq!(s.selected_window, SelectedWindow::HelpPopup);
    handle_key_event(Key::Char('h'), &mut s);
    assert_eq!(s.selected_window, SelectedWindow::EntryList);
}

#[test]
fn keys_and_outcomes() {
    let mut s = sample_state();
    assert_eq!(handle_key_event(Key::Down, &mut s), KeyOutcome::Continue);
    assert_eq!(s.selected_entry, 1);
    assert_eq!(handle_key_event(Key::Char('r'), &mut s), KeyOutcome::Continue);
    assert!(s.render_raw_html);
    s.switch_render_mode();
    assert!(!s.render_raw_html);
    assert_eq!(handle_key_event(Key::Enter, &mut s), KeyOutcome::OpenLink);
    assert_eq!(handle_key_event(Key::Char('q'), &mut s), KeyOutcome::Exit);
    assert_eq!(handle_key_event(Key::Char('x'), &mut s), KeyOutcome::Continue);
    assert_eq!(handle_key_event(Key::Other, &mut s), KeyOutcome::Continue);
    assert_eq!(s.selected_entry, 1);
}

#[test]
fn update_keeps_selection_in_range() {
    let mut s = sample_state();
    s.selected_entry = 3;
    s.update_feeds(vec![Feed {
        authors: vec![],
        entries: vec![entry("n1", Some(1), &[], &[]), entry("n2", Some(2), &[], &[])],
    }]);
    assert_eq!(titles(&s), vec!["n2", "n1"]);
    assert_eq!(s.selected_entry, 1);
    s.update_feeds(vec![]);
    assert_eq!(s.selected_entry, 0);
    assert!(s.entries.is_empty());
}

#[test]
fn selected_body_and_link() {
    let mut s = sample_state();
    assert_eq!(s.get_selected_entry_body(), "<p>a2</p>");
    assert_eq!(s.selected_entry_link(), Some("https://example.com/a2".to_string()));
    s.entries[0].entry.body = None;
    s.entries[0].entry.links.clear();
    assert_eq!(s.get_selected_entry_body(), "No Content");
    assert_eq!(s.selected_entry_link(), None);
}

#[test]
fn feed_list_lines_are_trimmed() {
    let urls = urls_from_list("  https://a.example/feed \n\n\t\nhttps://b.example/rss\r\n   ");
    assert_eq!(urls, vec!["https://a.example/feed", "https://b.example/rss"]);
    assert!(urls_from_list("").is_empty());
    assert_eq!(urls_from_list("x"), vec!["x"]);
}

#[test]
fn equal_dates_across_feeds_keep_feed_order() {
    let s = State::new(vec![
        Feed {
            authors: vec![],
            entries: vec![entry("x1", Some(7), &[], &[]), entry("x2", None, &[], &[])],
        },
        Feed {
            authors: vec![],
            entries: vec![entry("y1", None, &[], &[]), entry("y2", Some(7), &[], &[]), entry("y3", Some(9), &[], &[])],
        },
    ]);
    assert_eq!(titles(&s), vec!["y3", "x1", "y2", "x2", "y1"]);
}
