use detour::filter::Blocklist;

#[test]
fn new_parses_domains() {
    let blocklist = Blocklist::new();

    assert!(blocklist.len() > 0);
}

#[test]
fn is_blocked_exact_match() {
    let blocklist = Blocklist::new();

    assert!(blocklist.is_blocked("doubleclick.com"));
}

#[test]
fn is_blocked_subdomain_match() {
    let blocklist = Blocklist::new();

    assert!(blocklist.is_blocked("ads.doubleclick.com"));
    assert!(blocklist.is_blocked("tracker.ads.doubleclick.com"));
}

#[test]
fn is_blocked_case_insensitive() {
    let blocklist = Blocklist::new();

    // is_blocked assumes pre-lowercased input (from DnsQuery::parse)
    assert!(blocklist.is_blocked("doubleclick.com"));
    assert!(blocklist.is_blocked("ads.doubleclick.com"));
}

#[test]
fn is_blocked_returns_false_for_safe_domains() {
    let blocklist = Blocklist::new();

    assert!(!blocklist.is_blocked("google.com"));
    assert!(!blocklist.is_blocked("github.com"));
    assert!(!blocklist.is_blocked("example.org"));
}

#[test]
fn is_blocked_handles_empty_input() {
    let blocklist = Blocklist::new();

    assert!(!blocklist.is_blocked(""));
}

#[test]
fn suffix_match_is_by_whole_labels() {
    let blocklist = Blocklist::from_text("ads.example\n");

    assert!(blocklist.is_blocked("ads.example"));
    assert!(blocklist.is_blocked("tracker.ads.example"));
    assert!(!blocklist.is_blocked("ads.example.net"));
    assert!(!blocklist.is_blocked("notads.example"));
    assert!(!blocklist.is_blocked("example"));
}

#[test]
fn partial_label_suffix_does_not_match() {
    let blocklist = Blocklist::new();

    assert!(!blocklist.is_blocked("notdoubleclick.com"));
    assert!(blocklist.is_blocked("x.doubleclick.com"));
}

#[test]
fn blocked_domain_stays_blocked_under_a_new_label() {
    let blocklist = Blocklist::from_text("tracker.net\n");

    for x in ["tracker.net", "a.tracker.net"] {
        assert!(blocklist.is_blocked(x));
        assert!(blocklist.is_blocked(&format!("sub.{}", x)));
    }
}

#[test]
fn list_lines_are_trimmed_lowercased_and_comments_dropped() {
    let text = "# comment line\n! another comment\n\n   \n  Ads.Example.COM \r\nfoo.org\n#bar.org\n";
    let blocklist = Blocklist::from_text(text);

    assert_eq!(blocklist.len(), 2);
    assert!(blocklist.is_blocked("ads.example.com"));
    assert!(blocklist.is_blocked("foo.org"));
    assert!(!blocklist.is_blocked("bar.org"));
    assert!(!blocklist.is_blocked("comment line"));
}

#[test]
fn last_line_without_newline_is_read() {
    let blocklist = Blocklist::from_text("a.com\nb.com");

    assert_eq!(blocklist.len(), 2);
    assert!(blocklist.is_blocked("b.com"));
}

#[test]
fn duplicate_lines_count_once() {
    let blocklist = Blocklist::from_text("a.com\nA.com\n a.com\n");

    assert_eq!(blocklist.len(), 1);
}

#[test]
fn several_lists_are_merged() {
    let blocklist = Blocklist::from_lists(&["a.com\n", "# c\nb.com\n"]);

    assert_eq!(blocklist.len(), 2);
    assert!(blocklist.is_blocked("x.a.com"));
    assert!(blocklist.is_blocked("b.com"));
}

#[test]
fn empty_blocklist_blocks_nothing() {
    let blocklist = Blocklist::empty();

    assert_eq!(blocklist.len(), 0);
    assert!(!blocklist.is_blocked("doubleclick.com"));
}

#[test]
fn list_lines_are_trimmed_of_unicode_white_space() {
    let text = "\u{0B}a.com\n\u{A0}b.com\u{3000}\n\u{85}\u{2003}\n\u{2028}# note\nc.com\u{202F}\u{205F}\n";
    let blocklist = Blocklist::from_text(text);

    assert_eq!(blocklist.len(), 3);
    assert!(blocklist.is_blocked("a.com"));
    assert!(blocklist.is_blocked("b.com"));
    assert!(blocklist.is_blocked("c.com"));
}

#[test]
fn non_white_space_characters_are_kept() {
    let blocklist = Blocklist::from_text("\u{200B}x.com\n");

    assert_eq!(blocklist.len(), 1);
    assert!(!blocklist.is_blocked("x.com"));
    assert!(blocklist.is_blocked("\u{200B}x.com"));
}
