use mdbook_gitinfo::git::{is_plausible_username, latest_tag_from, needs_newest_tag, parse_shortlog};

#[test]
fn plausible_usernames() {
    assert!(is_plausible_username("octo-cat"));
    assert!(is_plausible_username("a"));
    assert!(is_plausible_username(&"x".repeat(39)));
    assert!(!is_plausible_username("-bad"));
    assert!(!is_plausible_username("bad-"));
    assert!(!is_plausible_username(&"x".repeat(40)));
    assert!(!is_plausible_username("has space"));
    assert!(!is_plausible_username(""));
}

#[test]
fn shortlog_names_sorted_and_unique() {
    let out = "    10\tzoe <z@example.com>\n     3\talice <a@example.com>\n     1\tzoe <zoe@other.org>\n";
    assert_eq!(parse_shortlog(out), vec!["alice".to_string(), "zoe".to_string()]);
}

#[test]
fn shortlog_uses_noreply_addresses() {
    let out = "5\tJane Doe <12345+janed@users.noreply.github.com>\n2\tJohn Roe <jroe@users.noreply.github.com>\n1\tNo Body <nb@example.com>\n";
    assert_eq!(parse_shortlog(out), vec!["janed".to_string(), "jroe".to_string()]);
}

#[test]
fn shortlog_skips_lines_without_tab() {
    assert!(parse_shortlog("garbage line\n").is_empty());
    assert!(parse_shortlog("").is_empty());
}

#[test]
fn tag_fallback_order() {
    assert_eq!(latest_tag_from(&Some(" v2.0 \n".to_string()), &Some("v3".to_string())), "v2.0");
    assert_eq!(latest_tag_from(&Some("".to_string()), &Some("v3".to_string())), "v3");
    assert_eq!(latest_tag_from(&None, &Some("v3".to_string())), "v3");
}

#[test]
fn no_tags_sentinel() {
    assert_eq!(latest_tag_from(&Some("".to_string()), &Some("  ".to_string())), "No tags found");
    assert_eq!(latest_tag_from(&None, &None), "No tags found");
}

#[test]
fn shortlog_rejects_implausible_names() {
    let long = "a".repeat(40);
    let out = format!(
        "1\t-bad <x1@example.com>\n1\tbad- <x2@example.com>\n1\t{} <x3@example.com>\n1\thas space <x4@example.com>\n",
        long
    );
    assert!(parse_shortlog(&out).is_empty());
}

#[test]
fn newest_tag_needed_only_as_fallback() {
    assert!(needs_newest_tag(&None));
    assert!(needs_newest_tag(&Some(" \n".to_string())));
    assert!(!needs_newest_tag(&Some("v1".to_string())));
}
