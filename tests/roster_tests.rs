use mdbook_gitinfo::roster::{build_roster_html, parse_contributors_list, render_roster, split_roster, RosterStyle};

fn names(xs: &[&str]) -> Vec<String> {
    xs.iter().map(|x| x.to_string()).collect()
}

#[test]
fn split_excludes_and_caps() {
    let (v, h) = split_roster(&names(&["a", "b", "c", "d"]), &names(&["b"]), 2);
    assert_eq!(v, names(&["a", "c"]));
    assert_eq!(h, names(&["d"]));
}

#[test]
fn split_with_large_cap_hides_nothing() {
    let (v, h) = split_roster(&names(&["a", "b"]), &names(&[]), 24);
    assert_eq!(v, names(&["a", "b"]));
    assert!(h.is_empty());
    let (v, h) = split_roster(&names(&["a", "b"]), &names(&[]), 0);
    assert!(v.is_empty());
    assert_eq!(h, names(&["a", "b"]));
}

#[test]
fn roster_html_is_exact() {
    let html = render_roster("Contributors", &Some("Thanks".to_string()), &names(&["alice"]), &names(&["bob"]));
    assert_eq!(
        html,
        "<div class=\"gitinfo-contributors\">\n<h2>Contributors</h2>\n<p>Thanks</p>\n\
<ul class=\"gitinfo-contributors-list\">\n<li><a href=\"https://github.com/alice\">alice</a></li>\n</ul>\n\
<details><summary>More contributors</summary>\n<ul class=\"gitinfo-contributors-list\">\n\
<li><a href=\"https://github.com/bob\">bob</a></li>\n</ul>\n</details>\n</div>\n"
    );
}

#[test]
fn build_roster_applies_style() {
    let style = RosterStyle { title: "People".to_string(), message: None, exclude: names(&["x"]), max_visible: 5 };
    let html = build_roster_html(&style, &names(&["x", "y"]));
    assert_eq!(
        html,
        "<div class=\"gitinfo-contributors\">\n<h2>People</h2>\n<ul class=\"gitinfo-contributors-list\">\n\
<li><a href=\"https://github.com/y\">y</a></li>\n</ul>\n</div>\n"
    );
}

#[test]
fn contributors_file_lines() {
    let raw = "- alice\n* bob\n\n  carol  \r\n-dave\n";
    assert_eq!(parse_contributors_list(raw), names(&["alice", "bob", "carol", "-dave"]));
    assert!(parse_contributors_list("").is_empty());
}
