use mdbook_gitinfo::renderer::{render_template, style_block, wrap_block};

#[test]
fn replaces_every_placeholder() {
    let r = render_template("{{hash}}|{{long}}|{{tag}}|{{date}}|{{sep}}|{{branch}}", "h", "L", "t", "d", "-", "b");
    assert_eq!(r, "h|L|t|d|-|b");
}

#[test]
fn unknown_placeholder_is_kept() {
    let r = render_template("{{unknown}} {{hash}}", "abc", "", "", "", "", "");
    assert_eq!(r, "{{unknown}} abc");
    assert_eq!(render_template("{{unknown}}", "a", "b", "c", "d", "e", "f"), "{{unknown}}");
}

#[test]
fn no_placeholder_left_after_rendering() {
    let r = render_template("{{date}}{{sep}}commit: {{hash}}", "ab12cd3", "x", "v1", "2026-01-14", " | ", "main");
    assert_eq!(r, "2026-01-14 | commit: ab12cd3");
    assert!(!r.contains("{{"));
}

#[test]
fn values_are_not_expanded_again() {
    let r = render_template("{{hash}} {{tag}}", "{{tag}}", "", "v2", "", "", "");
    assert_eq!(r, "{{tag}} v2");
}

#[test]
fn style_block_is_exact() {
    let m = ["0".to_string(), "1em".to_string(), "2em".to_string(), "3px".to_string()];
    assert_eq!(
        style_block("0.8em", "center", &m),
        "font-size:0.8em;padding:4px;margin:0 1em 2em 3px;text-align:center;display:block;"
    );
}

#[test]
fn wrap_block_header_and_footer() {
    assert_eq!(wrap_block(true, "s", "x"), "<header class=\"gitinfo-header\" style=\"s\">x</header>");
    assert_eq!(wrap_block(false, "s", "x"), "<footer class=\"gitinfo-footer\" style=\"s\">x</footer>");
}

#[test]
fn no_double_brace_left() {
    let r = render_template("{ {{hash}} {{branch}}}", "h", "", "", "", "", "b");
    assert_eq!(r, "{ h b}");
    assert!(!r.contains("{{"));
}
