use mdbook_gitinfo::config::ContributorsSource;
use mdbook_gitinfo::roster::RosterStyle;
use mdbook_gitinfo::tokens::{replace_contributors_tokens, token_warnings, TokenContext, TokenWarning};

fn global(html: &str) -> TokenContext {
    TokenContext { source: ContributorsSource::Git, global_html: html.to_string(), inline: None }
}

fn inline() -> TokenContext {
    TokenContext {
        source: ContributorsSource::Inline,
        global_html: String::new(),
        inline: Some(RosterStyle { title: "T".to_string(), message: None, exclude: vec!["zed".to_string()], max_visible: 24 }),
    }
}

#[test]
fn token_inside_fence_is_kept_and_after_fence_replaced() {
    let input = "```\n{% contributors %}\n```\n{% contributors %}\n";
    let out = replace_contributors_tokens(input, &global("<p>R</p>"));
    assert_eq!(out, "```\n{% contributors %}\n```\n\n<p>R</p>\n\n");
}

#[test]
fn tilde_fence_needs_matching_close() {
    let input = "~~~~\n{% contributors %}\n~~~\n{% contributors %}\n~~~~~\n{% contributors %}";
    let out = replace_contributors_tokens(input, &global("X"));
    assert_eq!(out, "~~~~\n{% contributors %}\n~~~\n{% contributors %}\n~~~~~\n\nX\n\n");
}

#[test]
fn indented_token_is_code() {
    let input = "    {% contributors %}\n\t{% contributors %}\n  {% contributors %}  \n";
    let out = replace_contributors_tokens(input, &global("X"));
    assert_eq!(out, "    {% contributors %}\n\t{% contributors %}\n\nX\n\n");
}

#[test]
fn token_must_fill_its_line() {
    let input = "see {% contributors %} here\n| {% contributors %} |\n`{% contributors %}`\n";
    assert_eq!(replace_contributors_tokens(input, &global("X")), input);
}

#[test]
fn inline_arguments_render_roster() {
    let out = replace_contributors_tokens("{% contributors alice zed bob %}\n", &inline());
    assert_eq!(
        out,
        "\n<div class=\"gitinfo-contributors\">\n<h2>T</h2>\n<ul class=\"gitinfo-contributors-list\">\n\
<li><a href=\"https://github.com/alice\">alice</a></li>\n<li><a href=\"https://github.com/bob\">bob</a></li>\n</ul>\n</div>\n\n"
    );
}

#[test]
fn inline_without_arguments_is_empty() {
    assert_eq!(replace_contributors_tokens("a\n{% contributors %}\nb", &inline()), "a\n\n\n\nb");
}

#[test]
fn inline_arguments_ignored_for_git_source() {
    assert_eq!(replace_contributors_tokens("{%contributors a b%}", &global("G")), "\nG\n\n");
}

#[test]
fn disabled_roster_removes_tokens() {
    let ctx = TokenContext { source: ContributorsSource::File, global_html: String::new(), inline: None };
    assert_eq!(replace_contributors_tokens("x\n{% contributors %}\ny\n", &ctx), "x\n\n\n\ny\n");
}

#[test]
fn text_without_tokens_is_unchanged() {
    let input = "# Title\n\nSome text {% other %}\n";
    assert_eq!(replace_contributors_tokens(input, &global("X")), input);
    assert_eq!(replace_contributors_tokens("", &global("X")), "");
}

#[test]
fn warnings_for_tokens() {
    let text = "{% contributors %}\n```\n{% contributors %}\n```\n{% contributors a b %}\n";
    assert_eq!(token_warnings(text, &inline()), vec![TokenWarning::InlineWithoutNames]);
    assert_eq!(token_warnings(text, &global("X")), vec![TokenWarning::ArgumentsIgnored]);
    assert!(token_warnings("plain text\n", &inline()).is_empty());
}
