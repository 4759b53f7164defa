use mdbook_gitinfo::config::{ContributorsSource, GitInfoConfig};
use mdbook_gitinfo::processor::{
    decorate_page, effective_branch, needs_tag_lookup, resolve_config, run_tag, token_context, GitInfo, PageFacts, RunFacts,
};
use mdbook_gitinfo::theme::{css_needs_write, plan_additional_css, CssAction, CssEntry, CssPlanError};
use mdbook_gitinfo::timefmt::format_commit_datetime;

fn s(x: &str) -> String {
    x.to_string()
}

fn run_for(cfg: &mdbook_gitinfo::processor::ResolvedConfig, tag: &str, base: Option<&str>) -> RunFacts {
    RunFacts {
        branch: cfg.branch.clone(),
        tag: s(tag),
        repo_base: base.map(s),
        tokens: token_context(cfg, "<p>roster</p>"),
    }
}

#[test]
fn defaults_are_applied() {
    let cfg = resolve_config(&GitInfoConfig::default());
    assert!(cfg.enabled);
    assert!(!cfg.show_header);
    assert!(cfg.show_footer);
    assert_eq!(cfg.font_size, "0.8em");
    assert_eq!(cfg.separator, " \u{2022} ");
    assert_eq!(cfg.date_format, "%Y-%m-%d");
    assert_eq!(cfg.time_format, "%H:%M:%S");
    assert_eq!(cfg.branch, "main");
    assert_eq!(cfg.footer_template, "{{date}}{{sep}}commit: {{hash}}");
    assert_eq!(cfg.contributors_source, ContributorsSource::Git);
    assert_eq!(cfg.contributors_file, "CONTRIBUTORS.md");
    assert_eq!(cfg.roster.title, "Contributors");
    assert_eq!(cfg.roster.max_visible, 24);
    assert!(cfg.tag_override.is_none());
}

#[test]
fn blank_values_are_dropped() {
    let cfg = resolve_config(&GitInfoConfig {
        tag: Some(s("  v1.2 ")),
        contributors_title: Some(s("   ")),
        contributors_message: Some(s(" hi ")),
        ..Default::default()
    });
    assert_eq!(cfg.tag_override, Some(s("v1.2")));
    assert_eq!(cfg.roster.title, "Contributors");
    assert_eq!(cfg.roster.message, Some(s("hi")));
}

#[test]
fn branch_falls_back_to_main() {
    assert_eq!(effective_branch("release", true), "release");
    assert_eq!(effective_branch("release", false), "main");
}

#[test]
fn footer_without_hyperlinks() {
    let cfg = resolve_config(&GitInfoConfig {
        branch: Some(s("release")),
        hyperlink: Some(false),
        timezone: Some(s("utc")),
        ..Default::default()
    });
    let date = format_commit_datetime("2026-01-14T10:00:00+00:00", cfg.timezone.as_deref(), &cfg.date_format, &cfg.time_format);
    let page = PageFacts { short_hash: s("ab12cd3"), long_hash: s("ab12cd3ffff"), date };
    let out = decorate_page("# Page\n", &cfg, &run_for(&cfg, "v1", Some("https://github.com/o/r")), &page);
    let footer_start = out.find("<footer").unwrap();
    let footer = &out[footer_start..];
    assert!(footer.contains("2026-01-14"));
    assert!(footer.contains("commit: ab12cd3"));
    assert!(!out.contains("<a "));
    assert_eq!(
        out,
        "# Page\n\n\n<footer class=\"gitinfo-footer\" style=\"font-size:0.8em;padding:4px;margin:0 0 2em 0;text-align:center;display:block;\">2026-01-14 10:00:00 \u{2022} commit: ab12cd3</footer>\n"
    );
}

#[test]
fn hyperlinks_when_base_known() {
    let cfg = resolve_config(&GitInfoConfig {
        hyperlink: Some(true),
        template: Some(s("{{hash}} {{tag}} {{branch}}")),
        ..Default::default()
    });
    let page = PageFacts { short_hash: s("abc"), long_hash: s("abcdef"), date: s("d") };
    let out = decorate_page("", &cfg, &run_for(&cfg, "v1", Some("https://github.com/o/r")), &page);
    assert!(out.contains("<a href=\"https://github.com/o/r/commit/abcdef\">abc</a>"));
    assert!(out.contains("<a href=\"https://github.com/o/r/releases/tag/v1\">v1</a>"));
    assert!(out.contains("<a href=\"https://github.com/o/r/tree/main\">main</a>"));
    let out = decorate_page("", &cfg, &run_for(&cfg, "No tags found", Some("https://github.com/o/r")), &page);
    assert!(out.contains("</a> - <a"));
}

#[test]
fn decorating_twice_changes_nothing() {
    let cfg = resolve_config(&GitInfoConfig { header: Some(true), contributors: Some(true), ..Default::default() });
    let page = PageFacts { short_hash: s("abc"), long_hash: s("abcdef"), date: s("2026-01-14") };
    let run = run_for(&cfg, "v1", None);
    let once = decorate_page("# T\n\n{% contributors %}\n\ntext", &cfg, &run, &page);
    let twice = decorate_page(&once, &cfg, &run, &page);
    assert_eq!(once, twice);
    assert_eq!(once.matches("<header").count(), 1);
    assert_eq!(once.matches("<footer").count(), 1);
    assert_eq!(once.matches("<p>roster</p>").count(), 1);
}

#[test]
fn renderer_support() {
    let g = GitInfo::new();
    assert_eq!(g.name(), "gitinfo");
    assert!(g.supports_renderer("html"));
    assert!(!g.supports_renderer("markdown"));
}

#[test]
fn css_file_written_only_when_different() {
    assert!(css_needs_write(&None, "a"));
    assert!(css_needs_write(&Some(s("b")), "a"));
    assert!(!css_needs_write(&Some(s("a")), "a"));
}

#[test]
fn additional_css_plans() {
    let path = s("theme/gitinfo.css");
    match plan_additional_css(&CssEntry::Missing) {
        Ok(CssAction::Replace(v)) => assert_eq!(v, vec![path.clone()]),
        other => panic!("unexpected {:?}", other),
    }
    match plan_additional_css(&CssEntry::Text(s("custom.css"))) {
        Ok(CssAction::Replace(v)) => assert_eq!(v, vec![s("custom.css"), path.clone()]),
        other => panic!("unexpected {:?}", other),
    }
    match plan_additional_css(&CssEntry::Text(path.clone())) {
        Ok(CssAction::Replace(v)) => assert_eq!(v, vec![path.clone()]),
        other => panic!("unexpected {:?}", other),
    }
    assert!(matches!(plan_additional_css(&CssEntry::Array(vec![None, Some(path.clone())])), Ok(CssAction::Keep)));
    assert!(matches!(plan_additional_css(&CssEntry::Array(vec![Some(s("x.css"))])), Ok(CssAction::Append)));
    assert!(matches!(plan_additional_css(&CssEntry::Other), Err(CssPlanError::NotStringOrArray)));
}

#[test]
fn resolved_tag_is_plain_without_hyperlinks() {
    let cfg = resolve_config(&GitInfoConfig {
        tag: Some(s("v1.2")),
        template: Some(s("[{{tag}}]")),
        ..Default::default()
    });
    let page = PageFacts { short_hash: s("abc"), long_hash: s("abcdef"), date: s("d") };
    let tag = cfg.tag_override.clone().unwrap();
    let out = decorate_page("", &cfg, &run_for(&cfg, &tag, Some("https://github.com/o/r")), &page);
    assert!(out.contains(">[v1.2]</footer>"));
    assert!(!out.contains("<a "));
    let out = decorate_page("", &cfg, &run_for(&cfg, "No tags found", None), &page);
    assert!(out.contains(">[-]</footer>"));
    let out = decorate_page("", &cfg, &run_for(&cfg, "", None), &page);
    assert!(out.contains(">[-]</footer>"));
}

#[test]
fn resolved_tag_is_plain_when_base_unknown() {
    let cfg = resolve_config(&GitInfoConfig {
        hyperlink: Some(true),
        template: Some(s("[{{tag}}]")),
        ..Default::default()
    });
    let page = PageFacts { short_hash: s("abc"), long_hash: s("abcdef"), date: s("d") };
    let out = decorate_page("", &cfg, &run_for(&cfg, "v3", None), &page);
    assert!(out.contains(">[v3]</footer>"));
}

#[test]
fn configured_tag_skips_lookup() {
    let cfg = resolve_config(&GitInfoConfig { tag: Some(s(" v9 ")), ..Default::default() });
    assert!(!needs_tag_lookup(&cfg));
    assert_eq!(run_tag(&cfg, &Some(s("v1"))), "v9");
    let cfg = resolve_config(&GitInfoConfig::default());
    assert!(needs_tag_lookup(&cfg));
    assert_eq!(run_tag(&cfg, &Some(s("v1"))), "v1");
    assert_eq!(run_tag(&cfg, &None), "No tags found");
}
