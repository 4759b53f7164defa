use mdbook_gitinfo::config::{AlignSetting, GitInfoConfig, MarginConfig, MarginSetting, MessageConfig};
use mdbook_gitinfo::layout::{margin_from_setting, resolve_align, resolve_margins, resolve_messages};

fn s(x: &str) -> String {
    x.to_string()
}

fn quad(vs: &[&str]) -> MarginSetting {
    MarginSetting::Quad(vs.iter().map(|v| v.to_string()).collect())
}

fn zero() -> [String; 4] {
    [s("0"), s("0"), s("0"), s("0")]
}

#[test]
fn explicit_header_message_wins() {
    let cfg = GitInfoConfig {
        template: Some(s("T")),
        message: Some(MessageConfig { header: Some(s("H")), footer: None, both: Some(s("B")) }),
        ..Default::default()
    };
    let (h, f) = resolve_messages(&cfg);
    assert_eq!(h, "H");
    assert_eq!(f, "B");
}

#[test]
fn shared_message_overrides_template() {
    let cfg = GitInfoConfig {
        template: Some(s("T")),
        message: Some(MessageConfig { header: None, footer: None, both: Some(s("B")) }),
        ..Default::default()
    };
    assert_eq!(resolve_messages(&cfg), (s("B"), s("B")));
}

#[test]
fn template_used_for_both_placements() {
    let cfg = GitInfoConfig { template: Some(s("T")), ..Default::default() };
    assert_eq!(resolve_messages(&cfg), (s("T"), s("T")));
}

#[test]
fn default_message_when_nothing_set() {
    let cfg = GitInfoConfig::default();
    let d = s("{{date}}{{sep}}commit: {{hash}}");
    assert_eq!(resolve_messages(&cfg), (d.clone(), d));
}

#[test]
fn align_defaults_and_split() {
    assert_eq!(resolve_align(&None), (s("center"), s("center")));
    assert_eq!(resolve_align(&Some(AlignSetting::One(s("left")))), (s("left"), s("left")));
    let split = AlignSetting::Split { header: Some(s("right")), footer: None, both: Some(s("left")) };
    assert_eq!(resolve_align(&Some(split)), (s("right"), s("left")));
    let split = AlignSetting::Split { header: None, footer: Some(s("left")), both: None };
    assert_eq!(resolve_align(&Some(split)), (s("center"), s("left")));
}

#[test]
fn margin_shorthand_one_value() {
    assert_eq!(margin_from_setting(&quad(&["1em"]), &zero()), [s("1em"), s("1em"), s("1em"), s("1em")]);
    assert_eq!(margin_from_setting(&MarginSetting::One(s("3px")), &zero()), [s("3px"), s("3px"), s("3px"), s("3px")]);
}

#[test]
fn margin_shorthand_two_values() {
    assert_eq!(margin_from_setting(&quad(&["1em", "2em"]), &zero()), [s("1em"), s("2em"), s("1em"), s("2em")]);
}

#[test]
fn margin_shorthand_three_values() {
    assert_eq!(
        margin_from_setting(&quad(&["1em", "2em", "3em"]), &zero()),
        [s("1em"), s("2em"), s("3em"), s("2em")]
    );
}

#[test]
fn margin_shorthand_four_values() {
    assert_eq!(
        margin_from_setting(&quad(&["1", "2", "3", "4", "5"]), &zero()),
        [s("1"), s("2"), s("3"), s("4")]
    );
    let fb = [s("a"), s("b"), s("c"), s("d")];
    assert_eq!(margin_from_setting(&quad(&[]), &fb), fb);
}

#[test]
fn margin_sides_fall_back_per_side() {
    let ms = MarginSetting::Sides { top: Some(s("1em")), right: None, bottom: None, left: Some(s("2px")) };
    let fb = [s("a"), s("b"), s("c"), s("d")];
    assert_eq!(margin_from_setting(&ms, &fb), [s("1em"), s("b"), s("c"), s("2px")]);
}

#[test]
fn margins_default_to_bottom_gap() {
    let d = [s("0"), s("0"), s("2em"), s("0")];
    assert_eq!(resolve_margins(&None), (d.clone(), d.clone()));
    let mc = MarginConfig { header: None, footer: None, both: None };
    assert_eq!(resolve_margins(&Some(mc)), (d.clone(), d));
}

#[test]
fn shared_margin_applies_to_placements_without_their_own() {
    let one = [s("1em"), s("1em"), s("1em"), s("1em")];
    let mc = MarginConfig { header: None, footer: None, both: Some(MarginSetting::One(s("1em"))) };
    assert_eq!(resolve_margins(&Some(mc)), (one.clone(), one));
    let mc = MarginConfig { header: Some(quad(&["3px"])), footer: None, both: Some(quad(&["1em", "2em"])) };
    let (h, f) = resolve_margins(&Some(mc));
    assert_eq!(h, [s("3px"), s("3px"), s("3px"), s("3px")]);
    assert_eq!(f, [s("1em"), s("2em"), s("1em"), s("2em")]);
}

#[test]
fn margins_resolve_against_shared_base() {
    let mc = MarginConfig {
        header: Some(MarginSetting::Sides { top: Some(s("5px")), right: None, bottom: None, left: None }),
        footer: Some(quad(&[])),
        both: Some(quad(&["1em", "2em"])),
    };
    let (h, f) = resolve_margins(&Some(mc));
    assert_eq!(h, [s("5px"), s("2em"), s("1em"), s("2em")]);
    assert_eq!(f, [s("1em"), s("2em"), s("1em"), s("2em")]);
}
