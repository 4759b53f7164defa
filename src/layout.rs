//! Resolution of the header/footer messages, alignment and margins into
//! concrete values.

use vstd::prelude::*;
use crate::config::{
    clone_opt, opt_view, or_else, AlignSetting, GitInfoConfig, MarginConfig, MarginSetting,
};

verus! {

/// The message used when no template is configured.
pub open spec fn default_message() -> Seq<char> {
    "{{date}}{{sep}}commit: {{hash}}"@
}

/// The alignment used when none is configured.
pub open spec fn default_align() -> Seq<char> {
    "center"@
}

/// A message for one placement: its own, else the shared one, else the
/// legacy template, else the default.
pub open spec fn message_for(
    own: Option<Seq<char>>,
    both: Option<Seq<char>>,
    template: Option<Seq<char>>,
) -> Seq<char> {
    or_else(own, or_else(both, or_else(template, default_message())))
}

pub open spec fn message_field(cfg: GitInfoConfig, header: bool) -> Option<Seq<char>> {
    match cfg.message {
        Some(m) => if header {
            opt_view(m.header)
        } else {
            opt_view(m.footer)
        },
        None => None,
    }
}

pub open spec fn message_both(cfg: GitInfoConfig) -> Option<Seq<char>> {
    match cfg.message {
        Some(m) => opt_view(m.both),
        None => None,
    }
}

fn default_message_exec() -> (r: String)
    ensures
        r@ == default_message(),
{
    String::from_str("{{date}}{{sep}}commit: {{hash}}")
}

fn first_of(own: Option<String>, both: &Option<String>, template: &Option<String>) -> (r: String)
    ensures
        r@ == message_for(opt_view(own), opt_view(*both), opt_view(*template)),
{
    match own {
        Some(h) => h,
        None => match both {
            Some(b) => b.clone(),
            None => match template {
                Some(t) => t.clone(),
                None => default_message_exec(),
            },
        },
    }
}

/// The header and footer message templates.
pub fn resolve_messages(cfg: &GitInfoConfig) -> (r: (String, String))
    ensures
        r.0@ == message_for(message_field(*cfg, true), message_both(*cfg), opt_view(cfg.template)),
        r.1@ == message_for(message_field(*cfg, false), message_both(*cfg), opt_view(cfg.template)),
{
    let (own_h, own_f, both) = match &cfg.message {
        Some(m) => (clone_opt(&m.header), clone_opt(&m.footer), clone_opt(&m.both)),
        None => (None, None, None),
    };
    let header = first_of(own_h, &both, &cfg.template);
    let footer = first_of(own_f, &both, &cfg.template);
    (header, footer)
}

/// The resolved header and footer alignment.
pub open spec fn align_for(a: Option<AlignSetting>, header: bool) -> Seq<char> {
    match a {
        Some(AlignSetting::One(s)) => s@,
        Some(AlignSetting::Split { header: h, footer: f, both }) => or_else(
            if header {
                opt_view(h)
            } else {
                opt_view(f)
            },
            or_else(opt_view(both), default_align()),
        ),
        None => default_align(),
    }
}

fn default_align_exec() -> (r: String)
    ensures
        r@ == default_align(),
{
    String::from_str("center")
}

/// Alignment for the header and the footer.
pub fn resolve_align(a: &Option<AlignSetting>) -> (r: (String, String))
    ensures
        r.0@ == align_for(*a, true),
        r.1@ == align_for(*a, false),
{
    match a {
        Some(AlignSetting::One(s)) => (s.clone(), s.clone()),
        Some(AlignSetting::Split { header, footer, both }) => {
            let both_v = match both {
                Some(b) => b.clone(),
                None => default_align_exec(),
            };
            let h = match header {
                Some(h) => h.clone(),
                None => both_v.clone(),
            };
            let f = match footer {
                Some(f) => f.clone(),
                None => both_v,
            };
            (h, f)
        },
        None => (default_align_exec(), default_align_exec()),
    }
}

/// The four sides (top, right, bottom, left) of a resolved margin.
pub open spec fn sides(m: [String; 4]) -> Seq<Seq<char>> {
    seq![m[0]@, m[1]@, m[2]@, m[3]@]
}

/// CSS shorthand: one value for all sides; vertical and horizontal; top,
/// horizontal and bottom; or all four in order.
pub open spec fn shorthand(q: Seq<Seq<char>>, fallback: Seq<Seq<char>>) -> Seq<Seq<char>> {
    if q.len() == 0 {
        fallback
    } else if q.len() == 1 {
        seq![q[0], q[0], q[0], q[0]]
    } else if q.len() == 2 {
        seq![q[0], q[1], q[0], q[1]]
    } else if q.len() == 3 {
        seq![q[0], q[1], q[2], q[1]]
    } else {
        q.take(4)
    }
}

/// The sides a margin setting stands for, with `fallback` for what it leaves out.
pub open spec fn expand_margin(ms: MarginSetting, fallback: Seq<Seq<char>>) -> Seq<Seq<char>> {
    match ms {
        MarginSetting::One(v) => seq![v@, v@, v@, v@],
        MarginSetting::Quad(vs) => shorthand(vs@.map_values(|s: String| s@), fallback),
        MarginSetting::Sides { top, right, bottom, left } => seq![
            or_else(opt_view(top), fallback[0]),
            or_else(opt_view(right), fallback[1]),
            or_else(opt_view(bottom), fallback[2]),
            or_else(opt_view(left), fallback[3]),
        ],
    }
}

fn side_or(v: &Option<String>, fallback: &String) -> (r: String)
    ensures
        r@ == or_else(opt_view(*v), fallback@),
{
    match v {
        Some(s) => s.clone(),
        None => fallback.clone(),
    }
}

/// Expands a margin setting into its four sides.
pub fn margin_from_setting(ms: &MarginSetting, fallback: &[String; 4]) -> (r: [String; 4])
    ensures
        sides(r) == expand_margin(*ms, sides(*fallback)),
{
    match ms {
        MarginSetting::One(v) => [v.clone(), v.clone(), v.clone(), v.clone()],
        MarginSetting::Quad(vs) => {
            let ghost q = vs@.map_values(|s: String| s@);
            let r = if vs.len() == 0 {
                [fallback[0].clone(), fallback[1].clone(), fallback[2].clone(), fallback[3].clone()]
            } else if vs.len() == 1 {
                [vs[0].clone(), vs[0].clone(), vs[0].clone(), vs[0].clone()]
            } else if vs.len() == 2 {
                [vs[0].clone(), vs[1].clone(), vs[0].clone(), vs[1].clone()]
            } else if vs.len() == 3 {
                [vs[0].clone(), vs[1].clone(), vs[2].clone(), vs[1].clone()]
            } else {
                [vs[0].clone(), vs[1].clone(), vs[2].clone(), vs[3].clone()]
            };
            assert(sides(r) =~= shorthand(q, sides(*fallback)));
            r
        },
        MarginSetting::Sides { top, right, bottom, left } => [
            side_or(top, &fallback[0]),
            side_or(right, &fallback[1]),
            side_or(bottom, &fallback[2]),
            side_or(left, &fallback[3]),
        ],
    }
}

/// The margin used for a placement that sets none, when no shared base is set.
pub open spec fn default_margin() -> Seq<Seq<char>> {
    seq!["0"@, "0"@, "2em"@, "0"@]
}

pub open spec fn zero_margin() -> Seq<Seq<char>> {
    seq!["0"@, "0"@, "0"@, "0"@]
}

/// The resolved margin of one placement: its own setting against the shared
/// base; without one, the shared base itself; with neither, the default.
pub open spec fn margin_for(m: Option<MarginConfig>, header: bool) -> Seq<Seq<char>> {
    match m {
        Some(mc) => {
            let base = match mc.both {
                Some(b) => expand_margin(b, zero_margin()),
                None => zero_margin(),
            };
            match if header {
                mc.header
            } else {
                mc.footer
            } {
                Some(s) => expand_margin(s, base),
                None => if mc.both is Some {
                    base
                } else {
                    default_margin()
                },
            }
        },
        None => default_margin(),
    }
}

fn lit(s: &str) -> (r: String)
    ensures
        r@ == s@,
{
    String::from_str(s)
}

fn fixed_margin(bottom: &str) -> (r: [String; 4])
    ensures
        sides(r) == seq!["0"@, "0"@, bottom@, "0"@],
{
    let r = [lit("0"), lit("0"), lit(bottom), lit("0")];
    assert(sides(r) =~= seq!["0"@, "0"@, bottom@, "0"@]);
    r
}

fn copy_margin(m: &[String; 4]) -> (r: [String; 4])
    ensures
        sides(r) == sides(*m),
{
    [m[0].clone(), m[1].clone(), m[2].clone(), m[3].clone()]
}

/// Margins for the header and the footer.
pub fn resolve_margins(m: &Option<MarginConfig>) -> (r: ([String; 4], [String; 4]))
    ensures
        sides(r.0) == margin_for(*m, true),
        sides(r.1) == margin_for(*m, false),
{
    match m {
        Some(mc) => {
            let base = match &mc.both {
                Some(b) => margin_from_setting(b, &fixed_margin("0")),
                None => fixed_margin("0"),
            };
            let header = match &mc.header {
                Some(h) => margin_from_setting(h, &base),
                None => if mc.both.is_some() {
                    copy_margin(&base)
                } else {
                    fixed_margin("2em")
                },
            };
            let footer = match &mc.footer {
                Some(f) => margin_from_setting(f, &base),
                None => if mc.both.is_some() {
                    copy_margin(&base)
                } else {
                    fixed_margin("2em")
                },
            };
            (header, footer)
        },
        None => (fixed_margin("2em"), fixed_margin("2em")),
    }
}

/// Message precedence, for each placement: an explicit message wins over the
/// shared one, which wins over the legacy template, which wins over the
/// default.
pub proof fn lemma_message_precedence(h: Seq<char>, b: Seq<char>, t: Seq<char>)
    ensures
        message_for(Some(h), Some(b), Some(t)) == h,
        message_for(None, Some(b), Some(t)) == b,
        message_for(None, None, Some(t)) == t,
        message_for(None, None, None) == default_message(),
{
}

} // verus!
