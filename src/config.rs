//! User configuration for the preprocessor, as read from its table in the
//! book's configuration file. Every field is optional; the resolvers in
//! `layout` and `processor` supply the defaults.

use vstd::prelude::*;

verus! {

/// Per-placement message templates.
#[derive(Clone, Debug, Default)]
pub struct MessageConfig {
    pub header: Option<String>,
    pub footer: Option<String>,
    pub both: Option<String>,
}

/// Text alignment: one value for both placements, or one per placement.
#[derive(Clone, Debug)]
pub enum AlignSetting {
    One(String),
    Split { header: Option<String>, footer: Option<String>, both: Option<String> },
}

/// A margin: one value for all sides, a CSS-shorthand list, or named sides.
#[derive(Clone, Debug)]
pub enum MarginSetting {
    One(String),
    Quad(Vec<String>),
    Sides {
        top: Option<String>,
        right: Option<String>,
        bottom: Option<String>,
        left: Option<String>,
    },
}

/// Margins per placement, with a shared base.
#[derive(Clone, Debug, Default)]
pub struct MarginConfig {
    pub header: Option<MarginSetting>,
    pub footer: Option<MarginSetting>,
    pub both: Option<MarginSetting>,
}

/// Where the contributor roster comes from.
#[derive(Clone, Copy, Debug, PartialEq, Eq, Structural)]
pub enum ContributorsSource {
    Git,
    File,
    Inline,
}

/// The preprocessor's configuration table.
#[derive(Clone, Debug, Default)]
pub struct GitInfoConfig {
    pub enable: Option<bool>,
    pub format: Option<String>,
    pub template: Option<String>,
    pub font_size: Option<String>,
    pub separator: Option<String>,
    pub date_format: Option<String>,
    pub time_format: Option<String>,
    pub branch: Option<String>,
    pub align: Option<AlignSetting>,
    pub margin: Option<MarginConfig>,
    pub hyperlink: Option<bool>,
    pub header: Option<bool>,
    pub footer: Option<bool>,
    pub message: Option<MessageConfig>,
    pub timezone: Option<String>,
    pub tag: Option<String>,
    pub contributors: Option<bool>,
    pub contributors_source: Option<ContributorsSource>,
    pub contributors_file: Option<String>,
    pub contributors_title: Option<String>,
    pub contributors_message: Option<String>,
    pub contributors_exclude: Option<Vec<String>>,
    pub contributors_max_visible: Option<usize>,
}

/// The view of an optional string.
pub open spec fn opt_view(o: Option<String>) -> Option<Seq<char>> {
    match o {
        Some(s) => Some(s@),
        None => None,
    }
}

/// The first present value of `a`, then `b`.
pub open spec fn or_else(a: Option<Seq<char>>, b: Seq<char>) -> Seq<char> {
    match a {
        Some(v) => v,
        None => b,
    }
}

/// A clone of an optional string that keeps its view.
pub fn clone_opt(o: &Option<String>) -> (r: Option<String>)
    ensures
        opt_view(r) == opt_view(*o),
{
    match o {
        Some(s) => Some(s.clone()),
        None => None,
    }
}

} // verus!
