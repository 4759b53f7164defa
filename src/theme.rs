//! The stylesheet that rosters need, and how the book configuration is made
//! to reference it.

use vstd::prelude::*;

verus! {

/// Where the stylesheet lives, relative to the book root.
pub const CSS_REL_PATH: &'static str = "theme/gitinfo.css";

/// The stylesheet for contributor rosters.
pub const GITINFO_CSS: &'static str = ".gitinfo-contributors { margin: 2em 0 1em; }\n.gitinfo-contributors h2 { font-size: 1.2em; }\n.gitinfo-contributors-list { display: flex; flex-wrap: wrap; gap: 0.4em 1em; list-style: none; padding: 0; }\n.gitinfo-contributors details summary { cursor: pointer; }\n";

/// Whether the stylesheet file must be written: it is missing or differs.
pub fn css_needs_write(existing: &Option<String>, css: &str) -> (r: bool)
    ensures
        r == !(existing is Some && existing->0@ == css@),
{
    match existing {
        Some(e) => {
            let want = String::from_str(css);
            !(*e == want)
        },
        None => true,
    }
}

/// The `additional-css` entry of the book's HTML output settings, as found.
#[derive(Clone, Debug)]
pub enum CssEntry {
    Missing,
    /// An array; entries that are not strings are `None`.
    Array(Vec<Option<String>>),
    Text(String),
    /// Any other kind of value.
    Other,
}

/// What to do to the entry.
#[derive(Clone, Debug)]
pub enum CssAction {
    Keep,
    /// Push the stylesheet's path onto the array.
    Append,
    /// Replace the entry by this array of paths.
    Replace(Vec<String>),
}

/// The entry cannot be updated: it is neither a string nor an array.
#[derive(Clone, Copy, Debug, PartialEq, Eq, Structural)]
pub enum CssPlanError {
    NotStringOrArray,
}

pub open spec fn css_path() -> Seq<char> {
    "theme/gitinfo.css"@
}

/// An array entry is the stylesheet's path.
pub open spec fn names_css(e: Option<String>) -> bool {
    e is Some && e->0@ == css_path()
}

/// An array holds the stylesheet's path.
pub open spec fn has_css(items: Seq<Option<String>>) -> bool {
    exists|i: int| 0 <= i < items.len() && names_css(#[trigger] items[i])
}

/// The update that makes the entry an array that holds the stylesheet's
/// path: a missing entry becomes that array, a string becomes an array of
/// the string and the path (once), an array gets the path unless it has it.
pub open spec fn css_plan(entry: CssEntry, r: Result<CssAction, CssPlanError>) -> bool {
    match entry {
        CssEntry::Missing => r matches Ok(CssAction::Replace(v)) && v@.len() == 1 && v@[0]@
            == css_path(),
        CssEntry::Array(items) => if has_css(items@) {
            r matches Ok(CssAction::Keep)
        } else {
            r matches Ok(CssAction::Append)
        },
        CssEntry::Text(s) => r matches Ok(CssAction::Replace(v)) && if s@ == css_path() {
            v@.len() == 1 && v@[0]@ == s@
        } else {
            v@.len() == 2 && v@[0]@ == s@ && v@[1]@ == css_path()
        },
        CssEntry::Other => r == Err::<CssAction, CssPlanError>(CssPlanError::NotStringOrArray),
    }
}

/// Decides how to update the `additional-css` entry.
pub fn plan_additional_css(entry: &CssEntry) -> (r: Result<CssAction, CssPlanError>)
    ensures
        css_plan(*entry, r),
{
    let path = String::from_str(CSS_REL_PATH);
    assert(path@ == css_path());
    match entry {
        CssEntry::Missing => Ok(CssAction::Replace(vec![path])),
        CssEntry::Array(items) => {
            let mut i: usize = 0;
            while i < items.len()
                invariant
                    i <= items.len(),
                    *entry == CssEntry::Array(*items),
                    path@ == css_path(),
                    forall|j: int| 0 <= j < i ==> !names_css(#[trigger] items@[j]),
                decreases items.len() - i,
            {
                if let Some(s) = &items[i] {
                    if *s == path {
                        assert(items@[i as int] == Some(*s));
                        assert(names_css(items@[i as int]));
                        assert(exists|j: int| 0 <= j < items@.len() && names_css(#[trigger] items@[j]));

                        return Ok(CssAction::Keep);
                    }
                }
                i += 1;
            }
            Ok(CssAction::Append)
        },
        CssEntry::Text(s) => {
            if *s == path {
                Ok(CssAction::Replace(vec![s.clone()]))
            } else {
                Ok(CssAction::Replace(vec![s.clone(), path]))
            }
        },
        CssEntry::Other => Err(CssPlanError::NotStringOrArray),
    }
}

} // verus!
