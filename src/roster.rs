//! Contributor rosters: exclusion, the visible/hidden split and their HTML.

use vstd::prelude::*;
use crate::config::opt_view;
use crate::text::{push_str, string_of, to_chars, trim};
use crate::tokens::{lines, split_lines, trim_range};

verus! {

/// The views of a list of strings.
pub open spec fn views(v: Seq<String>) -> Seq<Seq<char>> {
    v.map_values(|s: String| s@)
}

pub proof fn lemma_views_push(a: Seq<String>, x: String)
    ensures
        views(a.push(x)) == views(a).push(x@),
{
    assert(views(a.push(x)) =~= views(a).push(x@));
}

/// How a roster is rendered: its heading, an optional message and the
/// number of names shown before the rest is folded away.
#[derive(Clone, Debug)]
pub struct RosterStyle {
    pub title: String,
    pub message: Option<String>,
    pub exclude: Vec<String>,
    pub max_visible: usize,
}

/// `users` without the excluded names, in their order.
pub open spec fn without(users: Seq<Seq<char>>, exclude: Seq<Seq<char>>) -> Seq<Seq<char>>
    decreases users.len(),
{
    if users.len() == 0 {
        Seq::empty()
    } else {
        let rest = without(users.drop_last(), exclude);
        if exclude.contains(users.last()) {
            rest
        } else {
            rest.push(users.last())
        }
    }
}

/// Whether `u` is in `list`.
pub fn contains_name(list: &Vec<String>, u: &String) -> (r: bool)
    ensures
        r == views(list@).contains(u@),
{
    let mut i: usize = 0;
    while i < list.len()
        invariant
            i <= list.len(),
            forall|j: int| 0 <= j < i ==> list@[j]@ != u@,
        decreases list.len() - i,
    {
        if list[i] == *u {
            assert(views(list@)[i as int] == u@);
            return true;
        }
        i += 1;
    }
    assert forall|j: int| 0 <= j < views(list@).len() implies views(list@)[j] != u@ by {
        assert(list@[j]@ != u@);
    }
    false
}

/// The visible part of a roster: the first `max` names that are not excluded.
pub open spec fn visible_of(users: Seq<Seq<char>>, exclude: Seq<Seq<char>>, max: nat) -> Seq<
    Seq<char>,
> {
    let f = without(users, exclude);
    if max < f.len() {
        f.take(max as int)
    } else {
        f
    }
}

/// The hidden part of a roster: the names after the first `max`.
pub open spec fn hidden_of(users: Seq<Seq<char>>, exclude: Seq<Seq<char>>, max: nat) -> Seq<
    Seq<char>,
> {
    let f = without(users, exclude);
    if max < f.len() {
        f.skip(max as int)
    } else {
        Seq::empty()
    }
}

/// Drops the excluded names and splits the rest into the first `max_visible`
/// and the remainder, keeping the order of `users`.
pub fn split_roster(users: &Vec<String>, exclude: &Vec<String>, max_visible: usize) -> (r: (
    Vec<String>,
    Vec<String>,
))
    ensures
        views(r.0@) == visible_of(views(users@), views(exclude@), max_visible as nat),
        views(r.1@) == hidden_of(views(users@), views(exclude@), max_visible as nat),
{
    let ghost us = views(users@);
    let ghost ex = views(exclude@);
    let mut kept: Vec<String> = Vec::new();
    let mut i: usize = 0;
    while i < users.len()
        invariant
            i <= users.len(),
            us == views(users@),
            ex == views(exclude@),
            views(kept@) == without(us.take(i as int), ex),
        decreases users.len() - i,
    {
        assert(us.take(i + 1).drop_last() =~= us.take(i as int));
        assert(us.take(i + 1).last() == users@[i as int]@);
        if !contains_name(exclude, &users[i]) {
            kept.push(users[i].clone());
            assert(views(kept@) =~= without(us.take(i as int), ex).push(users@[i as int]@));
        }
        i += 1;
    }
    assert(us.take(users.len() as int) =~= us);
    let ghost f = views(kept@);
    let mut visible: Vec<String> = Vec::new();
    let mut hidden: Vec<String> = Vec::new();
    let mut j: usize = 0;
    while j < kept.len()
        invariant
            j <= kept.len(),
            f == views(kept@),
            j <= max_visible ==> views(visible@) == f.take(j as int) && hidden@.len() == 0,
            j > max_visible ==> views(visible@) == f.take(max_visible as int) && views(hidden@)
                == f.subrange(max_visible as int, j as int),
        decreases kept.len() - j,
    {
        if j < max_visible {
            visible.push(kept[j].clone());
            assert(views(visible@) =~= f.take(j + 1));
        } else {
            hidden.push(kept[j].clone());
            assert(views(hidden@) =~= f.subrange(max_visible as int, j + 1));
        }
        j += 1;
    }
    assert(f.take(kept.len() as int) =~= f);
    assert(f.subrange(max_visible as int, kept.len() as int) =~= f.skip(max_visible as int));
    assert(views(hidden@) =~= hidden_of(us, ex, max_visible as nat));
    (visible, hidden)
}

/// One list item linking a contributor's profile.
pub open spec fn item_html(u: Seq<char>) -> Seq<char> {
    "<li><a href=\"https://github.com/"@ + u + "\">"@ + u + "</a></li>\n"@
}

pub open spec fn items_html(us: Seq<Seq<char>>) -> Seq<char>
    decreases us.len(),
{
    if us.len() == 0 {
        Seq::empty()
    } else {
        items_html(us.drop_last()) + item_html(us.last())
    }
}

pub open spec fn list_html(us: Seq<Seq<char>>) -> Seq<char> {
    "<ul class=\"gitinfo-contributors-list\">\n"@ + items_html(us) + "</ul>\n"@
}

/// The HTML of a roster.
pub open spec fn roster_html(
    title: Seq<char>,
    message: Option<Seq<char>>,
    visible: Seq<Seq<char>>,
    hidden: Seq<Seq<char>>,
) -> Seq<char> {
    "<div class=\"gitinfo-contributors\">\n<h2>"@ + title + "</h2>\n"@ + match message {
        Some(m) => "<p>"@ + m + "</p>\n"@,
        None => Seq::empty(),
    } + list_html(visible) + if hidden.len() == 0 {
        Seq::<char>::empty()
    } else {
        "<details><summary>More contributors</summary>\n"@ + list_html(hidden) + "</details>\n"@
    } + "</div>\n"@
}

fn push_list(out: &mut String, us: &Vec<String>)
    ensures
        final(out)@ == old(out)@ + list_html(views(us@)),
{
    push_str(out, "<ul class=\"gitinfo-contributors-list\">\n");
    let ghost start = out@;
    let mut i: usize = 0;
    while i < us.len()
        invariant
            i <= us.len(),
            out@ == start + items_html(views(us@).take(i as int)),
        decreases us.len() - i,
    {
        assert(views(us@).take(i + 1).drop_last() =~= views(us@).take(i as int));
        push_str(out, "<li><a href=\"https://github.com/");
        push_str(out, us[i].as_str());
        push_str(out, "\">");
        push_str(out, us[i].as_str());
        push_str(out, "</a></li>\n");
        assert(out@ =~= start + items_html(views(us@).take(i + 1)));
        i += 1;
    }
    assert(views(us@).take(us.len() as int) =~= views(us@));
    push_str(out, "</ul>\n");
}

/// Renders a roster from its visible and hidden names.
pub fn render_roster(
    title: &str,
    message: &Option<String>,
    visible: &Vec<String>,
    hidden: &Vec<String>,
) -> (r: String)
    ensures
        r@ == roster_html(title@, opt_view(*message), views(visible@), views(hidden@)),
{
    let mut s = String::new();
    push_str(&mut s, "<div class=\"gitinfo-contributors\">\n<h2>");
    push_str(&mut s, title);
    push_str(&mut s, "</h2>\n");
    let ghost a = s@;
    match message {
        Some(m) => {
            push_str(&mut s, "<p>");
            push_str(&mut s, m.as_str());
            push_str(&mut s, "</p>\n");
        },
        None => {},
    }
    let ghost b = s@;
    push_list(&mut s, visible);
    let ghost c = s@;
    if hidden.len() > 0 {
        push_str(&mut s, "<details><summary>More contributors</summary>\n");
        push_list(&mut s, hidden);
        push_str(&mut s, "</details>\n");
    }
    let ghost d = s@;
    push_str(&mut s, "</div>\n");
    assert(s@ =~= roster_html(title@, opt_view(*message), views(visible@), views(hidden@)));
    s
}

/// The roster HTML for a list of names under a style.
pub open spec fn roster_for(style: RosterStyle, users: Seq<Seq<char>>) -> Seq<char> {
    let ex = views(style.exclude@);
    roster_html(
        style.title@,
        opt_view(style.message),
        visible_of(users, ex, style.max_visible as nat),
        hidden_of(users, ex, style.max_visible as nat),
    )
}

/// Excludes, splits and renders a list of names.
pub fn build_roster_html(style: &RosterStyle, users: &Vec<String>) -> (r: String)
    ensures
        r@ == roster_for(*style, views(users@)),
{
    let (visible, hidden) = split_roster(users, &style.exclude, style.max_visible);
    render_roster(style.title.as_str(), &style.message, &visible, &hidden)
}

/// The handle on one line of a contributors file: the trimmed line without
/// a leading `- ` or `* ` list marker; blank lines give none.
pub open spec fn file_entry(l: Seq<char>) -> Option<Seq<char>> {
    let t = trim(l);
    if t.len() == 0 {
        None
    } else if t.len() >= 2 && (t[0] == '-' || t[0] == '*') && t[1] == ' ' {
        Some(trim(t.skip(2)))
    } else {
        Some(trim(t))
    }
}

/// The handles of a contributors file, in file order.
pub open spec fn file_entries(ls: Seq<Seq<char>>) -> Seq<Seq<char>>
    decreases ls.len(),
{
    if ls.len() == 0 {
        Seq::empty()
    } else {
        let rest = file_entries(ls.drop_last());
        match file_entry(ls.last()) {
            Some(h) => rest.push(h),
            None => rest,
        }
    }
}

/// Reads the handles of a contributors file, one per non-blank line.
pub fn parse_contributors_list(raw: &str) -> (r: Vec<String>)
    ensures
        views(r@) == file_entries(lines(raw@)),
{
    let v = to_chars(raw);
    let ls = split_lines(&v);
    let ghost lv = ls@.map_values(|l: Vec<char>| l@);
    let mut r: Vec<String> = Vec::new();
    let mut i: usize = 0;
    assert(views(r@) =~= Seq::<Seq<char>>::empty());
    assert(lv.take(0) =~= Seq::<Seq<char>>::empty());
    while i < ls.len()
        invariant
            i <= ls.len(),
            lv == ls@.map_values(|l: Vec<char>| l@),
            views(r@) == file_entries(lv.take(i as int)),
        decreases ls.len() - i,
    {
        assert(lv.take(i + 1).drop_last() =~= lv.take(i as int));
        assert(lv.take(i + 1).last() == ls@[i as int]@);
        let l = &ls[i];
        assert(l@.subrange(0, l.len() as int) =~= l@);
        let (a, b) = trim_range(l, 0, l.len());
        if a < b {
            let ghost t = l@.subrange(a as int, b as int);
            let start = if b - a >= 2 && (l[a] == '-' || l[a] == '*') && l[a + 1] == ' ' {
                assert(t.skip(2) =~= l@.subrange(a + 2, b as int));
                a + 2
            } else {
                a
            };
            let (c, d) = trim_range(l, start, b);
            let ghost before = r@;
            let h = string_of(l, c, d);
            r.push(h);
            proof {
                lemma_views_push(before, h);
            }
        }
        i += 1;
    }
    assert(lv.take(ls.len() as int) =~= lv);
    r
}

} // verus!
