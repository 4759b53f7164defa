//! Placeholder substitution in message templates, and the HTML around the
//! rendered header and footer.

use vstd::prelude::*;
use crate::text::{push_str, to_chars};

verus! {

/// The placeholders, in the order of `render`'s values: short hash, long
/// hash, tag, date, separator, branch.
pub open spec fn placeholder(k: int) -> Seq<char> {
    if k == 0 {
        seq!['{', '{', 'h', 'a', 's', 'h', '}', '}']
    } else if k == 1 {
        seq!['{', '{', 'l', 'o', 'n', 'g', '}', '}']
    } else if k == 2 {
        seq!['{', '{', 't', 'a', 'g', '}', '}']
    } else if k == 3 {
        seq!['{', '{', 'd', 'a', 't', 'e', '}', '}']
    } else if k == 4 {
        seq!['{', '{', 's', 'e', 'p', '}', '}']
    } else {
        seq!['{', '{', 'b', 'r', 'a', 'n', 'c', 'h', '}', '}']
    }
}

pub open spec fn starts_with(s: Seq<char>, p: Seq<char>) -> bool {
    p.len() <= s.len() && s.take(p.len() as int) == p
}

/// The placeholder that `t` starts with, or -1.
pub open spec fn placeholder_at(t: Seq<char>) -> int {
    if starts_with(t, placeholder(0)) {
        0
    } else if starts_with(t, placeholder(1)) {
        1
    } else if starts_with(t, placeholder(2)) {
        2
    } else if starts_with(t, placeholder(3)) {
        3
    } else if starts_with(t, placeholder(4)) {
        4
    } else if starts_with(t, placeholder(5)) {
        5
    } else {
        -1
    }
}

/// `t` with each placeholder replaced by its value, in one left-to-right
/// pass: a value is never scanned again.
#[verifier::opaque]
pub open spec fn render(t: Seq<char>, vals: Seq<Seq<char>>) -> Seq<char>
    decreases t.len(),
{
    if t.len() == 0 {
        Seq::empty()
    } else {
        let k = placeholder_at(t);
        if k >= 0 {
            vals[k] + render(t.skip(placeholder(k).len() as int), vals)
        } else {
            seq![t[0]] + render(t.skip(1), vals)
        }
    }
}

proof fn lemma_render_unfold(t: Seq<char>, vals: Seq<Seq<char>>)
    requires
        t.len() > 0,
    ensures
        placeholder_at(t) >= 0 ==> render(t, vals) == vals[placeholder_at(t)] + render(
            t.skip(placeholder(placeholder_at(t)).len() as int),
            vals,
        ),
        placeholder_at(t) < 0 ==> render(t, vals) == seq![t[0]] + render(t.skip(1), vals),
{
    reveal(render);
}

fn placeholder_exec(k: usize) -> (r: Vec<char>)
    requires
        k < 6,
    ensures
        r@ == placeholder(k as int),
{
    let r = if k == 0 {
        vec!['{', '{', 'h', 'a', 's', 'h', '}', '}']
    } else if k == 1 {
        vec!['{', '{', 'l', 'o', 'n', 'g', '}', '}']
    } else if k == 2 {
        vec!['{', '{', 't', 'a', 'g', '}', '}']
    } else if k == 3 {
        vec!['{', '{', 'd', 'a', 't', 'e', '}', '}']
    } else if k == 4 {
        vec!['{', '{', 's', 'e', 'p', '}', '}']
    } else {
        vec!['{', '{', 'b', 'r', 'a', 'n', 'c', 'h', '}', '}']
    };
    assert(r@ =~= placeholder(k as int));
    r
}

/// Whether `t[i..]` starts with `p`.
pub fn starts_at(t: &Vec<char>, i: usize, p: &Vec<char>) -> (r: bool)
    requires
        i <= t.len(),
    ensures
        r == starts_with(t@.skip(i as int), p@),
{
    if p.len() > t.len() - i {
        return false;
    }
    let mut j: usize = 0;
    while j < p.len()
        invariant
            j <= p.len(),
            i + p.len() <= t.len(),
            forall|m: int| 0 <= m < j ==> t@[i + m] == p@[m],
        decreases p.len() - j,
    {
        if t[i + j] != p[j] {
            assert(t@.skip(i as int).take(p.len() as int)[j as int] != p@[j as int]);
            return false;
        }
        j += 1;
    }
    assert(t@.skip(i as int).take(p.len() as int) =~= p@);
    true
}

fn placeholder_at_exec(t: &Vec<char>, i: usize, ps: &Vec<Vec<char>>) -> (r: usize)
    requires
        i <= t.len(),
        ps.len() == 6,
        forall|k: int| 0 <= k < 6 ==> (#[trigger] ps@[k])@ == placeholder(k),
    ensures
        r <= 6,
        r < 6 ==> r as int == placeholder_at(t@.skip(i as int)),
        r == 6 ==> placeholder_at(t@.skip(i as int)) == -1,
{
    let mut k: usize = 0;
    while k < 6
        invariant
            k <= 6,
            i <= t.len(),
            ps.len() == 6,
            forall|k: int| 0 <= k < 6 ==> (#[trigger] ps@[k])@ == placeholder(k),
            forall|m: int| 0 <= m < k ==> !starts_with(t@.skip(i as int), placeholder(m)),
        decreases 6 - k,
    {
        if starts_at(t, i, &ps[k]) {
            return k;
        }
        k += 1;
    }
    6
}

/// Replaces the placeholders `{{hash}}`, `{{long}}`, `{{tag}}`, `{{date}}`,
/// `{{sep}}` and `{{branch}}` in `template`; anything else is kept.
pub fn render_template(
    template: &str,
    hash: &str,
    long_hash: &str,
    tag: &str,
    date: &str,
    sep: &str,
    branch: &str,
) -> (r: String)
    ensures
        r@ == render(template@, seq![hash@, long_hash@, tag@, date@, sep@, branch@]),
{
    let ghost vals = seq![hash@, long_hash@, tag@, date@, sep@, branch@];
    let t = to_chars(template);
    let mut ps: Vec<Vec<char>> = Vec::new();
    let mut k: usize = 0;
    while k < 6
        invariant
            k <= 6,
            ps.len() == k,
            forall|m: int| 0 <= m < k ==> (#[trigger] ps@[m])@ == placeholder(m),
        decreases 6 - k,
    {
        ps.push(placeholder_exec(k));
        k += 1;
    }
    let mut out = String::new();
    let mut i: usize = 0;
    assert(t@.skip(0) =~= t@);
    assert(vals[0] == hash@ && vals[1] == long_hash@ && vals[2] == tag@ && vals[3] == date@
        && vals[4] == sep@ && vals[5] == branch@);
    while i < t.len()
        invariant
            i <= t.len(),
            t@ == template@,
            vals.len() == 6,
            vals[0] == hash@ && vals[1] == long_hash@ && vals[2] == tag@ && vals[3] == date@
                && vals[4] == sep@ && vals[5] == branch@,
            ps.len() == 6,
            forall|m: int| 0 <= m < 6 ==> (#[trigger] ps@[m])@ == placeholder(m),
            render(t@, vals) == out@ + render(t@.skip(i as int), vals),
        decreases t.len() - i,
    {
        let ghost rest = t@.skip(i as int);
        proof {
            lemma_render_unfold(rest, vals);
        }
        let k = placeholder_at_exec(&t, i, &ps);
        if k < 6 {
            let v = if k == 0 {
                hash
            } else if k == 1 {
                long_hash
            } else if k == 2 {
                tag
            } else if k == 3 {
                date
            } else if k == 4 {
                sep
            } else {
                branch
            };
            assert(v@ == vals[k as int]);
            let n = ps[k].len();
            assert(rest.skip(n as int) =~= t@.skip(i + n));
            push_str(&mut out, v);
            i = i + n;
        } else {
            assert(rest.skip(1) =~= t@.skip(i + 1));
            let mut one = String::new();
            crate::text::push_char(&mut one, t[i]);
            push_str(&mut out, one.as_str());
            i = i + 1;
        }
    }
    assert(t@.skip(i as int) =~= Seq::<char>::empty());
    proof {
        reveal(render);
    }
    out
}

/// Every `{{` in `t` starts a recognised placeholder.
pub open spec fn opens_only_placeholders(t: Seq<char>) -> bool {
    forall|i: int|
        0 <= i < t.len() - 1 && t[i] == '{' && t[i + 1] == '{' ==> placeholder_at(
            #[trigger] t.skip(i),
        ) >= 0
}

/// No `{` in `s`.
pub open spec fn no_open_brace(s: Seq<char>) -> bool {
    forall|i: int| 0 <= i < s.len() ==> s[i] != '{'
}

/// No `{{` in `s`.
pub open spec fn no_double_brace(s: Seq<char>) -> bool {
    forall|i: int| 0 <= i < s.len() - 1 ==> !(#[trigger] s[i] == '{' && s[i + 1] == '{')
}

proof fn lemma_placeholder_starts_open(x: Seq<char>)
    requires
        placeholder_at(x) >= 0,
    ensures
        x.len() > 0 && x[0] == '{',
{
    let p = placeholder(placeholder_at(x));
    assert(x.take(p.len() as int)[0] == p[0]);
}

proof fn lemma_render_no_double(t: Seq<char>, vals: Seq<Seq<char>>)
    requires
        opens_only_placeholders(t),
        vals.len() == 6,
        forall|k: int| 0 <= k < 6 ==> no_open_brace(#[trigger] vals[k]),
    ensures
        no_double_brace(render(t, vals)),
    decreases t.len(),
{
    if t.len() == 0 {
        reveal(render);
    } else {
        lemma_render_unfold(t, vals);
        let k = placeholder_at(t);
        let n: int = if k >= 0 {
            placeholder(k).len() as int
        } else {
            1
        };
        let piece = if k >= 0 {
            vals[k]
        } else {
            seq![t[0]]
        };
        let rest = t.skip(n);
        assert forall|i: int|
            0 <= i < rest.len() - 1 && rest[i] == '{' && rest[i + 1] == '{' implies placeholder_at(
            #[trigger] rest.skip(i),
        ) >= 0 by {
            assert(rest.skip(i) =~= t.skip(i + n));
            assert(t[i + n] == rest[i] && t[i + n + 1] == rest[i + 1]);
        }
        lemma_render_no_double(rest, vals);
        let big_r = render(rest, vals);
        let r = render(t, vals);
        assert(r == piece + big_r);
        if k >= 0 {
            assert(no_open_brace(vals[k]));
        }
        assert forall|i: int| 0 <= i < r.len() - 1 implies !(#[trigger] r[i] == '{' && r[i + 1]
            == '{') by {
            let pl = piece.len() as int;
            if i + 1 < pl {
                assert(r[i] == piece[i]);
            } else if i >= pl {
                assert(r[i] == big_r[i - pl] && r[i + 1] == big_r[i - pl + 1]);
            } else if r[i] == '{' {
                assert(r[i] == piece[i]);
                assert(k < 0);
                assert(t[0] == '{');
                assert(rest.len() > 0) by {
                    if rest.len() == 0 {
                        reveal(render);
                    }
                };
                assert(rest[0] == t[1]);
                if t[1] == '{' {
                    assert(t.skip(0) =~= t);
                }
                assert(rest[0] != '{');
                if placeholder_at(rest) >= 0 {
                    lemma_placeholder_starts_open(rest);
                }
                lemma_render_unfold(rest, vals);
                assert(big_r[0] == rest[0]);
                assert(r[i + 1] == big_r[0]);
            }
        }
    }
}

/// A template in which no recognised placeholder occurs.
pub open spec fn no_placeholders(t: Seq<char>) -> bool {
    forall|i: int| 0 <= i <= t.len() ==> placeholder_at(#[trigger] t.skip(i)) == -1
}

/// Rendering a template in which every `{{` starts a recognised placeholder,
/// with values that hold no `{`, leaves no `{{` (so no placeholder) in the
/// result; and a template in which no recognised placeholder occurs
/// (`{{unknown}}`) comes back unchanged.
pub proof fn lemma_placeholder_completeness(t: Seq<char>, u: Seq<char>, vals: Seq<Seq<char>>)
    requires
        vals.len() == 6,
        forall|k: int| 0 <= k < 6 ==> no_open_brace(#[trigger] vals[k]),
    ensures
        opens_only_placeholders(t) ==> no_double_brace(render(t, vals)),
        no_placeholders(u) ==> render(u, vals) == u,
{
    if opens_only_placeholders(t) {
        lemma_render_no_double(t, vals);
    }
    if no_placeholders(u) {
        lemma_render_unchanged(u, vals);
    }
}

proof fn lemma_render_unchanged(u: Seq<char>, vals: Seq<Seq<char>>)
    requires
        no_placeholders(u),
    ensures
        render(u, vals) == u,
    decreases u.len(),
{
    reveal(render);
    if u.len() > 0 {
        assert(u.skip(0) == u);
        assert forall|i: int| 0 <= i <= u.skip(1).len() implies placeholder_at(
            #[trigger] u.skip(1).skip(i),
        ) == -1 by {
            assert(u.skip(1).skip(i) == u.skip(i + 1));
        }
        lemma_render_unchanged(u.skip(1), vals);
        assert(render(u, vals) =~= u);
    }
}

/// The inline style of a header or footer block.
pub open spec fn style_of(font_size: Seq<char>, align: Seq<char>, m: Seq<Seq<char>>) -> Seq<char> {
    "font-size:"@ + font_size + ";padding:4px;margin:"@ + m[0] + " "@ + m[1] + " "@ + m[2] + " "@
        + m[3] + ";text-align:"@ + align + ";display:block;"@
}

/// Builds the inline CSS of a block.
pub fn style_block(font_size: &str, align: &str, margin: &[String; 4]) -> (r: String)
    ensures
        r@ == style_of(font_size@, align@, crate::layout::sides(*margin)),
{
    let mut s = String::new();
    push_str(&mut s, "font-size:");
    push_str(&mut s, font_size);
    push_str(&mut s, ";padding:4px;margin:");
    push_str(&mut s, margin[0].as_str());
    push_str(&mut s, " ");
    push_str(&mut s, margin[1].as_str());
    push_str(&mut s, " ");
    push_str(&mut s, margin[2].as_str());
    push_str(&mut s, " ");
    push_str(&mut s, margin[3].as_str());
    push_str(&mut s, ";text-align:");
    push_str(&mut s, align);
    push_str(&mut s, ";display:block;");
    s
}

/// A header or footer element around `html`.
pub open spec fn block_of(is_header: bool, style: Seq<char>, html: Seq<char>) -> Seq<char> {
    if is_header {
        "<header class=\"gitinfo-header\" style=\""@ + style + "\">"@ + html + "</header>"@
    } else {
        "<footer class=\"gitinfo-footer\" style=\""@ + style + "\">"@ + html + "</footer>"@
    }
}

/// Wraps rendered HTML into a header or footer element.
pub fn wrap_block(is_header: bool, style: &str, html: &str) -> (r: String)
    ensures
        r@ == block_of(is_header, style@, html@),
{
    let mut s = String::new();
    if is_header {
        push_str(&mut s, "<header class=\"gitinfo-header\" style=\"");
    } else {
        push_str(&mut s, "<footer class=\"gitinfo-footer\" style=\"");
    }
    push_str(&mut s, style);
    push_str(&mut s, "\">");
    push_str(&mut s, html);
    if is_header {
        push_str(&mut s, "</header>");
    } else {
        push_str(&mut s, "</footer>");
    }
    s
}

} // verus!
