//! Replacement of `{% contributors %}` lines in page text, skipping fenced
//! and indented code.

use vstd::prelude::*;
use crate::config::ContributorsSource;
use crate::renderer::starts_with;
use crate::roster::{build_roster_html, roster_for, views, RosterStyle};
use crate::text::{is_space, is_space_exec, push_str, string_of, to_chars, trim, trim_end, trim_start};

verus! {

/// Where the scanner is: in ordinary text, or inside a fence opened by a
/// run of `len` copies of `ch`.
#[derive(Clone, Copy, Debug, PartialEq, Eq, Structural)]
pub enum FenceState {
    Normal,
    InFence(char, usize),
}

/// The lines of `s` after the partial line `cur`, each with its `\n`; a
/// last line without `\n` is kept.
pub open spec fn lines_from(s: Seq<char>, cur: Seq<char>) -> Seq<Seq<char>>
    decreases s.len(),
{
    if s.len() == 0 {
        if cur.len() > 0 {
            seq![cur]
        } else {
            Seq::empty()
        }
    } else if s[0] == '\n' {
        seq![cur.push('\n')] + lines_from(s.skip(1), Seq::empty())
    } else {
        lines_from(s.skip(1), cur.push(s[0]))
    }
}

/// The lines of `s`, each with its line terminator.
pub open spec fn lines(s: Seq<char>) -> Seq<Seq<char>> {
    lines_from(s, Seq::empty())
}

/// The words of `s` after the partial word `cur`, split at whitespace.
pub open spec fn words_from(s: Seq<char>, cur: Seq<char>) -> Seq<Seq<char>>
    decreases s.len(),
{
    let done = if cur.len() > 0 {
        seq![cur]
    } else {
        Seq::empty()
    };
    if s.len() == 0 {
        done
    } else if is_space(s[0]) {
        done + words_from(s.skip(1), Seq::empty())
    } else {
        words_from(s.skip(1), cur.push(s[0]))
    }
}

/// The whitespace-separated words of `s`.
pub open spec fn words(s: Seq<char>) -> Seq<Seq<char>> {
    words_from(s, Seq::empty())
}

/// `s` without its leading spaces and tabs.
pub open spec fn strip_blanks(s: Seq<char>) -> Seq<char>
    decreases s.len(),
{
    if s.len() > 0 && (s[0] == ' ' || s[0] == '\t') {
        strip_blanks(s.skip(1))
    } else {
        s
    }
}

/// How many copies of `c` start `s`.
pub open spec fn run_len(s: Seq<char>, c: char) -> nat
    decreases s.len(),
{
    if s.len() > 0 && s[0] == c {
        1 + run_len(s.skip(1), c)
    } else {
        0
    }
}

/// The fence that a line opens or closes: three or more backticks or tildes
/// after leading blanks.
pub open spec fn fence_of(line: Seq<char>) -> Option<(char, nat)> {
    let t = strip_blanks(line);
    if t.len() > 0 && (t[0] == '`' || t[0] == '~') && run_len(t, t[0]) >= 3 {
        Some((t[0], run_len(t, t[0])))
    } else {
        None
    }
}

/// A line of an indented code block.
pub open spec fn indented(line: Seq<char>) -> bool {
    (line.len() > 0 && line[0] == '\t') || (line.len() >= 4 && line[0] == ' ' && line[1] == ' '
        && line[2] == ' ' && line[3] == ' ')
}

/// `s` without any number of leading `{%`.
pub open spec fn strip_open(s: Seq<char>) -> Seq<char>
    decreases s.len(),
{
    if s.len() >= 2 && s[0] == '{' && s[1] == '%' {
        strip_open(s.skip(2))
    } else {
        s
    }
}

/// `s` without any number of trailing `%}`.
pub open spec fn strip_close(s: Seq<char>) -> Seq<char>
    decreases s.len(),
{
    if s.len() >= 2 && s[s.len() - 2] == '%' && s[s.len() - 1] == '}' {
        strip_close(s.take(s.len() - 2))
    } else {
        s
    }
}

pub open spec fn keyword() -> Seq<char> {
    seq!['c', 'o', 'n', 't', 'r', 'i', 'b', 'u', 't', 'o', 'r', 's']
}

/// The text between the delimiters of a line that is a roster token, if it is one.
pub open spec fn token_inner(line: Seq<char>) -> Option<Seq<char>> {
    let t = trim(line);
    let inner = trim(strip_close(strip_open(t)));
    if t.len() >= 2 && t[0] == '{' && t[1] == '%' && t[t.len() - 2] == '%' && t[t.len() - 1]
        == '}' && starts_with(inner, keyword()) {
        Some(inner)
    } else {
        None
    }
}

/// What replaces the tokens of a page: the source mode, the roster HTML
/// computed once for the run, and the style for inline lists (none when
/// rosters are disabled).
pub struct TokenContext {
    pub source: ContributorsSource,
    pub global_html: String,
    pub inline: Option<RosterStyle>,
}

/// The HTML of one token with the given arguments.
pub open spec fn token_html(ctx: TokenContext, args: Seq<Seq<char>>) -> Seq<char> {
    match ctx.source {
        ContributorsSource::Inline => match ctx.inline {
            Some(style) => if args.len() > 0 {
                roster_for(style, args)
            } else {
                Seq::empty()
            },
            None => Seq::empty(),
        },
        _ => ctx.global_html@,
    }
}

/// The words after the first.
pub open spec fn rest_words(ws: Seq<Seq<char>>) -> Seq<Seq<char>> {
    if ws.len() > 0 {
        ws.skip(1)
    } else {
        ws
    }
}

/// What a token line becomes: its HTML as a raw block between blank lines.
pub open spec fn replacement(ctx: TokenContext, inner: Seq<char>) -> Seq<char> {
    seq!['\n'] + trim(token_html(ctx, rest_words(words(inner)))) + seq!['\n', '\n']
}

/// One line of the scan: the next state and the text emitted for the line.
pub open spec fn step(st: FenceState, line: Seq<char>, ctx: TokenContext) -> (FenceState, Seq<char>) {
    match (st, fence_of(line)) {
        (FenceState::Normal, Some((c, n))) => (FenceState::InFence(c, n as usize), line),
        (FenceState::InFence(fc, fl), Some((c, n))) if c == fc && n >= fl => (
            FenceState::Normal,
            line,
        ),
        (FenceState::InFence(_, _), _) => (st, line),
        _ => if indented(line) {
            (st, line)
        } else {
            match token_inner(line) {
                Some(inner) => (st, replacement(ctx, inner)),
                None => (st, line),
            }
        },
    }
}

/// The text that a sequence of lines becomes from state `st`.
pub open spec fn scan(ls: Seq<Seq<char>>, st: FenceState, ctx: TokenContext) -> Seq<char>
    decreases ls.len(),
{
    if ls.len() == 0 {
        Seq::empty()
    } else {
        let (next, out) = step(st, ls[0], ctx);
        out + scan(ls.skip(1), next, ctx)
    }
}

/// The lines of `v`, as `str::split_inclusive('\n')` gives them.
pub fn split_lines(v: &Vec<char>) -> (r: Vec<Vec<char>>)
    ensures
        r@.map_values(|l: Vec<char>| l@) == lines(v@),
{
    let mut r: Vec<Vec<char>> = Vec::new();
    let mut cur: Vec<char> = Vec::new();
    let mut i: usize = 0;
    assert(v@.skip(0) =~= v@);
    assert(r@.map_values(|l: Vec<char>| l@) =~= Seq::<Seq<char>>::empty());
    while i < v.len()
        invariant
            i <= v.len(),
            lines(v@) == r@.map_values(|l: Vec<char>| l@) + lines_from(v@.skip(i as int), cur@),
        decreases v.len() - i,
    {
        let ghost rest = v@.skip(i as int);
        assert(rest.skip(1) =~= v@.skip(i + 1));
        let c = v[i];
        cur.push(c);
        if c == '\n' {
            let ghost before = r@.map_values(|l: Vec<char>| l@);
            let line = cur;
            cur = Vec::new();
            r.push(line);
            assert(r@.map_values(|l: Vec<char>| l@) =~= before + seq![line@]);
            assert(lines_from(rest, line@.drop_last()) == seq![line@] + lines_from(
                v@.skip(i + 1),
                Seq::empty(),
            )) by {
                assert(line@.drop_last().push('\n') =~= line@);
            }
            assert(line@.drop_last().push('\n') =~= line@);
        }
        i += 1;
    }
    if cur.len() > 0 {
        let ghost before = r@.map_values(|l: Vec<char>| l@);
        r.push(cur);
        assert(r@.map_values(|l: Vec<char>| l@) =~= before + seq![r@.last()@]);
    } else {
        assert(r@.map_values(|l: Vec<char>| l@) =~= r@.map_values(|l: Vec<char>| l@) + Seq::<
            Seq<char>,
        >::empty());
    }
    r
}

/// The index after the leading blanks of `l`.
fn strip_blanks_exec(l: &Vec<char>) -> (r: usize)
    ensures
        r <= l.len(),
        l@.skip(r as int) == strip_blanks(l@),
{
    let mut i: usize = 0;
    assert(l@.skip(0) =~= l@);
    while i < l.len() && (l[i] == ' ' || l[i] == '\t')
        invariant
            i <= l.len(),
            strip_blanks(l@) == strip_blanks(l@.skip(i as int)),
        decreases l.len() - i,
    {
        assert(l@.skip(i as int).skip(1) =~= l@.skip(i + 1));
        i += 1;
    }
    i
}

/// The number of copies of `c` at `l[i..]`.
fn run_len_exec(l: &Vec<char>, i: usize, c: char) -> (r: usize)
    requires
        i <= l.len(),
    ensures
        r == run_len(l@.skip(i as int), c),
{
    let mut j: usize = i;
    while j < l.len() && l[j] == c
        invariant
            i <= j <= l.len(),
            run_len(l@.skip(i as int), c) == (j - i) + run_len(l@.skip(j as int), c),
        decreases l.len() - j,
    {
        assert(l@.skip(j as int).skip(1) =~= l@.skip(j + 1));
        j += 1;
    }
    j - i
}

/// The fence that `l` opens or closes.
fn fence_exec(l: &Vec<char>) -> (r: Option<(char, usize)>)
    ensures
        match r {
            Some((c, n)) => fence_of(l@) == Some((c, n as nat)),
            None => fence_of(l@) is None,
        },
{
    let i = strip_blanks_exec(l);
    if i < l.len() && (l[i] == '`' || l[i] == '~') {
        let n = run_len_exec(l, i, l[i]);
        if n >= 3 {
            return Some((l[i], n));
        }
    }
    None
}

/// The bounds of `v[lo..hi]` with whitespace trimmed at both ends.
pub fn trim_range(v: &Vec<char>, lo: usize, hi: usize) -> (r: (usize, usize))
    requires
        lo <= hi <= v.len(),
    ensures
        lo <= r.0 <= r.1 <= hi,
        v@.subrange(r.0 as int, r.1 as int) == trim(v@.subrange(lo as int, hi as int)),
{
    let mut a: usize = lo;
    while a < hi && is_space_exec(v[a])
        invariant
            lo <= a <= hi <= v.len(),
            trim_start(v@.subrange(lo as int, hi as int)) == trim_start(
                v@.subrange(a as int, hi as int),
            ),
        decreases hi - a,
    {
        assert(v@.subrange(a as int, hi as int).skip(1) =~= v@.subrange(a + 1, hi as int));
        a += 1;
    }
    let mut b: usize = hi;
    while b > a && is_space_exec(v[b - 1])
        invariant
            lo <= a <= b <= hi <= v.len(),
            trim_end(v@.subrange(a as int, hi as int)) == trim_end(v@.subrange(a as int, b as int)),
        decreases b - a,
    {
        assert(v@.subrange(a as int, b as int).drop_last() =~= v@.subrange(a as int, b - 1));
        b -= 1;
    }
    (a, b)
}

/// Bounds of the text of `v[lo..hi]` between any leading `{%` and trailing `%}`.
fn strip_delims(v: &Vec<char>, lo: usize, hi: usize) -> (r: (usize, usize))
    requires
        lo <= hi <= v.len(),
    ensures
        lo <= r.0 <= r.1 <= hi,
        v@.subrange(r.0 as int, r.1 as int) == strip_close(
            strip_open(v@.subrange(lo as int, hi as int)),
        ),
{
    let mut a: usize = lo;
    while hi - a >= 2 && v[a] == '{' && v[a + 1] == '%'
        invariant
            lo <= a <= hi <= v.len(),
            strip_open(v@.subrange(lo as int, hi as int)) == strip_open(
                v@.subrange(a as int, hi as int),
            ),
        decreases hi - a,
    {
        assert(v@.subrange(a as int, hi as int).skip(2) =~= v@.subrange(a + 2, hi as int));
        a += 2;
    }
    let mut b: usize = hi;
    while b - a >= 2 && v[b - 2] == '%' && v[b - 1] == '}'
        invariant
            lo <= a <= b <= hi <= v.len(),
            strip_close(v@.subrange(a as int, hi as int)) == strip_close(
                v@.subrange(a as int, b as int),
            ),
        decreases b - a,
    {
        assert(v@.subrange(a as int, b as int).take(b - a - 2) =~= v@.subrange(a as int, b - 2));
        b -= 2;
    }
    (a, b)
}

/// The whitespace-separated words of `v[lo..hi]`.
pub fn words_range(v: &Vec<char>, lo: usize, hi: usize) -> (r: Vec<String>)
    requires
        lo <= hi <= v.len(),
    ensures
        views(r@) == words(v@.subrange(lo as int, hi as int)),
{
    let mut r: Vec<String> = Vec::new();
    let mut start: usize = lo;
    let mut i: usize = lo;
    assert(views(r@) =~= Seq::<Seq<char>>::empty());
    assert(v@.subrange(lo as int, lo as int) =~= Seq::<char>::empty());
    while i < hi
        invariant
            lo <= start <= i <= hi <= v.len(),
            words(v@.subrange(lo as int, hi as int)) == views(r@) + words_from(
                v@.subrange(i as int, hi as int),
                v@.subrange(start as int, i as int),
            ),
        decreases hi - i,
    {
        let ghost rest = v@.subrange(i as int, hi as int);
        assert(rest.skip(1) =~= v@.subrange(i + 1, hi as int));
        if is_space_exec(v[i]) {
            if start < i {
                let ghost before = views(r@);
                r.push(string_of(v, start, i));
                assert(views(r@) =~= before + seq![v@.subrange(start as int, i as int)]);
            } else {
                assert(views(r@) =~= views(r@) + Seq::<Seq<char>>::empty());
            }
            start = i + 1;
            assert(v@.subrange(start as int, i + 1) =~= Seq::<char>::empty());
        } else {
            assert(v@.subrange(start as int, i + 1) =~= v@.subrange(start as int, i as int).push(
                v@[i as int],
            ));
        }
        i += 1;
    }
    if start < hi {
        let ghost before = views(r@);
        r.push(string_of(v, start, hi));
        assert(views(r@) =~= before + seq![v@.subrange(start as int, hi as int)]);
    } else {
        assert(views(r@) =~= views(r@) + Seq::<Seq<char>>::empty());
    }
    r
}

/// Whether `v[lo..hi]` starts with the roster keyword.
fn starts_with_keyword(v: &Vec<char>, lo: usize, hi: usize) -> (r: bool)
    requires
        lo <= hi <= v.len(),
    ensures
        r == starts_with(v@.subrange(lo as int, hi as int), keyword()),
{
    let kw = vec!['c', 'o', 'n', 't', 'r', 'i', 'b', 'u', 't', 'o', 'r', 's'];
    assert(kw@ =~= keyword());
    if hi - lo < 12 {
        return false;
    }
    let mut j: usize = 0;
    while j < 12
        invariant
            j <= 12,
            lo + 12 <= hi <= v.len(),
            kw@ == keyword(),
            forall|m: int| 0 <= m < j ==> v@[lo + m] == kw@[m],
        decreases 12 - j,
    {
        if v[lo + j] != kw[j] {
            assert(v@.subrange(lo as int, hi as int).take(12)[j as int] != keyword()[j as int]);
            return false;
        }
        j += 1;
    }
    assert(v@.subrange(lo as int, hi as int).take(12) =~= keyword());
    true
}

/// Bounds of the inner text of a roster token line.
fn token_inner_exec(l: &Vec<char>) -> (r: Option<(usize, usize)>)
    ensures
        match r {
            Some((e, f)) => e <= f <= l.len() && token_inner(l@) == Some(
                l@.subrange(e as int, f as int),
            ),
            None => token_inner(l@) is None,
        },
{
    assert(l@.subrange(0, l.len() as int) =~= l@);
    let (a, b) = trim_range(l, 0, l.len());
    let ghost t = l@.subrange(a as int, b as int);
    let (c, d) = strip_delims(l, a, b);
    let (e, f) = trim_range(l, c, d);
    if b - a >= 2 && l[a] == '{' && l[a + 1] == '%' && l[b - 2] == '%' && l[b - 1] == '}' {
        assert(t[0] == '{' && t[1] == '%' && t[t.len() - 2] == '%' && t[t.len() - 1] == '}');
        if starts_with_keyword(l, e, f) {
            return Some((e, f));
        }
    } else {
        assert(!(t.len() >= 2 && t[0] == '{' && t[1] == '%' && t[t.len() - 2] == '%' && t[t.len()
            - 1] == '}'));
    }
    None
}

/// The HTML of one token with the given arguments.
fn token_html_exec(ctx: &TokenContext, args: &Vec<String>) -> (r: String)
    ensures
        r@ == token_html(*ctx, views(args@)),
{
    match ctx.source {
        ContributorsSource::Inline => match &ctx.inline {
            Some(style) => if args.len() > 0 {
                build_roster_html(style, args)
            } else {
                String::new()
            },
            None => String::new(),
        },
        _ => ctx.global_html.clone(),
    }
}

/// The text emitted for a token line.
fn replacement_exec(ctx: &TokenContext, l: &Vec<char>, e: usize, f: usize) -> (r: String)
    requires
        e <= f <= l.len(),
    ensures
        r@ == replacement(*ctx, l@.subrange(e as int, f as int)),
{
    let ws = words_range(l, e, f);
    let mut args: Vec<String> = Vec::new();
    if ws.len() > 0 {
        let mut k: usize = 1;
        assert(views(args@) =~= views(ws@).subrange(1, 1));
        while k < ws.len()
            invariant
                1 <= k <= ws.len(),
                views(args@) == views(ws@).subrange(1, k as int),
            decreases ws.len() - k,
        {
            let ghost before = args@;
            let w = ws[k].clone();
            assert(w@ == ws@[k as int]@);
            args.push(w);
            assert(args@ == before.push(w));
            proof {
                crate::roster::lemma_views_push(before, w);
            }
            assert(views(ws@)[k as int] == w@);
            assert(views(args@) =~= views(ws@).subrange(1, k + 1));
            k += 1;
        }
        assert(views(ws@).subrange(1, ws.len() as int) =~= rest_words(views(ws@)));
    } else {
        assert(views(args@) =~= rest_words(views(ws@)));
    }
    let html = token_html_exec(ctx, &args);
    let hv = to_chars(html.as_str());
    let (a, b) = trim_range(&hv, 0, hv.len());
    assert(hv@.subrange(0, hv.len() as int) =~= hv@);
    let mut out = String::new();
    push_str(&mut out, "\n");
    let trimmed = string_of(&hv, a, b);
    push_str(&mut out, trimmed.as_str());
    push_str(&mut out, "\n\n");
    proof {
        reveal_strlit("\n");
        reveal_strlit("\n\n");
    }
    assert(out@ =~= replacement(*ctx, l@.subrange(e as int, f as int)));
    out
}

/// One line of the scan.
fn step_exec(st: FenceState, l: &Vec<char>, ctx: &TokenContext) -> (r: (FenceState, String))
    ensures
        (r.0, r.1@) == step(st, l@, *ctx),
{
    assert(l@.subrange(0, l.len() as int) =~= l@);
    match fence_exec(l) {
        Some((c, n)) => match st {
            FenceState::Normal => {
                return (FenceState::InFence(c, n), string_of(l, 0, l.len()));
            },
            FenceState::InFence(fc, fl) => {
                if c == fc && n >= fl {
                    return (FenceState::Normal, string_of(l, 0, l.len()));
                }
            },
        },
        None => {},
    }
    if let FenceState::InFence(_, _) = st {
        return (st, string_of(l, 0, l.len()));
    }
    if (l.len() > 0 && l[0] == '\t') || (l.len() >= 4 && l[0] == ' ' && l[1] == ' ' && l[2] == ' '
        && l[3] == ' ') {
        return (st, string_of(l, 0, l.len()));
    }
    match token_inner_exec(l) {
        Some((e, f)) => (st, replacement_exec(ctx, l, e, f)),
        None => (st, string_of(l, 0, l.len())),
    }
}

/// The page text with every `{% contributors %}` line outside code replaced
/// by its roster HTML.
pub fn replace_contributors_tokens(input: &str, ctx: &TokenContext) -> (r: String)
    ensures
        r@ == scan(lines(input@), FenceState::Normal, *ctx),
{
    let v = to_chars(input);
    let ls = split_lines(&v);
    let ghost lv = ls@.map_values(|l: Vec<char>| l@);
    let mut out = String::new();
    let mut st = FenceState::Normal;
    let mut i: usize = 0;
    assert(lv.skip(0) =~= lv);
    while i < ls.len()
        invariant
            i <= ls.len(),
            lv == ls@.map_values(|l: Vec<char>| l@),
            lv == lines(input@),
            scan(lv, FenceState::Normal, *ctx) == out@ + scan(lv.skip(i as int), st, *ctx),
        decreases ls.len() - i,
    {
        assert(lv.skip(i as int).skip(1) =~= lv.skip(i + 1));
        assert(lv.skip(i as int)[0] == ls@[i as int]@);
        let (next, piece) = step_exec(st, &ls[i], ctx);
        push_str(&mut out, piece.as_str());
        st = next;
        i += 1;
    }
    assert(lv.skip(i as int) =~= Seq::<Seq<char>>::empty());
    assert(out@ =~= out@ + Seq::<char>::empty());
    out
}

/// Why a roster token deserves a warning.
#[derive(Clone, Copy, Debug, PartialEq, Eq, Structural)]
pub enum TokenWarning {
    /// The source is inline but the token names nobody.
    InlineWithoutNames,
    /// The token names contributors, which a non-inline source ignores.
    ArgumentsIgnored,
}

/// The warning that one line deserves in state `st`.
pub open spec fn line_warning(st: FenceState, line: Seq<char>, ctx: TokenContext) -> Option<
    TokenWarning,
> {
    if st == FenceState::Normal && fence_of(line) is None && !indented(line) && token_inner(line) is Some {
        let args = rest_words(words(token_inner(line)->0));
        if ctx.source == ContributorsSource::Inline && args.len() == 0 {
            Some(TokenWarning::InlineWithoutNames)
        } else if ctx.source != ContributorsSource::Inline && args.len() > 0 {
            Some(TokenWarning::ArgumentsIgnored)
        } else {
            None
        }
    } else {
        None
    }
}

pub open spec fn opt_seq(o: Option<TokenWarning>) -> Seq<TokenWarning> {
    match o {
        Some(w) => seq![w],
        None => Seq::empty(),
    }
}

/// The warnings of a sequence of lines scanned from state `st`, in order.
pub open spec fn warnings(ls: Seq<Seq<char>>, st: FenceState, ctx: TokenContext) -> Seq<TokenWarning>
    decreases ls.len(),
{
    if ls.len() == 0 {
        Seq::empty()
    } else {
        opt_seq(line_warning(st, ls[0], ctx)) + warnings(ls.skip(1), step(st, ls[0], ctx).0, ctx)
    }
}

fn line_warning_exec(st: FenceState, l: &Vec<char>, ctx: &TokenContext) -> (r: Option<TokenWarning>)
    ensures
        r == line_warning(st, l@, *ctx),
{
    if st != FenceState::Normal {
        return None;
    }
    if let Some(_) = fence_exec(l) {
        return None;
    }
    if (l.len() > 0 && l[0] == '\t') || (l.len() >= 4 && l[0] == ' ' && l[1] == ' ' && l[2] == ' '
        && l[3] == ' ') {
        return None;
    }
    match token_inner_exec(l) {
        Some((e, f)) => {
            let ws = words_range(l, e, f);
            let n_args: usize = if ws.len() > 0 {
                ws.len() - 1
            } else {
                0
            };
            assert(n_args == rest_words(views(ws@)).len());
            if ctx.source == ContributorsSource::Inline && n_args == 0 {
                Some(TokenWarning::InlineWithoutNames)
            } else if ctx.source != ContributorsSource::Inline && n_args > 0 {
                Some(TokenWarning::ArgumentsIgnored)
            } else {
                None
            }
        },
        None => None,
    }
}

/// The warnings that the roster tokens of a page deserve, in page order:
/// tokens outside code that name nobody under the inline source, or that
/// name contributors under another source.
pub fn token_warnings(input: &str, ctx: &TokenContext) -> (r: Vec<TokenWarning>)
    ensures
        r@ == warnings(lines(input@), FenceState::Normal, *ctx),
{
    let v = to_chars(input);
    let ls = split_lines(&v);
    let ghost lv = ls@.map_values(|l: Vec<char>| l@);
    let mut out: Vec<TokenWarning> = Vec::new();
    let mut st = FenceState::Normal;
    let mut i: usize = 0;
    assert(lv.skip(0) =~= lv);
    assert(out@ =~= Seq::<TokenWarning>::empty());
    while i < ls.len()
        invariant
            i <= ls.len(),
            lv == ls@.map_values(|l: Vec<char>| l@),
            lv == lines(input@),
            warnings(lv, FenceState::Normal, *ctx) == out@ + warnings(lv.skip(i as int), st, *ctx),
        decreases ls.len() - i,
    {
        assert(lv.skip(i as int).skip(1) =~= lv.skip(i + 1));
        assert(lv.skip(i as int)[0] == ls@[i as int]@);
        let ghost before = out@;
        match line_warning_exec(st, &ls[i], ctx) {
            Some(w) => {
                out.push(w);
                assert(before + (seq![w] + warnings(lv.skip(i + 1), step(st, ls@[i as int]@, *ctx).0, *ctx))
                    =~= out@ + warnings(lv.skip(i + 1), step(st, ls@[i as int]@, *ctx).0, *ctx));
            },
            None => {
                assert(Seq::<TokenWarning>::empty() + warnings(lv.skip(i + 1), step(st, ls@[i as int]@, *ctx).0, *ctx)
                    =~= warnings(lv.skip(i + 1), step(st, ls@[i as int]@, *ctx).0, *ctx));
            },
        }
        let (next, _) = step_exec(st, &ls[i], ctx);
        st = next;
        i += 1;
    }
    assert(lv.skip(i as int) =~= Seq::<Seq<char>>::empty());
    assert(out@ + Seq::<TokenWarning>::empty() =~= out@);
    out
}

/// A single line: ends with its only `\n`.
pub open spec fn is_line(a: Seq<char>) -> bool {
    a.len() > 0 && a.last() == '\n' && forall|i: int| 0 <= i < a.len() - 1 ==> a[i] != '\n'
}

pub(crate) proof fn lemma_lines_prefix(a: Seq<char>, b: Seq<char>, cur: Seq<char>)
    requires
        is_line(a),
    ensures
        lines_from(a + b, cur) == seq![cur + a] + lines_from(b, Seq::empty()),
    decreases a.len(),
{
    let ab = a + b;
    if a.len() == 1 {
        assert(ab[0] == '\n');
        assert(ab.skip(1) =~= b);
        assert(cur + a =~= cur.push('\n'));
    } else {
        assert(ab[0] == a[0]);
        assert(a[0] != '\n');
        assert(ab.skip(1) =~= a.skip(1) + b);
        let a1 = a.skip(1);
        assert(a1.last() == a.last());
        assert forall|i: int| 0 <= i < a1.len() - 1 implies a1[i] != '\n' by {
            assert(a1[i] == a[i + 1]);
        }
        lemma_lines_prefix(a1, b, cur.push(a[0]));
        assert(cur.push(a[0]) + a1 =~= cur + a);
    }
}

proof fn lemma_strip_blanks_trim(s: Seq<char>)
    ensures
        trim_start(strip_blanks(s)) == trim_start(s),
    decreases s.len(),
{
    if s.len() > 0 && (s[0] == ' ' || s[0] == '\t') {
        lemma_strip_blanks_trim(s.skip(1));
    }
}

proof fn lemma_trim_end_first(t: Seq<char>)
    requires
        t.len() > 0,
        !is_space(t[0]),
    ensures
        trim_end(t).len() > 0,
        trim_end(t)[0] == t[0],
    decreases t.len(),
{
    if t.len() > 1 && is_space(t.last()) {
        lemma_trim_end_first(t.drop_last());
    }
}

/// A roster token line never opens or closes a fence.
proof fn lemma_token_not_fence(line: Seq<char>)
    requires
        token_inner(line) is Some,
    ensures
        fence_of(line) is None,
{
    let t = strip_blanks(line);
    lemma_strip_blanks_trim(line);
    if t.len() > 0 && (t[0] == '`' || t[0] == '~') {
        assert(trim_start(t) == t);
        lemma_trim_end_first(t);
        assert(trim(line)[0] == t[0]);
    }
}

pub open spec fn backtick_fence() -> Seq<char> {
    seq!['`', '`', '`', '\n']
}

/// A roster token line inside a fence of three backticks is passed through
/// unchanged, and the same line right after the closing fence is replaced.
pub proof fn lemma_fence_safety(tok: Seq<char>, ctx: TokenContext)
    requires
        is_line(tok),
        token_inner(tok) is Some,
        !indented(tok),
    ensures
        scan(
            lines(backtick_fence() + tok + backtick_fence() + tok),
            FenceState::Normal,
            ctx,
        ) == backtick_fence() + tok + backtick_fence() + replacement(ctx, token_inner(tok)->0),
{
    let f = backtick_fence();
    let e = Seq::<char>::empty();
    assert(is_line(f));
    assert(f + tok + f + tok =~= f + (tok + (f + (tok + e))));
    lemma_lines_prefix(f, tok + (f + (tok + e)), e);
    lemma_lines_prefix(tok, f + (tok + e), e);
    lemma_lines_prefix(f, tok + e, e);
    lemma_lines_prefix(tok, e, e);
    assert(e + f =~= f);
    assert(e + tok =~= tok);
    let ls = seq![f, tok, f, tok];
    assert(lines(f + tok + f + tok) =~= ls);
    assert(strip_blanks(f) == f);
    assert(f.skip(1).skip(1).skip(1)[0] == '\n');
    assert(run_len(f.skip(1).skip(1).skip(1), '`') == 0);
    assert(f.skip(1)[0] == '`' && f.skip(1).skip(1)[0] == '`');
    assert(run_len(f.skip(1).skip(1), '`') == 1);
    assert(run_len(f.skip(1), '`') == 2);
    assert(run_len(f, '`') == 3);
    assert(fence_of(f) == Some(('`', 3nat)));
    lemma_token_not_fence(tok);
    assert(ls.skip(1) =~= seq![tok, f, tok]);
    assert(ls.skip(1).skip(1) =~= seq![f, tok]);
    assert(ls.skip(1).skip(1).skip(1) =~= seq![tok]);
    assert(ls.skip(1).skip(1).skip(1).skip(1) =~= Seq::<Seq<char>>::empty());
    let st1 = FenceState::InFence('`', 3);
    assert(step(FenceState::Normal, f, ctx) == (st1, f));
    assert(step(st1, tok, ctx) == (st1, tok));
    assert(step(st1, f, ctx) == (FenceState::Normal, f));
    let r = replacement(ctx, token_inner(tok)->0);
    assert(step(FenceState::Normal, tok, ctx) == (FenceState::Normal, r));
    assert(seq![tok].skip(1) =~= Seq::<Seq<char>>::empty());
    assert(scan(Seq::<Seq<char>>::empty(), FenceState::Normal, ctx) == Seq::<char>::empty());
    assert(r + Seq::<char>::empty() =~= r);
    assert(scan(seq![tok], FenceState::Normal, ctx) =~= r);
    assert(scan(seq![f, tok], st1, ctx) =~= f + r);
    assert(scan(seq![tok, f, tok], st1, ctx) =~= tok + (f + r));
    assert(scan(ls, FenceState::Normal, ctx) =~= f + (tok + (f + r)));
}

/// The state after a sequence of lines.
pub open spec fn end_state(ls: Seq<Seq<char>>, st: FenceState, ctx: TokenContext) -> FenceState
    decreases ls.len(),
{
    if ls.len() == 0 {
        st
    } else {
        end_state(ls.skip(1), step(st, ls[0], ctx).0, ctx)
    }
}

/// Every line comes out of the scan unchanged.
pub open spec fn quiet(ls: Seq<Seq<char>>, st: FenceState, ctx: TokenContext) -> bool
    decreases ls.len(),
{
    ls.len() == 0 || (step(st, ls[0], ctx).1 == ls[0] && quiet(
        ls.skip(1),
        step(st, ls[0], ctx).0,
        ctx,
    ))
}

/// The lines joined back together.
pub open spec fn flatten(ls: Seq<Seq<char>>) -> Seq<char>
    decreases ls.len(),
{
    if ls.len() == 0 {
        Seq::empty()
    } else {
        ls[0] + flatten(ls.skip(1))
    }
}

/// A line that neither opens nor closes a fence and is no roster token.
pub open spec fn neutral(l: Seq<char>) -> bool {
    fence_of(l) is None && token_inner(l) is None
}

/// Text whose lines are all neutral.
pub open spec fn neutral_text(x: Seq<char>) -> bool {
    forall|i: int| 0 <= i < lines(x).len() ==> neutral(#[trigger] lines(x)[i])
}

/// No `\n` in `s`.
pub open spec fn no_newline(s: Seq<char>) -> bool {
    forall|i: int| 0 <= i < s.len() ==> s[i] != '\n'
}

/// A sequence as `lines` makes it: non-empty lines, each with a `\n` only
/// at its end, and every line but the last ending with one.
pub open spec fn line_seq(ls: Seq<Seq<char>>) -> bool {
    forall|i: int|
        0 <= i < ls.len() ==> (#[trigger] ls[i]).len() > 0 && no_newline(ls[i].drop_last()) && (i
            < ls.len() - 1 ==> ls[i].last() == '\n')
}

pub(crate) proof fn lemma_scan_concat(a: Seq<Seq<char>>, b: Seq<Seq<char>>, st: FenceState, ctx: TokenContext)
    ensures
        scan(a + b, st, ctx) == scan(a, st, ctx) + scan(b, end_state(a, st, ctx), ctx),
        end_state(a + b, st, ctx) == end_state(b, end_state(a, st, ctx), ctx),
        quiet(a + b, st, ctx) == (quiet(a, st, ctx) && quiet(b, end_state(a, st, ctx), ctx)),
    decreases a.len(),
{
    if a.len() == 0 {
        assert(a + b =~= b);
        assert(scan(a, st, ctx) + scan(b, st, ctx) =~= scan(b, st, ctx));
    } else {
        assert((a + b)[0] == a[0]);
        assert((a + b).skip(1) =~= a.skip(1) + b);
        lemma_scan_concat(a.skip(1), b, step(st, a[0], ctx).0, ctx);
        let (n, o) = step(st, a[0], ctx);
        assert(o + (scan(a.skip(1), n, ctx) + scan(b, end_state(a.skip(1), n, ctx), ctx)) =~= (o
            + scan(a.skip(1), n, ctx)) + scan(b, end_state(a.skip(1), n, ctx), ctx));
    }
}

pub(crate) proof fn lemma_quiet_flatten(ls: Seq<Seq<char>>, st: FenceState, ctx: TokenContext)
    requires
        quiet(ls, st, ctx),
    ensures
        scan(ls, st, ctx) == flatten(ls),
    decreases ls.len(),
{
    if ls.len() > 0 {
        lemma_quiet_flatten(ls.skip(1), step(st, ls[0], ctx).0, ctx);
    }
}

pub(crate) proof fn lemma_flatten_lines(s: Seq<char>, cur: Seq<char>)
    ensures
        flatten(lines_from(s, cur)) == cur + s,
    decreases s.len(),
{
    let e = Seq::<char>::empty();
    if s.len() == 0 {
        assert(cur + s =~= cur);
        assert(flatten(Seq::<Seq<char>>::empty()) == e);
        if cur.len() > 0 {
            assert(seq![cur].skip(1) =~= Seq::<Seq<char>>::empty());
            assert(cur + e =~= cur);
            assert(flatten(seq![cur]) == cur + flatten(seq![cur].skip(1)));
        } else {
            assert(cur =~= e);
            assert(lines_from(s, cur) == Seq::<Seq<char>>::empty());
        }
    } else if s[0] == '\n' {
        lemma_flatten_lines(s.skip(1), e);
        let ls = seq![cur.push('\n')] + lines_from(s.skip(1), e);
        assert(ls[0] == cur.push('\n'));
        assert(ls.skip(1) =~= lines_from(s.skip(1), e));
        assert(cur.push('\n') + (e + s.skip(1)) =~= cur + s);
    } else {
        lemma_flatten_lines(s.skip(1), cur.push(s[0]));
        assert(cur.push(s[0]) + s.skip(1) =~= cur + s);
    }
}

proof fn lemma_neutral_step(st: FenceState, l: Seq<char>, ctx: TokenContext)
    requires
        neutral(l),
    ensures
        step(st, l, ctx) == (st, l),
{
}

pub(crate) proof fn lemma_neutral_quiet(ls: Seq<Seq<char>>, st: FenceState, ctx: TokenContext)
    requires
        forall|i: int| 0 <= i < ls.len() ==> neutral(#[trigger] ls[i]),
    ensures
        quiet(ls, st, ctx),
        end_state(ls, st, ctx) == st,
    decreases ls.len(),
{
    if ls.len() > 0 {
        lemma_neutral_step(st, ls[0], ctx);
        assert forall|i: int| 0 <= i < ls.skip(1).len() implies neutral(#[trigger] ls.skip(1)[i]) by {
            assert(ls.skip(1)[i] == ls[i + 1]);
        }
        lemma_neutral_quiet(ls.skip(1), st, ctx);
    }
}

/// `lines_from(a + b, cur)` splits after `a` when `a` ends a line.
proof fn lemma_lines_concat(a: Seq<char>, b: Seq<char>, cur: Seq<char>)
    requires
        a.len() > 0,
        a.last() == '\n',
    ensures
        lines_from(a + b, cur) == lines_from(a, cur) + lines(b),
    decreases a.len(),
{
    let e = Seq::<char>::empty();
    let ab = a + b;
    assert(ab[0] == a[0]);
    assert(ab.skip(1) =~= a.skip(1) + b);
    if a[0] == '\n' {
        if a.len() == 1 {
            assert(a.skip(1) + b =~= b);
            assert(lines_from(a.skip(1), e) =~= Seq::<Seq<char>>::empty());
            assert(lines_from(a, cur) =~= seq![cur.push('\n')]);
        } else {
            assert(a.skip(1).last() == a.last());
            lemma_lines_concat(a.skip(1), b, e);
        }
        assert(lines_from(ab, cur) =~= lines_from(a, cur) + lines(b));
    } else {
        assert(a.skip(1).last() == a.last());
        lemma_lines_concat(a.skip(1), b, cur.push(a[0]));
    }
}

/// `lines` of text that is empty or ends a line, followed by more text.
pub(crate) proof fn lemma_lines_append(a: Seq<char>, b: Seq<char>)
    requires
        a.len() == 0 || a.last() == '\n',
    ensures
        lines(a + b) == lines(a) + lines(b),
{
    if a.len() == 0 {
        assert(a + b =~= b);
        assert(lines(a) =~= Seq::<Seq<char>>::empty());
        assert(lines(a) + lines(b) =~= lines(b));
    } else {
        lemma_lines_concat(a, b, Seq::empty());
    }
}

/// A non-empty text without `\n` is one line.
pub(crate) proof fn lemma_lines_single(s: Seq<char>, cur: Seq<char>)
    requires
        no_newline(s),
        (cur + s).len() > 0,
    ensures
        lines_from(s, cur) == seq![cur + s],
    decreases s.len(),
{
    if s.len() == 0 {
        assert(cur + s =~= cur);
    } else {
        assert(no_newline(s.skip(1)));
        lemma_lines_single(s.skip(1), cur.push(s[0]));
        assert(cur.push(s[0]) + s.skip(1) =~= cur + s);
    }
}

pub(crate) proof fn lemma_line_seq(s: Seq<char>, cur: Seq<char>)
    requires
        no_newline(cur),
    ensures
        line_seq(lines_from(s, cur)),
    decreases s.len(),
{
    let e = Seq::<char>::empty();
    if s.len() == 0 {
        if cur.len() > 0 {
            assert(no_newline(cur.drop_last()));
        }
    } else if s[0] == '\n' {
        lemma_line_seq(s.skip(1), e);
        let l = cur.push('\n');
        assert(l.drop_last() =~= cur);
        let rest = lines_from(s.skip(1), e);
        let ls = seq![l] + rest;
        assert forall|i: int| 0 <= i < ls.len() implies (#[trigger] ls[i]).len() > 0 && no_newline(
            ls[i].drop_last(),
        ) && (i < ls.len() - 1 ==> ls[i].last() == '\n') by {
            if i > 0 {
                assert(ls[i] == rest[i - 1]);
            }
        }
    } else {
        assert(no_newline(cur.push(s[0])));
        lemma_line_seq(s.skip(1), cur.push(s[0]));
    }
}

/// Rescanning what the scan produced changes nothing and ends in the same
/// state, provided the roster HTML holds no fence or token line.
pub(crate) proof fn lemma_rescan(ls: Seq<Seq<char>>, st: FenceState, ctx: TokenContext)
    requires
        line_seq(ls),
        forall|args: Seq<Seq<char>>| neutral_text(#[trigger] trim(token_html(ctx, args))),
    ensures
        quiet(lines(scan(ls, st, ctx)), st, ctx),
        end_state(lines(scan(ls, st, ctx)), st, ctx) == end_state(ls, st, ctx),
    decreases ls.len(),
{
    let e = Seq::<char>::empty();
    if ls.len() == 0 {
        assert(lines(e) =~= Seq::<Seq<char>>::empty());
    } else {
        let l = ls[0];
        let (st1, p) = step(st, l, ctx);
        let tail = ls.skip(1);
        assert(line_seq(tail)) by {
            assert forall|i: int| 0 <= i < tail.len() implies (#[trigger] tail[i]).len() > 0
                && no_newline(tail[i].drop_last()) && (i < tail.len() - 1 ==> tail[i].last()
                == '\n') by {
                assert(tail[i] == ls[i + 1]);
            }
        }
        lemma_rescan(tail, st1, ctx);
        let rest = scan(tail, st1, ctx);
        assert(scan(ls, st, ctx) == p + rest);
        if p == l {
            if l.last() == '\n' {
                assert(is_line(l)) by {
                    assert forall|i: int| 0 <= i < l.len() - 1 implies l[i] != '\n' by {
                        assert(l.drop_last()[i] == l[i]);
                    }
                }
                lemma_lines_prefix(l, rest, e);
                assert(e + l =~= l);
            } else {
                assert(ls.len() == 1);
                assert(tail.len() == 0);
                assert(rest =~= e);
                assert(no_newline(l)) by {
                    assert forall|i: int| 0 <= i < l.len() implies l[i] != '\n' by {
                        if i < l.len() - 1 {
                            assert(l.drop_last()[i] == l[i]);
                        }
                    }
                }
                lemma_lines_single(l, e);
                assert(e + l =~= l);
                assert(p + rest =~= l);
                assert(lines(e) =~= Seq::<Seq<char>>::empty());
                assert(seq![l] =~= seq![l] + lines(rest));
            }
            assert(lines(p + rest) == seq![l] + lines(rest));
            assert((seq![l] + lines(rest))[0] == l);
            assert((seq![l] + lines(rest)).skip(1) =~= lines(rest));
        } else {
            let inner = token_inner(l)->0;
            let h = trim(token_html(ctx, rest_words(words(inner))));
            assert(p == seq!['\n'] + h + seq!['\n', '\n']);
            assert(st == FenceState::Normal && st1 == FenceState::Normal);
            lemma_wrapped_neutral(h);
            lemma_lines_append(p, rest);
            lemma_scan_concat(lines(p), lines(rest), st, ctx);
            lemma_neutral_quiet(lines(p), st, ctx);
        }
    }
}

proof fn lemma_strip_blanks_newline(l: Seq<char>)
    ensures
        strip_blanks(l + seq!['\n']) == strip_blanks(l) + seq!['\n'],
    decreases l.len(),
{
    let ln = l + seq!['\n'];
    if l.len() > 0 && (l[0] == ' ' || l[0] == '\t') {
        assert(ln[0] == l[0]);
        assert(ln.skip(1) =~= l.skip(1) + seq!['\n']);
        lemma_strip_blanks_newline(l.skip(1));
    } else if l.len() > 0 {
        assert(ln[0] == l[0]);
    } else {
        assert(ln =~= seq!['\n']);
        assert(l + seq!['\n'] =~= seq!['\n']);
    }
}

proof fn lemma_run_len_newline(t: Seq<char>, c: char)
    requires
        c != '\n',
    ensures
        run_len(t + seq!['\n'], c) == run_len(t, c),
    decreases t.len(),
{
    let tn = t + seq!['\n'];
    if t.len() > 0 {
        assert(tn[0] == t[0]);
        assert(tn.skip(1) =~= t.skip(1) + seq!['\n']);
        lemma_run_len_newline(t.skip(1), c);
    } else {
        assert(tn[0] == '\n');
    }
}

proof fn lemma_trim_start_newline(l: Seq<char>)
    ensures
        trim_start(l + seq!['\n']) == if trim_start(l).len() > 0 {
            trim_start(l) + seq!['\n']
        } else {
            Seq::<char>::empty()
        },
    decreases l.len(),
{
    let ln = l + seq!['\n'];
    assert(is_space('\n'));
    if l.len() == 0 {
        assert(ln =~= seq!['\n']);
        assert(ln.skip(1) =~= Seq::<char>::empty());
        assert(trim_start(Seq::<char>::empty()) == Seq::<char>::empty());
        assert(trim_start(ln) == trim_start(ln.skip(1)));
    } else if is_space(l[0]) {
        assert(ln[0] == l[0]);
        assert(ln.skip(1) =~= l.skip(1) + seq!['\n']);
        lemma_trim_start_newline(l.skip(1));
        assert(trim_start(l) == trim_start(l.skip(1)));
    } else {
        assert(ln[0] == l[0]);
        assert(trim_start(l) == l);
        assert(trim_start(ln) == ln);
    }
}

proof fn lemma_trim_newline(l: Seq<char>)
    ensures
        trim(l + seq!['\n']) == trim(l),
{
    lemma_trim_start_newline(l);
    let u = trim_start(l);
    if u.len() > 0 {
        assert((u + seq!['\n']).drop_last() =~= u);
        assert((u + seq!['\n']).last() == '\n');
    }
}

/// Ending a line that has no terminator changes nothing the scan looks at.
pub(crate) proof fn lemma_newline_same_step(st: FenceState, l: Seq<char>, ctx: TokenContext)
    requires
        l.len() > 0,
        no_newline(l),
        step(st, l, ctx).1 == l,
    ensures
        step(st, l + seq!['\n'], ctx) == (step(st, l, ctx).0, l + seq!['\n']),
{
    let ln = l + seq!['\n'];
    lemma_strip_blanks_newline(l);
    let t = strip_blanks(l);
    if t.len() > 0 {
        assert(strip_blanks(ln)[0] == t[0]);
        if t[0] == '`' || t[0] == '~' {
            lemma_run_len_newline(t, t[0]);
        }
    } else {
        assert(strip_blanks(ln) =~= seq!['\n']);
    }
    assert(fence_of(ln) == fence_of(l));
    lemma_trim_newline(l);
    assert(token_inner(ln) == token_inner(l));
    assert(ln[0] == l[0]);
    if l.len() >= 4 {
        assert(ln[1] == l[1] && ln[2] == l[2] && ln[3] == l[3]);
    } else if l.len() == 3 {
        assert(ln[3] == '\n');
    }
    assert(indented(ln) == indented(l));
    if st == FenceState::Normal && fence_of(l) is None && !indented(l) && token_inner(l) is Some {
        let r = replacement(ctx, token_inner(l)->0);
        assert(r.last() == '\n');
        assert(l[l.len() - 1] != '\n');
    }
}

/// A line and the text before it: text that is empty or ends a line, then
/// a non-empty part without `\n`.
pub(crate) proof fn lemma_last_line(x: Seq<char>) -> (r: (Seq<char>, Seq<char>))
    requires
        x.len() > 0,
        x.last() != '\n',
    ensures
        x == r.0 + r.1,
        r.0.len() == 0 || r.0.last() == '\n',
        r.1.len() > 0,
        no_newline(r.1),
    decreases x.len(),
{
    let d = x.drop_last();
    if d.len() == 0 || d.last() == '\n' {
        assert(x =~= d + seq![x.last()]);
        (d, seq![x.last()])
    } else {
        let (a, l) = lemma_last_line(d);
        assert(x =~= d + seq![x.last()]);
        assert(x =~= a + (l + seq![x.last()]));
        (a, l + seq![x.last()])
    }
}

pub(crate) proof fn lemma_newline_neutral()
    ensures
        neutral_text(seq!['\n']),
        lines(seq!['\n']) == seq![seq!['\n']],
{
    let n = seq!['\n'];
    let e = Seq::<char>::empty();
    assert(n.skip(1) =~= e);
    assert(lines_from(e, e) == Seq::<Seq<char>>::empty());
    assert(lines(n) =~= seq![e.push('\n')]);
    assert(e.push('\n') =~= n);
    assert(strip_blanks(n) == n);
    assert(trim_start(n.skip(1)) == e);
    assert(trim(n) =~= e);
}

pub(crate) proof fn lemma_neutral_text_concat(a: Seq<char>, b: Seq<char>)
    requires
        a.len() == 0 || a.last() == '\n',
        neutral_text(a),
        neutral_text(b),
    ensures
        neutral_text(a + b),
{
    lemma_lines_append(a, b);
    let la = lines(a);
    assert forall|i: int| 0 <= i < lines(a + b).len() implies neutral(#[trigger] lines(a + b)[i]) by {
        if i < la.len() {
            assert(lines(a + b)[i] == la[i]);
        } else {
            assert(lines(a + b)[i] == lines(b)[i - la.len()]);
        }
    }
}

pub(crate) proof fn lemma_neutral_push_newline(x: Seq<char>)
    requires
        neutral_text(x),
    ensures
        neutral_text(x + seq!['\n']),
{
    lemma_newline_neutral();
    let n = seq!['\n'];
    let e = Seq::<char>::empty();
    if x.len() == 0 {
        assert(x + n =~= n);
    } else if x.last() == '\n' {
        lemma_neutral_text_concat(x, n);
    } else {
        let (a, l) = lemma_last_line(x);
        lemma_lines_append(a, l);
        lemma_lines_single(l, e);
        assert(e + l =~= l);
        assert(lines(x) == lines(a) + seq![l]);
        assert(neutral(lines(x)[lines(a).len() as int]));
        assert(neutral_text(a)) by {
            assert forall|i: int| 0 <= i < lines(a).len() implies neutral(#[trigger] lines(a)[i]) by {
                assert(lines(x)[i] == lines(a)[i]);
            }
        }
        let ln = l + n;
        assert(is_line(ln)) by {
            assert forall|i: int| 0 <= i < ln.len() - 1 implies ln[i] != '\n' by {
                assert(ln[i] == l[i]);
            }
        }
        lemma_lines_prefix(ln, e, e);
        assert(ln + e =~= ln);
        assert(e + ln =~= ln);
        assert(lines(e) =~= Seq::<Seq<char>>::empty());
        assert(lines(ln) =~= seq![ln]);
        lemma_newline_fence_token(l);
        assert(neutral_text(ln));
        assert(x + n =~= a + ln);
        lemma_neutral_text_concat(a, ln);
    }
}

proof fn lemma_newline_fence_token(l: Seq<char>)
    requires
        l.len() > 0,
        no_newline(l),
    ensures
        fence_of(l + seq!['\n']) == fence_of(l),
        token_inner(l + seq!['\n']) == token_inner(l),
{
    let ln = l + seq!['\n'];
    lemma_strip_blanks_newline(l);
    let t = strip_blanks(l);
    if t.len() > 0 {
        assert(strip_blanks(ln)[0] == t[0]);
        if t[0] == '`' || t[0] == '~' {
            lemma_run_len_newline(t, t[0]);
        }
    } else {
        assert(strip_blanks(ln) =~= seq!['\n']);
    }
    lemma_trim_newline(l);
}

/// A replacement block is neutral when the HTML in it is.
proof fn lemma_wrapped_neutral(h: Seq<char>)
    requires
        neutral_text(h),
    ensures
        neutral_text(seq!['\n'] + h + seq!['\n', '\n']),
{
    let n = seq!['\n'];
    lemma_newline_neutral();
    lemma_neutral_push_newline(h);
    lemma_neutral_push_newline(h + n);
    assert(h + n + n =~= h + seq!['\n', '\n']);
    lemma_neutral_text_concat(n, h + seq!['\n', '\n']);
    assert(n + (h + seq!['\n', '\n']) =~= seq!['\n'] + h + seq!['\n', '\n']);
}

} // verus!
