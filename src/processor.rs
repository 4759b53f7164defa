//! The decisions of a build run: configuration resolved once, then each
//! page decorated with its commit facts, header, footer and rosters.

use vstd::prelude::*;
use crate::config::{clone_opt, opt_view, or_else, ContributorsSource, GitInfoConfig};
use crate::layout::{
    align_for, margin_for, message_both, message_field, message_for, resolve_align,
    resolve_margins, resolve_messages, sides,
};
use crate::renderer::{block_of, render, render_template, starts_at, starts_with, style_block,
    style_of, wrap_block};
use crate::repo::{contains, contains_exec, tag_link, tag_url};
use crate::roster::{views, RosterStyle};
use crate::text::{push_str, string_of, to_chars, trim};
use crate::tokens::{
    end_state, lemma_flatten_lines, lemma_last_line, lemma_line_seq, lemma_lines_append,
    lemma_lines_prefix, lemma_lines_single, lemma_neutral_push_newline, lemma_neutral_quiet,
    lemma_neutral_text_concat, lemma_newline_neutral, lemma_newline_same_step, lemma_quiet_flatten,
    lemma_rescan, lemma_scan_concat, lines, neutral_text, quiet, replace_contributors_tokens, scan,
    step, token_html, trim_range, FenceState, TokenContext,
};

verus! {

/// The preprocessor.
pub struct GitInfo;

impl GitInfo {
    pub fn new() -> (r: GitInfo) {
        GitInfo
    }

    /// The preprocessor's name in the book configuration.
    pub fn name(&self) -> (r: &'static str)
        ensures
            r@ == "gitinfo"@,
    {
        "gitinfo"
    }

    /// Only the HTML renderer is supported.
    pub fn supports_renderer(&self, renderer: &str) -> (r: bool)
        ensures
            r == (renderer@ == "html"@),
    {
        let v = to_chars(renderer);
        proof {
            reveal_strlit("html");
        }
        let r = v.len() == 4 && v[0] == 'h' && v[1] == 't' && v[2] == 'm' && v[3] == 'l';
        assert(r ==> v@ =~= "html"@);
        r
    }
}

/// Every setting of a run, defaults applied.
#[derive(Clone, Debug)]
pub struct ResolvedConfig {
    pub enabled: bool,
    pub show_header: bool,
    pub show_footer: bool,
    pub header_template: String,
    pub footer_template: String,
    pub font_size: String,
    pub separator: String,
    pub date_format: String,
    pub time_format: String,
    pub branch: String,
    pub align_header: String,
    pub align_footer: String,
    pub margin_header: [String; 4],
    pub margin_footer: [String; 4],
    pub timezone: Option<String>,
    pub hyperlink: bool,
    pub tag_override: Option<String>,
    pub contributors_enabled: bool,
    pub contributors_source: ContributorsSource,
    pub contributors_file: String,
    pub roster: RosterStyle,
}

/// The value of an optional string once blank values are dropped; trimmed
/// when `trimmed` is set.
pub open spec fn non_blank(o: Option<Seq<char>>, trimmed: bool) -> Option<Seq<char>> {
    match o {
        Some(s) => if trim(s).len() == 0 {
            None
        } else if trimmed {
            Some(trim(s))
        } else {
            Some(s)
        },
        None => None,
    }
}

pub open spec fn bool_or(o: Option<bool>, d: bool) -> bool {
    match o {
        Some(b) => b,
        None => d,
    }
}

/// What `resolve_config` makes of a configuration table.
pub open spec fn resolved(cfg: GitInfoConfig, r: ResolvedConfig) -> bool {
    &&& r.enabled == bool_or(cfg.enable, true)
    &&& r.show_header == bool_or(cfg.header, false)
    &&& r.show_footer == bool_or(cfg.footer, true)
    &&& r.header_template@ == message_for(
        message_field(cfg, true),
        message_both(cfg),
        opt_view(cfg.template),
    )
    &&& r.footer_template@ == message_for(
        message_field(cfg, false),
        message_both(cfg),
        opt_view(cfg.template),
    )
    &&& r.font_size@ == or_else(opt_view(cfg.font_size), "0.8em"@)
    &&& r.separator@ == or_else(opt_view(cfg.separator), " \u{2022} "@)
    &&& r.date_format@ == or_else(opt_view(cfg.date_format), "%Y-%m-%d"@)
    &&& r.time_format@ == or_else(opt_view(cfg.time_format), "%H:%M:%S"@)
    &&& r.branch@ == or_else(opt_view(cfg.branch), "main"@)
    &&& r.align_header@ == align_for(cfg.align, true)
    &&& r.align_footer@ == align_for(cfg.align, false)
    &&& sides(r.margin_header) == margin_for(cfg.margin, true)
    &&& sides(r.margin_footer) == margin_for(cfg.margin, false)
    &&& opt_view(r.timezone) == opt_view(cfg.timezone)
    &&& r.hyperlink == bool_or(cfg.hyperlink, false)
    &&& opt_view(r.tag_override) == non_blank(opt_view(cfg.tag), true)
    &&& r.contributors_enabled == bool_or(cfg.contributors, false)
    &&& r.contributors_source == match cfg.contributors_source {
        Some(s) => s,
        None => ContributorsSource::Git,
    }
    &&& r.contributors_file@ == or_else(opt_view(cfg.contributors_file), "CONTRIBUTORS.md"@)
    &&& r.roster.title@ == or_else(non_blank(opt_view(cfg.contributors_title), false), "Contributors"@)
    &&& opt_view(r.roster.message) == non_blank(opt_view(cfg.contributors_message), true)
    &&& views(r.roster.exclude@) == match cfg.contributors_exclude {
        Some(v) => views(v@),
        None => Seq::empty(),
    }
    &&& r.roster.max_visible == match cfg.contributors_max_visible {
        Some(n) => n,
        None => 24,
    }
}

fn str_or(o: &Option<String>, d: &str) -> (r: String)
    ensures
        r@ == or_else(opt_view(*o), d@),
{
    match o {
        Some(s) => s.clone(),
        None => String::from_str(d),
    }
}

fn non_blank_exec(o: &Option<String>, trimmed: bool) -> (r: Option<String>)
    ensures
        opt_view(r) == non_blank(opt_view(*o), trimmed),
{
    match o {
        Some(s) => {
            let v = to_chars(s.as_str());
            assert(v@.subrange(0, v.len() as int) =~= v@);
            let (a, b) = trim_range(&v, 0, v.len());
            if a == b {
                None
            } else if trimmed {
                Some(string_of(&v, a, b))
            } else {
                Some(s.clone())
            }
        },
        None => None,
    }
}

fn clone_names(v: &Vec<String>) -> (r: Vec<String>)
    ensures
        views(r@) == views(v@),
{
    let mut r: Vec<String> = Vec::new();
    let mut i: usize = 0;
    while i < v.len()
        invariant
            i <= v.len(),
            views(r@) == views(v@).take(i as int),
        decreases v.len() - i,
    {
        let ghost before = r@;
        let s = v[i].clone();
        r.push(s);
        proof {
            crate::roster::lemma_views_push(before, s);
        }
        assert(views(r@) =~= views(v@).take(i + 1));
        i += 1;
    }
    assert(views(v@).take(v.len() as int) =~= views(v@));
    r
}

/// Applies the defaults to a configuration table.
pub fn resolve_config(cfg: &GitInfoConfig) -> (r: ResolvedConfig)
    ensures
        resolved(*cfg, r),
{
    let (header_template, footer_template) = resolve_messages(cfg);
    let (align_header, align_footer) = resolve_align(&cfg.align);
    let (margin_header, margin_footer) = resolve_margins(&cfg.margin);
    let title = match non_blank_exec(&cfg.contributors_title, false) {
        Some(t) => t,
        None => String::from_str("Contributors"),
    };
    let exclude = match &cfg.contributors_exclude {
        Some(v) => clone_names(v),
        None => Vec::new(),
    };
    assert(cfg.contributors_exclude is None ==> views(exclude@) =~= Seq::<Seq<char>>::empty());
    ResolvedConfig {
        enabled: match cfg.enable {
            Some(b) => b,
            None => true,
        },
        show_header: match cfg.header {
            Some(b) => b,
            None => false,
        },
        show_footer: match cfg.footer {
            Some(b) => b,
            None => true,
        },
        header_template,
        footer_template,
        font_size: str_or(&cfg.font_size, "0.8em"),
        separator: str_or(&cfg.separator, " \u{2022} "),
        date_format: str_or(&cfg.date_format, "%Y-%m-%d"),
        time_format: str_or(&cfg.time_format, "%H:%M:%S"),
        branch: str_or(&cfg.branch, "main"),
        align_header,
        align_footer,
        margin_header,
        margin_footer,
        timezone: clone_opt(&cfg.timezone),
        hyperlink: match cfg.hyperlink {
            Some(b) => b,
            None => false,
        },
        tag_override: non_blank_exec(&cfg.tag, true),
        contributors_enabled: match cfg.contributors {
            Some(b) => b,
            None => false,
        },
        contributors_source: match cfg.contributors_source {
            Some(s) => s,
            None => ContributorsSource::Git,
        },
        contributors_file: str_or(&cfg.contributors_file, "CONTRIBUTORS.md"),
        roster: RosterStyle {
            title,
            message: non_blank_exec(&cfg.contributors_message, true),
            exclude,
            max_visible: match cfg.contributors_max_visible {
                Some(n) => n,
                None => 24,
            },
        },
    }
}

/// The branch a run reads history from: the configured one if the
/// repository has it, else `main`.
pub fn effective_branch(configured: &str, found: bool) -> (r: String)
    ensures
        found ==> r@ == configured@,
        !found ==> r@ == "main"@,
{
    if found {
        String::from_str(configured)
    } else {
        String::from_str("main")
    }
}

/// Whether the run's tag must be looked up: no tag is configured.
pub fn needs_tag_lookup(cfg: &ResolvedConfig) -> (r: bool)
    ensures
        r == cfg.tag_override is None,
{
    cfg.tag_override.is_none()
}

/// The run's tag: the configured one, else what the lookup found, else the
/// `No tags found` sentinel.
pub fn run_tag(cfg: &ResolvedConfig, looked_up: &Option<String>) -> (r: String)
    ensures
        r@ == match cfg.tag_override {
            Some(t) => t@,
            None => or_else(opt_view(*looked_up), crate::git::no_tags()),
        },
{
    match &cfg.tag_override {
        Some(t) => t.clone(),
        None => match looked_up {
            Some(l) => l.clone(),
            None => String::from_str("No tags found"),
        },
    }
}

/// What a run knows before it walks the pages: the branch, the tag, the
/// repository base and how roster tokens are replaced.
pub struct RunFacts {
    pub branch: String,
    pub tag: String,
    pub repo_base: Option<String>,
    pub tokens: TokenContext,
}

/// What a page knows of its last commit; the date is already formatted.
#[derive(Clone, Debug)]
pub struct PageFacts {
    pub short_hash: String,
    pub long_hash: String,
    pub date: String,
}

/// A link.
pub open spec fn anchor(url: Seq<char>, text: Seq<char>) -> Seq<char> {
    "<a href=\""@ + url + "\">"@ + text + "</a>"@
}

fn anchor_exec(url: &str, text: &str) -> (r: String)
    ensures
        r@ == anchor(url@, text@),
{
    let mut s = String::from_str("<a href=\"");
    push_str(&mut s, url);
    push_str(&mut s, "\">");
    push_str(&mut s, text);
    push_str(&mut s, "</a>");
    s
}

/// A tag that was found: not empty and not the `No tags found` sentinel.
pub open spec fn tag_resolved(tag: Seq<char>) -> bool {
    tag.len() > 0 && !contains(tag, "No tags found"@)
}

/// The values of the placeholders of a page: short hash, long hash, tag,
/// date, separator and branch, linked when hyperlinks are on and the
/// repository base is known. An unresolved tag shows as `-`.
pub open spec fn placeholder_values(cfg: ResolvedConfig, run: RunFacts, page: PageFacts) -> Seq<
    Seq<char>,
> {
    let linked = cfg.hyperlink && run.repo_base is Some;
    let base = run.repo_base->0@;
    let hash = if linked {
        anchor(base + "/commit/"@ + page.long_hash@, page.short_hash@)
    } else {
        page.short_hash@
    };
    let branch = if linked {
        anchor(base + "/tree/"@ + run.branch@, run.branch@)
    } else {
        run.branch@
    };
    let tag = if !tag_resolved(run.tag@) {
        "-"@
    } else if linked {
        anchor(tag_link(base, run.tag@), run.tag@)
    } else {
        run.tag@
    };
    seq![hash, page.long_hash@, tag, page.date@, cfg.separator@, branch]
}

/// With hyperlinks off, every placeholder value is plain text: the short
/// hash, the long hash, the tag (or `-` when unresolved), the date, the
/// separator and the branch, with no link around any of them.
pub proof fn lemma_plain_without_hyperlinks(cfg: ResolvedConfig, run: RunFacts, page: PageFacts)
    requires
        !cfg.hyperlink,
    ensures
        placeholder_values(cfg, run, page) == seq![
            page.short_hash@,
            page.long_hash@,
            if tag_resolved(run.tag@) {
                run.tag@
            } else {
                "-"@
            },
            page.date@,
            cfg.separator@,
            run.branch@,
        ],
{
}

/// The header element of a page.
pub open spec fn header_html(cfg: ResolvedConfig, vals: Seq<Seq<char>>) -> Seq<char> {
    block_of(
        true,
        style_of(cfg.font_size@, cfg.align_header@, sides(cfg.margin_header)),
        render(cfg.header_template@, vals),
    )
}

/// The footer element of a page.
pub open spec fn footer_html(cfg: ResolvedConfig, vals: Seq<Seq<char>>) -> Seq<char> {
    block_of(
        false,
        style_of(cfg.font_size@, cfg.align_footer@, sides(cfg.margin_footer)),
        render(cfg.footer_template@, vals),
    )
}

pub open spec fn ends_with_blank_line(c: Seq<char>) -> bool {
    c.len() >= 2 && c[c.len() - 2] == '\n' && c[c.len() - 1] == '\n'
}

/// A page with its header added unless it already starts with it.
pub open spec fn with_header(c: Seq<char>, cfg: ResolvedConfig, vals: Seq<Seq<char>>) -> Seq<char> {
    let ins = header_html(cfg, vals) + seq!['\n', '\n'];
    if !cfg.show_header || starts_with(c, ins) {
        c
    } else {
        ins + c
    }
}

/// A page with its footer added, after a blank line, unless it already
/// holds it.
pub open spec fn with_footer(c: Seq<char>, cfg: ResolvedConfig, vals: Seq<Seq<char>>) -> Seq<char> {
    let html = footer_html(cfg, vals);
    if !cfg.show_footer || contains(c, html) {
        c
    } else {
        c + (if ends_with_blank_line(c) {
            seq!['\n']
        } else {
            seq!['\n', '\n']
        }) + html + seq!['\n']
    }
}

/// A decorated page: roster tokens replaced, then the header and the footer.
pub open spec fn decorated(content: Seq<char>, cfg: ResolvedConfig, run: RunFacts, page: PageFacts) -> Seq<
    char,
> {
    let vals = placeholder_values(cfg, run, page);
    let c1 = scan(lines(content), FenceState::Normal, run.tokens);
    with_footer(with_header(c1, cfg, vals), cfg, vals)
}

fn placeholder_values_exec(cfg: &ResolvedConfig, run: &RunFacts, page: &PageFacts) -> (r: (
    String,
    String,
    String,
))
    ensures
        r.0@ == placeholder_values(*cfg, *run, *page)[0],
        r.1@ == placeholder_values(*cfg, *run, *page)[2],
        r.2@ == placeholder_values(*cfg, *run, *page)[5],
{
    let (hash, branch) = match &run.repo_base {
        Some(base) => if cfg.hyperlink {
            let mut commit_url = base.clone();
            push_str(&mut commit_url, "/commit/");
            push_str(&mut commit_url, page.long_hash.as_str());
            let mut branch_url = base.clone();
            push_str(&mut branch_url, "/tree/");
            push_str(&mut branch_url, run.branch.as_str());
            (
                anchor_exec(commit_url.as_str(), page.short_hash.as_str()),
                anchor_exec(branch_url.as_str(), run.branch.as_str()),
            )
        } else {
            (page.short_hash.clone(), run.branch.clone())
        },
        None => (page.short_hash.clone(), run.branch.clone()),
    };
    let tv = to_chars(run.tag.as_str());
    let tag = if tv.len() == 0 || contains_exec(&tv, &to_chars("No tags found")) {
        String::from_str("-")
    } else {
        match &run.repo_base {
            Some(base) => if cfg.hyperlink {
                anchor_exec(tag_url(base.as_str(), run.tag.as_str()).as_str(), run.tag.as_str())
            } else {
                run.tag.clone()
            },
            None => run.tag.clone(),
        }
    };
    (hash, tag, branch)
}

/// Whether `c` holds `p`.
fn contains_str(c: &String, p: &String) -> (r: bool)
    ensures
        r == contains(c@, p@),
{
    contains_exec(&to_chars(c.as_str()), &to_chars(p.as_str()))
}

/// Decorates one page: replaces its roster tokens and adds the header and
/// footer unless they are already in place.
pub fn decorate_page(content: &str, cfg: &ResolvedConfig, run: &RunFacts, page: &PageFacts) -> (r:
    String)
    ensures
        r@ == decorated(content@, *cfg, *run, *page),
{
    let ghost vals = placeholder_values(*cfg, *run, *page);
    let (hash, tag, branch) = placeholder_values_exec(cfg, run, page);
    let mut c = replace_contributors_tokens(content, &run.tokens);
    let ghost c1 = c@;
    if cfg.show_header {
        let style = style_block(cfg.font_size.as_str(), cfg.align_header.as_str(), &cfg.margin_header);
        let text = render_template(
            cfg.header_template.as_str(),
            hash.as_str(),
            page.long_hash.as_str(),
            tag.as_str(),
            page.date.as_str(),
            cfg.separator.as_str(),
            branch.as_str(),
        );
        assert(seq![hash@, page.long_hash@, tag@, page.date@, cfg.separator@, branch@] =~= vals);
        let mut ins = wrap_block(true, style.as_str(), text.as_str());
        push_str(&mut ins, "\n\n");
        proof {
            reveal_strlit("\n\n");
        }
        assert(ins@ =~= header_html(*cfg, vals) + seq!['\n', '\n']);
        let cv = to_chars(c.as_str());
        assert(cv@.skip(0) =~= cv@);
        if !starts_at(&cv, 0, &to_chars(ins.as_str())) {
            push_str(&mut ins, c.as_str());
            c = ins;
        }
    }
    assert(c@ == with_header(c1, *cfg, vals));
    let ghost c2 = c@;
    if cfg.show_footer {
        let style = style_block(cfg.font_size.as_str(), cfg.align_footer.as_str(), &cfg.margin_footer);
        let text = render_template(
            cfg.footer_template.as_str(),
            hash.as_str(),
            page.long_hash.as_str(),
            tag.as_str(),
            page.date.as_str(),
            cfg.separator.as_str(),
            branch.as_str(),
        );
        assert(seq![hash@, page.long_hash@, tag@, page.date@, cfg.separator@, branch@] =~= vals);
        let html = wrap_block(false, style.as_str(), text.as_str());
        if !contains_str(&c, &html) {
            let cv = to_chars(c.as_str());
            let n = cv.len();
            let blank = n >= 2 && cv[n - 2] == '\n' && cv[n - 1] == '\n';
            proof {
                reveal_strlit("\n");
                reveal_strlit("\n\n");
            }
            if blank {
                push_str(&mut c, "\n");
            } else {
                push_str(&mut c, "\n\n");
            }
            push_str(&mut c, html.as_str());
            push_str(&mut c, "\n");
        }
    }
    assert(c@ =~= with_footer(c2, *cfg, vals));
    c
}

/// `a` is a style that renders as `b` does.
pub open spec fn same_style(a: Option<RosterStyle>, b: RosterStyle) -> bool {
    match a {
        Some(s) => s.title@ == b.title@ && opt_view(s.message) == opt_view(b.message) && views(
            s.exclude@,
        ) == views(b.exclude@) && s.max_visible == b.max_visible,
        None => false,
    }
}

/// The roster-token settings of a run: the source, the roster HTML computed
/// once (for the file and git sources) and the inline style; when rosters
/// are off every token is removed.
pub fn token_context(cfg: &ResolvedConfig, global_html: &str) -> (r: TokenContext)
    ensures
        r.source == cfg.contributors_source,
        cfg.contributors_enabled ==> r.global_html@ == global_html@,
        cfg.contributors_enabled ==> same_style(r.inline, cfg.roster),
        !cfg.contributors_enabled ==> r.global_html@.len() == 0 && r.inline is None,
{
    if cfg.contributors_enabled {
        TokenContext {
            source: cfg.contributors_source,
            global_html: String::from_str(global_html),
            inline: Some(
                RosterStyle {
                    title: cfg.roster.title.clone(),
                    message: clone_opt(&cfg.roster.message),
                    exclude: clone_names(&cfg.roster.exclude),
                    max_visible: cfg.roster.max_visible,
                },
            ),
        }
    } else {
        TokenContext { source: cfg.contributors_source, global_html: String::new(), inline: None }
    }
}

/// Text that comes out of the scan unchanged from the start of a page.
pub open spec fn settled(x: Seq<char>, ctx: TokenContext) -> bool {
    quiet(lines(x), FenceState::Normal, ctx)
}

proof fn lemma_prepend_settled(ins: Seq<char>, c: Seq<char>, ctx: TokenContext)
    requires
        neutral_text(ins),
        ins.len() > 0 && ins.last() == '\n',
        settled(c, ctx),
    ensures
        settled(ins + c, ctx),
{
    lemma_lines_append(ins, c);
    lemma_neutral_quiet(lines(ins), FenceState::Normal, ctx);
    lemma_scan_concat(lines(ins), lines(c), FenceState::Normal, ctx);
}

proof fn lemma_append_settled(h: Seq<char>, x: Seq<char>, ctx: TokenContext)
    requires
        settled(h, ctx),
        neutral_text(x),
        h.len() == 0 || h.last() == '\n',
    ensures
        settled(h + x, ctx),
{
    lemma_lines_append(h, x);
    lemma_neutral_quiet(lines(x), end_state(lines(h), FenceState::Normal, ctx), ctx);
    lemma_scan_concat(lines(h), lines(x), FenceState::Normal, ctx);
}

/// Ending the last line of settled text and appending neutral text keeps it
/// settled.
proof fn lemma_finish_line_settled(h: Seq<char>, y: Seq<char>, ctx: TokenContext)
    requires
        settled(h, ctx),
        neutral_text(y),
        h.len() > 0,
        h.last() != '\n',
    ensures
        settled(h + seq!['\n'] + y, ctx),
{
    let e = Seq::<char>::empty();
    let n = seq!['\n'];
    let st0 = FenceState::Normal;
    let (a, l) = lemma_last_line(h);
    lemma_lines_append(a, l);
    lemma_lines_single(l, e);
    assert(e + l =~= l);
    lemma_scan_concat(lines(a), seq![l], st0, ctx);
    let sa = end_state(lines(a), st0, ctx);
    assert(quiet(seq![l], sa, ctx));
    assert(step(sa, l, ctx).1 == l);
    lemma_newline_same_step(sa, l, ctx);
    let ln = l + n;
    assert(seq![ln].skip(1) =~= Seq::<Seq<char>>::empty());
    assert(seq![l].skip(1) =~= Seq::<Seq<char>>::empty());
    assert(quiet(seq![ln], sa, ctx));
    assert(end_state(seq![ln], sa, ctx) == end_state(seq![l], sa, ctx));
    assert(crate::tokens::is_line(ln)) by {
        assert forall|i: int| 0 <= i < ln.len() - 1 implies ln[i] != '\n' by {
            assert(ln[i] == l[i]);
        }
    }
    lemma_lines_prefix(ln, y, e);
    assert(e + ln =~= ln);
    assert(h + n + y =~= a + (ln + y));
    lemma_lines_append(a, ln + y);
    let sl = end_state(seq![ln], sa, ctx);
    lemma_neutral_quiet(lines(y), sl, ctx);
    lemma_scan_concat(seq![ln], lines(y), sa, ctx);
    lemma_scan_concat(lines(a), seq![ln] + lines(y), st0, ctx);
}

/// Decorating a page a second time with the same run and page facts
/// changes nothing: no header, footer or roster is added twice. This holds
/// when the header, the footer and every roster's HTML hold no line that
/// opens or closes a code fence or is a roster token.
#[verifier::rlimit(40)]
pub proof fn lemma_decorate_idempotent(
    content: Seq<char>,
    cfg: ResolvedConfig,
    run: RunFacts,
    page: PageFacts,
)
    requires
        forall|args: Seq<Seq<char>>| neutral_text(#[trigger] trim(token_html(run.tokens, args))),
        neutral_text(header_html(cfg, placeholder_values(cfg, run, page))),
        neutral_text(footer_html(cfg, placeholder_values(cfg, run, page))),
    ensures
        decorated(decorated(content, cfg, run, page), cfg, run, page) == decorated(
            content,
            cfg,
            run,
            page,
        ),
{
    let e = Seq::<char>::empty();
    let n = seq!['\n'];
    let t = run.tokens;
    let vals = placeholder_values(cfg, run, page);
    let c1 = scan(lines(content), FenceState::Normal, t);
    lemma_line_seq(content, e);
    lemma_rescan(lines(content), FenceState::Normal, t);
    assert(settled(c1, t));
    let hh = header_html(cfg, vals);
    let ins = hh + seq!['\n', '\n'];
    let h = with_header(c1, cfg, vals);
    lemma_newline_neutral();
    if cfg.show_header && !starts_with(c1, ins) {
        lemma_neutral_push_newline(hh);
        lemma_neutral_push_newline(hh + n);
        assert(hh + n + n =~= ins);
        lemma_prepend_settled(ins, c1, t);
        assert((ins + c1).take(ins.len() as int) =~= ins);
    }
    assert(settled(h, t));
    assert(cfg.show_header ==> starts_with(h, ins));
    let fh = footer_html(cfg, vals);
    let d = with_footer(h, cfg, vals);
    if cfg.show_footer && !contains(h, fh) {
        lemma_neutral_push_newline(fh);
        let y = n + (fh + n);
        lemma_neutral_text_concat(n, fh + n);
        if h.len() == 0 || h.last() == '\n' {
            lemma_neutral_text_concat(n, y);
            let x = if ends_with_blank_line(h) {
                y
            } else {
                n + y
            };
            assert(d =~= h + x);
            lemma_append_settled(h, x, t);
        } else {
            assert(!ends_with_blank_line(h));
            lemma_finish_line_settled(h, y, t);
            assert(d =~= h + n + y);
        }
        let k = d.len() - fh.len() - 1;
        assert(d.skip(k).take(fh.len() as int) =~= fh);
        assert(contains(d, fh));
        if cfg.show_header {
            assert(d.take(ins.len() as int) =~= h.take(ins.len() as int));
        }
    }
    assert(settled(d, t));
    lemma_quiet_flatten(lines(d), FenceState::Normal, t);
    lemma_flatten_lines(d, e);
    assert(e + d =~= d);
    assert(scan(lines(d), FenceState::Normal, t) == d);
}

} // verus!
