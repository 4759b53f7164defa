//! The browsable repository base URL and the links derived from it.

use vstd::prelude::*;
use crate::config::opt_view;
use crate::git::first;
use crate::renderer::{starts_at, starts_with};
use crate::text::{push_str, string_of, to_chars, trim};
use crate::tokens::trim_range;

verus! {

/// `p` occurs in `s`.
pub open spec fn contains(s: Seq<char>, p: Seq<char>) -> bool {
    exists|i: int| 0 <= i <= s.len() && starts_with(#[trigger] s.skip(i), p)
}

/// Whether `p` occurs in `t`.
pub fn contains_exec(t: &Vec<char>, p: &Vec<char>) -> (r: bool)
    ensures
        r == contains(t@, p@),
{
    let mut i: usize = 0;
    while i < t.len()
        invariant
            i <= t.len(),
            forall|j: int| 0 <= j < i ==> !starts_with(#[trigger] t@.skip(j), p@),
        decreases t.len() - i,
    {
        if starts_at(t, i, p) {
            return true;
        }
        i += 1;
    }
    starts_at(t, i, p)
}

/// `s` without any number of trailing `.git`.
pub open spec fn strip_git(s: Seq<char>) -> Seq<char>
    decreases s.len(),
{
    if s.len() >= 4 && s.skip(s.len() - 4) == seq!['.', 'g', 'i', 't'] {
        strip_git(s.take(s.len() - 4))
    } else {
        s
    }
}

/// `s` without any number of trailing `/`.
pub open spec fn strip_slashes(s: Seq<char>) -> Seq<char>
    decreases s.len(),
{
    if s.len() > 0 && s.last() == '/' {
        strip_slashes(s.drop_last())
    } else {
        s
    }
}

pub open spec fn https() -> Seq<char> {
    seq!['h', 't', 't', 'p', 's', ':', '/', '/']
}

pub open spec fn ssh_scheme() -> Seq<char> {
    seq!['s', 's', 'h', ':', '/', '/']
}

/// A remote address in browsable form: trimmed, without a trailing `.git`;
/// `ssh://user@host/org/repo` and `user@host:org/repo` become
/// `https://host/org/repo`; anything else is kept.
pub open spec fn normalised(url: Seq<char>) -> Seq<char> {
    let u = strip_git(trim(url));
    let r = u.skip(6);
    let at_r = first(r, '@');
    let slash_r = first(r, '/');
    let at = first(u, '@');
    let colon = first(u, ':');
    if starts_with(u, ssh_scheme()) {
        if at_r >= 0 && (slash_r < 0 || at_r < slash_r) {
            https() + r.skip(at_r + 1)
        } else {
            https() + r
        }
    } else if at >= 0 && colon > at {
        https() + u.subrange(at + 1, colon) + seq!['/'] + u.skip(colon + 1)
    } else {
        u
    }
}

fn strip_git_exec(v: &Vec<char>, lo: usize, hi: usize) -> (r: usize)
    requires
        lo <= hi <= v.len(),
    ensures
        lo <= r <= hi,
        v@.subrange(lo as int, r as int) == strip_git(v@.subrange(lo as int, hi as int)),
{
    let mut b: usize = hi;
    while b - lo >= 4 && v[b - 4] == '.' && v[b - 3] == 'g' && v[b - 2] == 'i' && v[b - 1] == 't'
        invariant
            lo <= b <= hi <= v.len(),
            strip_git(v@.subrange(lo as int, hi as int)) == strip_git(
                v@.subrange(lo as int, b as int),
            ),
        decreases b - lo,
    {
        let ghost s = v@.subrange(lo as int, b as int);
        assert(s.skip(s.len() - 4) =~= seq!['.', 'g', 'i', 't']);
        assert(s.take(s.len() - 4) =~= v@.subrange(lo as int, b - 4));
        b -= 4;
    }
    let ghost s = v@.subrange(lo as int, b as int);
    if b - lo >= 4 {
        assert(s.skip(s.len() - 4)[0] == v@[b - 4]);
        assert(s.skip(s.len() - 4)[1] == v@[b - 3]);
        assert(s.skip(s.len() - 4)[2] == v@[b - 2]);
        assert(s.skip(s.len() - 4)[3] == v@[b - 1]);
    }
    b
}

/// Converts a remote address into a browsable base URL.
pub fn normalise_repo_base(url: &str) -> (r: String)
    ensures
        r@ == normalised(url@),
{
    let v = to_chars(url);
    assert(v@.subrange(0, v.len() as int) =~= v@);
    let (a, b0) = trim_range(&v, 0, v.len());
    let b = strip_git_exec(&v, a, b0);
    let ghost u = v@.subrange(a as int, b as int);
    let scheme = vec!['s', 's', 'h', ':', '/', '/'];
    assert(scheme@ =~= ssh_scheme());
    let w = to_chars(string_of(&v, a, b).as_str());
    assert(w@.skip(0) =~= w@);
    let mut out = String::new();
    if starts_at(&w, 0, &scheme) {
        let ghost r = u.skip(6);
        assert(r =~= v@.subrange(a + 6, b as int));
        let at = crate::git::find_char(&v, a + 6, b, '@');
        let slash = crate::git::find_char(&v, a + 6, b, '/');
        push_str(&mut out, "https://");
        let start = match at {
            Some(i) => match slash {
                Some(j) => if i < j {
                    i + 1
                } else {
                    a + 6
                },
                None => i + 1,
            },
            None => a + 6,
        };
        proof {
            reveal_strlit("https://");
            if start != a + 6 {
                assert(r.skip(start - a - 6) =~= v@.subrange(start as int, b as int));
            }
        }
        push_str(&mut out, string_of(&v, start, b).as_str());
        assert(out@ =~= normalised(url@));
        return out;
    }
    let at = crate::git::find_char(&v, a, b, '@');
    let colon = crate::git::find_char(&v, a, b, ':');
    if let (Some(i), Some(j)) = (at, colon) {
        if j > i {
            push_str(&mut out, "https://");
            push_str(&mut out, string_of(&v, i + 1, j).as_str());
            push_str(&mut out, "/");
            push_str(&mut out, string_of(&v, j + 1, b).as_str());
            proof {
                reveal_strlit("https://");
                reveal_strlit("/");
                assert(u.subrange(i - a + 1, j - a) =~= v@.subrange(i + 1, j as int));
                assert(u.skip(j - a + 1) =~= v@.subrange(j + 1, b as int));
            }
            assert(out@ =~= normalised(url@));
            return out;
        }
    }
    string_of(&v, a, b)
}

/// The page of a tag under a repository base, in the hosting provider's
/// URL scheme.
pub open spec fn tag_link(base: Seq<char>, tag: Seq<char>) -> Seq<char> {
    if contains(base, "github.com"@) {
        base + "/releases/tag/"@ + tag
    } else if contains(base, "gitlab"@) {
        base + "/-/tags/"@ + tag
    } else if contains(base, "bitbucket.org"@) {
        base + "/src/"@ + tag
    } else {
        base + "/tags/"@ + tag
    }
}

/// The URL of a tag's page.
pub fn tag_url(base: &str, tag: &str) -> (r: String)
    ensures
        r@ == tag_link(base@, tag@),
{
    let v = to_chars(base);
    let mut out = String::new();
    push_str(&mut out, base);
    if contains_exec(&v, &to_chars("github.com")) {
        push_str(&mut out, "/releases/tag/");
    } else if contains_exec(&v, &to_chars("gitlab")) {
        push_str(&mut out, "/-/tags/");
    } else if contains_exec(&v, &to_chars("bitbucket.org")) {
        push_str(&mut out, "/src/");
    } else {
        push_str(&mut out, "/tags/");
    }
    push_str(&mut out, tag);
    out
}

/// What the build environment and the local clone say about the hosting
/// provider: each CI provider's pair of variables and the remote address.
#[derive(Clone, Debug, Default)]
pub struct RepoSignals {
    pub github_server_url: Option<String>,
    pub github_repository: Option<String>,
    pub ci_server_url: Option<String>,
    pub ci_project_path: Option<String>,
    pub bitbucket_git_http_origin: Option<String>,
    pub bitbucket_repo_full_name: Option<String>,
    pub remote_url: Option<String>,
}

/// A server URL and a repository path joined by one `/`.
pub open spec fn joined(server: Seq<char>, path: Seq<char>) -> Seq<char> {
    strip_slashes(server) + seq!['/'] + path
}

/// The repository base: the first provider whose signals are all present,
/// in a fixed order, else the normalised remote, else none.
pub open spec fn repo_base_of(s: RepoSignals) -> Option<Seq<char>> {
    if s.github_server_url is Some && s.github_repository is Some {
        Some(joined(s.github_server_url->0@, s.github_repository->0@))
    } else if s.ci_server_url is Some && s.ci_project_path is Some {
        Some(joined(s.ci_server_url->0@, s.ci_project_path->0@))
    } else if s.bitbucket_git_http_origin is Some {
        Some(normalised(s.bitbucket_git_http_origin->0@))
    } else if s.bitbucket_repo_full_name is Some {
        Some("https://bitbucket.org/"@ + s.bitbucket_repo_full_name->0@)
    } else if s.remote_url is Some {
        Some(normalised(s.remote_url->0@))
    } else {
        None
    }
}

fn join_exec(server: &String, path: &String) -> (r: String)
    ensures
        r@ == joined(server@, path@),
{
    let v = to_chars(server.as_str());
    let mut b: usize = v.len();
    assert(v@.subrange(0, b as int) =~= v@);
    while b > 0 && v[b - 1] == '/'
        invariant
            b <= v.len(),
            strip_slashes(v@) == strip_slashes(v@.subrange(0, b as int)),
        decreases b,
    {
        assert(v@.subrange(0, b as int).drop_last() =~= v@.subrange(0, b - 1));
        b -= 1;
    }
    let mut out = string_of(&v, 0, b);
    push_str(&mut out, "/");
    push_str(&mut out, path.as_str());
    proof {
        reveal_strlit("/");
    }
    assert(out@ =~= joined(server@, path@));
    out
}

/// Resolves the repository base URL from the provider signals.
pub fn resolve_repo_base(s: &RepoSignals) -> (r: Option<String>)
    ensures
        opt_view(r) == repo_base_of(*s),
{
    if let (Some(server), Some(repo)) = (&s.github_server_url, &s.github_repository) {
        return Some(join_exec(server, repo));
    }
    if let (Some(server), Some(path)) = (&s.ci_server_url, &s.ci_project_path) {
        return Some(join_exec(server, path));
    }
    if let Some(origin) = &s.bitbucket_git_http_origin {
        return Some(normalise_repo_base(origin.as_str()));
    }
    if let Some(full) = &s.bitbucket_repo_full_name {
        let mut out = String::from_str("https://bitbucket.org/");
        push_str(&mut out, full.as_str());
        return Some(out);
    }
    if let Some(remote) = &s.remote_url {
        return Some(normalise_repo_base(remote.as_str()));
    }
    None
}

} // verus!
