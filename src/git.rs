//! Interpretation of what the version-control tool prints: contributor
//! handles from a commit summary, and the tag to show.

use vstd::prelude::*;
use crate::renderer::starts_with;
use crate::roster::views;
use crate::text::{string_of, to_chars, trim};
use crate::tokens::{lines, split_lines, trim_range};

verus! {

/// A character allowed in a contributor handle.
pub open spec fn handle_char(c: char) -> bool {
    ('a' <= c && c <= 'z') || ('A' <= c && c <= 'Z') || ('0' <= c && c <= '9') || c == '-'
}

/// A plausible hosting-provider handle: 1 to 39 letters, digits or hyphens,
/// not starting or ending with a hyphen.
pub open spec fn plausible(u: Seq<char>) -> bool {
    &&& 1 <= u.len() <= 39
    &&& forall|i: int| 0 <= i < u.len() ==> handle_char(#[trigger] u[i])
    &&& u[0] != '-'
    &&& u.last() != '-'
}

fn plausible_range(v: &Vec<char>, lo: usize, hi: usize) -> (r: bool)
    requires
        lo <= hi <= v.len(),
    ensures
        r == plausible(v@.subrange(lo as int, hi as int)),
{
    let ghost u = v@.subrange(lo as int, hi as int);
    if hi - lo < 1 || hi - lo > 39 {
        return false;
    }
    let mut i: usize = lo;
    while i < hi
        invariant
            lo <= i <= hi <= v.len(),
            u == v@.subrange(lo as int, hi as int),
            forall|j: int| 0 <= j < i - lo ==> handle_char(#[trigger] u[j]),
        decreases hi - i,
    {
        let c = v[i];
        if !(('a' <= c && c <= 'z') || ('A' <= c && c <= 'Z') || ('0' <= c && c <= '9') || c
            == '-') {
            assert(!handle_char(u[i - lo]));
            return false;
        }
        i += 1;
    }
    v[lo] != '-' && v[hi - 1] != '-'
}

/// Whether `u` is a plausible contributor handle.
pub fn is_plausible_username(u: &str) -> (r: bool)
    ensures
        r == plausible(u@),
{
    let v = to_chars(u);
    assert(v@.subrange(0, v.len() as int) =~= v@);
    plausible_range(&v, 0, v.len())
}

/// The index of the first `c` in `s`, or -1.
pub open spec fn first(s: Seq<char>, c: char) -> int
    decreases s.len(),
{
    if s.len() == 0 {
        -1
    } else if s[0] == c {
        0
    } else {
        let r = first(s.skip(1), c);
        if r < 0 {
            -1
        } else {
            r + 1
        }
    }
}

proof fn lemma_first_bounds(s: Seq<char>, c: char)
    ensures
        -1 <= first(s, c) < s.len(),
        first(s, c) >= 0 ==> s[first(s, c)] == c,
    decreases s.len(),
{
    if s.len() > 0 && s[0] != c {
        lemma_first_bounds(s.skip(1), c);
    }
}

/// The position of the first `c` in `v[lo..hi]`.
pub fn find_char(v: &Vec<char>, lo: usize, hi: usize, c: char) -> (r: Option<usize>)
    requires
        lo <= hi <= v.len(),
    ensures
        match r {
            Some(i) => lo <= i < hi && first(v@.subrange(lo as int, hi as int), c) == i - lo,
            None => first(v@.subrange(lo as int, hi as int), c) == -1,
        },
{
    let mut i: usize = lo;
    while i < hi
        invariant
            lo <= i <= hi <= v.len(),
            first(v@.subrange(lo as int, hi as int), c) == if first(
                v@.subrange(i as int, hi as int),
                c,
            ) < 0 {
                -1
            } else {
                first(v@.subrange(i as int, hi as int), c) + (i - lo)
            },
        decreases hi - i,
    {
        assert(v@.subrange(i as int, hi as int).skip(1) =~= v@.subrange(i + 1, hi as int));
        if v[i] == c {
            return Some(i);
        }
        i += 1;
    }
    None
}

/// The handle that a hosting provider's no-reply address stands for:
/// `name@users.noreply.<host>` or `<id>+name@users.noreply.<host>`.
pub open spec fn noreply_handle(e: Seq<char>) -> Option<Seq<char>> {
    let at = first(e, '@');
    let local = e.take(at);
    let plus = first(local, '+');
    if at < 0 || !starts_with(e.skip(at + 1), noreply_domain()) {
        None
    } else if plus < 0 {
        Some(local)
    } else if plus > 0 && forall|i: int| 0 <= i < plus ==> '0' <= #[trigger] local[i] <= '9' {
        Some(local.skip(plus + 1))
    } else {
        None
    }
}

pub open spec fn noreply_domain() -> Seq<char> {
    seq!['u', 's', 'e', 'r', 's', '.', 'n', 'o', 'r', 'e', 'p', 'l', 'y', '.']
}

/// The handle that one summary line `<count>\t<name> <email>` gives: the name
/// if it is plausible, else the handle of a plausible no-reply address.
pub open spec fn shortlog_handle(line: Seq<char>) -> Option<Seq<char>> {
    let tab = first(line, '\t');
    let rest = line.skip(tab + 1);
    let lt = first(rest, '<');
    let name = trim(
        if lt < 0 {
            rest
        } else {
            rest.take(lt)
        },
    );
    let tail = rest.skip(lt + 1);
    let gt = first(tail, '>');
    let email = if gt < 0 {
        tail
    } else {
        tail.take(gt)
    };
    if tab < 0 {
        None
    } else if plausible(name) {
        Some(name)
    } else if lt >= 0 && noreply_handle(email) is Some && plausible(noreply_handle(email)->0) {
        noreply_handle(email)
    } else {
        None
    }
}

fn noreply_exec(v: &Vec<char>, lo: usize, hi: usize) -> (r: Option<(usize, usize)>)
    requires
        lo <= hi <= v.len(),
    ensures
        match r {
            Some((a, b)) => lo <= a <= b <= hi && noreply_handle(v@.subrange(lo as int, hi as int))
                == Some(v@.subrange(a as int, b as int)),
            None => noreply_handle(v@.subrange(lo as int, hi as int)) is None,
        },
{
    let ghost e = v@.subrange(lo as int, hi as int);
    let at = match find_char(v, lo, hi, '@') {
        Some(at) => at,
        None => return None,
    };
    let dom = vec!['u', 's', 'e', 'r', 's', '.', 'n', 'o', 'r', 'e', 'p', 'l', 'y', '.'];
    assert(dom@ =~= noreply_domain());
    assert(e.skip(at - lo + 1) =~= v@.subrange(at + 1, hi as int));
    assert(e.take(at - lo) =~= v@.subrange(lo as int, at as int));
    let tail = string_of(v, at + 1, hi);
    let tv = to_chars(tail.as_str());
    assert(tv@.skip(0) =~= tv@);
    if !crate::renderer::starts_at(&tv, 0, &dom) {
        return None;
    }
    match find_char(v, lo, at, '+') {
        None => Some((lo, at)),
        Some(plus) => {
            let ghost local = v@.subrange(lo as int, at as int);
            assert(local == e.take(at - lo));
            if plus == lo {
                return None;
            }
            let mut i: usize = lo;
            while i < plus
                invariant
                    lo <= i <= plus < at <= hi <= v.len(),
                    local == v@.subrange(lo as int, at as int),
                    e == v@.subrange(lo as int, hi as int),
                    local == e.take(at - lo),
                    first(e, '@') == at - lo,
                    first(local, '+') == plus - lo,
                    starts_with(e.skip(at - lo + 1), noreply_domain()),
                    forall|j: int| 0 <= j < i - lo ==> '0' <= #[trigger] local[j] <= '9',
                decreases plus - i,
            {
                if !('0' <= v[i] && v[i] <= '9') {
                    assert(!('0' <= local[i - lo] <= '9'));
                    assert(local == e.take(at - lo));
                    assert(!(forall|j: int| 0 <= j < plus - lo ==> '0' <= #[trigger] local[j] <= '9'));
                    return None;
                }
                i += 1;
            }
            assert(local.skip(plus - lo + 1) =~= v@.subrange(plus + 1, at as int));
            Some((plus + 1, at))
        },
    }
}

/// The handle of one summary line, as bounds in `v`.
fn shortlog_handle_exec(v: &Vec<char>) -> (r: Option<String>)
    ensures
        match r {
            Some(h) => shortlog_handle(v@) == Some(h@),
            None => shortlog_handle(v@) is None,
        },
{
    let n = v.len();
    assert(v@.subrange(0, n as int) =~= v@);
    let tab = match find_char(v, 0, n, '\t') {
        Some(t) => t,
        None => return None,
    };
    let ghost rest = v@.skip(tab + 1);
    assert(rest =~= v@.subrange(tab + 1, n as int));
    let lt = find_char(v, tab + 1, n, '<');
    let name_end = match lt {
        Some(l) => l,
        None => n,
    };
    proof {
        if let Some(l) = lt {
            assert(rest.take(l - tab - 1) =~= v@.subrange(tab + 1, l as int));
        }
    }
    let (a, b) = trim_range(v, tab + 1, name_end);
    if plausible_range(v, a, b) {
        return Some(string_of(v, a, b));
    }
    let l = match lt {
        Some(l) => l,
        None => return None,
    };
    let ghost tail = rest.skip(l - tab);
    assert(tail =~= v@.subrange(l + 1, n as int));
    let gt = find_char(v, l + 1, n, '>');
    let email_end = match gt {
        Some(g) => g,
        None => n,
    };
    proof {
        if let Some(g) = gt {
            assert(tail.take(g - l - 1) =~= v@.subrange(l + 1, g as int));
        }
    }
    match noreply_exec(v, l + 1, email_end) {
        Some((c, d)) => if plausible_range(v, c, d) {
            Some(string_of(v, c, d))
        } else {
            None
        },
        None => None,
    }
}

/// Strict lexicographic order of character sequences, by code point: the
/// order of `String`'s `Ord`.
pub open spec fn str_lt(a: Seq<char>, b: Seq<char>) -> bool
    decreases a.len(),
{
    if a.len() == 0 {
        b.len() > 0
    } else if b.len() == 0 {
        false
    } else if a[0] != b[0] {
        a[0] < b[0]
    } else {
        str_lt(a.skip(1), b.skip(1))
    }
}

proof fn lemma_str_total(a: Seq<char>, b: Seq<char>)
    requires
        !str_lt(a, b),
        a != b,
    ensures
        str_lt(b, a),
    decreases a.len(),
{
    if a.len() > 0 && b.len() > 0 && a[0] == b[0] {
        if a.skip(1) == b.skip(1) {
            assert(a =~= seq![a[0]] + a.skip(1));
            assert(b =~= seq![b[0]] + b.skip(1));
        }
        lemma_str_total(a.skip(1), b.skip(1));
    } else if a.len() > 0 && b.len() > 0 {
        assert(a[0] != b[0]);
    } else if a.len() == 0 && b.len() == 0 {
        assert(a =~= b);
    }
}

fn str_less(a: &Vec<char>, b: &Vec<char>) -> (r: bool)
    ensures
        r == str_lt(a@, b@),
{
    let mut i: usize = 0;
    assert(a@.skip(0) =~= a@ && b@.skip(0) =~= b@);
    while i < a.len() && i < b.len() && a[i] == b[i]
        invariant
            i <= a.len() && i <= b.len(),
            str_lt(a@, b@) == str_lt(a@.skip(i as int), b@.skip(i as int)),
        decreases a.len() - i,
    {
        assert(a@.skip(i as int).skip(1) =~= a@.skip(i + 1));
        assert(b@.skip(i as int).skip(1) =~= b@.skip(i + 1));
        i += 1;
    }
    if i == a.len() {
        i < b.len()
    } else if i == b.len() {
        false
    } else {
        a[i] < b[i]
    }
}

/// Strictly increasing: sorted, each name once.
pub open spec fn strictly_sorted(s: Seq<Seq<char>>) -> bool {
    forall|i: int| 0 <= i < s.len() - 1 ==> str_lt(#[trigger] s[i], s[i + 1])
}

/// Inserts `x` into a strictly sorted list unless it is there.
fn insert_sorted(v: &mut Vec<String>, x: String)
    requires
        strictly_sorted(views(old(v)@)),
    ensures
        strictly_sorted(views(final(v)@)),
        views(final(v)@).to_set() == views(old(v)@).to_set().insert(x@),
{
    let xv = to_chars(x.as_str());
    let mut p: usize = 0;
    while p < v.len() && str_less(&to_chars(v[p].as_str()), &xv)
        invariant
            p <= v.len(),
            xv@ == x@,
            forall|j: int| 0 <= j < p ==> str_lt(#[trigger] v@[j]@, x@),
        decreases v.len() - p,
    {
        p += 1;
    }
    let ghost old_v = views(v@);
    if p < v.len() && v[p] == x {
        assert(old_v[p as int] == x@);
        assert(old_v.to_set().insert(x@) =~= old_v.to_set());
        return;
    }
    proof {
        if p < v.len() {
            lemma_str_total(v@[p as int]@, x@);
        }
    }
    v.insert(p, x);
    assert(views(v@) =~= old_v.insert(p as int, x@));
    assert forall|i: int| 0 <= i < views(v@).len() - 1 implies str_lt(
        #[trigger] views(v@)[i],
        views(v@)[i + 1],
    ) by {
        if i + 1 < p {
            assert(str_lt(old_v[i], old_v[i + 1]));
        } else if i + 1 == p {
            assert(str_lt(v@[i]@, x@));
        } else if i == p {
        } else {
            assert(str_lt(old_v[i - 1], old_v[i]));
        }
    }
    assert(views(v@).to_set() =~= old_v.to_set().insert(x@)) by {
        assert forall|s: Seq<char>| views(v@).to_set().contains(s) implies old_v.to_set().insert(
            x@,
        ).contains(s) by {
            let i = choose|i: int| 0 <= i < views(v@).len() && views(v@)[i] == s;
            if i < p {
                assert(old_v[i] == s);
            } else if i > p {
                assert(old_v[i - 1] == s);
            }
        }
        assert forall|s: Seq<char>| old_v.to_set().insert(x@).contains(s) implies views(
            v@,
        ).to_set().contains(s) by {
            if s == x@ {
                assert(views(v@)[p as int] == s);
            } else {
                let i = choose|i: int| 0 <= i < old_v.len() && old_v[i] == s;
                if i < p {
                    assert(views(v@)[i] == s);
                } else {
                    assert(views(v@)[i + 1] == s);
                }
            }
        }
    }
}

/// The handles that the summary lines give, in order, with repeats.
pub open spec fn handles_of(ls: Seq<Seq<char>>) -> Seq<Seq<char>>
    decreases ls.len(),
{
    if ls.len() == 0 {
        Seq::empty()
    } else {
        let rest = handles_of(ls.drop_last());
        match shortlog_handle(ls.last()) {
            Some(h) => rest.push(h),
            None => rest,
        }
    }
}

/// The contributor handles in a commit summary (`<count>\t<name> <email>`
/// per line), each once, in lexicographic order.
pub fn parse_shortlog(output: &str) -> (r: Vec<String>)
    ensures
        strictly_sorted(views(r@)),
        views(r@).to_set() == handles_of(lines(output@)).to_set(),
{
    let v = to_chars(output);
    let ls = split_lines(&v);
    let ghost lv = ls@.map_values(|l: Vec<char>| l@);
    let mut r: Vec<String> = Vec::new();
    let mut i: usize = 0;
    assert(views(r@).to_set() =~= Set::<Seq<char>>::empty());
    assert(lv.take(0) =~= Seq::<Seq<char>>::empty());
    while i < ls.len()
        invariant
            i <= ls.len(),
            lv == ls@.map_values(|l: Vec<char>| l@),
            strictly_sorted(views(r@)),
            views(r@).to_set() == handles_of(lv.take(i as int)).to_set(),
        decreases ls.len() - i,
    {
        assert(lv.take(i + 1).drop_last() =~= lv.take(i as int));
        assert(lv.take(i + 1).last() == ls@[i as int]@);
        let ghost before = handles_of(lv.take(i as int));
        match shortlog_handle_exec(&ls[i]) {
            Some(h) => {
                let ghost hv = h@;
                insert_sorted(&mut r, h);
                proof {
                    before.lemma_push_to_set_commute(hv);
                }
            },
            None => {},
        }
        i += 1;
    }
    assert(lv.take(ls.len() as int) =~= lv);
    r
}

/// The tag to show: the nearest tag reachable from the branch, else the
/// newest tag of the repository, else the `No tags found` sentinel. A
/// lookup that failed is `None`; surrounding whitespace is ignored.
pub open spec fn tag_choice(branch_tag: Option<Seq<char>>, newest_tag: Option<Seq<char>>) -> Seq<
    char,
> {
    if branch_tag is Some && trim(branch_tag->0).len() > 0 {
        trim(branch_tag->0)
    } else if newest_tag is Some && trim(newest_tag->0).len() > 0 {
        trim(newest_tag->0)
    } else {
        no_tags()
    }
}

pub open spec fn no_tags() -> Seq<char> {
    "No tags found"@
}

fn trimmed(s: &String) -> (r: String)
    ensures
        r@ == trim(s@),
{
    let v = to_chars(s.as_str());
    assert(v@.subrange(0, v.len() as int) =~= v@);
    let (a, b) = trim_range(&v, 0, v.len());
    string_of(&v, a, b)
}

/// Picks the tag to show from the branch-scoped and the repository-wide lookups.
pub fn latest_tag_from(branch_tag: &Option<String>, newest_tag: &Option<String>) -> (r: String)
    ensures
        r@ == tag_choice(crate::config::opt_view(*branch_tag), crate::config::opt_view(*newest_tag)),
{
    if let Some(b) = branch_tag {
        let t = trimmed(b);
        if !t.as_str().is_empty() {
            return t;
        }
    }
    if let Some(g) = newest_tag {
        let t = trimmed(g);
        if !t.as_str().is_empty() {
            return t;
        }
    }
    String::from_str("No tags found")
}

/// When the branch-scoped lookup yields nothing (it failed, or printed only
/// whitespace) and so does the repository-wide one, the tag is exactly the
/// `No tags found` sentinel.
pub proof fn lemma_tag_fallback(branch_tag: Option<Seq<char>>, newest_tag: Option<Seq<char>>)
    requires
        branch_tag is None || trim(branch_tag->0).len() == 0,
        newest_tag is None || trim(newest_tag->0).len() == 0,
    ensures
        tag_choice(branch_tag, newest_tag) == no_tags(),
{
}

/// Every handle taken from a commit summary is plausible.
pub proof fn lemma_accepted_handles_plausible(ls: Seq<Seq<char>>)
    ensures
        forall|i: int| 0 <= i < handles_of(ls).len() ==> plausible(#[trigger] handles_of(ls)[i]),
    decreases ls.len(),
{
    if ls.len() > 0 {
        let rest = handles_of(ls.drop_last());
        lemma_accepted_handles_plausible(ls.drop_last());
        match shortlog_handle(ls.last()) {
            Some(h) => {
                assert(plausible(h));
                assert forall|i: int| 0 <= i < handles_of(ls).len() implies plausible(
                    #[trigger] handles_of(ls)[i],
                ) by {
                    if i < rest.len() {
                        assert(handles_of(ls)[i] == rest[i]);
                    }
                }
            },
            None => {},
        }
    }
}

/// Names that are empty, longer than 39 characters, start or end with a
/// hyphen, or hold a character other than a letter, digit or hyphen (a
/// space, say) are never plausible handles.
pub proof fn lemma_rejected_handles(u: Seq<char>)
    ensures
        (u.len() == 0 || u.len() > 39 || u[0] == '-' || u.last() == '-' || exists|i: int|
            0 <= i < u.len() && !handle_char(#[trigger] u[i])) ==> !plausible(u),
{
}

/// Whether the branch-scoped tag lookup gave nothing, so the repository-wide
/// lookup is needed.
pub fn needs_newest_tag(branch_tag: &Option<String>) -> (r: bool)
    ensures
        r == !(branch_tag is Some && trim(branch_tag->0@).len() > 0),
{
    match branch_tag {
        Some(b) => trimmed(b).as_str().is_empty(),
        None => true,
    }
}

} // verus!
