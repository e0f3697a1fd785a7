//! Parsing of git remote URLs into repository coordinates.
use vstd::prelude::*;

use crate::text::{chars_of, occurs_at, occurs_at_exec, starts_with, string_of};

verus! {

/// Why a remote URL could not be read as repository coordinates.
#[derive(Debug, Clone, Copy, PartialEq, Eq, Structural)]
pub enum ParseError {
    /// The URL does not name the review service's host.
    UnrecognizedHost,
    /// No `/` separates the workspace from the repository.
    MalformedPath,
}

pub open spec fn ssh_scheme() -> Seq<char> {
    seq!['s', 's', 'h', ':', '/', '/']
}

pub open spec fn git_user() -> Seq<char> {
    seq!['g', 'i', 't', '@']
}

pub open spec fn https_scheme() -> Seq<char> {
    seq!['h', 't', 't', 'p', 's', ':', '/', '/']
}

pub open spec fn http_scheme() -> Seq<char> {
    seq!['h', 't', 't', 'p', ':', '/', '/']
}

/// The service's host name.
pub open spec fn host_name() -> Seq<char> {
    seq!['b', 'i', 't', 'b', 'u', 'c', 'k', 'e', 't', '.', 'o', 'r', 'g']
}

pub open spec fn git_suffix() -> Seq<char> {
    seq!['.', 'g', 'i', 't']
}

/// `s` with every leading repetition of `p` removed.
pub open spec fn trim_start_all(s: Seq<char>, p: Seq<char>) -> Seq<char>
    decreases s.len(),
{
    if p.len() > 0 && starts_with(s, p) {
        trim_start_all(s.skip(p.len() as int), p)
    } else {
        s
    }
}

/// `s` with every trailing repetition of `p` removed.
pub open spec fn trim_end_all(s: Seq<char>, p: Seq<char>) -> Seq<char>
    decreases s.len(),
{
    if p.len() > 0 && occurs_at(s, s.len() - p.len(), p) {
        trim_end_all(s.take(s.len() - p.len()), p)
    } else {
        s
    }
}

/// The position just after the last `c` in `s`, or 0 when `s` holds none.
pub open spec fn start_after_last(s: Seq<char>, c: char) -> int
    decreases s.len(),
{
    if s.len() == 0 {
        0
    } else if s.last() == c {
        s.len() as int
    } else {
        start_after_last(s.drop_last(), c)
    }
}

/// The position of the first `c` in `s`, or `s.len()` when `s` holds none.
pub open spec fn first_index(s: Seq<char>, c: char) -> int
    decreases s.len(),
{
    if s.len() == 0 {
        0
    } else if s[0] == c {
        0
    } else {
        1 + first_index(s.skip(1), c)
    }
}

/// The URL without its transport prefixes and without anything up to its last `@`.
pub open spec fn host_part(url: Seq<char>) -> Seq<char> {
    let t = trim_start_all(
        trim_start_all(
            trim_start_all(trim_start_all(url, ssh_scheme()), git_user()),
            https_scheme(),
        ),
        http_scheme(),
    );
    t.skip(start_after_last(t, '@'))
}

/// Whether `h` begins with the host name followed by `/` or `:`.
pub open spec fn names_host(h: Seq<char>) -> bool {
    starts_with(h, host_name()) && h.len() > host_name().len() && (h[host_name().len() as int]
        == '/' || h[host_name().len() as int] == ':')
}

/// The path after the host name and its separator.
pub open spec fn path_part(url: Seq<char>) -> Seq<char> {
    host_part(url).skip(host_name().len() + 1int)
}

/// The coordinates that a remote URL names, or why it names none.
pub open spec fn parse_spec(url: Seq<char>) -> Result<(Seq<char>, Seq<char>), ParseError> {
    if !names_host(host_part(url)) {
        Err(ParseError::UnrecognizedHost)
    } else if !path_part(url).contains('/') {
        Err(ParseError::MalformedPath)
    } else {
        let p = path_part(url);
        let j = first_index(p, '/');
        Ok((p.take(j), trim_end_all(p.skip(j + 1), git_suffix())))
    }
}

/// Skips every repetition of `p` at `start`; returns where the rest begins.
pub(crate) fn skip_repeated(v: &Vec<char>, start: usize, p: &Vec<char>) -> (r: usize)
    requires
        start <= v.len(),
    ensures
        start <= r <= v.len(),
        v@.skip(r as int) == trim_start_all(v@.skip(start as int), p@),
{
    let mut i = start;
    while p.len() > 0 && occurs_at_exec(v, i, p)
        invariant
            start <= i <= v.len(),
            trim_start_all(v@.skip(i as int), p@) == trim_start_all(v@.skip(start as int), p@),
        decreases v.len() - i,
    {
        proof {
            let s = v@.skip(i as int);
            assert(s.subrange(0, p@.len() as int) =~= v@.subrange(i as int, i + p@.len()));
            assert(s.skip(p@.len() as int) =~= v@.skip(i + p@.len()));
        }
        i = i + p.len();
    }
    proof {
        let s = v@.skip(i as int);
        if p@.len() > 0 && i + p@.len() <= v@.len() {
            assert(s.subrange(0, p@.len() as int) =~= v@.subrange(i as int, i + p@.len()));
        }
    }
    i
}

/// Removes every repetition of `p` that ends `v[lo..hi]`; returns the new end.
pub(crate) fn trim_repeated_end(v: &Vec<char>, lo: usize, hi: usize, p: &Vec<char>) -> (r: usize)
    requires
        lo <= hi <= v.len(),
    ensures
        lo <= r <= hi,
        v@.subrange(lo as int, r as int) == trim_end_all(v@.subrange(lo as int, hi as int), p@),
{
    let mut k = hi;
    while p.len() > 0 && k - lo >= p.len() && occurs_at_exec(v, k - p.len(), p)
        invariant
            lo <= k <= hi <= v.len(),
            trim_end_all(v@.subrange(lo as int, k as int), p@) == trim_end_all(
                v@.subrange(lo as int, hi as int),
                p@,
            ),
        decreases k,
    {
        proof {
            let s = v@.subrange(lo as int, k as int);
            let m = s.len() - p@.len();
            assert(s.subrange(m, m + p@.len()) =~= v@.subrange(k - p@.len(), k as int));
            assert(s.take(m) =~= v@.subrange(lo as int, k - p@.len()));
        }
        k = k - p.len();
    }
    proof {
        let s = v@.subrange(lo as int, k as int);
        if p@.len() > 0 && s.len() >= p@.len() {
            let m = s.len() - p@.len();
            assert(s.subrange(m, m + p@.len()) =~= v@.subrange(k - p@.len(), k as int));
        }
    }
    k
}

/// The position just after the last `c` in `v[lo..]`, as an index of `v`.
fn after_last(v: &Vec<char>, lo: usize, c: char) -> (r: usize)
    requires
        lo <= v.len(),
    ensures
        r == lo + start_after_last(v@.skip(lo as int), c),
        lo <= r <= v.len(),
{
    let mut k = v.len();
    while k > lo && v[k - 1] != c
        invariant
            lo <= k <= v.len(),
            start_after_last(v@.skip(lo as int), c) == start_after_last(
                v@.subrange(lo as int, k as int),
                c,
            ),
        decreases k,
    {
        proof {
            let s = v@.subrange(lo as int, k as int);
            assert(s.drop_last() =~= v@.subrange(lo as int, k - 1));
        }
        k = k - 1;
    }
    proof {
        assert(v@.skip(lo as int) =~= v@.subrange(lo as int, v.len() as int));
    }
    k
}

/// The position of the first `c` in `v[lo..]`, as an index of `v`.
pub(crate) fn first_from(v: &Vec<char>, lo: usize, c: char) -> (r: usize)
    requires
        lo <= v.len(),
    ensures
        r == lo + first_index(v@.skip(lo as int), c),
        lo <= r <= v.len(),
        v@.skip(lo as int).contains(c) <==> r < v.len(),
{
    let mut k = lo;
    while k < v.len() && v[k] != c
        invariant
            lo <= k <= v.len(),
            first_index(v@.skip(lo as int), c) == (k - lo) + first_index(v@.skip(k as int), c),
            forall|j: int| lo <= j < k ==> v@[j] != c,
        decreases v.len() - k,
    {
        proof {
            assert(v@.skip(k as int).skip(1) =~= v@.skip(k + 1));
        }
        k = k + 1;
    }
    proof {
        if k < v.len() {
            assert(v@.skip(lo as int)[k - lo] == c);
        } else {
            assert forall|j: int| 0 <= j < v@.skip(lo as int).len() implies v@.skip(
                lo as int,
            )[j] != c by {
                assert(v@.skip(lo as int)[j] == v@[lo + j]);
            }
        }
    }
    k
}

/// Whether `v[i..]` begins with `host` followed by `/` or `:`.
fn names_host_at(v: &Vec<char>, i: usize, host: &Vec<char>) -> (r: bool)
    requires
        i <= v.len(),
        host@ == host_name(),
    ensures
        r == names_host(v@.skip(i as int)),
{
    let n = host.len();
    let h = Ghost(v@.skip(i as int));
    if occurs_at_exec(v, i, host) && i + n < v.len() && (v[i + n] == '/' || v[i + n] == ':') {
        assert(h@.subrange(0, n as int) =~= v@.subrange(i as int, i + n));
        true
    } else {
        proof {
            if names_host(h@) {
                assert(h@.subrange(0, n as int) =~= v@.subrange(i as int, i + n));
                assert(h@[n as int] == v@[i + n]);
            }
        }
        false
    }
}

/// A path segment that parsing can return unchanged: no `@` and no `/`.
pub open spec fn is_segment(s: Seq<char>) -> bool {
    !s.contains('@') && !s.contains('/')
}

/// What follows the transport prefix: the host, a separator, then the path.
pub open spec fn host_and_path(sep: char, ws: Seq<char>, repo: Seq<char>, suffix: Seq<char>) -> Seq<
    char,
> {
    host_name() + seq![sep] + ws + seq!['/'] + repo + suffix
}

/// `http://host/ws/repo` followed by `suffix`.
pub open spec fn http_form(ws: Seq<char>, repo: Seq<char>, suffix: Seq<char>) -> Seq<char> {
    http_scheme() + host_and_path('/', ws, repo, suffix)
}

/// `https://host/ws/repo` followed by `suffix`.
pub open spec fn https_form(ws: Seq<char>, repo: Seq<char>, suffix: Seq<char>) -> Seq<char> {
    https_scheme() + host_and_path('/', ws, repo, suffix)
}

/// `https://user@host/ws/repo` followed by `suffix`.
pub open spec fn https_user_form(
    user: Seq<char>,
    ws: Seq<char>,
    repo: Seq<char>,
    suffix: Seq<char>,
) -> Seq<char> {
    https_scheme() + user + seq!['@'] + host_and_path('/', ws, repo, suffix)
}

/// `git@host:ws/repo` followed by `suffix`.
pub open spec fn scp_form(ws: Seq<char>, repo: Seq<char>, suffix: Seq<char>) -> Seq<char> {
    git_user() + host_and_path(':', ws, repo, suffix)
}

/// `ssh://git@host/ws/repo` followed by `suffix`.
pub open spec fn ssh_form(ws: Seq<char>, repo: Seq<char>, suffix: Seq<char>) -> Seq<char> {
    ssh_scheme() + git_user() + host_and_path('/', ws, repo, suffix)
}

proof fn lemma_trim_start_mismatch(s: Seq<char>, p: Seq<char>)
    requires
        s.len() > 0,
        p.len() > 0,
        s[0] != p[0],
    ensures
        trim_start_all(s, p) == s,
{
    if starts_with(s, p) {
        assert(s.subrange(0, p.len() as int)[0] == s[0]);
    }
}

proof fn lemma_trim_start_once(p: Seq<char>, s: Seq<char>)
    requires
        p.len() > 0,
    ensures
        trim_start_all(p + s, p) == trim_start_all(s, p),
{
    assert((p + s).subrange(0, p.len() as int) =~= p);
    assert((p + s).skip(p.len() as int) =~= s);
}

proof fn lemma_after_last_none(s: Seq<char>, c: char)
    requires
        !s.contains(c),
    ensures
        start_after_last(s, c) == 0,
    decreases s.len(),
{
    if s.len() > 0 {
        assert(s.last() == s[s.len() - 1]);
        assert forall|i: int| 0 <= i < s.drop_last().len() implies s.drop_last()[i] != c by {
            assert(s.drop_last()[i] == s[i]);
        }
        lemma_after_last_none(s.drop_last(), c);
    }
}

proof fn lemma_after_last_split(a: Seq<char>, b: Seq<char>, c: char)
    requires
        !b.contains(c),
    ensures
        start_after_last(a + seq![c] + b, c) == a.len() + 1,
    decreases b.len(),
{
    let s = a + seq![c] + b;
    if b.len() == 0 {
        assert(s.last() == c);
    } else {
        assert(s.last() == b.last());
        assert(b.last() == b[b.len() - 1]);
        assert(s.drop_last() =~= a + seq![c] + b.drop_last());
        assert forall|i: int| 0 <= i < b.drop_last().len() implies b.drop_last()[i] != c by {
            assert(b.drop_last()[i] == b[i]);
        }
        lemma_after_last_split(a, b.drop_last(), c);
    }
}

pub proof fn lemma_first_index_split(a: Seq<char>, b: Seq<char>, c: char)
    requires
        !a.contains(c),
    ensures
        first_index(a + seq![c] + b, c) == a.len(),
    decreases a.len(),
{
    let s = a + seq![c] + b;
    if a.len() == 0 {
        assert(s[0] == c);
    } else {
        assert(s[0] == a[0]);
        assert(s.skip(1) =~= a.skip(1) + seq![c] + b);
        assert forall|i: int| 0 <= i < a.skip(1).len() implies a.skip(1)[i] != c by {
            assert(a.skip(1)[i] == a[i + 1]);
        }
        lemma_first_index_split(a.skip(1), b, c);
    }
}

/// Parsing what follows the transport prefix gives back `(ws, repo)`.
proof fn lemma_host_and_path(sep: char, ws: Seq<char>, repo: Seq<char>, suffix: Seq<char>)
    requires
        sep == '/' || sep == ':',
        is_segment(ws),
        is_segment(repo),
        !occurs_at(repo, repo.len() - git_suffix().len(), git_suffix()),
        suffix == Seq::<char>::empty() || suffix == git_suffix(),
    ensures
        ({
            let t = host_and_path(sep, ws, repo, suffix);
            &&& t[0] == 'b'
            &&& !t.contains('@')
            &&& names_host(t)
            &&& t.skip(host_name().len() + 1int) == ws + seq!['/'] + repo + suffix
        }),
{
    let t = host_and_path(sep, ws, repo, suffix);
    let h = host_name();
    assert(t =~= h + (seq![sep] + ws + seq!['/'] + repo + suffix));
    assert(t[0] == h[0]);
    assert(t.subrange(0, h.len() as int) =~= h);
    assert(t[h.len() as int] == sep);
    assert(t.skip(h.len() + 1int) =~= ws + seq!['/'] + repo + suffix);
    assert forall|i: int| 0 <= i < t.len() implies t[i] != '@' by {
        if i < h.len() {
            assert(t[i] == h[i]);
        } else if i == h.len() {
        } else if i < h.len() + 1 + ws.len() {
            assert(t[i] == ws[i - h.len() - 1]);
        } else if i == h.len() + 1 + ws.len() {
        } else if i < h.len() + 2 + ws.len() + repo.len() {
            assert(t[i] == repo[i - h.len() - 2 - ws.len()]);
        } else {
            assert(t[i] == suffix[i - h.len() - 2 - ws.len() - repo.len()]);
        }
    }
}

/// The path `ws/repo` followed by `suffix` splits back into `(ws, repo)`.
proof fn lemma_split_path(ws: Seq<char>, repo: Seq<char>, suffix: Seq<char>)
    requires
        is_segment(ws),
        is_segment(repo),
        !occurs_at(repo, repo.len() - git_suffix().len(), git_suffix()),
        suffix == Seq::<char>::empty() || suffix == git_suffix(),
    ensures
        ({
            let p = ws + seq!['/'] + repo + suffix;
            &&& p.contains('/')
            &&& p.take(first_index(p, '/')) == ws
            &&& trim_end_all(p.skip(first_index(p, '/') + 1), git_suffix()) == repo
        }),
{
    let p = ws + seq!['/'] + repo + suffix;
    assert(p =~= ws + seq!['/'] + (repo + suffix));
    lemma_first_index_split(ws, repo + suffix, '/');
    assert(p[ws.len() as int] == '/');
    assert(p.take(ws.len() as int) =~= ws);
    assert(p.skip(ws.len() + 1int) =~= repo + suffix);
    let g = git_suffix();
    assert(trim_end_all(repo, g) == repo);
    if suffix == g {
        let rs = repo + g;
        assert(rs.subrange(rs.len() - g.len(), rs.len() as int) =~= g);
        assert(rs.take(rs.len() - g.len()) =~= repo);
        assert(trim_end_all(rs, g) == trim_end_all(repo, g));
    } else {
        assert(repo + suffix =~= repo);
    }
}

/// A URL whose host part is the host, a separator and `ws/repo` parses to `(ws, repo)`.
proof fn lemma_parse_from_host_part(
    url: Seq<char>,
    sep: char,
    ws: Seq<char>,
    repo: Seq<char>,
    suffix: Seq<char>,
)
    requires
        sep == '/' || sep == ':',
        is_segment(ws),
        is_segment(repo),
        !occurs_at(repo, repo.len() - git_suffix().len(), git_suffix()),
        suffix == Seq::<char>::empty() || suffix == git_suffix(),
        host_part(url) == host_and_path(sep, ws, repo, suffix),
    ensures
        parse_spec(url) == Ok::<_, ParseError>((ws, repo)),
{
    lemma_host_and_path(sep, ws, repo, suffix);
    lemma_split_path(ws, repo, suffix);
}

/// Facts on what follows the transport prefix, as the forms below use them.
proof fn lemma_tail_facts(t: Seq<char>)
    requires
        t.len() > 0,
        t[0] == 'b',
        !t.contains('@'),
    ensures
        trim_start_all(t, ssh_scheme()) == t,
        trim_start_all(t, git_user()) == t,
        trim_start_all(t, https_scheme()) == t,
        trim_start_all(t, http_scheme()) == t,
        t.skip(start_after_last(t, '@')) == t,
{
    lemma_trim_start_mismatch(t, ssh_scheme());
    lemma_trim_start_mismatch(t, git_user());
    lemma_trim_start_mismatch(t, https_scheme());
    lemma_trim_start_mismatch(t, http_scheme());
    lemma_after_last_none(t, '@');
    assert(t.skip(0) =~= t);
}

proof fn lemma_https_form(ws: Seq<char>, repo: Seq<char>, suffix: Seq<char>)
    requires
        is_segment(ws),
        is_segment(repo),
        !occurs_at(repo, repo.len() - git_suffix().len(), git_suffix()),
        suffix == Seq::<char>::empty() || suffix == git_suffix(),
    ensures
        parse_spec(https_form(ws, repo, suffix)) == Ok::<_, ParseError>((ws, repo)),
{
    let t = host_and_path('/', ws, repo, suffix);
    let u = https_form(ws, repo, suffix);
    lemma_host_and_path('/', ws, repo, suffix);
    lemma_tail_facts(t);
    lemma_trim_start_mismatch(u, ssh_scheme());
    lemma_trim_start_mismatch(u, git_user());
    lemma_trim_start_once(https_scheme(), t);
    lemma_parse_from_host_part(u, '/', ws, repo, suffix);
}

proof fn lemma_http_form(ws: Seq<char>, repo: Seq<char>, suffix: Seq<char>)
    requires
        is_segment(ws),
        is_segment(repo),
        !occurs_at(repo, repo.len() - git_suffix().len(), git_suffix()),
        suffix == Seq::<char>::empty() || suffix == git_suffix(),
    ensures
        parse_spec(http_form(ws, repo, suffix)) == Ok::<_, ParseError>((ws, repo)),
{
    let t = host_and_path('/', ws, repo, suffix);
    let u = http_form(ws, repo, suffix);
    lemma_host_and_path('/', ws, repo, suffix);
    lemma_tail_facts(t);
    lemma_trim_start_mismatch(u, ssh_scheme());
    lemma_trim_start_mismatch(u, git_user());
    assert(u[4] == ':');
    if starts_with(u, https_scheme()) {
        assert(u.subrange(0, 8)[4] == u[4]);
    }
    lemma_trim_start_once(http_scheme(), t);
    lemma_parse_from_host_part(u, '/', ws, repo, suffix);
}

proof fn lemma_scp_form(ws: Seq<char>, repo: Seq<char>, suffix: Seq<char>)
    requires
        is_segment(ws),
        is_segment(repo),
        !occurs_at(repo, repo.len() - git_suffix().len(), git_suffix()),
        suffix == Seq::<char>::empty() || suffix == git_suffix(),
    ensures
        parse_spec(scp_form(ws, repo, suffix)) == Ok::<_, ParseError>((ws, repo)),
{
    let t = host_and_path(':', ws, repo, suffix);
    let u = scp_form(ws, repo, suffix);
    lemma_host_and_path(':', ws, repo, suffix);
    lemma_tail_facts(t);
    lemma_trim_start_mismatch(u, ssh_scheme());
    lemma_trim_start_once(git_user(), t);
    lemma_parse_from_host_part(u, ':', ws, repo, suffix);
}

proof fn lemma_ssh_form(ws: Seq<char>, repo: Seq<char>, suffix: Seq<char>)
    requires
        is_segment(ws),
        is_segment(repo),
        !occurs_at(repo, repo.len() - git_suffix().len(), git_suffix()),
        suffix == Seq::<char>::empty() || suffix == git_suffix(),
    ensures
        parse_spec(ssh_form(ws, repo, suffix)) == Ok::<_, ParseError>((ws, repo)),
{
    let t = host_and_path('/', ws, repo, suffix);
    let u = ssh_form(ws, repo, suffix);
    let g = git_user() + t;
    lemma_host_and_path('/', ws, repo, suffix);
    lemma_tail_facts(t);
    assert(u =~= ssh_scheme() + g);
    lemma_trim_start_once(ssh_scheme(), g);
    lemma_trim_start_mismatch(g, ssh_scheme());
    lemma_trim_start_once(git_user(), t);
    lemma_parse_from_host_part(u, '/', ws, repo, suffix);
}

proof fn lemma_https_user_form(user: Seq<char>, ws: Seq<char>, repo: Seq<char>, suffix: Seq<char>)
    requires
        !user.contains('/'),
        is_segment(ws),
        is_segment(repo),
        !occurs_at(repo, repo.len() - git_suffix().len(), git_suffix()),
        suffix == Seq::<char>::empty() || suffix == git_suffix(),
    ensures
        parse_spec(https_user_form(user, ws, repo, suffix)) == Ok::<_, ParseError>((ws, repo)),
{
    let t = host_and_path('/', ws, repo, suffix);
    let u = https_user_form(user, ws, repo, suffix);
    let rest = user + seq!['@'] + t;
    lemma_host_and_path('/', ws, repo, suffix);
    assert(u =~= https_scheme() + rest);
    lemma_trim_start_mismatch(u, ssh_scheme());
    lemma_trim_start_mismatch(u, git_user());
    lemma_trim_start_once(https_scheme(), rest);
    lemma_no_scheme_before_user(user, t);
    lemma_after_last_split(user, t, '@');
    assert(rest.skip(user.len() + 1int) =~= t);
    lemma_parse_from_host_part(u, '/', ws, repo, suffix);
}

/// Every supported transport form of a remote URL (`https`, `http`, `https`
/// with a user name, which may hold `@` but no `/`, scp-like `git@` and
/// `ssh`), with or without a trailing `.git`, parses to the same workspace
/// and repository.
pub proof fn parse_recovers_coordinates(
    user: Seq<char>,
    ws: Seq<char>,
    repo: Seq<char>,
    suffix: Seq<char>,
)
    requires
        !user.contains('/'),
        is_segment(ws),
        is_segment(repo),
        !occurs_at(repo, repo.len() - git_suffix().len(), git_suffix()),
        suffix == Seq::<char>::empty() || suffix == git_suffix(),
    ensures
        parse_spec(https_form(ws, repo, suffix)) == Ok::<_, ParseError>((ws, repo)),
        parse_spec(http_form(ws, repo, suffix)) == Ok::<_, ParseError>((ws, repo)),
        parse_spec(https_user_form(user, ws, repo, suffix)) == Ok::<_, ParseError>((ws, repo)),
        parse_spec(scp_form(ws, repo, suffix)) == Ok::<_, ParseError>((ws, repo)),
        parse_spec(ssh_form(ws, repo, suffix)) == Ok::<_, ParseError>((ws, repo)),
{
    lemma_https_form(ws, repo, suffix);
    lemma_http_form(ws, repo, suffix);
    lemma_https_user_form(user, ws, repo, suffix);
    lemma_scp_form(ws, repo, suffix);
    lemma_ssh_form(ws, repo, suffix);
}

/// A user name without `/` followed by `@host...` begins with no scheme.
proof fn lemma_no_scheme_before_user(user: Seq<char>, t: Seq<char>)
    requires
        !user.contains('/'),
        t.len() > 0,
        t[0] == 'b',
        !t.contains('@'),
        t.len() > host_name().len(),
        t.take(host_name().len() as int) == host_name(),
    ensures
        trim_start_all(user + seq!['@'] + t, https_scheme()) == user + seq!['@'] + t,
        trim_start_all(user + seq!['@'] + t, http_scheme()) == user + seq!['@'] + t,
{
    let s = user + seq!['@'] + t;
    let h = host_name();
    assert(s.len() > 7);
    assert forall|i: int| 0 <= i < 7 implies s[i] != '/' by {
        if i < user.len() {
            assert(s[i] == user[i]);
        } else if i == user.len() {
            assert(s[i] == '@');
        } else {
            let k = i - user.len() - 1;
            assert(s[i] == t[k]);
            assert(t[k] == t.take(h.len() as int)[k]);
        }
    }
    if starts_with(s, https_scheme()) {
        assert(s.subrange(0, 8)[6] == s[6]);
    }
    if starts_with(s, http_scheme()) {
        assert(s.subrange(0, 7)[5] == s[5]);
    }
}

/// Reads `(workspace, repository)` from a git remote URL.
///
/// Accepts `https://host/ws/repo`, `https://user@host/ws/repo`,
/// `git@host:ws/repo` and `ssh://git@host/ws/repo`, each with or without a
/// trailing `.git`.
#[verifier::rlimit(30)]
pub fn parse_git_url(url: &str) -> (r: Result<(String, String), ParseError>)
    ensures
        match r {
            Ok((ws, repo)) => parse_spec(url@) == Ok::<_, ParseError>((ws@, repo@)),
            Err(e) => parse_spec(url@) == Err::<(Seq<char>, Seq<char>), _>(e),
        },
        !names_host(host_part(url@)) <==> r == Err::<(String, String), _>(
            ParseError::UnrecognizedHost,
        ),
        names_host(host_part(url@)) && !path_part(url@).contains('/') <==> r == Err::<
            (String, String),
            _,
        >(ParseError::MalformedPath),
{
    let v = chars_of(url);
    let ssh = chars_of("ssh://");
    let git = chars_of("git@");
    let https = chars_of("https://");
    let http = chars_of("http://");
    let host = chars_of("bitbucket.org");
    let dot_git = chars_of(".git");
    proof {
        reveal_strlit("ssh://");
        reveal_strlit("git@");
        reveal_strlit("https://");
        reveal_strlit("http://");
        reveal_strlit("bitbucket.org");
        reveal_strlit(".git");
        assert(ssh@ =~= ssh_scheme());
        assert(git@ =~= git_user());
        assert(https@ =~= https_scheme());
        assert(http@ =~= http_scheme());
        assert(host@ =~= host_name());
        assert(dot_git@ =~= git_suffix());
        assert(v@.skip(0) =~= v@);
    }
    let i1 = skip_repeated(&v, 0, &ssh);
    let i2 = skip_repeated(&v, i1, &git);
    let i3 = skip_repeated(&v, i2, &https);
    let i4 = skip_repeated(&v, i3, &http);
    let i5 = after_last(&v, i4, '@');
    proof {
        let t = v@.skip(i4 as int);
        assert(t.skip(i5 - i4) =~= v@.skip(i5 as int));
        assert(host_part(url@) == v@.skip(i5 as int));
    }
    if !names_host_at(&v, i5, &host) {
        return Err(ParseError::UnrecognizedHost);
    }
    let n = host.len();
    let path_start = i5 + n + 1;
    proof {
        assert(v@.skip(i5 as int).len() > n);
        assert(path_part(url@) =~= v@.skip(path_start as int));
    }
    let j = first_from(&v, path_start, '/');
    if j == v.len() {
        return Err(ParseError::MalformedPath);
    }
    let end = trim_repeated_end(&v, j + 1, v.len(), &dot_git);
    let ws = string_of(&v, path_start, j);
    let repo = string_of(&v, j + 1, end);
    proof {
        let p = v@.skip(path_start as int);
        assert(p.take(j - path_start) =~= v@.subrange(path_start as int, j as int));
        assert(p.skip(j - path_start + 1) =~= v@.subrange(j + 1, v.len() as int));
    }
    Ok((ws, repo))
}

} // verus!
