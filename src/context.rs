//! Resolution of the repository coordinates a command works on.
//!
//! Each coordinate comes from the first source that has it: the command-line
//! override, the checkout's own configuration, the git remote, and (for the
//! workspace only) the profile in force.
use vstd::prelude::*;

use crate::config::{opt_str_view, opt_view, Profile, ProjectContext};
use crate::remote::first_index;
use crate::text::{chars_of, string_of};

verus! {

/// Why a command cannot run where it was invoked.
#[derive(Debug, Clone, Copy, PartialEq, Eq, Structural)]
pub enum ContextError {
    /// No source names a repository.
    NoRepository,
    /// No source names a workspace.
    NoWorkspace,
}

/// The workspace and repository a command works on, as far as they are known.
#[derive(Debug, Clone)]
pub struct RepoCoordinates {
    pub workspace: Option<String>,
    pub repository: Option<String>,
}

/// The number of times `c` occurs in `s`.
pub open spec fn count_of(s: Seq<char>, c: char) -> nat
    decreases s.len(),
{
    if s.len() == 0 {
        0
    } else {
        (if s[0] == c {
            1nat
        } else {
            0nat
        }) + count_of(s.skip(1), c)
    }
}

/// What a repository override contributes: `(workspace, repository)` when it
/// holds exactly one `/`, the repository alone when it holds none, and
/// nothing when it holds more.
pub open spec fn override_spec(s: Seq<char>) -> Option<(Option<Seq<char>>, Seq<char>)> {
    if count_of(s, '/') == 0 {
        Some((None, s))
    } else if count_of(s, '/') == 1 {
        let j = first_index(s, '/');
        Some((Some(s.take(j)), s.skip(j + 1)))
    } else {
        None
    }
}

/// The first present value of `s`.
pub open spec fn first_some(s: Seq<Option<Seq<char>>>) -> Option<Seq<char>>
    decreases s.len(),
{
    if s.len() == 0 {
        None
    } else if s[0] is Some {
        s[0]
    } else {
        first_some(s.skip(1))
    }
}

/// The workspace an override names, if any.
pub open spec fn override_workspace(cli_repo: Option<Seq<char>>) -> Option<Seq<char>> {
    match cli_repo {
        Some(s) => match override_spec(s) {
            Some((w, _)) => w,
            None => None,
        },
        None => None,
    }
}

/// The repository an override names, if any.
pub open spec fn override_repository(cli_repo: Option<Seq<char>>) -> Option<Seq<char>> {
    match cli_repo {
        Some(s) => match override_spec(s) {
            Some((_, r)) => Some(r),
            None => None,
        },
        None => None,
    }
}

pub open spec fn local_workspace(local: Option<ProjectContext>) -> Option<Seq<char>> {
    match local {
        Some(p) => opt_view(p.workspace),
        None => None,
    }
}

pub open spec fn local_repository(local: Option<ProjectContext>) -> Option<Seq<char>> {
    match local {
        Some(p) => opt_view(p.repository),
        None => None,
    }
}

pub open spec fn local_remote(local: Option<ProjectContext>) -> Option<Seq<char>> {
    match local {
        Some(p) => opt_view(p.remote),
        None => None,
    }
}

pub open spec fn git_workspace(git: Option<(String, String)>) -> Option<Seq<char>> {
    match git {
        Some(g) => Some(g.0@),
        None => None,
    }
}

pub open spec fn git_repository(git: Option<(String, String)>) -> Option<Seq<char>> {
    match git {
        Some(g) => Some(g.1@),
        None => None,
    }
}

pub open spec fn profile_workspace(profile: Option<Profile>) -> Option<Seq<char>> {
    match profile {
        Some(p) => opt_view(p.workspace),
        None => None,
    }
}

/// The resolved workspace: override, checkout, git remote, profile, in that order.
pub open spec fn resolved_workspace(
    cli_repo: Option<Seq<char>>,
    local: Option<ProjectContext>,
    git: Option<(String, String)>,
    profile: Option<Profile>,
) -> Option<Seq<char>> {
    first_some(
        seq![
            override_workspace(cli_repo),
            local_workspace(local),
            git_workspace(git),
            profile_workspace(profile),
        ],
    )
}

/// The resolved repository: override, checkout, git remote, in that order.
pub open spec fn resolved_repository(
    cli_repo: Option<Seq<char>>,
    local: Option<ProjectContext>,
    git: Option<(String, String)>,
) -> Option<Seq<char>> {
    first_some(
        seq![override_repository(cli_repo), local_repository(local), git_repository(git)],
    )
}

proof fn lemma_count_concat(a: Seq<char>, b: Seq<char>, c: char)
    ensures
        count_of(a + b, c) == count_of(a, c) + count_of(b, c),
    decreases a.len(),
{
    if a.len() > 0 {
        assert((a + b).skip(1) =~= a.skip(1) + b);
        assert((a + b)[0] == a[0]);
        lemma_count_concat(a.skip(1), b, c);
    } else {
        assert(a + b =~= b);
    }
}

proof fn lemma_count_zero(s: Seq<char>, c: char)
    requires
        !s.contains(c),
    ensures
        count_of(s, c) == 0,
    decreases s.len(),
{
    if s.len() > 0 {
        assert(s[0] != c);
        assert forall|i: int| 0 <= i < s.skip(1).len() implies s.skip(1)[i] != c by {
            assert(s.skip(1)[i] == s[i + 1]);
        }
        lemma_count_zero(s.skip(1), c);
    }
}

proof fn lemma_first_some_four(a: Option<Seq<char>>, b: Option<Seq<char>>, c: Option<Seq<char>>, d: Option<Seq<char>>)
    ensures
        first_some(seq![a, b, c, d]) == if a is Some {
            a
        } else {
            first_some(seq![b, c, d])
        },
        first_some(seq![b, c, d]) == if b is Some {
            b
        } else {
            first_some(seq![c, d])
        },
        first_some(seq![c, d]) == if c is Some {
            c
        } else {
            first_some(seq![d])
        },
        first_some(seq![d]) == d,
{
    assert(seq![a, b, c, d].skip(1) =~= seq![b, c, d]);
    assert(seq![b, c, d].skip(1) =~= seq![c, d]);
    assert(seq![c, d].skip(1) =~= seq![d]);
    assert(seq![d].skip(1) =~= Seq::<Option<Seq<char>>>::empty());
    assert(first_some(Seq::<Option<Seq<char>>>::empty()) is None);
}

/// An override of the form `ws/repo` decides both coordinates, whatever the
/// other sources hold.
pub proof fn override_wins(
    ws: Seq<char>,
    repo: Seq<char>,
    local: Option<ProjectContext>,
    git: Option<(String, String)>,
    profile: Option<Profile>,
)
    requires
        !ws.contains('/'),
        !repo.contains('/'),
    ensures
        resolved_workspace(Some(ws + seq!['/'] + repo), local, git, profile) == Some(ws),
        resolved_repository(Some(ws + seq!['/'] + repo), local, git) == Some(repo),
{
    let s = ws + seq!['/'] + repo;
    lemma_count_zero(ws, '/');
    lemma_count_zero(repo, '/');
    lemma_count_concat(ws + seq!['/'], repo, '/');
    lemma_count_concat(ws, seq!['/'], '/');
    assert(seq!['/'].skip(1) =~= Seq::<char>::empty());
    assert(count_of(Seq::<char>::empty(), '/') == 0);
    assert(count_of(seq!['/'], '/') == 1);
    crate::remote::lemma_first_index_split(ws, repo, '/');
    assert(s.take(ws.len() as int) =~= ws);
    assert(s.skip(ws.len() + 1int) =~= repo);
    lemma_first_some_four(
        override_workspace(Some(s)),
        local_workspace(local),
        git_workspace(git),
        profile_workspace(profile),
    );
    lemma_first_some_four(
        override_repository(Some(s)),
        local_repository(local),
        git_repository(git),
        None,
    );
    assert(seq![override_repository(Some(s)), local_repository(local), git_repository(git)].skip(1)
        =~= seq![local_repository(local), git_repository(git)]);
}

/// An override with more than one `/` names nothing: both coordinates come
/// from the other sources as if there were no override, and with no other
/// source naming a repository none is resolved.
pub proof fn malformed_override_falls_through(
    s: Seq<char>,
    local: Option<ProjectContext>,
    git: Option<(String, String)>,
    profile: Option<Profile>,
)
    requires
        count_of(s, '/') > 1,
    ensures
        resolved_workspace(Some(s), local, git, profile) == resolved_workspace(
            None,
            local,
            git,
            profile,
        ),
        resolved_repository(Some(s), local, git) == resolved_repository(None, local, git),
        local_repository(local) is None && git is None ==> resolved_repository(
            Some(s),
            local,
            git,
        ) is None,
{
    lemma_first_some_four(
        None,
        local_workspace(local),
        git_workspace(git),
        profile_workspace(profile),
    );
    lemma_first_some_four(None, local_repository(local), git_repository(git), None);
    assert(seq![None, local_repository(local), git_repository(git)].skip(1) =~= seq![
        local_repository(local),
        git_repository(git),
    ]);
}

/// An override without `/` names the repository alone; the workspace comes
/// from the other sources.
pub proof fn bare_override_names_repository(
    s: Seq<char>,
    local: Option<ProjectContext>,
    git: Option<(String, String)>,
    profile: Option<Profile>,
)
    requires
        !s.contains('/'),
    ensures
        resolved_repository(Some(s), local, git) == Some(s),
        resolved_workspace(Some(s), local, git, profile) == resolved_workspace(
            None,
            local,
            git,
            profile,
        ),
{
    lemma_count_zero(s, '/');
    lemma_first_some_four(
        None,
        local_workspace(local),
        git_workspace(git),
        profile_workspace(profile),
    );
    assert(seq![override_repository(Some(s)), local_repository(local), git_repository(git)].skip(1)
        =~= seq![local_repository(local), git_repository(git)]);
}

pub open spec fn origin_name() -> Seq<char> {
    seq!['o', 'r', 'i', 'g', 'i', 'n']
}

/// Counts the `/` in `v`.
fn count_slashes(v: &Vec<char>) -> (r: usize)
    ensures
        r == count_of(v@, '/'),
{
    let mut k: usize = v.len();
    let mut n: usize = 0;
    assert(v@.skip(v.len() as int) =~= Seq::<char>::empty());
    while k > 0
        invariant
            k <= v.len(),
            n == count_of(v@.skip(k as int), '/'),
            n <= v.len() - k,
        decreases k,
    {
        k = k - 1;
        assert(v@.skip(k as int).skip(1) =~= v@.skip(k + 1));
        assert(v@.skip(k as int)[0] == v@[k as int]);
        if v[k] == '/' {
            n = n + 1;
        }
    }
    assert(v@.skip(0) =~= v@);
    n
}

/// The position of the first `/` in `v`, which holds one.
fn first_slash(v: &Vec<char>) -> (r: usize)
    requires
        count_of(v@, '/') > 0,
    ensures
        r == first_index(v@, '/'),
        r < v.len(),
{
    let mut k: usize = 0;
    assert(v@.skip(0) =~= v@);
    while k < v.len() && v[k] != '/'
        invariant
            k <= v.len(),
            first_index(v@, '/') == k + first_index(v@.skip(k as int), '/'),
            count_of(v@.skip(k as int), '/') > 0,
        decreases v.len() - k,
    {
        assert(v@.skip(k as int).skip(1) =~= v@.skip(k + 1));
        k = k + 1;
    }
    if k == v.len() {
        assert(v@.skip(k as int).len() == 0);
    }
    k
}

/// Reads a repository override: `ws/repo` names both, `repo` names the
/// repository alone, and any other shape names nothing.
pub fn parse_repo_override(s: &str) -> (r: Option<(Option<String>, String)>)
    ensures
        match override_spec(s@) {
            Some((w, repo)) => match r {
                Some((rw, rr)) => opt_view(rw) == w && rr@ == repo,
                None => false,
            },
            None => r is None,
        },
{
    let v = chars_of(s);
    let n = count_slashes(&v);
    if n == 0 {
        Some((None, string_of(&v, 0, v.len())))
    } else if n == 1 {
        let j = first_slash(&v);
        let w = string_of(&v, 0, j);
        let repo = string_of(&v, j + 1, v.len());
        assert(v@.subrange(0, j as int) =~= v@.take(j as int));
        assert(v@.subrange(j + 1, v.len() as int) =~= v@.skip(j + 1));
        Some((Some(w), repo))
    } else {
        None
    }
}

/// The first present value of `candidates`.
pub fn first_present(candidates: Vec<Option<String>>) -> (r: Option<String>)
    ensures
        opt_view(r) == first_some(candidates@.map_values(|o: Option<String>| opt_view(o))),
{
    let ghost views = candidates@.map_values(|o: Option<String>| opt_view(o));
    let mut i: usize = 0;
    assert(views.skip(0) =~= views);
    while i < candidates.len()
        invariant
            i <= candidates.len(),
            views == candidates@.map_values(|o: Option<String>| opt_view(o)),
            first_some(views) == first_some(views.skip(i as int)),
        decreases candidates.len() - i,
    {
        assert(views.skip(i as int)[0] == opt_view(candidates@[i as int]));
        match &candidates[i] {
            Some(c) => {
                return Some(c.clone());
            },
            None => {},
        }
        assert(views.skip(i as int).skip(1) =~= views.skip(i + 1));
        i = i + 1;
    }
    None
}

fn clone_opt(o: &Option<String>) -> (r: Option<String>)
    ensures
        r == *o,
{
    match o {
        Some(s) => Some(s.clone()),
        None => None,
    }
}

/// Resolves the workspace and repository from every source, each coordinate
/// taken from the first source that names it.
pub fn resolve_coordinates(
    cli_repo: Option<&str>,
    local: Option<&ProjectContext>,
    git: Option<&(String, String)>,
    profile: Option<&Profile>,
) -> (r: RepoCoordinates)
    ensures
        opt_view(r.workspace) == resolved_workspace(
            opt_str_view(cli_repo),
            crate::config::opt_deref(local),
            crate::config::opt_deref(git),
            crate::config::opt_deref(profile),
        ),
        opt_view(r.repository) == resolved_repository(
            opt_str_view(cli_repo),
            crate::config::opt_deref(local),
            crate::config::opt_deref(git),
        ),
{
    let (o_ws, o_repo): (Option<String>, Option<String>) = match cli_repo {
        Some(s) => match parse_repo_override(s) {
            Some((w, repo)) => (w, Some(repo)),
            None => (None, None),
        },
        None => (None, None),
    };
    let (l_ws, l_repo) = match local {
        Some(p) => (clone_opt(&p.workspace), clone_opt(&p.repository)),
        None => (None, None),
    };
    let (g_ws, g_repo) = match git {
        Some(g) => (Some(g.0.clone()), Some(g.1.clone())),
        None => (None, None),
    };
    let p_ws = match profile {
        Some(p) => clone_opt(&p.workspace),
        None => None,
    };
    let ws_candidates = vec![o_ws, l_ws, g_ws, p_ws];
    let repo_candidates = vec![o_repo, l_repo, g_repo];
    proof {
        let f = |o: Option<String>| opt_view(o);
        assert(ws_candidates@.map_values(f) =~= seq![
            override_workspace(opt_str_view(cli_repo)),
            local_workspace(crate::config::opt_deref(local)),
            git_workspace(crate::config::opt_deref(git)),
            profile_workspace(crate::config::opt_deref(profile)),
        ]);
        assert(repo_candidates@.map_values(f) =~= seq![
            override_repository(opt_str_view(cli_repo)),
            local_repository(crate::config::opt_deref(local)),
            git_repository(crate::config::opt_deref(git)),
        ]);
    }
    RepoCoordinates {
        workspace: first_present(ws_candidates),
        repository: first_present(repo_candidates),
    }
}

/// The git remote to read coordinates from: the override, else the
/// checkout's configured remote, else `origin`.
pub fn resolve_remote_name(cli_remote: Option<&str>, local: Option<&ProjectContext>) -> (r: String)
    ensures
        r@ == match opt_str_view(cli_remote) {
            Some(n) => n,
            None => match local_remote(crate::config::opt_deref(local)) {
                Some(n) => n,
                None => origin_name(),
            },
        },
{
    match cli_remote {
        Some(n) => n.to_string(),
        None => match local {
            Some(p) => match &p.remote {
                Some(n) => n.clone(),
                None => {
                    proof {
                        reveal_strlit("origin");
                    }
                    "origin".to_string()
                },
            },
            None => {
                proof {
                    reveal_strlit("origin");
                }
                "origin".to_string()
            },
        },
    }
}

impl RepoCoordinates {
    /// Both coordinates, for a command that needs a repository.
    pub fn require(&self) -> (r: Result<(String, String), ContextError>)
        ensures
            self.repository is None ==> r == Err::<(String, String), _>(ContextError::NoRepository),
            self.repository is Some && self.workspace is None ==> r == Err::<(String, String), _>(
                ContextError::NoWorkspace,
            ),
            self.repository is Some && self.workspace is Some ==> r == Ok::<_, ContextError>(
                (self.workspace->0, self.repository->0),
            ),
    {
        match (&self.workspace, &self.repository) {
            (_, None) => Err(ContextError::NoRepository),
            (None, Some(_)) => Err(ContextError::NoWorkspace),
            (Some(w), Some(r)) => Ok((w.clone(), r.clone())),
        }
    }
}

} // verus!
