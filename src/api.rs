//! Request paths of the review service and the pagination of its list endpoints.
use vstd::prelude::*;

use crate::remote::{skip_repeated, trim_end_all, trim_repeated_end, trim_start_all};
use crate::text::{chars_of, occurs_at_exec, starts_with, string_of};

verus! {

/// One page of a list endpoint: its items and the link to the next page.
#[derive(Debug)]
pub struct PaginatedResponse<T> {
    pub size: Option<u32>,
    pub page: Option<u32>,
    pub pagelen: Option<u32>,
    /// The URL of the next page; absent on the last page.
    pub next: Option<String>,
    pub previous: Option<String>,
    pub values: Vec<T>,
}

/// What to do after a page has been taken in.
#[derive(Debug, Clone, PartialEq, Eq)]
pub enum PageStep {
    /// Fetch the page at this URL and hand it in.
    Fetch(String),
    /// The result is complete.
    Done,
}

/// The items gathered after taking in a page of `values`: all of them, cut
/// to `limit` once that many have been gathered.
pub open spec fn after_page<T>(acc: Seq<T>, limit: Option<u32>, values: Seq<T>) -> Seq<T> {
    let all = acc + values;
    match limit {
        Some(l) => if all.len() >= l {
            all.take(l as int)
        } else {
            all
        },
        None => all,
    }
}

/// Whether the gathering stops after taking in a page of `values` whose
/// next link is present or not as `has_next` says.
pub open spec fn stops_after<T>(acc: Seq<T>, limit: Option<u32>, values: Seq<T>, has_next: bool) -> bool {
    !has_next || match limit {
        Some(l) => acc.len() + values.len() >= l,
        None => false,
    }
}

/// The items gathered from `pages` (each its items and whether a next link
/// follows), and how many pages were taken in before stopping.
pub open spec fn gather<T>(acc: Seq<T>, limit: Option<u32>, pages: Seq<(Seq<T>, bool)>) -> (Seq<T>, nat)
    decreases pages.len(),
{
    if pages.len() == 0 {
        (acc, 0)
    } else {
        let next_acc = after_page(acc, limit, pages[0].0);
        if stops_after(acc, limit, pages[0].0, pages[0].1) {
            (next_acc, 1)
        } else {
            let rest = gather(next_acc, limit, pages.skip(1));
            (rest.0, rest.1 + 1)
        }
    }
}

/// Gathers the items of a paginated list, page by page, up to an optional limit.
pub struct Pager<T> {
    items: Vec<T>,
    limit: Option<u32>,
    finished: bool,
}

impl<T> Pager<T> {
    pub closed spec fn gathered(&self) -> Seq<T> {
        self.items@
    }

    pub closed spec fn limit_spec(&self) -> Option<u32> {
        self.limit
    }

    pub closed spec fn is_finished(&self) -> bool {
        self.finished
    }

    /// A pager that has gathered nothing yet.
    pub fn new(limit: Option<u32>) -> (r: Self)
        ensures
            r.gathered() == Seq::<T>::empty(),
            r.limit_spec() == limit,
            !r.is_finished(),
    {
        Pager { items: Vec::new(), limit, finished: false }
    }

    /// Takes in one page and says whether to fetch another.
    pub fn accept(&mut self, page: PaginatedResponse<T>) -> (r: PageStep)
        requires
            !old(self).is_finished(),
        ensures
            final(self).limit_spec() == old(self).limit_spec(),
            final(self).gathered() == after_page(
                old(self).gathered(),
                old(self).limit_spec(),
                page.values@,
            ),
            final(self).is_finished() == stops_after(
                old(self).gathered(),
                old(self).limit_spec(),
                page.values@,
                page.next is Some,
            ),
            match r {
                PageStep::Fetch(url) => !final(self).is_finished() && page.next == Some(url),
                PageStep::Done => final(self).is_finished(),
            },
    {
        let mut values = page.values;
        self.items.append(&mut values);
        if let Some(l) = self.limit {
            if self.items.len() >= l as usize {
                self.items.truncate(l as usize);
                self.finished = true;
                return PageStep::Done;
            }
        }
        match page.next {
            Some(url) => PageStep::Fetch(url),
            None => {
                self.finished = true;
                PageStep::Done
            },
        }
    }

    /// Whether the result is complete.
    pub fn is_done(&self) -> (r: bool)
        ensures
            r == self.is_finished(),
    {
        self.finished
    }

    /// The items gathered so far, in the order they came.
    pub fn into_items(self) -> (r: Vec<T>)
        ensures
            r@ == self.gathered(),
    {
        self.items
    }
}

/// Pages of `n` items each, the first two linking to a next page and the
/// third the last, are gathered whole when no limit is set; with a limit of
/// `n + 1` exactly `n + 1` items come back and the third page is never fetched.
pub proof fn three_pages_gathered<T>(first: Seq<T>, second: Seq<T>, third: Seq<T>, n: u32)
    requires
        first.len() == n,
        second.len() == n,
        third.len() == n,
        1 <= n < u32::MAX,
    ensures
        gather(Seq::<T>::empty(), None, seq![(first, true), (second, true), (third, false)]) == (
            first + second + third,
            3nat,
        ),
        gather(Seq::<T>::empty(), Some((n + 1) as u32), seq![(first, true), (second, true), (third, false)])
            == ((first + second + third).take(n + 1), 2nat),
{
    let pages = seq![(first, true), (second, true), (third, false)];
    let e = Seq::<T>::empty();
    assert(pages.skip(1) =~= seq![(second, true), (third, false)]);
    assert(pages.skip(1).skip(1) =~= seq![(third, false)]);
    assert(e + first =~= first);
    // no limit
    assert(gather(first + second, None, seq![(third, false)]) == (first + second + third, 1nat));
    assert(gather(first, None, seq![(second, true), (third, false)]) == (first + second + third, 2nat));
    // limit n + 1
    let l = Some((n + 1) as u32);
    assert(after_page(e, l, first) == first);
    assert((first + second).len() >= n + 1);
    assert(gather(first, l, seq![(second, true), (third, false)]) == ((first + second).take(n + 1), 1nat));
    assert((first + second).take(n + 1) =~= (first + second + third).take(n + 1));
}

pub open spec fn http_prefix() -> Seq<char> {
    seq!['h', 't', 't', 'p', ':', '/', '/']
}

pub open spec fn https_prefix() -> Seq<char> {
    seq!['h', 't', 't', 'p', 's', ':', '/', '/']
}

/// The URL a request for `path` goes to: `path` itself when it is an
/// absolute `http` or `https` URL, else `path` joined to `base_url` with
/// exactly one `/` between them.
pub open spec fn request_url_spec(base_url: Seq<char>, path: Seq<char>) -> Seq<char> {
    if starts_with(path, http_prefix()) || starts_with(path, https_prefix()) {
        path
    } else {
        trim_end_all(base_url, seq!['/']) + seq!['/'] + trim_start_all(path, seq!['/'])
    }
}

/// The URL a request for `path` goes to, relative to `base_url` unless absolute.
pub fn request_url(base_url: &str, path: &str) -> (r: String)
    ensures
        r@ == request_url_spec(base_url@, path@),
{
    let p = chars_of(path);
    let http = chars_of("http://");
    let https = chars_of("https://");
    let slash = chars_of("/");
    proof {
        reveal_strlit("http://");
        reveal_strlit("https://");
        reveal_strlit("/");
        assert(http@ =~= http_prefix());
        assert(https@ =~= https_prefix());
        assert(slash@ =~= seq!['/']);
    }
    if occurs_at_exec(&p, 0, &http) || occurs_at_exec(&p, 0, &https) {
        return path.to_string();
    }
    let b = chars_of(base_url);
    let end = trim_repeated_end(&b, 0, b.len(), &slash);
    let start = skip_repeated(&p, 0, &slash);
    let mut r = string_of(&b, 0, end);
    r.append("/");
    let tail = string_of(&p, start, p.len());
    r.append(tail.as_str());
    proof {
        assert(b@.subrange(0, b@.len() as int) =~= b@);
        assert(p@.skip(0) =~= p@);
        assert(p@.subrange(start as int, p@.len() as int) =~= p@.skip(start as int));
    }
    r
}

/// The characters of `n` in decimal.
pub open spec fn decimal(n: nat) -> Seq<char>
    decreases n,
{
    if n < 10 {
        seq![digit_char(n)]
    } else {
        decimal(n / 10).push(digit_char(n % 10))
    }
}

pub open spec fn digit_char(d: nat) -> char {
    if d == 0 { '0' } else if d == 1 { '1' } else if d == 2 { '2' } else if d == 3 { '3' }
    else if d == 4 { '4' } else if d == 5 { '5' } else if d == 6 { '6' } else if d == 7 { '7' }
    else if d == 8 { '8' } else { '9' }
}

fn digit(d: u64) -> (c: char)
    requires
        d < 10,
    ensures
        c == digit_char(d as nat),
{
    if d == 0 { '0' } else if d == 1 { '1' } else if d == 2 { '2' } else if d == 3 { '3' }
    else if d == 4 { '4' } else if d == 5 { '5' } else if d == 6 { '6' } else if d == 7 { '7' }
    else if d == 8 { '8' } else { '9' }
}

/// `n` written in decimal.
pub fn decimal_string(n: u64) -> (r: String)
    ensures
        r@ == decimal(n as nat),
    decreases n,
{
    if n < 10 {
        let mut r = String::new();
        crate::text::push_char(&mut r, digit(n));
        assert(r@ =~= seq![digit_char(n as nat)]);
        r
    } else {
        let mut r = decimal_string(n / 10);
        crate::text::push_char(&mut r, digit(n % 10));
        r
    }
}

/// The path listing a repository's pull requests in one state.
pub fn pull_requests_path(workspace: &str, repo: &str, state: &str) -> (r: String)
    ensures
        r@ == "/repositories/"@ + workspace@ + "/"@ + repo@ + "/pullrequests?state="@ + state@,
{
    let mut r = String::new();
    r.append("/repositories/");
    r.append(workspace);
    r.append("/");
    r.append(repo);
    r.append("/pullrequests?state=");
    r.append(state);
    assert(Seq::<char>::empty() + "/repositories/"@ =~= "/repositories/"@);
    r
}

/// The path listing a workspace's repositories.
pub fn repositories_path(workspace: &str) -> (r: String)
    ensures
        r@ == "/repositories/"@ + workspace@,
{
    let mut r = String::new();
    r.append("/repositories/");
    r.append(workspace);
    assert(Seq::<char>::empty() + "/repositories/"@ =~= "/repositories/"@);
    r
}

/// The path of one pull request, followed by `tail`.
pub fn pull_request_path(workspace: &str, repo: &str, id: u32, tail: &str) -> (r: String)
    ensures
        r@ == "/repositories/"@ + workspace@ + "/"@ + repo@ + "/pullrequests/"@ + decimal(
            id as nat,
        ) + tail@,
{
    let mut r = String::new();
    r.append("/repositories/");
    r.append(workspace);
    r.append("/");
    r.append(repo);
    r.append("/pullrequests/");
    let d = decimal_string(id as u64);
    r.append(d.as_str());
    r.append(tail);
    assert(Seq::<char>::empty() + "/repositories/"@ =~= "/repositories/"@);
    r
}

/// The path listing the build statuses of a commit.
pub fn commit_statuses_path(workspace: &str, repo: &str, commit_hash: &str) -> (r: String)
    ensures
        r@ == "/repositories/"@ + workspace@ + "/"@ + repo@ + "/commit/"@ + commit_hash@
            + "/statuses"@,
{
    let mut r = String::new();
    r.append("/repositories/");
    r.append(workspace);
    r.append("/");
    r.append(repo);
    r.append("/commit/");
    r.append(commit_hash);
    r.append("/statuses");
    assert(Seq::<char>::empty() + "/repositories/"@ =~= "/repositories/"@);
    r
}

/// The filter that selects the pull requests whose source branch is `branch`.
pub fn branch_filter(branch: &str) -> (r: String)
    ensures
        r@ == "source.branch.name=\""@ + branch@ + "\""@,
{
    let mut r = String::new();
    r.append("source.branch.name=\"");
    r.append(branch);
    r.append("\"");
    assert(Seq::<char>::empty() + "source.branch.name=\""@ =~= "source.branch.name=\""@);
    r
}

/// The path of a repository's pull requests, relative to the API base URL.
pub fn pull_requests_base_path(workspace: &str, repo: &str) -> (r: String)
    ensures
        r@ == "repositories/"@ + workspace@ + "/"@ + repo@ + "/pullrequests"@,
{
    let mut r = String::new();
    r.append("repositories/");
    r.append(workspace);
    r.append("/");
    r.append(repo);
    r.append("/pullrequests");
    assert(Seq::<char>::empty() + "repositories/"@ =~= "repositories/"@);
    r
}

/// A page as `gather` sees it: its items and whether a next link follows.
pub open spec fn page_view<T>(p: PaginatedResponse<T>) -> (Seq<T>, bool) {
    (p.values@, p.next is Some)
}

/// Hands `pages` to a pager in order until it is done, as a client that
/// fetched them one after another would; gives the items and how many
/// pages were taken in.
pub fn collect_pages<T>(pages: Vec<PaginatedResponse<T>>, limit: Option<u32>) -> (r: (Vec<T>, usize))
    ensures
        r.0@ == gather(Seq::<T>::empty(), limit, pages@.map_values(|p: PaginatedResponse<T>| page_view(p))).0,
        r.1 as nat == gather(Seq::<T>::empty(), limit, pages@.map_values(|p: PaginatedResponse<T>| page_view(p))).1,
{
    let ghost views = pages@.map_values(|p: PaginatedResponse<T>| page_view(p));
    let n = pages.len();
    let mut rest = pages;
    let mut pager: Pager<T> = Pager::new(limit);
    let mut taken: usize = 0;
    assert(views.skip(0) =~= views);
    while rest.len() > 0
        invariant
            taken as nat + rest@.len() == views.len(),
            views.len() == n,
            views == pages@.map_values(|p: PaginatedResponse<T>| page_view(p)),
            rest@.map_values(|p: PaginatedResponse<T>| page_view(p)) == views.skip(taken as int),
            pager.limit_spec() == limit,
            !pager.is_finished(),
            gather(Seq::<T>::empty(), limit, views).0 == gather(pager.gathered(), limit, views.skip(taken as int)).0,
            gather(Seq::<T>::empty(), limit, views).1 == taken + gather(pager.gathered(), limit, views.skip(taken as int)).1,
        decreases rest.len(),
    {
        let ghost before = pager.gathered();
        let ghost tail = views.skip(taken as int);
        let page = rest.remove(0);
        assert(tail[0] == page_view(page));
        assert(tail.skip(1) =~= views.skip(taken + 1));
        assert(rest@.map_values(|p: PaginatedResponse<T>| page_view(p)) =~= views.skip(taken + 1));
        let step = pager.accept(page);
        assert(pager.gathered() == after_page(before, limit, tail[0].0));
        assert(pager.is_finished() == stops_after(before, limit, tail[0].0, tail[0].1));
        taken = taken + 1;
        match step {
            PageStep::Done => {
                assert(gather(before, limit, tail) == (pager.gathered(), 1nat));
                return (pager.into_items(), taken);
            },
            PageStep::Fetch(_) => {},
        }
    }
    assert(views.skip(taken as int).len() == 0);
    (pager.into_items(), taken)
}

/// How a request to the service failed.
#[derive(Debug, Clone, PartialEq, Eq)]
pub enum ApiError {
    /// The service answered with a status outside 200..=299.
    RequestFailed { status: u16, body: String },
    /// The answer did not have the expected shape.
    DecodeFailed(String),
}

/// Accepts a response status in 200..=299; any other status is a failed
/// request carrying the status and the response body.
pub fn check_status(status: u16, body: String) -> (r: Result<(), ApiError>)
    ensures
        200 <= status <= 299 ==> r is Ok,
        !(200 <= status <= 299) ==> r == Err::<(), _>(ApiError::RequestFailed { status, body }),
{
    if 200 <= status && status <= 299 {
        Ok(())
    } else {
        Err(ApiError::RequestFailed { status, body })
    }
}

} // verus!
