use bb_cli::api::{
    check_status, collect_pages, ApiError,
    branch_filter, pull_requests_base_path,
    commit_statuses_path, decimal_string, pull_request_path, pull_requests_path,
    repositories_path, request_url, PageStep, PaginatedResponse, Pager,
};

fn page(values: Vec<u32>, next: Option<&str>) -> PaginatedResponse<u32> {
    PaginatedResponse {
        size: None,
        page: None,
        pagelen: None,
        next: next.map(|s| s.to_string()),
        previous: None,
        values,
    }
}

fn pages(n: u32) -> Vec<PaginatedResponse<u32>> {
    vec![
        page((0..n).collect(), Some("https://api.example/page/2")),
        page((n..2 * n).collect(), Some("https://api.example/page/3")),
        page((2 * n..3 * n).collect(), None),
    ]
}

fn run(limit: Option<u32>, n: u32) -> (Vec<u32>, usize) {
    let mut pager = Pager::new(limit);
    let mut fetched = 0;
    for p in pages(n) {
        fetched += 1;
        match pager.accept(p) {
            PageStep::Fetch(_) => {}
            PageStep::Done => break,
        }
    }
    assert!(pager.is_done());
    (pager.into_items(), fetched)
}

#[test]
fn pagination_without_limit_gathers_all_pages() {
    let (items, fetched) = run(None, 4);
    assert_eq!(items, (0..12).collect::<Vec<u32>>());
    assert_eq!(fetched, 3);
}

#[test]
fn pagination_with_limit_stops_after_second_page() {
    let (items, fetched) = run(Some(5), 4);
    assert_eq!(items, vec![0, 1, 2, 3, 4]);
    assert_eq!(fetched, 2);
}

#[test]
fn pagination_follows_next_link() {
    let mut pager: Pager<u32> = Pager::new(None);
    assert_eq!(pager.accept(page(vec![1], Some("https://x/next"))), PageStep::Fetch("https://x/next".to_string()));
    assert!(!pager.is_done());
}

#[test]
fn request_urls() {
    assert_eq!(request_url("https://api.bitbucket.org/2.0/", "/user"), "https://api.bitbucket.org/2.0/user");
    assert_eq!(request_url("https://api.bitbucket.org/2.0", "user"), "https://api.bitbucket.org/2.0/user");
    assert_eq!(request_url("https://api.bitbucket.org/2.0", "https://other/page=2"), "https://other/page=2");
}

#[test]
fn endpoint_paths() {
    assert_eq!(pull_requests_path("ws", "repo", "OPEN"), "/repositories/ws/repo/pullrequests?state=OPEN");
    assert_eq!(repositories_path("ws"), "/repositories/ws");
    assert_eq!(pull_request_path("ws", "repo", 42, "/diff"), "/repositories/ws/repo/pullrequests/42/diff");
    assert_eq!(commit_statuses_path("ws", "repo", "abc"), "/repositories/ws/repo/commit/abc/statuses");
    assert_eq!(decimal_string(0), "0");
    assert_eq!(decimal_string(1234567890123), "1234567890123");
}

#[test]
fn branch_query_parts() {
    assert_eq!(branch_filter("feature/x"), "source.branch.name=\"feature/x\"");
    assert_eq!(pull_requests_base_path("ws", "repo"), "repositories/ws/repo/pullrequests");
}

#[test]
fn collect_pages_matches_pager_runs() {
    assert_eq!(collect_pages(pages(4), None), ((0..12).collect::<Vec<u32>>(), 3));
    assert_eq!(collect_pages(pages(4), Some(5)), (vec![0, 1, 2, 3, 4], 2));
    assert_eq!(collect_pages(Vec::<PaginatedResponse<u32>>::new(), None), (vec![], 0));
}

#[test]
fn status_classification() {
    assert_eq!(check_status(200, String::new()), Ok(()));
    assert_eq!(check_status(204, String::new()), Ok(()));
    assert_eq!(
        check_status(404, "missing".to_string()),
        Err(ApiError::RequestFailed { status: 404, body: "missing".to_string() })
    );
    assert!(check_status(302, String::new()).is_err());
}
