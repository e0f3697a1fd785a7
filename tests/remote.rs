use bb_cli::remote::{parse_git_url, ParseError};

#[test]
fn test_parse_git_url() {
    let cases = vec![
        ("https://bitbucket.org/workspace/repo.git", ("workspace", "repo")),
        ("git@bitbucket.org:workspace/repo.git", ("workspace", "repo")),
        ("https://username@bitbucket.org/workspace/repo.git", ("workspace", "repo")),
        ("ssh://git@bitbucket.org/workspace/repo.git", ("workspace", "repo")),
        ("git@bitbucket.org:workspace/repo", ("workspace", "repo")),
        ("https://bitbucket.org/workspace/repo", ("workspace", "repo")),
    ];

    for (url, (expected_workspace, expected_repo)) in cases {
        let (workspace, repo) = parse_git_url(url).expect(&format!("Failed to parse {}", url));
        assert_eq!(workspace, expected_workspace, "Workspace mismatch for {}", url);
        assert_eq!(repo, expected_repo, "Repo mismatch for {}", url);
    }
}

#[test]
fn test_parse_git_url_errors() {
    let invalid_urls = vec![
        "https://github.com/workspace/repo.git",
        "git@github.com:workspace/repo.git",
        "invalid_url",
    ];

    for url in invalid_urls {
        assert!(parse_git_url(url).is_err(), "Should fail for {}", url);
    }
}

#[test]
fn parse_git_url_names_each_error() {
    assert_eq!(
        parse_git_url("https://github.com/workspace/repo.git"),
        Err(ParseError::UnrecognizedHost)
    );
    assert_eq!(
        parse_git_url("https://bitbucket.org/workspace"),
        Err(ParseError::MalformedPath)
    );
    assert_eq!(parse_git_url(""), Err(ParseError::UnrecognizedHost));
    assert_eq!(parse_git_url("bitbucket.org"), Err(ParseError::UnrecognizedHost));
}

#[test]
fn parse_git_url_http_and_repeated_suffix() {
    assert_eq!(
        parse_git_url("http://bitbucket.org/acme/tool.git.git"),
        Ok(("acme".to_string(), "tool".to_string()))
    );
    assert_eq!(
        parse_git_url("https://bitbucket.org/acme/group/tool"),
        Ok(("acme".to_string(), "group/tool".to_string()))
    );
}

#[test]
fn parse_git_url_rejects_odd_inputs_without_panicking() {
    for url in ["@@@", "ssh://", "git@", "bitbucket.org:", "git@bitbucket.org:noslash", "https://user@", "日本/語"] {
        assert!(parse_git_url(url).is_err(), "Should fail for {}", url);
    }
    assert_eq!(parse_git_url("git@bitbucket.org:noslash"), Err(ParseError::MalformedPath));
}

#[test]
fn parse_git_url_http_form_and_user_with_at() {
    assert_eq!(
        parse_git_url("http://bitbucket.org/ws/repo"),
        Ok(("ws".to_string(), "repo".to_string()))
    );
    assert_eq!(
        parse_git_url("https://first@second@bitbucket.org/ws/repo.git"),
        Ok(("ws".to_string(), "repo".to_string()))
    );
}
