use gitripper::parse_github_url;

#[test]
fn test_parse_github_url_https() {
    let url = "https://github.com/user/repo";
    let (owner, repo) = parse_github_url(url).unwrap();
    assert_eq!(owner, "user");
    assert_eq!(repo, "repo");
}

#[test]
fn test_parse_github_url_https_with_git() {
    let url = "https://github.com/user/repo.git";
    let (owner, repo) = parse_github_url(url).unwrap();
    assert_eq!(owner, "user");
    assert_eq!(repo, "repo");
}

#[test]
fn test_parse_github_url_ssh() {
    let url = "git@github.com:user/repo.git";
    let (owner, repo) = parse_github_url(url).unwrap();
    assert_eq!(owner, "user");
    assert_eq!(repo, "repo");
}

#[test]
fn test_parse_github_url_ssh_no_git() {
    let url = "git@github.com:user/repo";
    let (owner, repo) = parse_github_url(url).unwrap();
    assert_eq!(owner, "user");
    assert_eq!(repo, "repo");
}

#[test]
fn test_parse_github_url_ssh_protocol() {
    let url = "ssh://git@github.com/user/repo.git";
    let (owner, repo) = parse_github_url(url).unwrap();
    assert_eq!(owner, "user");
    assert_eq!(repo, "repo");
}

#[test]
fn test_parse_github_url_with_trailing_slash() {
    let url = "https://github.com/user/repo/";
    let (owner, repo) = parse_github_url(url).unwrap();
    assert_eq!(owner, "user");
    assert_eq!(repo, "repo");
}

#[test]
fn test_parse_github_url_with_whitespace() {
    let url = "  https://github.com/user/repo  ";
    let (owner, repo) = parse_github_url(url).unwrap();
    assert_eq!(owner, "user");
    assert_eq!(repo, "repo");
}

#[test]
fn test_parse_github_url_invalid() {
    let url = "https://example.com/user/repo";
    assert!(parse_github_url(url).is_err());
}

#[test]
fn test_parse_github_url_invalid_empty() {
    let url = "";
    assert!(parse_github_url(url).is_err());
}

#[test]
fn test_parse_github_url_case_insensitive() {
    let url = "HTTPS://GITHUB.COM/user/repo";
    let (owner, repo) = parse_github_url(url).unwrap();
    assert_eq!(owner, "user");
    assert_eq!(repo, "repo");
}

#[test]
fn integration_parse_various_github_urls() {
    let test_cases = vec![
        ("https://github.com/torvalds/linux", "torvalds", "linux"),
        ("https://github.com/rust-lang/rust.git", "rust-lang", "rust"),
        ("git@github.com:golang/go", "golang", "go"),
        ("ssh://git@github.com/python/cpython.git", "python", "cpython"),
    ];

    for (url, expected_owner, expected_repo) in test_cases {
        let (owner, repo) = parse_github_url(url)
            .unwrap_or_else(|_| panic!("Failed to parse URL: {}", url));

        assert_eq!(owner, expected_owner);
        assert_eq!(repo, expected_repo);
    }
}

#[test]
fn integration_reject_invalid_urls() {
    let invalid_urls = vec![
        "",
        "not-a-url",
        "https://example.com/user/repo",
        "https://gitlab.com/user/repo",
        "http://github.com",
    ];

    for url in invalid_urls {
        assert!(
            parse_github_url(url).is_err(),
            "Expected URL '{}' to be invalid",
            url
        );
    }
}

#[test]
fn integration_parse_github_url_with_special_chars() {
    let urls = vec![
        ("https://github.com/user-name/repo-name", "user-name", "repo-name"),
        ("https://github.com/user_123/repo_test", "user_123", "repo_test"),
    ];

    for (url, expected_owner, expected_repo) in urls {
        let (owner, repo) = parse_github_url(url).unwrap();
        assert_eq!(owner, expected_owner);
        assert_eq!(repo, expected_repo);
    }
}

#[test]
fn refusal_has_the_fixed_wording() {
    assert_eq!(parse_github_url("ftp://github.com/a/b"), Err("Invalid GitHub URL"));
}

#[test]
fn only_one_git_suffix_is_cut_before_matching() {
    let (owner, repo) = parse_github_url("https://github.com/user/repo.git.git").unwrap();
    assert_eq!(owner, "user");
    assert_eq!(repo, "repo");
    assert!(parse_github_url("https://github.com/user/.git").is_err());
    let (_, dotted) = parse_github_url("https://github.com/user/.git.git").unwrap();
    assert_eq!(dotted, ".git");
}

#[test]
fn tabs_and_newlines_around_the_url_are_trimmed() {
    let (owner, repo) = parse_github_url("\t\nhttps://github.com/o/r\r\n").unwrap();
    assert_eq!(owner, "o");
    assert_eq!(repo, "r");
    assert!(parse_github_url("https://github.com/o /r").is_ok());
    assert!(parse_github_url("x https://github.com/o/r").is_err());
}

#[test]
fn what_follows_the_repository_is_ignored() {
    let (owner, repo) = parse_github_url("https://github.com/o/r/tree/main").unwrap();
    assert_eq!(owner, "o");
    assert_eq!(repo, "r");
}
