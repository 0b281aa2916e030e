use gitripper::digest::{compute_blake3_hex, digests_match};
use gitripper::remote::{
    authorization, branch_from_field, choose_reference, default_branch, download_status, repo_url,
    zipball_url, DownloadStatus, LookupError,
};
use gitripper::timeouts::{MAX_TIMEOUT_SECS, TIMEOUT_DOWNLOAD_SECS, TIMEOUT_GET_REPO_SECS};
use gitripper::tool::{
    archive_file_name, check_repo_names, decimal_of, default_destination, destination_action,
    existing_target_action, is_embedded_git, move_fallback, DestinationAction, ExistingTarget,
    Failure, MoveFallback,
};
use gitripper::max_timeout_secs;

#[test]
fn exit_codes_run_from_two_to_eight() {
    assert_eq!(Failure::InvalidUrl.exit_code(), 2);
    assert_eq!(Failure::DestExists.exit_code(), 3);
    assert_eq!(Failure::CleanupFailed.exit_code(), 4);
    assert_eq!(Failure::GitNotFound.exit_code(), 5);
    assert_eq!(Failure::DownloadFailed.exit_code(), 6);
    assert_eq!(Failure::ExtractionFailed.exit_code(), 7);
    assert_eq!(Failure::InitFailed.exit_code(), 8);
}

#[test]
fn empty_names_are_no_repository() {
    assert_eq!(check_repo_names("user", "repo"), Ok(()));
    assert_eq!(check_repo_names("", "repo"), Err(Failure::InvalidUrl));
    assert_eq!(check_repo_names("user", ""), Err(Failure::InvalidUrl));
    assert_eq!(check_repo_names("", ""), Err(Failure::InvalidUrl));
}

#[test]
fn destination_policy() {
    assert_eq!(destination_action(false, false, false), DestinationAction::Use);
    assert_eq!(destination_action(false, false, true), DestinationAction::Use);
    assert_eq!(destination_action(false, true, false), DestinationAction::Use);
    assert_eq!(destination_action(true, false, false), DestinationAction::Use);
    assert_eq!(destination_action(true, true, false), DestinationAction::Refuse);
    assert_eq!(destination_action(true, true, true), DestinationAction::Clear);
    assert_eq!(destination_action(true, false, true), DestinationAction::Clear);
}

#[test]
fn names_made_by_the_tool() {
    assert_eq!(default_destination("linux"), "linux-copy");
    assert_eq!(default_destination(""), "-copy");
    assert_eq!(archive_file_name(0), "archive-0.zip");
    assert_eq!(archive_file_name(1_700_000_000_123_456_789), "archive-1700000000123456789.zip");
    assert_eq!(
        archive_file_name(u128::MAX),
        "archive-340282366920938463463374607431768211455.zip"
    );
}

#[test]
fn decimal_numerals() {
    let text = |n: u128| decimal_of(n).into_iter().collect::<String>();
    assert_eq!(text(0), "0");
    assert_eq!(text(7), "7");
    assert_eq!(text(10), "10");
    assert_eq!(text(99), "99");
    assert_eq!(text(100), "100");
    assert_eq!(text(1234567890), "1234567890");
}

#[test]
fn only_directories_named_dot_git_are_embedded_repositories() {
    assert!(is_embedded_git(true, ".git"));
    assert!(!is_embedded_git(false, ".git"));
    assert!(!is_embedded_git(true, ".gitignore"));
    assert!(!is_embedded_git(true, "git"));
    assert!(!is_embedded_git(true, ".GIT"));
    assert!(!is_embedded_git(true, ""));
}

#[test]
fn targets_in_the_way_of_a_move() {
    assert_eq!(existing_target_action(true, false), ExistingTarget::RemoveDirectory);
    assert_eq!(existing_target_action(true, true), ExistingTarget::RemoveDirectory);
    assert_eq!(existing_target_action(false, true), ExistingTarget::KeepTarget);
    assert_eq!(existing_target_action(false, false), ExistingTarget::RemoveFile);
    assert_eq!(move_fallback(true), MoveFallback::CopyTree);
    assert_eq!(move_fallback(false), MoveFallback::LinkOrCopy);
}

#[test]
fn addresses_of_the_api() {
    assert_eq!(repo_url("torvalds", "linux"), "https://api.github.com/repos/torvalds/linux");
    assert_eq!(
        zipball_url("rust-lang", "rust", "master"),
        "https://api.github.com/repos/rust-lang/rust/zipball/master"
    );
    assert_eq!(authorization("t0k3n"), "token t0k3n");
}

#[test]
fn default_branch_from_an_answer() {
    assert_eq!(
        default_branch(200, r#"{"name": "linux", "default_branch": "master"}"#),
        Ok("master".to_string())
    );
    assert_eq!(default_branch(200, r#"{"name": "linux"}"#), Ok("main".to_string()));
    assert_eq!(default_branch(200, r#"{"default_branch": 7}"#), Ok("main".to_string()));
    assert_eq!(default_branch(200, r#"{"default_branch": null}"#), Ok("main".to_string()));
    assert_eq!(default_branch(200, r#"["default_branch"]"#), Ok("main".to_string()));
    assert_eq!(default_branch(200, r#"{"default_branch": "develop"}"#), Ok("develop".to_string()));
    assert_eq!(default_branch(200, "not json"), Err(LookupError::BadBody));
    assert_eq!(default_branch(200, ""), Err(LookupError::BadBody));
    assert_eq!(default_branch(404, r#"{"default_branch": "master"}"#), Err(LookupError::NotFound));
    assert_eq!(default_branch(500, "{}"), Err(LookupError::Failed { status: 500 }));
    assert_eq!(default_branch(201, "{}"), Err(LookupError::Failed { status: 201 }));
    assert_eq!(default_branch(301, "{}"), Err(LookupError::Failed { status: 301 }));
}

#[test]
fn reference_to_download() {
    assert_eq!(branch_from_field(Some("trunk".to_string())), "trunk");
    assert_eq!(branch_from_field(None), "main");
    assert_eq!(choose_reference(Some("v1".to_string()), Some("master".to_string())), "v1");
    assert_eq!(choose_reference(Some("v1".to_string()), None), "v1");
    assert_eq!(choose_reference(None, Some("master".to_string())), "master");
    assert_eq!(choose_reference(None, None), "main");
}

#[test]
fn status_of_a_download() {
    assert_eq!(download_status(200), DownloadStatus::Success);
    assert_eq!(download_status(206), DownloadStatus::Success);
    assert_eq!(download_status(299), DownloadStatus::Success);
    assert_eq!(download_status(199), DownloadStatus::Failed);
    assert_eq!(download_status(300), DownloadStatus::Redirected);
    assert_eq!(download_status(302), DownloadStatus::Redirected);
    assert_eq!(download_status(399), DownloadStatus::Redirected);
    assert_eq!(download_status(400), DownloadStatus::Failed);
    assert_eq!(download_status(404), DownloadStatus::NotFound);
    assert_eq!(download_status(500), DownloadStatus::Failed);
    assert_eq!(download_status(0), DownloadStatus::Failed);
}

#[test]
fn digests_tell_contents_apart() {
    assert_eq!(
        compute_blake3_hex(b""),
        "af1349b9f5f9a1a6a0404dea36dcc9499bcb25c9adc112b7cc9a93cae41f3262"
    );
    let hello = compute_blake3_hex(b"hello");
    assert_eq!(hello.len(), 64);
    assert_ne!(hello, "hello");
    assert_eq!(hello, compute_blake3_hex(b"hello"));
    assert_ne!(hello, compute_blake3_hex(b"hellp"));
    assert!(digests_match(Some(hello.clone()), Some(compute_blake3_hex(b"hello"))));
    assert!(!digests_match(Some(hello.clone()), Some(compute_blake3_hex(b"other"))));
    assert!(!digests_match(None, Some(hello.clone())));
    assert!(!digests_match(Some(hello), None));
    assert!(!digests_match(None, None));
}

#[test]
fn timeouts_of_the_tool() {
    assert_eq!(TIMEOUT_GET_REPO_SECS, 30);
    assert_eq!(TIMEOUT_DOWNLOAD_SECS, 60);
    assert_eq!(MAX_TIMEOUT_SECS, max_timeout_secs(TIMEOUT_GET_REPO_SECS, TIMEOUT_DOWNLOAD_SECS));
}
