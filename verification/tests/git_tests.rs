//! Reference-log classification, repository-path parsing, and activity
//! extraction.

use traceback::git::{
    activity_from_entry, discover_repositories, extract_ref_name, format_activity_message,
    identify_repository, matches_pattern, parse_repository_path, should_descend, GitActivityType,
    ReflogEntry, RepoProbe,
};

#[test]
fn test_git_activity_type_from_reflog() {
    assert_eq!(
        GitActivityType::from_reflog_message("commit: added feature"),
        Some(GitActivityType::Commit)
    );
    assert_eq!(
        GitActivityType::from_reflog_message("checkout: moving from main to feature"),
        Some(GitActivityType::Checkout)
    );
    assert_eq!(
        GitActivityType::from_reflog_message("merge feature: Merge branch"),
        Some(GitActivityType::Merge)
    );
}

#[test]
fn test_extract_ref_name() {
    let ref_name = extract_ref_name(
        "checkout: moving from main to feature-branch",
        &GitActivityType::Checkout,
    );
    assert_eq!(ref_name, Some("feature-branch".to_string()));
}

#[test]
fn test_parse_repository_path_github_https() {
    assert_eq!(
        parse_repository_path("https://github.com/facebook/react.git"),
        Some("facebook/react".to_string())
    );
    assert_eq!(
        parse_repository_path("https://github.com/facebook/react"),
        Some("facebook/react".to_string())
    );
}

#[test]
fn test_parse_repository_path_github_ssh() {
    assert_eq!(
        parse_repository_path("git@github.com:facebook/react.git"),
        Some("facebook/react".to_string())
    );
    assert_eq!(
        parse_repository_path("git@github.com:facebook/react"),
        Some("facebook/react".to_string())
    );
}

#[test]
fn test_parse_repository_path_gitlab() {
    assert_eq!(
        parse_repository_path("https://gitlab.com/gitlab-org/gitlab-foss.git"),
        Some("gitlab-org/gitlab-foss".to_string())
    );
    assert_eq!(
        parse_repository_path("git@gitlab.com:gitlab-org/gitlab.git"),
        Some("gitlab-org/gitlab".to_string())
    );
}

#[test]
fn test_parse_repository_path_gitlab_subgroups() {
    assert_eq!(
        parse_repository_path("https://gitlab.com/group/subgroup/project.git"),
        Some("group/subgroup/project".to_string())
    );
}

#[test]
fn test_parse_repository_path_bitbucket() {
    assert_eq!(
        parse_repository_path("https://bitbucket.org/atlassian/jira.git"),
        Some("atlassian/jira".to_string())
    );
    assert_eq!(
        parse_repository_path("git@bitbucket.org:atlassian/jira.git"),
        Some("atlassian/jira".to_string())
    );
}

#[test]
fn test_parse_repository_path_invalid() {
    assert_eq!(parse_repository_path("not-a-url"), None);
    assert_eq!(parse_repository_path(""), None);
}

#[test]
fn test_checkout_classifies_extracts_and_formats() {
    let msg = "checkout: moving from main to feature-x";
    assert_eq!(
        GitActivityType::from_reflog_message(msg),
        Some(GitActivityType::Checkout)
    );
    assert_eq!(
        extract_ref_name(msg, &GitActivityType::Checkout),
        Some("feature-x".to_string())
    );
    assert_eq!(
        format_activity_message(msg, ""),
        "Switched to feature-x (from main)".to_string()
    );
}

#[test]
fn test_format_activity_message_kinds() {
    assert_eq!(
        format_activity_message("commit: quick fix", "Fix the parser\n\nLong body"),
        "Fix the parser".to_string()
    );
    assert_eq!(
        format_activity_message("merge feature-y: Merge branch 'feature-y'", ""),
        "Merged feature-y".to_string()
    );
    assert_eq!(
        format_activity_message("reset: moving to HEAD~1", ""),
        "Reset to HEAD~1".to_string()
    );
    assert_eq!(
        format_activity_message("pull: Fast-forward", ""),
        "Pulled (fast-forward)".to_string()
    );
    assert_eq!(format_activity_message("pull origin", ""), "Pulled".to_string());
    assert_eq!(
        format_activity_message("rebase (start): checkout main", ""),
        "Rebase started".to_string()
    );
    assert_eq!(
        format_activity_message("rebase (finish): returning", ""),
        "Rebase finished".to_string()
    );
    assert_eq!(
        format_activity_message("something else entirely", ""),
        "something else entirely".to_string()
    );
}

#[test]
fn test_merge_and_rebase_ref_names() {
    assert_eq!(
        extract_ref_name("merge feature-z: Merge branch 'feature-z'", &GitActivityType::Merge),
        Some("feature-z".to_string())
    );
    assert_eq!(
        extract_ref_name("rebase (start): checkout main", &GitActivityType::Rebase),
        Some("(start):".to_string())
    );
    assert_eq!(extract_ref_name("commit: something", &GitActivityType::Commit), None);
}

#[test]
fn test_matches_pattern() {
    assert!(matches_pattern("refs/heads/main", "refs/heads/*"));
    assert!(matches_pattern("refs/remotes/origin/dev", "refs/remotes/*"));
    assert!(!matches_pattern("refs/tags/v1", "refs/heads/*"));
    assert!(matches_pattern("HEAD", "HEAD"));
    assert!(!matches_pattern("HEAD", "head"));
}

#[test]
fn test_should_descend() {
    assert!(should_descend("src"));
    assert!(!should_descend(".git"));
    assert!(!should_descend(".hidden"));
    assert!(!should_descend("node_modules"));
    assert!(!should_descend("target"));
    assert!(!should_descend("dist"));
    assert!(!should_descend("build"));
    assert!(!should_descend("vendor"));
}

#[test]
fn test_identify_repository_with_origin() {
    let probe = RepoProbe {
        name: "react".to_string(),
        local_path: "/home/dev/react".to_string(),
        canonical_path: "/home/dev/react".to_string(),
        origin_url: Some("https://github.com/facebook/react.git".to_string()),
    };
    let repo = identify_repository(&probe);
    assert_eq!(repo.repository_name, "react".to_string());
    assert_eq!(repo.repository_path, Some("facebook/react".to_string()));
    // the id is a 32-digit digest of the origin URL, not the URL itself
    assert_eq!(repo.repository_id.len(), 32);
    assert_ne!(repo.repository_id, "https://github.com/facebook/react.git".to_string());
}

#[test]
fn test_identify_repository_local_only() {
    let probe = RepoProbe {
        name: "scratch".to_string(),
        local_path: "/home/dev/scratch".to_string(),
        canonical_path: "/home/dev/scratch".to_string(),
        origin_url: None,
    };
    let repo = identify_repository(&probe);
    assert!(repo.repository_id.starts_with("local-"));
    assert_eq!(repo.repository_id.len(), 38);
    assert_eq!(repo.repository_path, None);
    let repos = discover_repositories(&vec![probe]);
    assert_eq!(repos.len(), 1);
    assert_eq!(repos[0].repository_id, repo.repository_id);
}

#[test]
fn test_activity_from_entry_window_and_noise() {
    let probe = RepoProbe {
        name: "react".to_string(),
        local_path: "/home/dev/react".to_string(),
        canonical_path: "/home/dev/react".to_string(),
        origin_url: Some("https://github.com/facebook/react.git".to_string()),
    };
    let repo = identify_repository(&probe);
    let entry = ReflogEntry {
        message: "checkout: moving from main to feature-x".to_string(),
        commit_message: "".to_string(),
        timestamp: 1700000000,
        commit_hash: "abc123".to_string(),
    };
    let a = activity_from_entry(&repo, &entry, Some(1600000000)).unwrap();
    assert_eq!(a.activity_type, GitActivityType::Checkout);
    assert_eq!(a.ref_name, Some("feature-x".to_string()));
    assert_eq!(a.message, "Switched to feature-x (from main)".to_string());
    assert_eq!(a.commit_hash, Some("abc123".to_string()));

    // before the window start: dropped
    assert!(activity_from_entry(&repo, &entry, Some(1800000000)).is_none());
    // fetches and unclassified messages: dropped
    let fetch_entry = ReflogEntry {
        message: "pull: fetch origin".to_string(),
        commit_message: "".to_string(),
        timestamp: 1700000000,
        commit_hash: "def456".to_string(),
    };
    assert!(activity_from_entry(&repo, &fetch_entry, None).is_none());
    let noise = ReflogEntry {
        message: "Branch: renamed refs/heads/a to refs/heads/b".to_string(),
        commit_message: "".to_string(),
        timestamp: 1700000000,
        commit_hash: "0000".to_string(),
    };
    assert!(activity_from_entry(&repo, &noise, None).is_none());
}
