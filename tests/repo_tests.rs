use mdbook_gitinfo::repo::{normalise_repo_base, resolve_repo_base, tag_url, RepoSignals};

#[test]
fn normalises_ssh_remotes() {
    assert_eq!(normalise_repo_base("git@github.com:org/repo.git\n"), "https://github.com/org/repo");
    assert_eq!(normalise_repo_base("ssh://git@github.com/org/repo.git"), "https://github.com/org/repo");
    assert_eq!(normalise_repo_base("git@gitlab.com:group/proj"), "https://gitlab.com/group/proj");
    assert_eq!(normalise_repo_base("https://github.com/org/repo.git"), "https://github.com/org/repo");
    assert_eq!(normalise_repo_base("https://bitbucket.org/team/repo"), "https://bitbucket.org/team/repo");
}

#[test]
fn tag_urls_per_provider() {
    assert_eq!(tag_url("https://github.com/o/r", "v1"), "https://github.com/o/r/releases/tag/v1");
    assert_eq!(tag_url("https://gitlab.example.com/o/r", "v1"), "https://gitlab.example.com/o/r/-/tags/v1");
    assert_eq!(tag_url("https://bitbucket.org/o/r", "v1"), "https://bitbucket.org/o/r/src/v1");
    assert_eq!(tag_url("https://git.example.com/o/r", "v1"), "https://git.example.com/o/r/tags/v1");
}

#[test]
fn repo_base_priority() {
    let mut s = RepoSignals {
        github_server_url: Some("https://github.com/".to_string()),
        github_repository: Some("o/r".to_string()),
        ci_server_url: Some("https://gitlab.com".to_string()),
        ci_project_path: Some("g/p".to_string()),
        remote_url: Some("git@example.com:x/y.git".to_string()),
        ..Default::default()
    };
    assert_eq!(resolve_repo_base(&s), Some("https://github.com/o/r".to_string()));
    s.github_repository = None;
    assert_eq!(resolve_repo_base(&s), Some("https://gitlab.com/g/p".to_string()));
    s.ci_project_path = None;
    s.bitbucket_repo_full_name = Some("team/repo".to_string());
    assert_eq!(resolve_repo_base(&s), Some("https://bitbucket.org/team/repo".to_string()));
    s.bitbucket_repo_full_name = None;
    assert_eq!(resolve_repo_base(&s), Some("https://example.com/x/y".to_string()));
    s.remote_url = None;
    assert_eq!(resolve_repo_base(&s), None);
}
