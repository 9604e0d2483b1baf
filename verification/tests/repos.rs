use gitapi::{repo_display_name, GitApiError, Repo, RepoSource};

fn log_line(hash: &str, author: &str, email: &str, date: &str, msg: &str) -> String {
    format!("\u{1e}{hash}\u{1f}{author}\u{1f}{email}\u{1f}{date}\u{1f}parents\u{1f}{msg}\n")
}

#[test]
fn parse_object_by_branch() {
    let line = "100644 blob 1234567890abcdef\tREADME.md";
    let o = Repo::parse_object(line, None).unwrap();
    assert_eq!(o.name, "README.md");
    assert_eq!(o.file_type, "blob");
    assert_eq!(o.object_hash, "1234567890abcdef");
}

#[test]
fn parse_object_by_hash_qualifies_name() {
    let line = "040000 tree fedcba9876543210\tsubdir";
    let o = Repo::parse_object(line, Some("src")).unwrap();
    assert_eq!(o.name, "src/subdir");
    assert_eq!(o.file_type, "tree");
    assert_eq!(o.object_hash, "fedcba9876543210");
}

#[test]
fn parse_object_malformed_line() {
    assert!(matches!(
        Repo::parse_object("garbage line", None),
        Err(GitApiError::ParseError)
    ));
    assert!(matches!(
        Repo::parse_object("100644 blob no-tab-here", None),
        Err(GitApiError::ParseError)
    ));
}

#[test]
fn listing_with_one_malformed_line_keeps_the_rest() {
    // Five lines, one malformed: four entries come back, not zero and
    // not an error.
    let text = "100644 blob aaaa000000000001\ta.txt\n100644 blob aaaa000000000002\tb.txt\nthis line is malformed\n100644 blob aaaa000000000003\tc.txt\n040000 tree aaaa000000000004\tsub\n";
    let objects = Repo::parse_listing(text, None);
    assert_eq!(objects.len(), 4);
    assert_eq!(objects[0].name, "a.txt");
    assert_eq!(objects[1].name, "b.txt");
    assert_eq!(objects[2].name, "c.txt");
    assert_eq!(objects[3].name, "sub");
}

#[test]
fn readme_is_found_by_exact_name() {
    let with = Repo::parse_listing(
        "100644 blob aaaa000000000001\tREADME.md\n100644 blob aaaa000000000002\tmain.rs\n",
        None,
    );
    assert!(Repo::has_readme(&with));
    let without = Repo::parse_listing("100644 blob aaaa000000000002\tmain.rs\n", None);
    assert!(!Repo::has_readme(&without));
    assert_eq!(Repo::readme_show_arg("main"), "main:README.md");
}

#[test]
fn assemble_attaches_commits_and_skips_commitless_entries() {
    let objects = Repo::parse_listing(
        "100644 blob aaaa000000000001\ta.txt\n100644 blob aaaa000000000002\tb.txt\n",
        None,
    );
    let logs = vec![
        log_line(
            "abc123def456",
            "Jane Doe",
            "jane@example.com",
            "2024-01-02T10:00:00+00:00",
            "touch a",
        ),
        String::new(),
    ];
    let repo = Repo::assemble(&objects, &logs, Some(String::from("hello")));
    assert_eq!(repo.objects.len(), 1);
    assert_eq!(repo.objects[0].name, "a.txt");
    assert_eq!(repo.objects[0].last_commit.hash, "abc123");
    assert_eq!(repo.objects[0].last_commit.msg, "touch a");
    assert_eq!(repo.read_me.as_deref(), Some("hello"));
}

#[test]
fn display_name_strips_extension() {
    assert_eq!(repo_display_name("demo.git"), "demo");
    assert_eq!(repo_display_name("a.b.git"), "a.b");
    assert_eq!(repo_display_name("plain"), "plain");
    assert_eq!(repo_display_name(".git"), ".git");
}

#[test]
fn get_all_sorts_by_descending_commit_date() {
    let older = RepoSource {
        dir_name: String::from("older.git"),
        description: String::from("old one"),
        log_output: log_line(
            "aaaa11bbbb22",
            "A",
            "a@b.c",
            "2023-05-01T08:00:00+00:00",
            "old work",
        ),
    };
    let newer = RepoSource {
        dir_name: String::from("newer.git"),
        description: String::from("new one"),
        log_output: log_line(
            "cccc33dddd44",
            "B",
            "b@c.d",
            "2024-06-01T09:00:00+00:00",
            "new work",
        ),
    };
    let middle = RepoSource {
        dir_name: String::from("middle.git"),
        description: String::from("between"),
        log_output: log_line(
            "eeee55ffff66",
            "C",
            "c@d.e",
            "2023-12-24T18:30:00+00:00",
            "mid work",
        ),
    };
    let repos = Repo::get_all(vec![older, newer, middle]).unwrap();
    assert_eq!(repos.len(), 3);
    assert_eq!(repos[0].name, "newer");
    assert_eq!(repos[1].name, "middle");
    assert_eq!(repos[2].name, "older");
}

#[test]
fn get_all_end_to_end_demo_repository() {
    let source = RepoSource {
        dir_name: String::from("demo.git"),
        description: String::from("A test repo"),
        log_output: log_line(
            "abc123def4567890",
            "Jane Doe",
            "jane@example.com",
            "2024-01-02T10:00:00+00:00",
            "Initial commit",
        ),
    };
    let repos = Repo::get_all(vec![source]).unwrap();
    assert_eq!(repos.len(), 1);
    assert_eq!(repos[0].name, "demo");
    assert_eq!(repos[0].description, "A test repo");
    assert_eq!(repos[0].last_commit.hash, "abc123");
    assert_eq!(repos[0].last_commit.author, "Jane Doe");
    assert_eq!(repos[0].last_commit.author_email, "jane@example.com");
    assert_eq!(repos[0].last_commit.date, "01/02/2024 10:00");
    assert_eq!(repos[0].last_commit.msg, "Initial commit");
}

#[test]
fn get_all_fails_on_repository_with_no_commits() {
    let source = RepoSource {
        dir_name: String::from("empty.git"),
        description: String::new(),
        log_output: String::new(),
    };
    assert!(matches!(
        Repo::get_all(vec![source]),
        Err(GitApiError::NoLastElement)
    ));
}
