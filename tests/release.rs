use version_bump::{
    bump, checked_bump, classify, make_changelog, manifest_paths, release_bump, release_notes, select_bump,
    semver, set_manifest_version, sort_commits, version_of, CommitKind, Manifest, PathSetting,
    MAJOR_BUMP, MINOR_BUMP, PATCH_BUMP,
};

fn commits(list: &[(&str, &str)]) -> Vec<(String, String)> {
    list.iter().map(|(a, b)| (a.to_string(), b.to_string())).collect()
}

fn tags(list: &[&str]) -> Vec<String> {
    list.iter().map(|t| t.to_string()).collect()
}

#[test]
fn test_changelog() {
    let commits: Vec<(String, String)> = vec![
        ("xf0".to_string(), "feat(foo): bar".to_string()),
        ("xf1".to_string(), "fix: some".to_string()),
        ("xf3".to_string(), "chore: some".to_string()),
        ("xf2".to_string(), "docs(foo): bar".to_string()),
    ];

    let changelog = make_changelog(commits);

    assert_eq!(
        changelog,
        "### Features\n- **foo:** bar (xf0)\n\n### Bug Fixes\n- some (xf1)\n\n### Documentation\n- **foo:** bar (xf2)\n\n### Chores\n- some (xf3)\n"
    )
}

#[test]
fn test_bump() {
    assert_eq!(bump(PATCH_BUMP, (1, 0, 0)), "v1.0.1");
    assert_eq!(bump(MINOR_BUMP, (1, 0, 0)), "v1.1.0");
    assert_eq!(bump(MAJOR_BUMP, (1, 0, 0)), "v2.0.0");
    assert_eq!(bump(PATCH_BUMP, (1, 0, 99)), "v1.0.100");
    assert_eq!(bump(MINOR_BUMP, (1, 99, 1)), "v1.100.0");
    assert_eq!(bump(MAJOR_BUMP, (99, 99, 99)), "v100.0.0");
}

#[test]
fn bump_without_level_is_empty() {
    assert_eq!(bump(0, (1, 2, 3)), "");
}

#[test]
fn bump_largest_flag_wins() {
    assert_eq!(bump(PATCH_BUMP | MAJOR_BUMP, (3, 4, 5)), "v4.0.0");
    assert_eq!(bump(PATCH_BUMP | MINOR_BUMP, (3, 4, 5)), "v3.5.0");
}

#[test]
fn rank_orders_by_version_descending() {
    let r = semver(&tags(&["v1.0.0", "v2.0.0", "v1.5.0", "junk"]));
    assert_eq!(
        r,
        vec![("v2.0.0".to_string(), (2, 0, 0)), ("v1.5.0".to_string(), (1, 5, 0))]
    );
}

#[test]
fn rank_returns_at_most_two() {
    let r = semver(&tags(&["0.1.0", "0.2.0", "0.3.0", "0.4.0", "0.10.0"]));
    assert_eq!(r.len(), 2);
    assert_eq!(r[0], ("0.10.0".to_string(), (0, 10, 0)));
    assert_eq!(r[1], ("0.4.0".to_string(), (0, 4, 0)));
}

#[test]
fn rank_breaks_ties_by_name() {
    let r = semver(&tags(&["v2.0.0-rc", "release-2.0.0", "v2.0.0"]));
    assert_eq!(
        r,
        vec![
            ("release-2.0.0".to_string(), (2, 0, 0)),
            ("v2.0.0".to_string(), (2, 0, 0))
        ]
    );
}

#[test]
fn rank_drops_tags_without_version() {
    assert!(semver(&tags(&["latest", "v1.2", "stable"])).is_empty());
    assert!(semver(&tags(&[])).is_empty());
    let r = semver(&tags(&["v1.2", "v0.0.1"]));
    assert_eq!(r, vec![("v0.0.1".to_string(), (0, 0, 1))]);
}

#[test]
fn rank_counts_a_repeated_name_once() {
    let r = semver(&tags(&["v1.0.0", "v1.0.0", "v0.9.0"]));
    assert_eq!(
        r,
        vec![("v1.0.0".to_string(), (1, 0, 0)), ("v0.9.0".to_string(), (0, 9, 0))]
    );
}

#[test]
fn version_of_reads_leftmost_triple() {
    assert_eq!(version_of("v1.2.3"), Some((1, 2, 3)));
    assert_eq!(version_of("v01.2.3"), Some((1, 2, 3)));
    assert_eq!(version_of("1.2.03"), Some((1, 2, 0)));
    assert_eq!(version_of("app-0.10.7-beta.1.2.3"), Some((0, 10, 7)));
    assert_eq!(version_of("1.2"), None);
    assert_eq!(version_of(""), None);
}

#[test]
fn version_of_drops_components_too_large() {
    assert_eq!(version_of("v99999999999999999999999.0.0"), None);
}

#[test]
fn classify_reads_type_note_and_subject() {
    let c = classify("feat(foo): bar").unwrap();
    assert_eq!(c.kind, CommitKind::Feat);
    assert_eq!(c.note, Some("foo".to_string()));
    assert_eq!(c.subject, "bar");

    let c = classify("fix!:   trimmed  ").unwrap();
    assert_eq!(c.kind, CommitKind::Fix);
    assert_eq!(c.note, None);
    assert_eq!(c.subject, "trimmed");

    let c = classify("revert(a b): x").unwrap();
    assert_eq!(c.kind, CommitKind::Revert);
    assert_eq!(c.note, Some("a b".to_string()));
}

#[test]
fn classify_takes_longest_note() {
    let c = classify("chore(a): (b): c").unwrap();
    assert_eq!(c.note, Some("a): (b".to_string()));
    assert_eq!(c.subject, "c");
}

#[test]
fn classify_rejects_outside_grammar() {
    assert!(classify("wip stuff").is_none());
    assert!(classify("featuring a fix").is_none());
    assert!(classify("feat:").is_none());
    assert!(classify("Feat: capital").is_none());
    assert!(classify("feat(): empty note").is_none());
    assert!(classify("feat(x: no close").is_none());
    assert!(classify("feat: two\nlines").is_none());
}

#[test]
fn classify_note_characters() {
    assert!(classify("feat(a+b): symbol in note").is_none());
    assert!(classify("feat(a$b): currency in note").is_none());
    assert!(classify("feat(ä-1): unicode note").is_some());
}

#[test]
fn select_bump_first_match_wins() {
    assert_eq!(select_bump(&commits(&[("a", "fix: x"), ("b", "feat!: y")])), PATCH_BUMP);
    assert_eq!(select_bump(&commits(&[("a", "docs: x"), ("b", "feat: y")])), MINOR_BUMP);
    assert_eq!(select_bump(&commits(&[("a", "fix!: x"), ("b", "feat: y")])), MAJOR_BUMP);
    assert_eq!(select_bump(&commits(&[("a", "refactor: x")])), PATCH_BUMP);
    assert_eq!(select_bump(&commits(&[("a", "docs: x"), ("b", "wip stuff")])), 0);
    assert_eq!(select_bump(&commits(&[])), 0);
}

#[test]
fn select_bump_uses_bare_prefixes() {
    assert_eq!(select_bump(&commits(&[("a", "featuring a fix")])), MINOR_BUMP);
    assert_eq!(select_bump(&commits(&[("a", "wip stuff")])), 0);
}

#[test]
fn appending_commits_keeps_bump() {
    let a = commits(&[("a", "docs: x"), ("b", "chore: y")]);
    let mut ab = a.clone();
    ab.extend(commits(&[("c", "feat!: z")]));
    assert_eq!(select_bump(&a), select_bump(&ab));
}

#[test]
fn release_bump_needs_commits_or_force() {
    assert_eq!(release_bump(&commits(&[]), false), None);
    assert_eq!(release_bump(&commits(&[]), true), Some(PATCH_BUMP));
    assert_eq!(release_bump(&commits(&[("a", "feat: x")]), false), Some(MINOR_BUMP));
    assert_eq!(release_bump(&commits(&[("a", "wip")]), true), Some(0));
}

#[test]
fn sort_commits_is_stable_by_priority() {
    let mut c = commits(&[
        ("1", "chore: a"),
        ("2", "fix: b"),
        ("3", "wip"),
        ("4", "feat: c"),
        ("5", "fix!: d"),
        ("6", "feat!: e"),
        ("7", "docs: f"),
        ("8", "refactor: g"),
        ("9", "fix: h"),
    ]);
    sort_commits(&mut c);
    let ids: Vec<&str> = c.iter().map(|(i, _)| i.as_str()).collect();
    assert_eq!(ids, vec!["6", "4", "5", "2", "9", "8", "7", "1", "3"]);
}

#[test]
fn changelog_skips_release_commits() {
    let with = commits(&[
        ("a1", "chore(release): v1.2.3"),
        ("a2", "fix: one"),
        ("a3", "chore: two"),
    ]);
    assert_eq!(make_changelog(with), "### Bug Fixes\n- one (a2)\n\n### Chores\n- two (a3)\n");
    let last = commits(&[("a2", "fix: one"), ("a1", "chore(release): v1.2.3")]);
    assert_eq!(make_changelog(last), "### Bug Fixes\n- one (a2)\n");
}

#[test]
fn changelog_skips_unknown_subjects() {
    let c = commits(&[("w", "wip stuff"), ("f", "feat: x")]);
    assert_eq!(make_changelog(c), "### Features\n- x (f)\n");
    assert_eq!(make_changelog(commits(&[("w", "wip stuff")])), "");
    assert_eq!(make_changelog(commits(&[])), "");
}

#[test]
fn changelog_groups_one_type() {
    let c = commits(&[
        ("1", "fix: a"),
        ("2", "fix!: b"),
        ("3", "feat!(api): c"),
        ("4", "revert: d"),
    ]);
    assert_eq!(
        make_changelog(c),
        "### Features\n- **api:** c (3)\n\n### Bug Fixes\n- b (2)\n- a (1)\n\n### Reverts\n- d (4)\n"
    );
}

#[test]
fn changelog_trims_subject() {
    let c = commits(&[("z", "feat:   spaced out \t")]);
    assert_eq!(make_changelog(c), "### Features\n- spaced out (z)\n");
}

#[test]
fn changelog_is_deterministic() {
    let c = commits(&[("1", "chore: a"), ("2", "feat: b"), ("3", "fix: c")]);
    let first = make_changelog(c.clone());
    let mut sorted = c.clone();
    sort_commits(&mut sorted);
    assert_eq!(first, make_changelog(c));
    assert_eq!(first, make_changelog(sorted));
}

#[test]
fn release_notes_heading_levels() {
    assert_eq!(
        release_notes(PATCH_BUMP, "v1.0.1", "2024-01-02", "- x\n"),
        "### v1.0.1 (2024-01-02)\n\n- x\n\n"
    );
    assert_eq!(
        release_notes(MINOR_BUMP, "v1.1.0", "2024-01-02", ""),
        "## v1.1.0 (2024-01-02)\n\n*no notable changes*\n\n"
    );
}

#[test]
fn manifest_version_is_replaced() {
    let chart = "name: app\nappVersion: 0.1.0\nversion: 1\n";
    assert_eq!(
        set_manifest_version(Manifest::Helm, chart, "v0.2.0"),
        Some("name: app\nappVersion: v0.2.0\nversion: 1\n".to_string())
    );
    let npm = "{\n  \"version\": \"1.0.0\"\n}\n";
    assert_eq!(
        set_manifest_version(Manifest::Npm, npm, "v1.1.0"),
        Some("{\n  \"version\": \"v1.1.0\"\n}\n".to_string())
    );
    assert_eq!(set_manifest_version(Manifest::Composer, "{}", "v1.1.0"), None);
}

#[test]
fn manifest_paths_from_setting() {
    assert_eq!(manifest_paths(&PathSetting::Absent), Some(vec![]));
    assert_eq!(
        manifest_paths(&PathSetting::Single("a.json".to_string())),
        Some(vec!["a.json".to_string()])
    );
    assert_eq!(
        manifest_paths(&PathSetting::List(vec![
            Some("a".to_string()),
            None,
            Some("b".to_string())
        ])),
        Some(vec!["a".to_string(), "b".to_string()])
    );
    assert_eq!(manifest_paths(&PathSetting::Invalid), None);
    assert_eq!(Manifest::Npm.default_path(), "package.json");
}

#[test]
fn checked_bump_refuses_overflow() {
    assert_eq!(checked_bump(MAJOR_BUMP, (usize::MAX, 0, 0)), None);
    assert_eq!(checked_bump(PATCH_BUMP, (1, 2, usize::MAX)), None);
    assert_eq!(checked_bump(MINOR_BUMP, (1, 2, usize::MAX)), Some("v1.3.0".to_string()));
}

#[test]
fn release_commit_anywhere_is_left_out() {
    let without = commits(&[("b1", "feat: one"), ("b2", "fix: two"), ("b3", "docs: three")]);
    let expected = make_changelog(without.clone());
    for at in 0..=without.len() {
        let mut with = without.clone();
        with.insert(at, ("r".to_string(), "chore(release): v1.2.3".to_string()));
        assert_eq!(make_changelog(with), expected);
    }
}

#[test]
fn untyped_subject_is_ignored() {
    assert!(classify("wip stuff").is_none());
    assert_eq!(select_bump(&commits(&[("w", "wip stuff")])), 0);
    assert_eq!(make_changelog(commits(&[("w", "wip stuff"), ("x", "docs: y")])), "### Documentation\n- y (x)\n");
}
