use grf::infra::git::{
    branch_from_abbrev_ref, clone_args, count_shows_updates, parse_u32, render_command,
    switch_branch_commands, update_range, CloneOptions,
};

#[test]
fn clone_arguments() {
    let opts = CloneOptions { branch: Some(String::from("dev")), shallow: true, depth: None };
    assert_eq!(
        clone_args("u", "d", &opts),
        vec!["clone", "--depth", "1", "--branch", "dev", "u", "d"]
    );
    let opts = CloneOptions { branch: None, shallow: true, depth: Some(25) };
    assert_eq!(clone_args("u", "d", &opts), vec!["clone", "--depth", "25", "u", "d"]);
    assert_eq!(clone_args("u", "d", &CloneOptions::default()), vec!["clone", "u", "d"]);
}

#[test]
fn rendered_commands() {
    assert_eq!(render_command(&[]), "git");
    assert_eq!(
        render_command(&[String::from("rev-parse"), String::from("HEAD")]),
        "git rev-parse HEAD"
    );
}

#[test]
fn branch_output() {
    assert_eq!(branch_from_abbrev_ref("HEAD"), None);
    assert_eq!(branch_from_abbrev_ref("main").as_deref(), Some("main"));
    assert_eq!(update_range(&None), "HEAD..origin/HEAD");
    assert_eq!(update_range(&Some(String::from("dev"))), "HEAD..origin/dev");
}

#[test]
fn counts_like_std_parse() {
    for s in ["0", "7", "+12", "4294967295", "4294967296", "", "+", "-1", "1a", " 1", "00"] {
        assert_eq!(parse_u32(s), s.parse::<u32>().ok(), "input {s:?}");
    }
    assert!(count_shows_updates("3"));
    assert!(!count_shows_updates("0"));
    assert!(!count_shows_updates("garbage"));
}

#[test]
fn branch_switch_commands() {
    let cmds = switch_branch_commands("feature");
    assert_eq!(cmds[0], vec!["config", "remote.origin.fetch", "+refs/heads/*:refs/remotes/origin/*"]);
    assert_eq!(cmds[1], vec!["fetch", "origin", "feature"]);
    assert_eq!(cmds[2], vec!["checkout", "-B", "feature", "origin/feature"]);
}
