use shuvarie_core::paths::{closest_existing, expand_home, normalize, rule_path, PathPart};
use shuvarie_core::permissions::{
    after_reply, collapse_whitespace, contains_word, Decision, DenyCut, Mode, PathKind, PathRule,
    PathRules, PermissionReply, Permissions, PermissionsConfig, ShellPatternKind, ShellRule,
    ShellRules, Verb, Verdict,
};
use std::path::{Component, Path};

const HOME: &str = "/home/u";
const OWN_DIR: &str = ".shuvarie";

fn parts(path: &str) -> Vec<PathPart> {
    Path::new(path)
        .components()
        .map(|c| match c {
            Component::Prefix(p) => PathPart::Prefix(p.as_os_str().to_string_lossy().into_owned()),
            Component::RootDir => PathPart::Root,
            Component::CurDir => PathPart::Current,
            Component::ParentDir => PathPart::Parent,
            Component::Normal(n) => PathPart::Name(n.to_string_lossy().into_owned()),
        })
        .collect()
}

fn build(config: &PermissionsConfig) -> Result<Permissions, String> {
    let base = parts("/ws");
    let rule_paths = config
        .paths
        .rules
        .iter()
        .map(|rule| {
            let path = match expand_home(&rule.path) {
                Some(rest) if rest.is_empty() => HOME.to_string(),
                Some(rest) => format!("{HOME}/{rest}"),
                None => rule.path.clone(),
            };
            rule_path(&parts(&path), &base)
        })
        .collect();
    let exempt = vec![parts("/home/u/.agents/skills")];
    Permissions::build(config, &rule_paths, exempt, OWN_DIR)
}

fn builtin() -> Permissions {
    build(&PermissionsConfig::builtin()).unwrap()
}

fn config(default: Option<Verb>, paths: Vec<PathRule>, shell: Vec<ShellRule>) -> Permissions {
    config_scoped(default, None, paths, None, shell)
}

fn config_scoped(
    default: Option<Verb>,
    paths_default: Option<Verb>,
    paths: Vec<PathRule>,
    shell_default: Option<Verb>,
    shell: Vec<ShellRule>,
) -> Permissions {
    build(&PermissionsConfig {
        default,
        paths: PathRules { default: paths_default, rules: paths },
        shell: ShellRules { default: shell_default, rules: shell },
    })
    .unwrap()
}

fn path_rule(verb: Verb, path: &str) -> PathRule {
    PathRule {
        verb,
        path: path.to_string(),
        except_hidden: false,
        exact: false,
        mode: Mode::Rw,
    }
}

fn shell_rule(verb: Verb, pattern: &str) -> ShellRule {
    ShellRule {
        verb,
        pattern: pattern.to_string(),
        kind: ShellPatternKind::Raw,
    }
}

fn regex_rule(verb: Verb, pattern: &str) -> ShellRule {
    ShellRule { kind: ShellPatternKind::Regex, ..shell_rule(verb, pattern) }
}

fn read(perms: &Permissions, path: &str) -> Decision {
    perms.check_path(PathKind::Read, &parts(path))
}

fn write(perms: &Permissions, path: &str) -> Decision {
    perms.check_path(PathKind::Write, &parts(path))
}

fn ask(reason: &str) -> Decision {
    Decision::Ask { reason: reason.into() }
}

fn deny(reason: &str) -> Decision {
    Decision::Deny { reason: reason.into() }
}

#[test]
fn builtin_paths_allow_workspace_but_ask_hidden_and_outside() {
    let perms = builtin();
    assert_eq!(read(&perms, "/ws/src/main.rs"), Decision::Allow);
    assert_eq!(write(&perms, "/ws/src/main.rs"), Decision::Allow);
    assert_eq!(read(&perms, "/ws/.env"), ask("permissions default: ask-all"));
    assert_eq!(read(&perms, "/etc/hosts"), ask("permissions default: ask-all"));
}

#[test]
fn builtin_keeps_root_exemptions_and_global_skill_reads() {
    let perms = builtin();
    assert_eq!(read(&perms, "/ws/.agents/skills/x"), Decision::Allow);
    assert_eq!(write(&perms, "/ws/.shuvarie/data.db"), Decision::Allow);
    assert_eq!(
        read(&perms, "/ws/.agents/.secrets/key"),
        ask("permissions default: ask-all")
    );
    assert_eq!(
        read(&perms, "/ws/sub/.agents/x"),
        ask("permissions default: ask-all")
    );
    assert_eq!(
        read(&perms, "/home/u/.agents/skills/tokio/SKILL.md"),
        Decision::Allow
    );
}

#[test]
fn first_match_wins_with_scope_fallback() {
    let perms = config(
        Some(Verb::Allow),
        vec![
            path_rule(Verb::Ask, "/ws/secrets/public"),
            path_rule(Verb::Deny, "/ws/secrets"),
        ],
        vec![shell_rule(Verb::Ask, "make")],
    );
    assert_eq!(read(&perms, "/ws/secrets/key"), deny("paths: deny \"/ws/secrets\""));
    assert_eq!(
        read(&perms, "/ws/secrets/public/x"),
        ask("paths: ask \"/ws/secrets/public\"")
    );
    assert_eq!(read(&perms, "/ws/other"), Decision::Allow);
    assert_eq!(perms.check_shell("make build"), ask("shell-patterns: ask \"make\""));
    assert_eq!(perms.check_shell("cargo test"), Decision::Allow);
}

#[test]
fn exact_rules_match_only_the_path_itself() {
    let perms = config_scoped(
        Some(Verb::Deny),
        Some(Verb::Deny),
        vec![PathRule { exact: true, ..path_rule(Verb::Allow, "/ws/file") }],
        None,
        Vec::new(),
    );
    assert_eq!(read(&perms, "/ws/file"), Decision::Allow);
    assert_eq!(read(&perms, "/ws/file/sub"), deny("paths fallback: deny-all"));
}

#[test]
fn except_hidden_skips_rules_for_hidden_targets() {
    let perms = config_scoped(
        Some(Verb::Deny),
        Some(Verb::Deny),
        vec![PathRule { except_hidden: true, ..path_rule(Verb::Allow, "/ws") }],
        None,
        Vec::new(),
    );
    assert_eq!(read(&perms, "/ws/x"), Decision::Allow);
    assert_eq!(read(&perms, "/ws/.env"), deny("paths fallback: deny-all"));
}

#[test]
fn tilde_expands_at_build_time() {
    let perms = config_scoped(
        Some(Verb::Deny),
        Some(Verb::Deny),
        vec![path_rule(Verb::Allow, "~/.ssh")],
        None,
        Vec::new(),
    );
    assert_eq!(read(&perms, "/home/u/.ssh/id_rsa"), Decision::Allow);
    assert_eq!(read(&perms, "/home/u/.ssh/hosts/d"), Decision::Allow);
    assert_eq!(read(&perms, "/home/u/.sshrc"), deny("paths fallback: deny-all"));
}

#[test]
fn tilde_paths_expand() {
    assert_eq!(expand_home("~/homefile.txt").as_deref(), Some("homefile.txt"));
    assert_eq!(expand_home("~").as_deref(), Some(""));
    assert_eq!(expand_home("~user/x"), None);
    assert_eq!(expand_home("/etc"), None);
}

#[test]
fn raw_shell_patterns_match_with_word_boundaries() {
    let perms = config(
        Some(Verb::Allow),
        Vec::new(),
        vec![
            shell_rule(Verb::Ask, "rm"),
            shell_rule(Verb::Deny, "git push --force"),
        ],
    );
    for command in ["rm -rf /", "echo x;rm y", "sudo rm x"] {
        assert_eq!(
            perms.check_shell(command),
            ask("shell-patterns: ask \"rm\""),
            "{command}"
        );
    }
    assert_eq!(perms.check_shell("firm -rf /"), Decision::Allow);
    assert_eq!(perms.check_shell("echo rmrf"), Decision::Allow);
    assert_eq!(
        perms.check_shell("git push --force origin main"),
        deny("shell-patterns: deny \"git push --force\"")
    );
    assert_eq!(
        perms.check_shell("git\tpush\n--force"),
        deny("shell-patterns: deny \"git push --force\"")
    );
    assert_eq!(perms.check_shell("git push"), Decision::Allow);
}

#[test]
fn regex_rules_match_as_written() {
    let perms = config(
        Some(Verb::Allow),
        Vec::new(),
        vec![regex_rule(Verb::Deny, "rm (-rf|-fr|--force --recursive)")],
    );
    for command in ["rm -rf /tmp", "rm --force --recursive /tmp"] {
        assert_eq!(
            perms.check_shell(command),
            deny("shell-patterns: deny \"rm (-rf|-fr|--force --recursive)\""),
            "{command}"
        );
    }
    assert_eq!(perms.check_shell("rm /tmp"), Decision::Allow);
}

#[test]
fn invalid_regex_fails_build() {
    let err = build(&PermissionsConfig {
        default: None,
        paths: PathRules { default: None, rules: vec![] },
        shell: ShellRules { default: None, rules: vec![regex_rule(Verb::Deny, "rm (")] },
    })
    .err()
    .unwrap();
    assert!(err.contains("invalid regex"), "{err}");
}

#[test]
fn path_rules_never_gate_shell_commands() {
    let perms = config_scoped(
        Some(Verb::Ask),
        None,
        vec![
            path_rule(Verb::Deny, "~/.ssh"),
            PathRule { mode: Mode::Ro, ..path_rule(Verb::Allow, "/ws") },
        ],
        Some(Verb::Deny),
        Vec::new(),
    );
    assert_eq!(
        perms.check_shell("cat ~/.ssh/id_rsa"),
        deny("shell-patterns fallback: deny-all"),
        "a path deny never bridges into shell text"
    );
    assert_eq!(
        perms.check_shell("cat /ws/file"),
        deny("shell-patterns fallback: deny-all"),
        "a ro file allowance never grants a command"
    );
}

#[test]
fn mode_ro_rules_match_reads_but_skip_writes() {
    let perms = config_scoped(
        Some(Verb::Deny),
        Some(Verb::Deny),
        vec![PathRule { mode: Mode::Ro, ..path_rule(Verb::Allow, "/ws") }],
        None,
        Vec::new(),
    );
    assert_eq!(read(&perms, "/ws/file"), Decision::Allow);
    assert_eq!(
        write(&perms, "/ws/file"),
        deny("paths fallback: deny-all"),
        "ro rules never decide writes"
    );
}

#[test]
fn mode_ro_rules_fall_through_to_later_rules() {
    let perms = config_scoped(
        Some(Verb::Deny),
        None,
        vec![
            PathRule { mode: Mode::Ro, ..path_rule(Verb::Allow, "/ws") },
            path_rule(Verb::Ask, "/ws"),
        ],
        None,
        Vec::new(),
    );
    assert_eq!(
        read(&perms, "/ws/file"),
        Decision::Allow,
        "first matching ro rule wins for reads"
    );
    assert_eq!(
        write(&perms, "/ws/file"),
        ask("paths: ask \"/ws\""),
        "writes reach the next rule"
    );
}

#[test]
fn builtin_shell_allows_all_commands() {
    let perms = builtin();
    assert_eq!(perms.check_shell("rm -rf target"), Decision::Allow);
    assert_eq!(perms.check_shell("sudo apt install"), Decision::Allow);
    assert_eq!(perms.check_shell("cargo build"), Decision::Allow);
}

#[test]
fn authorize_triggers_the_cut_on_every_denial() {
    let mut cut = DenyCut::default();
    let perms = config_scoped(
        Some(Verb::Allow),
        Some(Verb::Ask),
        vec![],
        None,
        vec![shell_rule(Verb::Deny, "sudo")],
    );
    let Verdict::Refuse { error: message } = perms.authorize_shell(&mut cut, "sudo apt install") else {
        panic!("expected a denial");
    };
    assert!(message.contains("shell-patterns: deny"), "{message}");
    assert!(cut.is_set(), "rule deny triggers the cut");
    assert!(cut.take());

    let hosts = parts("/etc/hosts");
    let Verdict::AskUser { reason, .. } =
        perms.authorize_path(&mut cut, PathKind::Read, &hosts, "/etc/hosts")
    else {
        panic!("expected a question");
    };
    assert!(!cut.is_set(), "asking does not trigger the cut");
    let err = after_reply(PermissionReply::Denied, &reason, &mut cut).unwrap_err();
    assert!(err.contains("denied by the user"), "{err}");
    assert!(cut.is_set(), "user denial triggers the cut");
    assert!(cut.take());

    assert!(after_reply(PermissionReply::Allowed, &reason, &mut cut).is_ok());
    assert!(!cut.is_set(), "allowing never triggers the cut");
    let closed = PermissionReply::Failed("closed".to_string());
    assert_eq!(after_reply(closed, &reason, &mut cut), Err("closed".to_string()));
    assert!(!cut.is_set());
}

#[test]
fn output_interrupt_watches_every_deny_rule() {
    let perms = config(
        Some(Verb::Allow),
        Vec::new(),
        vec![
            shell_rule(Verb::Deny, "sudo"),
            shell_rule(Verb::Ask, "secret"),
            regex_rule(Verb::Deny, "rm (-rf|-fr)"),
        ],
    );
    let interrupt = perms.output_interrupt().expect("watcher built");
    assert_eq!(
        interrupt.check("Password: \nsudo: permission denied"),
        Some("shell-patterns: deny \"sudo\" (matched command output)".into())
    );
    assert_eq!(
        interrupt.check("error: rm -rf refused"),
        Some("shell-patterns: deny \"rm (-rf|-fr)\" (matched command output)".into())
    );
    assert_eq!(interrupt.check("plain output"), None);
    assert!(builtin().output_interrupt().is_none());
}

#[test]
fn normalize_resolves_dot_components() {
    assert_eq!(normalize(&parts("/ws/./a/../b")), parts("/ws/b"));
    assert_eq!(normalize(&parts("a/../b")), parts("b"));
    assert_eq!(normalize(&parts("a/../../b")), parts("../b"));
    assert_eq!(normalize(&parts("../a")), parts("../a"));
    assert_eq!(normalize(&parts("/..")), parts("/"));
}

#[test]
fn the_closest_existing_ancestor_is_found() {
    let path = parts("/ws/src/new/f.txt");
    assert_eq!(closest_existing(&path, &vec![true, true, true, true, false, false]), Some(3));
    assert_eq!(closest_existing(&path, &vec![true, true, true, true, true, true]), Some(5));
}

#[test]
fn words_are_found_whole() {
    assert_eq!(collapse_whitespace("  a \t b\n"), "a b");
    assert!(contains_word("a rm b", "rm"));
    assert!(!contains_word("farm", "rm"));
    assert!(contains_word("farm rm", "rm"));
    assert!(!contains_word("", ""));
}

#[test]
fn writes_are_decided_as_if_read_only_rules_were_not_there() {
    let rules = vec![
        PathRule { mode: Mode::Ro, ..path_rule(Verb::Allow, "/ws") },
        path_rule(Verb::Deny, "/ws/secret"),
        PathRule { mode: Mode::Ro, ..path_rule(Verb::Deny, "/ws/open") },
        path_rule(Verb::Allow, "/ws/open"),
    ];
    let trimmed = rules.iter().filter(|r| r.mode == Mode::Rw).cloned().collect();
    let p = config(Some(Verb::Ask), rules, vec![]);
    let q = config(Some(Verb::Ask), trimmed, vec![]);
    for path in ["/ws", "/ws/a", "/ws/secret/key", "/ws/open/b", "/elsewhere"] {
        assert_eq!(
            p.check_path(PathKind::Write, &parts(path)),
            q.check_path(PathKind::Write, &parts(path)),
            "{path}"
        );
    }
    assert_eq!(p.check_path(PathKind::Write, &parts("/ws/open/b")), Decision::Allow);
    assert_eq!(p.check_path(PathKind::Read, &parts("/ws/secret/key")), Decision::Allow);
    assert!(matches!(q.check_path(PathKind::Read, &parts("/ws/a")), Decision::Ask { .. }));
}
