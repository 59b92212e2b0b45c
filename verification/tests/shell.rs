use shuvarie_core::shell::{
    default_shell, find_in_dirs, git_bash_roots, kind_for, kind_for_name, locate, resolve, Shell,
    ShellFacts, ShellKind,
};

fn nowhere() -> ShellFacts {
    ShellFacts { is_path: false, runnable: false, candidates: vec![] }
}

fn system_default() -> Shell {
    default_shell(&vec![None, Some("/bin/bash".to_string())], "/bin/sh")
}

#[test]
fn kind_detected_from_executable_name() {
    assert_eq!(kind_for("/usr/bin/bash"), ShellKind::Bourne);
    assert_eq!(kind_for("/bin/sh"), ShellKind::Bourne);
    assert_eq!(kind_for("/usr/bin/zsh"), ShellKind::Bourne);
    assert_eq!(
        kind_for(r"C:\Program Files\PowerShell\7\pwsh.exe"),
        ShellKind::PowerShell
    );
    assert_eq!(
        kind_for(r"C:\Windows\System32\WindowsPowerShell\v1.0\powershell.exe"),
        ShellKind::PowerShell
    );
}

#[test]
fn the_name_is_compared_in_lower_case() {
    assert_eq!(kind_for("/opt/PWSH.EXE"), ShellKind::PowerShell);
    assert_eq!(kind_for_name("pwsh"), ShellKind::PowerShell);
    assert_eq!(kind_for_name("PWSH"), ShellKind::Bourne);
}

#[test]
fn apply_uses_bourne_flags() {
    let shell = Shell::new("/bin/sh");
    assert_eq!(shell.arguments("echo hi"), ["-c", "echo hi"]);
    assert_eq!(shell.invocation(), "/bin/sh -c");
}

#[test]
fn apply_uses_powershell_flags() {
    let shell = Shell::new(r"C:\Windows\System32\pwsh.exe");
    assert_eq!(shell.arguments("echo hi"), ["-NoProfile", "-Command", "echo hi"]);
}

#[test]
fn resolve_defaults_without_config() {
    let resolution = resolve(None, &nowhere(), system_default());
    assert!(resolution.warning.is_none());
    assert!(!resolution.shell.path.is_empty());
}

#[test]
fn resolve_blank_config_uses_default() {
    for configured in ["", "   "] {
        let resolution = resolve(Some(configured), &nowhere(), system_default());
        assert!(resolution.warning.is_none(), "{configured}");
        assert!(!resolution.shell.path.is_empty());
    }
}

#[test]
fn resolve_missing_configured_path_warns_and_falls_back() {
    let default = resolve(None, &nowhere(), system_default()).shell;
    let facts = ShellFacts { is_path: true, runnable: false, candidates: vec![] };
    let resolution = resolve(Some("/definitely/not/a/real/shell"), &facts, system_default());
    assert!(resolution.warning.is_some());
    assert_eq!(resolution.shell, default);
    let warning = resolution.warning.unwrap();
    assert!(warning.contains("/definitely/not/a/real/shell"), "{warning}");
    assert!(warning.contains(&default.path), "{warning}");
}

#[test]
fn resolve_absolute_path_wins() {
    let facts = ShellFacts { is_path: true, runnable: true, candidates: vec![] };
    let resolution = resolve(Some("/bin/sh"), &facts, system_default());
    assert!(resolution.warning.is_none());
    assert_eq!(resolution.shell.path, "/bin/sh");
}

#[test]
fn find_in_dirs_locates_executable() {
    let found = find_in_dirs(&vec![
        ("/a/shuvarie-fake-shell".to_string(), false),
        ("/b/shuvarie-fake-shell".to_string(), true),
    ]);
    assert_eq!(found.as_deref(), Some("/b/shuvarie-fake-shell"));
    assert_eq!(find_in_dirs(&vec![("/a/shuvarie-missing-shell".to_string(), false)]), None);
}

#[test]
fn a_name_is_looked_up_in_the_search_path() {
    let facts = ShellFacts {
        is_path: false,
        runnable: false,
        candidates: vec![("/usr/bin/fish".to_string(), true)],
    };
    assert_eq!(locate("fish", &facts).unwrap().path, "/usr/bin/fish");
    assert!(locate("fish", &nowhere()).is_none());
    assert_eq!(default_shell(&vec![None], "/bin/sh").path, "/bin/sh");
}

#[test]
fn git_comes_with_a_bash() {
    assert_eq!(git_bash_roots(None).len(), 2);
    assert_eq!(git_bash_roots(Some("/l"))[2], "/l/Programs/Git");
}
