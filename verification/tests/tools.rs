use shuvarie_core::llm::{DiffLine, DiffLineKind};
use shuvarie_core::scenes::{SceneToolVerb, SceneToolsConfig, ToolOverride, ToolScene};
use shuvarie_core::skills::{Skill, Skills};
use shuvarie_core::tools::{
    all_tools, arg_value, command_tools, compute_diff, edit_tools, read_tools, required_argument,
    ReadCache,
};

fn roster_with(skills: &Skills, scene: &ToolScene) -> Vec<String> {
    all_tools(scene, !skills.is_empty(), false)
        .into_iter()
        .map(|tool| tool.name.to_string())
        .collect()
}

fn roster(scene: &ToolScene) -> Vec<String> {
    roster_with(&Skills::default(), scene)
}

fn disable_all(reenabled: Option<&str>) -> SceneToolsConfig {
    let mut tools = SceneToolsConfig {
        verb: Some(SceneToolVerb::DisableAll),
        ..SceneToolsConfig::default()
    };
    if let Some(name) = reenabled {
        tools.tools.insert(name.to_string(), ToolOverride { disabled: Some(false), ask: None });
    }
    tools
}

#[test]
fn the_default_scene_builds_every_tool() {
    let names = roster(&ToolScene::build(None));
    for expected in [
        "read_file",
        "write_file",
        "edit_file",
        "apply_patch",
        "delete_file",
        "run_shell",
        "list_dir",
        "grep",
        "glob",
        "lsp",
        "webfetch",
        "question",
        "todo",
    ] {
        assert!(names.contains(&expected.into()), "missing {expected}: {names:?}");
    }
}

#[test]
fn disable_all_leaves_only_reenabled_tools() {
    let tools = disable_all(Some("read_file"));
    let names = roster(&ToolScene::build(Some(&tools)));
    assert_eq!(names, vec!["read_file".to_string()]);
}

#[test]
fn disable_all_with_no_reenabled_tools_builds_an_empty_roster() {
    let tools = disable_all(None);
    let names = roster(&ToolScene::build(Some(&tools)));
    assert!(names.is_empty(), "roster: {names:?}");
}

#[test]
fn skill_tool_enters_the_roster_only_with_skills() {
    let mut skills = Skills::default();
    skills.skills.push(Skill {
        name: "demo".into(),
        description: "d".into(),
        tags: vec![],
        category: None,
        path: ".".into(),
        global: false,
        disable_model_invocation: false,
    });
    let names = roster_with(&skills, &ToolScene::build(None));
    assert!(names.contains(&"skill".into()), "roster: {names:?}");
    assert!(!roster(&ToolScene::build(None)).contains(&"skill".into()));

    let tools = disable_all(Some("skill"));
    let names = roster_with(&skills, &ToolScene::build(Some(&tools)));
    assert_eq!(names, vec!["skill".to_string()]);
}

#[test]
fn an_asking_tool_confirms_unless_it_is_gated() {
    let rules = SceneToolsConfig { verb: Some(SceneToolVerb::AskAll), ..Default::default() };
    let tools = all_tools(&ToolScene::build(Some(&rules)), false, false);
    for tool in &tools {
        assert_eq!(tool.confirm, !tool.gated, "{}", tool.name);
    }
}

#[test]
fn worker_rosters_have_their_tools() {
    let scene = ToolScene::build(None);
    let names = |tools: Vec<shuvarie_core::tools::OfferedTool>| -> Vec<&'static str> {
        tools.iter().map(|t| t.name).collect()
    };
    assert_eq!(names(command_tools(&scene)), vec!["run_shell"]);
    assert_eq!(
        names(edit_tools(&scene)),
        vec!["read_file", "write_file", "edit_file", "apply_patch", "delete_file", "lsp"]
    );
    assert!(names(read_tools(&scene, false, true)).contains(&"web_search"));
    assert!(!names(read_tools(&scene, false, false)).contains(&"web_search"));
}

#[test]
fn diff_computes_line_numbers_and_ellipsis() {
    let old = "one\ntwo\nthree\nfour\nfive\nsix\nseven\neight\nnine\nten\n";
    let new = "one\ntwo\nTHREE\nfour\nfive\nsix\nseven\neight\nnine\nten\n";
    let diff = compute_diff(old, new);
    assert!(diff.iter().any(|l| l.kind == DiffLineKind::Remove));
    assert!(diff.iter().any(|l| l.kind == DiffLineKind::Add));
    let remove = diff.iter().find(|l| l.kind == DiffLineKind::Remove).unwrap();
    assert_eq!(remove.old_line, Some(3));
    assert_eq!(remove.text, "three\n");
    let add = diff.iter().find(|l| l.kind == DiffLineKind::Add).unwrap();
    assert_eq!(add.new_line, Some(3));
    assert_eq!(add.text, "THREE\n");
}

#[test]
fn diff_inserts_ellipsis_between_hunks() {
    let old = "a\nb\nc\nd\ne\nf\ng\nh\ni\nj\nk\nl\n";
    let new = "A\nb\nc\nd\ne\nf\ng\nh\ni\nj\nk\nL\n";
    let diff = compute_diff(old, new);
    assert!(diff.iter().any(|l| l.kind == DiffLineKind::Ellipsis));
}

#[test]
fn diff_marks_partial_edits() {
    let lines = compute_diff("let value = compute(x);\n", "let value = compute(y);\n");
    assert_eq!(
        (lines[0].kind, lines[1].kind),
        (DiffLineKind::Remove, DiffLineKind::Add)
    );
    assert_eq!(lines[0].edits, lines[1].edits, "paired rows emphasize the same run");
    let (start, end) = lines[0].edits[0];
    assert_eq!(&lines[0].text[start as usize..end as usize], "x");
    assert_eq!(&lines[1].text[start as usize..end as usize], "y");
    assert!(
        (end as usize) <= lines[0].text.trim_end_matches(['\r', '\n']).len(),
        "ranges must exclude the row break"
    );

    let lines = compute_diff("x\n", "x\ny\n");
    assert!(
        lines.iter().all(|line| line.edits.is_empty()),
        "unpaired rows stay unemphasized: {lines:?}"
    );
}

/// The kinds of the lines of a diff, one letter for each.
fn shape(old: &str, new: &str) -> String {
    compute_diff(old, new)
        .iter()
        .map(|l| match l.kind {
            DiffLineKind::Context => 'c',
            DiffLineKind::Remove => 'r',
            DiffLineKind::Add => 'a',
            DiffLineKind::Ellipsis => 'e',
        })
        .collect()
}

#[test]
fn changes_are_shown_with_three_lines_around_them() {
    let old = "1\n2\n3\n4\n5\n6\n7\n8\n9\n10\n11\n12\n";
    assert_eq!(shape(old, &old.replace("6\n", "six\n")), "cccraccc");
    assert_eq!(shape(old, &old.replace("2\n3\n", "two\n3\n")), "craccc", "the text begins before");
    assert_eq!(shape(old, &old.replace("11\n", "eleven\n")), "cccrac", "the text ends after");
    assert_eq!(
        shape(old, &old.replace("1\n2\n", "one\n2\n").replace("8\n", "eight\n")),
        "raccccccraccc",
        "six lines between two changes are all shown"
    );
    assert_eq!(
        shape(old, &old.replace("1\n2\n", "one\n2\n").replace("9\n", "nine\n")),
        "racccecccraccc",
        "of seven one is left out"
    );
    let diff = compute_diff(old, &old.replace("6\n", "six\n"));
    assert_eq!((diff[0].old_line, diff[0].new_line), (Some(3), Some(3)));
}

#[test]
fn a_run_removes_before_it_adds() {
    assert_eq!(shape("a\nb\nz\n", "x\ny\nw\nz\n"), "rraaac");
}

#[test]
fn runs_that_only_remove_or_only_add_show_no_emphasis() {
    let old = "a\nb\nc\n";
    for new in ["a\nnew\nb\nc\n", "a\nc\n", "c\n", "a\nb\nc\nd\n"] {
        let diff = compute_diff(old, new);
        assert!(diff.iter().any(|l| l.kind != DiffLineKind::Context));
        assert!(diff.iter().all(|l| l.edits.is_empty()), "{diff:?}");
    }
}

#[test]
fn a_diff_is_the_same_each_time() {
    let old: String = (0..60).map(|i| format!("line {}\n", i % 7)).collect();
    let new = old.replace("line 3\n", "").replace("line 5\n", "five\nsix\n");
    let lines = |d: Vec<DiffLine>| -> Vec<(DiffLineKind, Option<u64>, Option<u64>, String)> {
        d.into_iter().map(|l| (l.kind, l.old_line, l.new_line, l.text)).collect()
    };
    assert_eq!(lines(compute_diff(&old, &new)), lines(compute_diff(&old, &new)));
}

#[test]
fn arguments_are_read_from_json() {
    assert_eq!(arg_value("{\"path\": \"a.rs\"}", "path"), Ok("a.rs".to_string()));
    assert!(arg_value("{\"path\": 3}", "path").is_err());
    assert!(arg_value("{}", "path").is_err());
    assert!(arg_value("not json", "path").is_err());
    assert_eq!(required_argument(Some("x".to_string()), "path"), Ok("x".to_string()));
}

#[test]
fn a_second_read_of_one_range_is_noticed() {
    let mut cache = ReadCache::new();
    assert!(!cache.was_read("a.rs"));
    assert!(!cache.mark("a.rs", None, None));
    assert!(cache.was_read("a.rs"));
    assert!(cache.mark("a.rs", None, None));
    assert!(!cache.mark("a.rs", Some(10), None));
    assert!(!cache.mark("b.rs", None, None));
}

/// The lines of a text, each with its line break.
fn lines_of(text: &str) -> Vec<String> {
    let mut out = Vec::new();
    let mut line = String::new();
    let mut chars = text.chars().peekable();
    while let Some(c) = chars.next() {
        line.push(c);
        if c == '\n' || (c == '\r' && chars.peek() != Some(&'\n')) {
            out.push(std::mem::take(&mut line));
        }
    }
    if !line.is_empty() {
        out.push(line);
    }
    out
}

/// The old text with the changes of its diff to the new one carried out.
fn patched(old: &str, new: &str) -> String {
    let old_lines = lines_of(old);
    let mut out: Vec<String> = Vec::new();
    let mut at = 0;
    for line in compute_diff(old, new) {
        let gap = match (line.kind, line.old_line, line.new_line) {
            (DiffLineKind::Ellipsis, _, _) => continue,
            (_, Some(o), _) => o as usize - 1 - at,
            (_, None, Some(n)) => n as usize - 1 - out.len(),
            (_, None, None) => unreachable!(),
        };
        out.extend_from_slice(&old_lines[at..at + gap]);
        at += gap;
        match line.kind {
            DiffLineKind::Context => {
                assert_eq!(line.text, old_lines[at]);
                out.push(line.text);
                at += 1;
            }
            DiffLineKind::Remove => {
                assert_eq!(line.text, old_lines[at]);
                at += 1;
            }
            _ => out.push(line.text),
        }
    }
    out.extend_from_slice(&old_lines[at..]);
    out.concat()
}

#[test]
fn a_diff_gives_the_new_text() {
    let long: String = (0..40).map(|i| format!("line {i}\n")).collect();
    let edited = long.replace("line 3\n", "").replace("line 20\n", "line twenty\nmore\n");
    for (old, new) in [
        ("", "a\n"),
        ("a\n", ""),
        ("a\nb\nc", "a\nB\nc"),
        ("a\r\nb\r\n", "a\r\nb\nc\r"),
        ("same\n", "same\n"),
        (long.as_str(), edited.as_str()),
        (edited.as_str(), long.as_str()),
    ] {
        assert_eq!(patched(old, new), new);
    }
    assert!(compute_diff("same\n", "same\n").is_empty());
}
