use shuvarie_core::context::{
    build_preamble, context_dirs, dir_candidates, label_for, load, load_agents_md,
    load_context_dir, load_files, pick_candidate, push_file, ContextFile, LoadedContext,
    MAX_FILE_BYTES, MAX_TOTAL_BYTES,
};

/// The file of a directory that is loaded, out of the ones it holds.
fn from_dir(label_dir: &str, held: &[(&str, &[u8])]) -> Option<ContextFile> {
    let names = dir_candidates(&vec!["OTHER.md".to_string(), "OTHER.MD".to_string()]);
    let there: Vec<bool> =
        names.iter().map(|c| held.iter().any(|(name, _)| name == c)).collect();
    let name = &names[pick_candidate(&there)?];
    let (_, data) = held.iter().find(|(n, _)| n == name).unwrap();
    Some(file(&format!("{label_dir}{name}"), data))
}

fn file(label: &str, data: &[u8]) -> ContextFile {
    ContextFile {
        label: label.to_string(),
        canonical: format!("/real/{label}"),
        data: Some(data.to_vec()),
    }
}

fn load_all(files: Vec<ContextFile>) -> LoadedContext {
    load_agents_md(&files)
}

#[test]
fn override_beats_agents_and_others_in_one_dir() {
    let held: &[(&str, &[u8])] = &[
        ("AGENTS.md", b"agents"),
        ("OTHER.md", b"other"),
        ("AGENTS.override.md", b"override"),
    ];
    let ctx = load_all(vec![from_dir("", held).unwrap()]);
    assert_eq!(ctx.files, vec!["AGENTS.override.md"]);
    assert!(ctx.content.contains("=== AGENTS.override.md ===\noverride"));
    assert!(!ctx.content.contains("agents"));
    assert!(!ctx.content.contains("other"));
}

#[test]
fn another_name_is_the_fallback() {
    let ctx = load_all(vec![from_dir("", &[("OTHER.md", b"other")]).unwrap()]);
    assert_eq!(ctx.files, vec!["OTHER.md"]);
    assert!(ctx.content.contains("=== OTHER.md ===\nother"));
}

#[test]
fn outermost_dir_loaded_first() {
    let ctx = load_all(vec![
        file("outer/AGENTS.md", b"outer rules"),
        file("outer/inner/AGENTS.md", b"inner rules"),
    ]);
    assert_eq!(ctx.files, vec!["outer/AGENTS.md", "outer/inner/AGENTS.md"]);
    assert!(ctx.content.find("outer rules").unwrap() < ctx.content.find("inner rules").unwrap());
}

#[test]
fn context_dirs_global_first_then_ancestors() {
    let ancestors: Vec<String> =
        ["/base/a/b", "/base/a", "/base", "/"].iter().map(|s| s.to_string()).collect();
    let dirs = context_dirs(Some("/base/g"), &ancestors);
    assert_eq!(dirs, vec!["/base/g", "/", "/base", "/base/a", "/base/a/b"]);
    assert_eq!(context_dirs(None, &vec!["/x".to_string()]), vec!["/x"]);
}

#[test]
fn global_loaded_before_workspace_file() {
    let ctx = load_all(vec![
        file("/base/g/AGENTS.md", b"global rules"),
        file("AGENTS.md", b"project rules"),
    ]);
    assert_eq!(ctx.files.first().map(String::as_str), Some("/base/g/AGENTS.md"));
    assert!(ctx.files.ends_with(&["AGENTS.md".to_string()]));
    assert!(ctx.content.find("global rules").unwrap() < ctx.content.find("project rules").unwrap());
}

#[test]
fn ancestor_walk_collects_outermost_first() {
    let dirs = context_dirs(
        None,
        &vec!["/b/proj/sub".to_string(), "/b/proj".to_string(), "/b".to_string()],
    );
    let files = dirs
        .iter()
        .filter_map(|dir| match dir.as_str() {
            "/b" => Some(file("/b/AGENTS.md", b"base rules")),
            "/b/proj" => Some(file("/b/proj/AGENTS.md", b"proj rules")),
            _ => None,
        })
        .collect();
    let ctx = load_all(files);
    let base_pos = ctx.files.iter().position(|f| f == "/b/AGENTS.md").unwrap();
    let proj_pos = ctx.files.iter().position(|f| f == "/b/proj/AGENTS.md").unwrap();
    assert!(base_pos < proj_pos);
    assert!(ctx.content.find("base rules").unwrap() < ctx.content.find("proj rules").unwrap());
}

#[test]
fn labels_relative_inside_root_absolute_outside() {
    assert_eq!(label_for("/base/inside/AGENTS.md", Some("inside/AGENTS.md")), "inside/AGENTS.md");
    assert_eq!(label_for("/outside/AGENTS.md", None), "/outside/AGENTS.md");
}

#[test]
fn repeated_dir_loads_once() {
    let ctx = load_all(vec![file("AGENTS.md", b"rules"), file("AGENTS.md", b"rules")]);
    assert_eq!(ctx.files, vec!["AGENTS.md"]);
    let twice = load_files(
        &vec![file("AGENTS.md", b"rules"), file("AGENTS.md", b"rules")],
        MAX_TOTAL_BYTES,
        false,
    );
    assert_eq!(twice.files.len(), 2);
}

#[test]
fn bom_is_stripped() {
    let ctx = load_all(vec![file("AGENTS.md", "\u{FEFF}rules".as_bytes())]);
    assert!(!ctx.content.contains('\u{FEFF}'));
    assert!(ctx.content.contains("=== AGENTS.md ===\nrules"));
}

#[test]
fn budget_slices_on_char_boundary() {
    let data = "日本語".as_bytes().to_vec();
    let run = |budget: usize| {
        let mut ctx = LoadedContext::new(Vec::new(), String::new());
        let mut remaining: usize = budget;
        push_file(&mut ctx, &mut remaining, "AGENTS.md", &data);
        (ctx, remaining)
    };
    let (ctx, remaining) = run(3);
    assert_eq!(ctx.content, "=== AGENTS.md ===\n日\n… (context budget exhausted)");
    assert_eq!(remaining, 0);

    let (ctx, remaining) = run(5);
    assert_eq!(ctx.content, "=== AGENTS.md ===\n日");
    assert_eq!(remaining, 2);

    let (ctx, remaining) = run(2);
    assert!(ctx.content.is_empty());
    assert!(ctx.files.is_empty());
    assert_eq!(remaining, 2);
}

#[test]
fn oversized_file_truncated() {
    let ctx = load_all(vec![file("AGENTS.md", "x".repeat(MAX_FILE_BYTES + 10).as_bytes())]);
    assert!(ctx.content.contains("… (file truncated)"));
    assert!(!ctx.content.contains("… (context budget exhausted)"));
}

#[test]
fn total_budget_exhausted_across_files() {
    let text = "x".repeat(60 * 1024);
    let files = (0..5).map(|i| file(&format!("d{i}/AGENTS.md"), text.as_bytes())).collect();
    let ctx = load_all(files);
    assert_eq!(ctx.files.len(), 5);
    assert!(ctx.content.contains("… (context budget exhausted)"));
}

#[test]
fn loads_agents_md_and_context_dir_sorted() {
    let ctx = load(
        &vec![file("AGENTS.md", b"project rules")],
        vec![
            file(".app/context/b.md", b"bee"),
            file(".app/context/a.md", b"aye"),
            file(".app/context/skip.bin", b"\0binary"),
        ],
    );
    assert_eq!(ctx.files, vec!["AGENTS.md", ".app/context/a.md", ".app/context/b.md"]);
    assert!(ctx.content.contains("=== AGENTS.md ===\nproject rules"));
    assert!(ctx.content.contains("=== .app/context/a.md ===\naye"));
    assert!(ctx.content.contains("=== .app/context/b.md ===\nbee"));
    assert!(!ctx.content.contains("binary"));
}

#[test]
fn the_context_directory_comes_last_and_in_order() {
    let agents = vec![file("AGENTS.md", b"rules")];
    let dir = || vec![file("c/z.md", b"zed"), file("c/B.md", b"bee"), file("c/a.md", b"aye")];
    let a = load_agents_md(&agents);
    let d = load_context_dir(dir(), a.remaining_budget());
    assert_eq!(d.files, vec!["c/B.md", "c/a.md", "c/z.md"]);
    assert_eq!(d.content, "=== c/B.md ===\nbee\n=== c/a.md ===\naye\n=== c/z.md ===\nzed");
    let r = load(&agents, dir());
    assert_eq!(r.files, [a.files.clone(), d.files.clone()].concat());
    assert_eq!(r.content, format!("{}\n{}", a.content, d.content));
    assert_eq!(load(&agents, vec![]).content, a.content);
    assert_eq!(load(&vec![], dir()).content, d.content);
}

#[test]
fn missing_agents_only_context_dir() {
    let ctx = load(&vec![], vec![file(".app/context/notes.md", b"notes")]);
    assert_eq!(ctx.files, vec![".app/context/notes.md"]);
    assert!(ctx.content.contains("notes"));
}

#[test]
fn loads_agents_md_separately_from_context_dir() {
    let agents = load_all(vec![file("AGENTS.md", b"project rules")]);
    assert_eq!(agents.files, vec!["AGENTS.md"]);
    assert!(agents.content.contains("project rules"));
    assert!(!agents.content.contains("aye"));

    let dir_files = vec![file(".app/context/a.md", b"aye")];
    let dir_ctx = load_context_dir(dir_files, agents.remaining_budget());
    assert_eq!(dir_ctx.files, vec![".app/context/a.md"]);
    assert!(dir_ctx.content.contains("aye"));

    let merged = agents.merged(dir_ctx);
    assert_eq!(merged.files, vec!["AGENTS.md", ".app/context/a.md"]);
    assert!(merged.content.contains("project rules"));
    assert!(merged.content.contains("aye"));
}

#[test]
fn empty_without_files() {
    assert!(from_dir("", &[]).is_none());
    let ctx = load_all(vec![]);
    assert!(ctx.is_empty());
    assert!(ctx.files.is_empty());
    assert!(ctx.content.is_empty());
    let unreadable = ContextFile { data: None, ..file("a", b"") };
    assert!(load_all(vec![unreadable]).is_empty());
}

#[test]
fn bytes_that_are_no_text_are_replaced() {
    let ctx = load_all(vec![file("AGENTS.md", b"a\xffb")]);
    assert!(ctx.content.ends_with("a\u{FFFD}b"), "{}", ctx.content);
}

#[test]
fn what_was_loaded_counts_against_the_budget() {
    let ctx = load_all(vec![file("a", b"xyz")]);
    assert_eq!(ctx.remaining_budget(), MAX_TOTAL_BYTES - "=== a ===\nxyz".len());
}

#[test]
fn build_preamble_appends_context() {
    let ctx = LoadedContext::new(vec!["a".into(), "b".into()], "content".into());
    let preamble = build_preamble("base", &ctx);
    assert!(preamble.contains("base"));
    assert!(preamble.contains("content"));

    let preamble = build_preamble("base", &LoadedContext::new(Vec::new(), String::new()));
    assert_eq!(preamble, "base");
}
