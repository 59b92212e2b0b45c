use shuvarie_core::apply_patch::plan::{
    lock_paths, patch_output, plan_patch, HunkFacts, Planned,
};
use shuvarie_core::apply_patch::replacements::{
    derive_new_contents, normalize_unicode, seek_sequence,
};
use shuvarie_core::apply_patch::{parse_hunk_header, parse_patch, strip_heredoc, Hunk, UpdateChunk};
use shuvarie_core::llm::PatchFileKind;

#[test]
fn parses_add_update_delete_and_move() {
    let patch = r#"*** Begin Patch
*** Add File: new.txt
+hello
+world
*** Update File: src/app.rs
*** Move to: src/main.rs
@@ fn old():
-fn old() {}
+fn new() {}
*** Delete File: obsolete.txt
*** End Patch"#;
    let hunks = parse_patch(patch).unwrap();
    assert_eq!(
        hunks,
        vec![
            Hunk::Add {
                path: "new.txt".into(),
                contents: "hello\nworld".into(),
            },
            Hunk::Update {
                path: "src/app.rs".into(),
                move_path: Some("src/main.rs".into()),
                chunks: vec![UpdateChunk {
                    old_lines: vec!["fn old() {}".into()],
                    new_lines: vec!["fn new() {}".into()],
                    change_context: Some("fn old():".into()),
                    is_end_of_file: false,
                }],
            },
            Hunk::Delete {
                path: "obsolete.txt".into(),
            },
        ]
    );
}

#[test]
fn parses_end_of_file_anchor() {
    let patch =
        "*** Begin Patch\n*** Update File: a.txt\n@@\n x\n+tail\n*** End of File\n*** End Patch";
    let hunks = parse_patch(patch).unwrap();
    let Hunk::Update { chunks, .. } = hunks.into_iter().next().unwrap() else {
        panic!("expected update hunk");
    };
    assert_eq!(chunks.len(), 1);
    assert!(chunks[0].is_end_of_file);
    assert_eq!(chunks[0].old_lines, vec!["x".to_string()]);
    assert_eq!(
        chunks[0].new_lines,
        vec!["x".to_string(), "tail".to_string()]
    );
}

#[test]
fn rejects_missing_markers() {
    assert!(parse_patch("no markers here").is_err());
    assert!(
        parse_patch("*** Begin Patch\n*** End Patch")
            .map(|h| h.is_empty())
            .unwrap_or(false)
    );
}

#[test]
fn strips_heredoc_wrapper() {
    let wrapped = "cat <<'EOF'\n*** Begin Patch\n*** Add File: x.txt\n+hi\n*** End Patch\nEOF";
    let hunks = parse_patch(wrapped).unwrap();
    assert_eq!(
        hunks,
        vec![Hunk::Add {
            path: "x.txt".into(),
            contents: "hi".into(),
        }]
    );
}

#[test]
fn a_patch_in_a_heredoc_parses_as_the_bare_patch() {
    for p in [
        "*** Begin Patch\n*** Add File: x.txt\n+hi\n+EOF\n*** End Patch",
        "*** Begin Patch\n*** Delete File: x.txt",
        "*** Begin Patch\nno section\n*** End Patch",
    ] {
        assert_eq!(strip_heredoc(p), p);
        assert_eq!(parse_patch(&format!("cat <<'EOF'\n{p}\nEOF")), parse_patch(p));
        assert_eq!(parse_patch(&format!("<<EOF\n{p}\nEOF")), parse_patch(p));
        assert_eq!(strip_heredoc(&format!("cat <<\"PATCH\"\n{p}\nPATCH")), p);
    }
}

#[test]
fn heredoc_without_its_end_is_left_alone() {
    assert_eq!(strip_heredoc("plain\ntext"), "plain\ntext");
    assert_eq!(strip_heredoc("cat <<EOF\nbody\nEND"), "cat <<EOF\nbody\nEND");
    assert_eq!(strip_heredoc("cat <<EOF\nbody\nEOF"), "body");
}

#[test]
fn headers_are_told_apart() {
    assert_eq!(parse_hunk_header("*** Add File: a"), Some(("add", "a".to_string())));
    assert_eq!(parse_hunk_header("*** Delete File: a"), Some(("delete", "a".to_string())));
    assert_eq!(parse_hunk_header("*** Update File: a"), Some(("update", "a".to_string())));
    assert_eq!(parse_hunk_header("*** Rename File: a"), None);
}

#[test]
fn matching_falls_back_to_trim() {
    let lines: Vec<String> = vec!["let a = 1;  ".into(), "let b = 2;".into()];
    let pattern: Vec<String> = vec!["let a = 1;".into(), "let b = 2; ".into()];
    assert_eq!(seek_sequence(&lines, &pattern, 0, false), Some(0));
}

#[test]
fn matching_falls_back_to_plain_punctuation() {
    assert_eq!(normalize_unicode("“a” – b…"), "\"a\" - b.");
    let lines: Vec<String> = vec!["say \"hi\"".into()];
    let pattern: Vec<String> = vec!["say “hi”".into()];
    assert_eq!(seek_sequence(&lines, &pattern, 0, false), Some(0));
    assert_eq!(seek_sequence(&lines, &pattern, 1, false), None);
    assert_eq!(seek_sequence(&pattern, &lines, 0, false), None, "a plain pattern is exact");
}

#[test]
fn an_anchor_at_the_end_is_tried_first() {
    let lines: Vec<String> = vec!["x".into(), "y".into(), "x".into()];
    let pattern: Vec<String> = vec!["x".into()];
    assert_eq!(seek_sequence(&lines, &pattern, 0, false), Some(0));
    assert_eq!(seek_sequence(&lines, &pattern, 0, true), Some(2));
}

#[test]
fn derive_trims_and_appends_final_newline() {
    let original = "a\nb\nc";
    let chunks = vec![UpdateChunk {
        old_lines: vec!["b".into()],
        new_lines: vec!["B".into()],
        change_context: None,
        is_end_of_file: false,
    }];
    let new = derive_new_contents("f", &chunks, original).unwrap();
    assert_eq!(new, "a\nB\nc\n");
}

#[test]
fn a_chunk_without_old_lines_is_appended() {
    let chunks = vec![UpdateChunk {
        old_lines: vec![],
        new_lines: vec!["c".into()],
        change_context: None,
        is_end_of_file: false,
    }];
    assert_eq!(derive_new_contents("f", &chunks, "a\nb\n").unwrap(), "a\nb\nc\n");
}

#[test]
fn a_missing_context_is_an_error() {
    let chunks = vec![UpdateChunk {
        old_lines: vec!["b".into()],
        new_lines: vec!["B".into()],
        change_context: Some("fn nowhere()".into()),
        is_end_of_file: false,
    }];
    let err = derive_new_contents("f", &chunks, "a\nb\n").unwrap_err();
    assert!(err.contains("fn nowhere()"), "{err}");
}

fn facts(abs: &str, target: Option<&str>, exists: bool, original: Result<&str, &str>) -> HunkFacts {
    HunkFacts {
        abs: abs.to_string(),
        target_abs: target.map(|t| t.to_string()),
        exists,
        original: original.map(|s| s.to_string()).map_err(|e| e.to_string()),
    }
}

#[test]
fn applies_multi_file_patch() {
    let patch = r#"*** Begin Patch
*** Add File: new.txt
+created
*** Update File: src/app.rs
@@
-fn old() {}
+fn new() {}
*** Delete File: obsolete.txt
*** End Patch"#;
    let hunks = parse_patch(patch).unwrap();
    assert_eq!(lock_paths(&hunks), vec!["new.txt", "src/app.rs", "obsolete.txt"]);
    let known = vec![
        facts("/w/new.txt", None, false, Err("missing")),
        facts("/w/src/app.rs", None, true, Ok("fn old() {}\nfn main() {}\n")),
        facts("/w/obsolete.txt", None, true, Ok("gone\n")),
    ];
    let (files, steps) = plan_patch(&hunks, &known).unwrap();
    assert_eq!(
        steps,
        vec![
            Planned::Add { path: "new.txt".into(), content: "created\n".into() },
            Planned::Update {
                path: "/w/src/app.rs".into(),
                content: "fn new() {}\nfn main() {}\n".into(),
            },
            Planned::Delete { path: "/w/obsolete.txt".into() },
        ]
    );
    assert_eq!(files.len(), 3);
    assert_eq!(files[0].kind, PatchFileKind::Add);
    assert_eq!(files[0].original, None);
    assert_eq!(files[1].kind, PatchFileKind::Update);
    assert_eq!(files[1].original.as_deref(), Some("fn old() {}\nfn main() {}\n"));
    assert_eq!(files[1].new.as_deref(), Some("fn new() {}\nfn main() {}\n"));
    assert_eq!(files[2].kind, PatchFileKind::Delete);
    assert!(files[2].new.is_none());
    assert!(patch_output(&steps).contains("Success"));
}

#[test]
fn applies_move_patch() {
    let patch = r#"*** Begin Patch
*** Update File: old.txt
*** Move to: new/nested.txt
@@
-data
-moved
+data
+moved
*** End Patch"#;
    let known = vec![facts("/w/old.txt", Some("/w/new/nested.txt"), true, Ok("data\n"))];
    let err = plan_patch(&parse_patch(patch).unwrap(), &known).unwrap_err();
    assert!(err.contains("Failed to find expected lines"), "unexpected error: {err}");

    let patch = r#"*** Begin Patch
*** Update File: old.txt
*** Move to: new/nested.txt
@@
-data
+data
+moved
*** End Patch"#;
    let (files, steps) = plan_patch(&parse_patch(patch).unwrap(), &known).unwrap();
    assert_eq!(
        steps,
        vec![Planned::Move {
            from: "/w/old.txt".into(),
            to: "new/nested.txt".into(),
            content: "data\nmoved\n".into(),
        }]
    );
    assert_eq!(files[0].path, "old.txt");
    assert_eq!(files[0].moved_to.as_deref(), Some("new/nested.txt"));
}

#[test]
fn rejects_mismatch_without_writing() {
    let patch = r#"*** Begin Patch
*** Update File: a.txt
@@
-three
+3
*** End Patch"#;
    let known = vec![facts("/w/a.txt", None, true, Ok("one\ntwo\n"))];
    let err = plan_patch(&parse_patch(patch).unwrap(), &known).unwrap_err();
    assert!(err.contains("Failed to find expected lines"), "{err}");
}

#[test]
fn a_plan_is_refused_as_a_whole() {
    let add = vec![Hunk::Add { path: "a".into(), contents: "x".into() }];
    assert_eq!(
        plan_patch(&add, &vec![facts("/w/a", None, true, Err("e"))]).unwrap_err(),
        "cannot add a: file already exists"
    );
    let delete = vec![Hunk::Delete { path: "a".into() }];
    assert_eq!(
        plan_patch(&delete, &vec![facts("/w/a", None, false, Err("gone"))]).unwrap_err(),
        "read a: gone"
    );
    let onto_itself = vec![Hunk::Update {
        path: "a".into(),
        move_path: Some("./a".into()),
        chunks: vec![],
    }];
    assert_eq!(
        plan_patch(&onto_itself, &vec![facts("/w/a", Some("/w/a"), true, Ok("x\n"))]).unwrap_err(),
        "move target ./a matches source a"
    );
    assert_eq!(
        plan_patch(&vec![], &vec![]).unwrap_err(),
        "patch rejected: no hunks found"
    );
}
