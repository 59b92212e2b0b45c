use shuvarie_core::custom_commands::{
    command_body, command_dirs, parse_model_spec, CommandFile, CommandFrontMatter, CustomCommand,
    CustomCommands, COMMAND_FILE_NAME,
};
use shuvarie_core::paths::join;
use shuvarie_core::skills::front_matter_split;
use shuvarie_core::skills::walk::{subdirectories, DirEntry};
use std::collections::BTreeMap;

/// What each directory of commands holds: the text of its file, if it has one.
type Dirs = BTreeMap<String, Vec<(String, Option<String>)>>;

const WORKSPACE_DIR: &str = "/w/.shuvarie";

fn add(dirs: &mut Dirs, root: &str, name: &str, contents: Option<&str>) {
    dirs.entry(format!("{root}/commands"))
        .or_default()
        .push((name.to_string(), contents.map(|c| c.to_string())));
}

fn parse(contents: &str) -> CommandFile {
    match front_matter_split(contents) {
        None => CommandFile::Parsed(None),
        Some((yaml, _)) => match yaml_serde::from_str::<yaml_serde::Value>(yaml) {
            Ok(value) => {
                let text = |key: &str| -> Option<String> {
                    value.get(key).and_then(|v| v.as_str()).map(|s| s.to_string())
                };
                CommandFile::Parsed(Some(CommandFrontMatter {
                    title: text("title"),
                    model: text("model"),
                }))
            }
            Err(_) => CommandFile::Unparsable,
        },
    }
}

fn load(dirs: &Dirs, global: Option<&str>) -> CustomCommands {
    let mut out = CustomCommands::default();
    for root in command_dirs(WORKSPACE_DIR, global) {
        let Some(held) = dirs.get(&root) else {
            continue;
        };
        let entries = held
            .iter()
            .map(|(name, _)| DirEntry { name: name.clone(), is_dir: true })
            .collect();
        for name in subdirectories(entries) {
            let dir = join(&root, &name);
            let contents = held.iter().find(|(n, _)| *n == name).and_then(|(_, c)| c.as_ref());
            let file = match contents {
                Some(contents) => parse(contents),
                None => CommandFile::Unreadable,
            };
            let (command, messages) = CustomCommand::from_dir(&dir, &name, file);
            out.add(&join(&dir, COMMAND_FILE_NAME), command, messages);
        }
    }
    out.finish()
}

fn only(contents: &str) -> CustomCommand {
    let mut dirs = Dirs::new();
    add(&mut dirs, WORKSPACE_DIR, "cmd", Some(contents));
    load(&dirs, None).commands.remove(0)
}

fn names(commands: &CustomCommands) -> Vec<&str> {
    commands.commands.iter().map(|c| c.name.as_str()).collect()
}

#[test]
fn loads_workspace_and_global_commands() {
    let mut dirs = Dirs::new();
    add(
        &mut dirs,
        WORKSPACE_DIR,
        "commit",
        Some("---\ntitle: Commit code\nmodel: anthropic/acme-x\n---\n\n# Commit\n\n{{arguments}}\n"),
    );
    add(&mut dirs, "/global", "review", Some("# Review\n\nbody\n"));
    let commands = load(&dirs, Some("/global"));
    assert_eq!(names(&commands), vec!["commit", "review"]);
    let commit = &commands.commands[0];
    assert_eq!(commit.title, "Commit code");
    assert_eq!(commit.model.as_deref(), Some("anthropic/acme-x"));
    assert!(commands.warnings.is_empty());
}

#[test]
fn workspace_wins_over_global_duplicate() {
    let mut dirs = Dirs::new();
    add(&mut dirs, WORKSPACE_DIR, "commit", Some("workspace body\n"));
    add(&mut dirs, "/global", "commit", Some("global body\n"));
    add(&mut dirs, "/global", "other", Some("other body\n"));
    let commands = load(&dirs, Some("/global"));
    assert_eq!(names(&commands), vec!["commit", "other"]);
    assert_eq!(commands.commands[0].path, "/w/.shuvarie/commands/commit");
    assert_eq!(
        commands.commands[0].invocation_content("workspace body\n", None),
        "workspace body"
    );
    assert_eq!(
        commands.warnings.iter().filter(|w| w.message.contains("duplicate")).count(),
        1
    );
}

#[test]
fn no_commands_dir_is_empty() {
    let commands = load(&Dirs::new(), None);
    assert!(commands.commands.is_empty());
    assert!(commands.warnings.is_empty());
}

#[test]
fn missing_command_md_warns() {
    let mut dirs = Dirs::new();
    add(&mut dirs, WORKSPACE_DIR, "empty", None);
    add(&mut dirs, WORKSPACE_DIR, "real", Some("body\n"));
    let commands = load(&dirs, None);
    assert_eq!(names(&commands), vec!["real"]);
    assert_eq!(commands.warnings.len(), 1);
    assert!(commands.warnings[0].message.contains("failed to read"));
}

#[test]
fn custom_commands_invalid_name_warns_but_loads() {
    let mut dirs = Dirs::new();
    add(&mut dirs, WORKSPACE_DIR, "Bad_Name", Some("body\n"));
    let commands = load(&dirs, None);
    assert_eq!(commands.commands.len(), 1);
    assert!(commands.warnings.iter().any(|w| w.message.contains("invalid characters")));
}

#[test]
fn unparsable_frontmatter_warns() {
    let mut dirs = Dirs::new();
    add(&mut dirs, WORKSPACE_DIR, "broken", Some("---\n[not yaml\n---\nbody\n"));
    let commands = load(&dirs, None);
    assert!(commands.commands.is_empty());
    assert!(commands.warnings.iter().any(|w| w.message.contains("frontmatter")));
}

#[test]
fn missing_frontmatter_uses_whole_file_as_body() {
    let mut dirs = Dirs::new();
    add(&mut dirs, WORKSPACE_DIR, "plain", Some("just body\n"));
    let commands = load(&dirs, None);
    let command = &commands.commands[0];
    assert_eq!(command.title, "plain");
    assert_eq!(command.model, None);
    assert_eq!(command.invocation_content("just body\n", None), "just body");
    assert_eq!(command_body("just body\n"), "just body");
}

#[test]
fn title_defaults_to_name_and_blank_model_is_none() {
    let mut dirs = Dirs::new();
    add(
        &mut dirs,
        WORKSPACE_DIR,
        "cmd",
        Some("---\ntitle: \"  \"\nmodel: \"   \"\n---\nbody\n"),
    );
    let commands = load(&dirs, None);
    let command = &commands.commands[0];
    assert_eq!(command.title, "cmd");
    assert_eq!(command.model, None);
    assert!(commands.warnings.is_empty());
}

#[test]
fn frontmatter_with_trailing_comment_parses() {
    let text = "---\ntitle: Commit code\n\
        model: openai/gpt-5.6-luna # <provider_type>/<model>; use current model if unset\n\
        ---\n\n# Commit code command\n\n\
        Use `git commit -m '<message>'` to commit...\n\n{{arguments}}\n";
    let mut dirs = Dirs::new();
    add(&mut dirs, WORKSPACE_DIR, "commit", Some(text));
    let commands = load(&dirs, None);
    let command = &commands.commands[0];
    assert_eq!(command.title, "Commit code");
    assert_eq!(command.model.as_deref(), Some("openai/gpt-5.6-luna"));
    assert!(commands.warnings.is_empty(), "{:?}", commands.warnings);
    assert_eq!(
        command.invocation_content(text, Some("tidy up")),
        "# Commit code command\n\nUse `git commit -m '<message>'` to commit...\n\ntidy up",
        "placeholder replaced by the args"
    );
}

#[test]
fn invocation_replaces_placeholder_everywhere() {
    let text = "a {{arguments}} b\n{{arguments}}\n";
    let command = only(text);
    assert_eq!(command.invocation_content(text, Some("x")), "a x b\nx");
    assert_eq!(command.invocation_content(text, None), "a  b\n");
}

#[test]
fn invocation_appends_args_without_placeholder() {
    let command = only("body\n");
    assert_eq!(command.invocation_content("body\n", Some("the args")), "body\n\nthe args");
    assert_eq!(command.invocation_content("body\n", None), "body");
}

#[test]
fn parse_model_spec_splits_on_first_slash() {
    assert_eq!(
        parse_model_spec("openai/gpt-5.6-luna"),
        Some(("openai", "gpt-5.6-luna"))
    );
    assert_eq!(
        parse_model_spec("anthropic/acme/sonnet/4"),
        Some(("anthropic", "acme/sonnet/4"))
    );
    assert_eq!(parse_model_spec("nomodel"), None);
    assert_eq!(parse_model_spec("/model"), None);
    assert_eq!(parse_model_spec("provider/"), None);
    assert_eq!(
        parse_model_spec(" provider / model "),
        Some(("provider", "model"))
    );
}

#[test]
fn a_model_that_cannot_resolve_warns() {
    let mut dirs = Dirs::new();
    add(&mut dirs, WORKSPACE_DIR, "cmd", Some("---\nmodel: nomodel\n---\nbody\n"));
    let commands = load(&dirs, None);
    assert_eq!(commands.commands[0].model.as_deref(), Some("nomodel"));
    assert!(commands.warnings[0].message.contains("`nomodel`"));
}

#[test]
fn hidden_and_junk_dirs_skipped() {
    let mut dirs = Dirs::new();
    for name in [".hidden", "node_modules", "real"] {
        add(&mut dirs, WORKSPACE_DIR, name, Some("body\n"));
    }
    assert_eq!(names(&load(&dirs, None)), vec!["real"]);
}

#[test]
fn name_exceeding_max_length_warns() {
    let mut dirs = Dirs::new();
    add(&mut dirs, WORKSPACE_DIR, &"a".repeat(65), Some("body\n"));
    let commands = load(&dirs, None);
    assert!(commands.warnings.iter().any(|w| w.message.contains("exceeds 64 characters")));
}
