use shuvarie_core::config::SkillsConfig;
use shuvarie_core::paths::join;
use shuvarie_core::skills::walk::{
    subdirectories, DirEntry, DirFacts, FoundFile, SkillWalk, SKILL_FILE_NAME,
};
use shuvarie_core::skills::{
    escape_xml, front_matter_split, global_skill_dirs, passed_over, skill_body,
    validate_description, validate_name, Skill, SkillFile, SkillFrontMatter, Skills,
    MAX_DESCRIPTION_LENGTH,
};
use std::collections::{BTreeMap, BTreeSet};

const WORKSPACE: &str = "/tmp/t/workspace";

/// Files by path, and links to directories or files.
#[derive(Default)]
struct Tree {
    files: BTreeMap<String, String>,
    links: BTreeMap<String, String>,
}

impl Tree {
    fn write(&mut self, path: &str, contents: &str) {
        self.files.insert(path.to_string(), contents.to_string());
    }

    fn write_skill(&mut self, root: &str, name: &str, description: &str, tags: &[&str]) {
        let tags = tags
            .iter()
            .map(|t| format!("    - {t}"))
            .collect::<Vec<_>>()
            .join("\n");
        self.write(
            &format!("{root}/{name}/SKILL.md"),
            &format!(
                "---\nname: {name}\ndescription: >-\n  {description}\nlicense: MIT\nmetadata:\n  \
                 category: Test\n  tags:\n{tags}\n---\n\n# {name}\n\nbody\n"
            ),
        );
    }

    fn canonical_path(&self, path: &str) -> String {
        let mut out = path.to_string();
        for (from, to) in &self.links {
            if out == *from {
                out = to.clone();
            } else if let Some(rest) = out.strip_prefix(&format!("{from}/")) {
                out = format!("{to}/{rest}");
            }
        }
        out
    }

    fn is_dir(&self, path: &str) -> bool {
        let canonical_path = format!("{}/", self.canonical_path(path));
        self.files.keys().any(|f| f.starts_with(&canonical_path))
    }

    fn read(&self, path: &str) -> Option<&String> {
        self.files.get(&self.canonical_path(path))
    }

    fn entries(&self, path: &str) -> Vec<DirEntry> {
        let canonical_path = format!("{}/", self.canonical_path(path));
        let mut names: BTreeSet<String> = BTreeSet::new();
        for f in self.files.keys().chain(self.links.keys()) {
            if let Some(rest) = f.strip_prefix(&canonical_path) {
                names.insert(rest.split('/').next().unwrap().to_string());
            }
        }
        names
            .into_iter()
            .rev()
            .map(|name| {
                let is_dir = self.is_dir(&join(path, &name));
                DirEntry { name, is_dir }
            })
            .collect()
    }

    fn facts(&self, dir: &str) -> DirFacts {
        let file = join(dir, SKILL_FILE_NAME);
        DirFacts {
            dir_name: dir.rsplit('/').next().unwrap_or_default().to_string(),
            canonical: self.is_dir(dir).then_some(self.canonical_path(dir)),
            found: self.read(&file).map(|contents| FoundFile {
                canonical: Some(self.canonical_path(&file)),
                file: match parse_front_matter(contents) {
                    Some(fm) => SkillFile::Parsed(fm),
                    None => SkillFile::Unparsable,
                },
            }),
            entries: self.entries(dir),
        }
    }

    fn load(&self, home: Option<&str>, global: Option<&str>, dirs: Vec<String>) -> Skills {
        self.load_with(home, global, &SkillsConfig { disabled: false, dirs })
    }

    fn load_with(&self, home: Option<&str>, global: Option<&str>, config: &SkillsConfig) -> Skills {
        let mut walk = SkillWalk::new(WORKSPACE, home, global, config);
        while let Some(dir) = walk.next_dir() {
            let facts = self.facts(&dir);
            walk.visit(&dir, facts);
        }
        let root = format!("{}/", self.canonical_path(WORKSPACE));
        let outside: Vec<bool> =
            walk.skills.skills.iter().map(|s| !s.path.starts_with(&root)).collect();
        walk.skills.finish(&outside)
    }
}

fn parse_front_matter(contents: &str) -> Option<SkillFrontMatter> {
    let (yaml, _) = front_matter_split(contents)?;
    let value: yaml_serde::Value = yaml_serde::from_str(yaml).ok()?;
    let text = |v: Option<&yaml_serde::Value>| -> Option<String> {
        v.and_then(|v| v.as_str()).map(|s| s.to_string())
    };
    let metadata = value.get("metadata");
    Some(SkillFrontMatter {
        name: text(value.get("name")),
        description: text(value.get("description")),
        category: text(metadata.and_then(|m| m.get("category"))),
        tags: metadata
            .and_then(|m| m.get("tags"))
            .and_then(|t| t.as_sequence())
            .map(|t| t.iter().filter_map(|v| v.as_str()).map(|s| s.to_string()).collect())
            .unwrap_or_default(),
        disable_model_invocation: value
            .get("disable-model-invocation")
            .and_then(|v| v.as_bool()),
    })
}

fn workspace_skills() -> String {
    format!("{WORKSPACE}/.agents/skills")
}

fn names(skills: &Skills) -> Vec<&str> {
    skills.skills.iter().map(|s| s.name.as_str()).collect()
}

#[test]
fn parses_front_matter() {
    let content = "---\nname: ratatui\ndescription: >-\n  A TUI skill\nmetadata:\n  \
                   category: Frontend\n  tags:\n    - rust\n    - tui\n---\n\n# body\n";
    let fm = parse_front_matter(content).unwrap();
    assert_eq!(fm.name.as_deref(), Some("ratatui"));
    assert_eq!(fm.description.as_deref(), Some("A TUI skill"));
    assert_eq!(fm.category.as_deref(), Some("Frontend"));
    assert_eq!(fm.tags, vec!["rust", "tui"]);
}

#[test]
fn loads_workspace_and_global_skills() {
    let mut tree = Tree::default();
    tree.write_skill(&workspace_skills(), "ratatui", "TUI skill", &["rust"]);
    tree.write_skill("/tmp/t/global/skills", "tokio", "Async skill", &["rust"]);
    let skills = tree.load(None, None, vec!["/tmp/t/global/skills".to_string()]);
    assert_eq!(names(&skills), vec!["ratatui", "tokio"]);
    assert_eq!(skills.skills[0].tags, vec!["rust"]);
    assert_eq!(skills.skills[1].category.as_deref(), Some("Test"));
    assert!(skills.warnings.is_empty());
}

#[test]
fn dedupes_by_name_workspace_wins() {
    let mut tree = Tree::default();
    tree.write_skill(&workspace_skills(), "ratatui", "workspace copy", &[]);
    tree.write_skill("/tmp/t/global/skills", "ratatui", "global copy", &[]);
    let skills = tree.load(None, None, vec!["/tmp/t/global/skills".to_string()]);
    assert_eq!(skills.skills.len(), 1);
    assert_eq!(skills.skills[0].description, "workspace copy");
    assert_eq!(skills.warnings.len(), 1);
    assert!(skills.warnings[0].message.contains("duplicate"));
}

#[test]
fn discovers_nested_skills() {
    let mut tree = Tree::default();
    let nested = format!("{}/ui/ratatui", workspace_skills());
    tree.write(
        &format!("{nested}/SKILL.md"),
        "---\nname: ratatui\ndescription: TUI skill\n---\n\nbody\n",
    );
    let skills = tree.load(None, None, vec![]);
    assert_eq!(skills.skills.len(), 1);
    assert_eq!(skills.skills[0].name, "ratatui");
    assert_eq!(skills.skills[0].path, nested);
}

#[test]
fn skips_hidden_and_node_modules_dirs() {
    let mut tree = Tree::default();
    for path in [".agents/skills/.hidden/sk", ".agents/skills/node_modules/sk"] {
        tree.write(
            &format!("{WORKSPACE}/{path}/SKILL.md"),
            "---\nname: sk\ndescription: hidden skill\n---\n\nbody\n",
        );
    }
    let skills = tree.load(None, None, vec![]);
    assert!(skills.skills.is_empty());
}

#[test]
fn skill_root_stops_recursion() {
    let mut tree = Tree::default();
    let root = format!("{}/ratatui", workspace_skills());
    tree.write(
        &format!("{root}/SKILL.md"),
        "---\nname: ratatui\ndescription: TUI skill\n---\n\nbody\n",
    );
    tree.write(
        &format!("{root}/nested/inner/SKILL.md"),
        "---\nname: inner\ndescription: should not load\n---\n\nbody\n",
    );
    let skills = tree.load(None, None, vec![]);
    assert_eq!(skills.skills.len(), 1);
    assert_eq!(skills.skills[0].name, "ratatui");
}

#[test]
fn missing_description_skips_with_warning() {
    let mut tree = Tree::default();
    let file = format!("{}/ratatui/SKILL.md", workspace_skills());
    tree.write(&file, "---\nname: ratatui\n---\n\nbody\n");
    let skills = tree.load(None, None, vec![]);
    assert!(skills.skills.is_empty());
    assert_eq!(skills.warnings.len(), 1);
    assert_eq!(skills.warnings[0].message, "description is required");
    assert_eq!(skills.warnings[0].path, file);
}

#[test]
fn skills_invalid_name_warns_but_loads() {
    let mut tree = Tree::default();
    tree.write(
        &format!("{}/ratatui/SKILL.md", workspace_skills()),
        "---\nname: Ratatui--X\ndescription: TUI skill\n---\n\nbody\n",
    );
    let skills = tree.load(None, None, vec![]);
    assert_eq!(skills.skills.len(), 1);
    assert_eq!(skills.warnings.len(), 2);
    assert!(skills.warnings[0].message.contains("invalid characters"));
    assert!(skills.warnings[1].message.contains("consecutive hyphens"));
}

#[test]
fn overlong_description_warns_but_loads() {
    let mut tree = Tree::default();
    let description = "x".repeat(MAX_DESCRIPTION_LENGTH + 1);
    tree.write(
        &format!("{}/ratatui/SKILL.md", workspace_skills()),
        &format!("---\nname: ratatui\ndescription: {description}\n---\n\nbody\n"),
    );
    let skills = tree.load(None, None, vec![]);
    assert_eq!(skills.skills.len(), 1);
    assert_eq!(skills.warnings.len(), 1);
    assert!(skills.warnings[0].message.contains("exceeds 1024 characters"));
}

#[test]
fn unparsable_frontmatter_skips_with_warning() {
    let mut tree = Tree::default();
    tree.write(&format!("{}/ratatui/SKILL.md", workspace_skills()), "no frontmatter\n");
    let skills = tree.load(None, None, vec![]);
    assert!(skills.skills.is_empty());
    assert_eq!(skills.warnings.len(), 1);
    assert!(skills.warnings[0].message.contains("frontmatter"));
}

#[test]
fn unreadable_file_skips_with_warning() {
    let (skill, messages) = Skill::from_dir("/s/a", "a", SkillFile::Unreadable);
    assert!(skill.is_none());
    assert_eq!(messages, vec!["failed to read SKILL.md"]);
}

#[test]
fn duplicate_name_across_nesting_warns() {
    let mut tree = Tree::default();
    tree.write_skill(&workspace_skills(), "ratatui", "TUI skill", &[]);
    tree.write_skill(&format!("{}/group", workspace_skills()), "ratatui", "group copy", &[]);
    let skills = tree.load(None, None, vec![]);
    assert_eq!(skills.skills.len(), 1);
    assert_eq!(skills.warnings.len(), 1);
    assert!(skills.warnings[0].message.contains("duplicate"));
    assert_eq!(
        skills.warnings[0].path,
        format!("{}/ratatui/SKILL.md", workspace_skills())
    );
}

#[test]
fn location_dir_can_be_a_skill_root() {
    let mut tree = Tree::default();
    let skill = "/tmp/t/somewhere/ratatui";
    tree.write_skill(skill, "ratatui", "TUI skill", &[]);
    let skills = tree.load(None, None, vec![skill.to_string()]);
    assert_eq!(skills.skills.len(), 1);
    assert_eq!(skills.skills[0].name, "ratatui");
}

#[test]
fn disabled_config_loads_nothing() {
    let mut tree = Tree::default();
    tree.write_skill(&workspace_skills(), "ratatui", "TUI skill", &[]);
    let config = SkillsConfig { disabled: true, dirs: Vec::new() };
    let skills = tree.load_with(None, None, &config);
    assert!(skills.skills.is_empty());
    assert!(skills.warnings.is_empty());
}

#[test]
fn untrusted_skills_skip_the_workspace_dir() {
    let mut tree = Tree::default();
    tree.write_skill(&workspace_skills(), "workspace-skill", "Workspace skill", &[]);
    tree.write_skill("/tmp/t/home/.agents/skills", "global-skill", "Global skill", &[]);
    let inside = |skills: &Skills| -> Vec<bool> {
        let dir = format!("{}/", workspace_skills());
        skills.skills.iter().map(|s| s.path.starts_with(&dir)).collect()
    };
    let load = || tree.load(Some("/tmp/t/home"), None, vec![]);
    let skills = load();
    assert_eq!(skills.skills.len(), 2);

    let marks = inside(&skills);
    let trusted = skills.without_workspace(true, &marks, &vec![]);
    assert!(names(&trusted).contains(&"workspace-skill"));

    let untrusted = load().without_workspace(false, &marks, &vec![]);
    assert!(!names(&untrusted).contains(&"workspace-skill"));
    assert!(names(&untrusted).contains(&"global-skill"));
    assert!(untrusted.warnings.is_empty());
}

#[test]
fn loads_home_agents_skills() {
    let mut tree = Tree::default();
    tree.write_skill("/tmp/t/home/.agents/skills", "tokio", "Async skill", &[]);
    let skills = tree.load(Some("/tmp/t/home"), None, vec![]);
    assert_eq!(names(&skills), vec!["tokio"]);
}

#[test]
fn home_agents_skills_loses_to_workspace() {
    let mut tree = Tree::default();
    tree.write_skill(&workspace_skills(), "tokio", "workspace copy", &[]);
    tree.write_skill("/tmp/t/home/.agents/skills", "tokio", "home copy", &[]);
    let skills = tree.load(Some("/tmp/t/home"), None, vec![]);
    assert_eq!(skills.skills.len(), 1);
    assert_eq!(skills.skills[0].description, "workspace copy");
    assert_eq!(skills.warnings.len(), 1);
}

#[test]
fn global_skill_dirs_precedence() {
    assert_eq!(
        global_skill_dirs(Some("/home/tester"), Some("/home/tester/.config/shuvarie")),
        vec!["/home/tester/.config/shuvarie/skills", "/home/tester/.agents/skills"]
    );
    assert!(global_skill_dirs(None, None).is_empty());
}

fn plain_skill(name: &str, path: &str) -> Skill {
    Skill {
        name: name.into(),
        description: "d".into(),
        tags: vec![],
        category: None,
        path: path.into(),
        global: false,
        disable_model_invocation: false,
    }
}

#[test]
fn invocation_content_wraps_body() {
    let mut tree = Tree::default();
    let dir = format!("{}/ratatui", workspace_skills());
    let file = format!("{dir}/SKILL.md");
    let text = "---\nname: ratatui\ndescription: TUI skill\n---\n\n# Ratatui\n\nbody text\n";
    tree.write(&file, text);
    let skills = tree.load(None, None, vec![]);
    let skill = &skills.skills[0];
    let content = skill.invocation_content(text, &file, Some("focus on buffers"));
    assert!(content.starts_with("<skill name=\"ratatui\""));
    assert!(content.contains(&format!("location=\"{file}\"")));
    assert!(content.contains("References are relative to"));
    assert!(content.contains("# Ratatui\n\nbody text"));
    assert!(!content.contains("description: TUI skill"));
    assert!(content.ends_with("</skill>\n\nfocus on buffers"));

    let plain = skill.invocation_content(text, &file, None);
    assert!(plain.ends_with("</skill>"));
}

#[test]
fn invocation_content_without_frontmatter() {
    let skill = plain_skill("raw", "/tmp/t/raw");
    let content = skill.invocation_content("# Raw\n\nno frontmatter\n", "/tmp/t/raw/SKILL.md", None);
    assert!(content.contains("# Raw\n\nno frontmatter"));
}

#[test]
fn invocation_content_with_crlf() {
    let text = "---\r\nname: crlf\r\ndescription: windows line endings\r\n---\r\n\r\nbody\r\n";
    let skill = plain_skill("crlf", "/tmp/t/crlf");
    let content = skill.invocation_content(text, "/tmp/t/crlf/SKILL.md", None);
    assert!(content.contains("\nbody"));
    assert!(!content.contains("description:"));
    assert_eq!(skill_body(text), "body");
}

#[test]
fn disable_model_invocation_hides_from_preamble() {
    let mut tree = Tree::default();
    tree.write_skill(&workspace_skills(), "ratatui", "TUI skill", &[]);
    tree.write(
        &format!("{}/secret/SKILL.md", workspace_skills()),
        "---\nname: secret\ndescription: hidden skill\ndisable-model-invocation: true\n---\n\nbody\n",
    );
    let skills = tree.load(None, None, vec![]);
    assert_eq!(skills.skills.len(), 2);
    let hidden = skills.skills.iter().find(|s| s.name == "secret").unwrap();
    assert!(hidden.disable_model_invocation);
    let normal = skills.skills.iter().find(|s| s.name == "ratatui").unwrap();
    assert!(!normal.disable_model_invocation);

    let section = skills.preamble_section().unwrap();
    assert!(section.contains("<name>ratatui</name>"));
    assert!(!section.contains("secret"));
}

#[test]
fn preamble_none_when_all_hidden() {
    let mut tree = Tree::default();
    tree.write(
        &format!("{}/secret/SKILL.md", workspace_skills()),
        "---\nname: secret\ndescription: hidden skill\ndisable-model-invocation: true\n---\n\nbody\n",
    );
    let skills = tree.load(None, None, vec![]);
    assert_eq!(skills.skills.len(), 1);
    assert!(skills.preamble_section().is_none());
}

#[test]
fn symlinked_skill_dir_loads_once() {
    let mut tree = Tree::default();
    tree.write_skill("/tmp/t/global/skills", "ratatui", "TUI skill", &[]);
    tree.write(&format!("{}/other/readme", workspace_skills()), "x");
    tree.links.insert(
        format!("{}/ratatui", workspace_skills()),
        "/tmp/t/global/skills/ratatui".to_string(),
    );
    let skills = tree.load(None, None, vec!["/tmp/t/global/skills".to_string()]);
    assert_eq!(skills.skills.len(), 1);
    assert!(skills.warnings.is_empty());
}

#[test]
fn same_skill_md_via_two_dirs_loads_once() {
    let mut tree = Tree::default();
    tree.write_skill(&workspace_skills(), "ratatui", "TUI skill", &[]);
    tree.write(&format!("{}/alias/readme", workspace_skills()), "x");
    tree.links.insert(
        format!("{}/alias/SKILL.md", workspace_skills()),
        format!("{}/ratatui/SKILL.md", workspace_skills()),
    );
    let skills = tree.load(None, None, vec![]);
    assert_eq!(skills.skills.len(), 1);
    assert!(skills.warnings.is_empty());
}

#[test]
fn home_skills_are_flagged_global() {
    let mut tree = Tree::default();
    tree.write_skill(&workspace_skills(), "ratatui", "TUI skill", &[]);
    tree.write_skill("/tmp/t/home/.agents/skills", "tokio", "Async skill", &[]);
    let skills = tree.load(Some("/tmp/t/home"), None, vec![]);
    let ratatui = skills.skills.iter().find(|s| s.name == "ratatui").unwrap();
    assert!(!ratatui.global);
    let tokio = skills.skills.iter().find(|s| s.name == "tokio").unwrap();
    assert!(tokio.global);
}

#[test]
fn config_dirs_outside_workspace_are_global() {
    let mut tree = Tree::default();
    tree.write_skill("/tmp/t/extra/skills", "tokio", "Async skill", &[]);
    let dirs = || vec!["/tmp/t/extra/skills".to_string()];
    let skills = tree.load(None, None, dirs());
    let tokio = skills.skills.iter().find(|s| s.name == "tokio").unwrap();
    assert!(tokio.global);
    tree.write(
        &format!("{}/local/SKILL.md", workspace_skills()),
        "---\nname: local\ndescription: local skill\n---\n\nbody\n",
    );
    let skills = tree.load(None, None, dirs());
    let local = skills.skills.iter().find(|s| s.name == "local").unwrap();
    assert!(!local.global);
}

#[test]
fn preamble_section_lists_skills() {
    let mut tree = Tree::default();
    tree.write_skill(&workspace_skills(), "ratatui", "TUI skill", &["rust"]);
    let skills = tree.load(None, None, vec![]);
    let section = skills.preamble_section().unwrap();
    assert!(section.contains("`skill` tool"));
    assert!(section.contains("<available_skills>"));
    assert!(section.contains("</available_skills>"));
    assert!(section.contains("<skill>"));
    assert!(section.contains("<name>ratatui</name>"));
    assert!(section.contains("<description>TUI skill</description>"));
    assert!(section.contains("<location>"));
    assert!(section.contains("SKILL.md"));
}

#[test]
fn preamble_escapes_xml_specials() {
    let mut tree = Tree::default();
    tree.write(
        &format!("{}/escape-test/SKILL.md", workspace_skills()),
        "---\nname: escape-test\ndescription: uses <tags> & \"quotes\" 'and'\n---\n\nbody\n",
    );
    let skills = tree.load(None, None, vec![]);
    let section = skills.preamble_section().unwrap();
    assert!(section.contains("uses &lt;tags&gt; &amp; &quot;quotes&quot; &apos;and&apos;"));
    assert!(!section.contains("<tags>"));
    assert!(!section.contains("'and'"));
    assert_eq!(escape_xml("a<b"), "a&lt;b");
}

#[test]
fn preamble_multiline_description_keeps_newlines() {
    let mut tree = Tree::default();
    tree.write(
        &format!("{}/multiline/SKILL.md", workspace_skills()),
        "---\nname: multiline\ndescription: |\n  first line\n  second line\n---\n\nbody\n",
    );
    let skills = tree.load(None, None, vec![]);
    let section = skills.preamble_section().unwrap();
    assert!(section.contains("first line\nsecond line"));
}

#[test]
fn empty_when_no_skills() {
    let skills = Tree::default().load(None, None, vec![]);
    assert!(skills.is_empty());
    assert!(skills.preamble_section().is_none());
}

#[test]
fn names_and_descriptions_are_checked() {
    assert!(validate_name("a-1").is_empty());
    assert_eq!(validate_name("-a").len(), 1);
    assert_eq!(validate_name(&"a".repeat(65)).len(), 1);
    assert!(validate_description("fine").is_empty());
    assert_eq!(validate_description("  "), vec!["description is required"]);
    assert!(passed_over(".git"));
    assert!(passed_over("node_modules"));
    assert!(!passed_over("src"));
}

#[test]
fn subdirectories_come_in_order() {
    let entry = |name: &str, is_dir: bool| DirEntry { name: name.to_string(), is_dir };
    let dirs = subdirectories(vec![
        entry("b", true),
        entry("file", false),
        entry(".hidden", true),
        entry("a", true),
    ]);
    assert_eq!(dirs, vec!["a", "b"]);
}
