use rika::env::Env;
use rika::skills::{check_requirements, parse_frontmatter, parse_yaml_array, SkillRequirements, SkillSource, SkillsLoader};

fn env(vars: &[(&str, &str)]) -> Env {
    Env { vars: vars.iter().map(|(k, v)| (k.to_string(), v.to_string())).collect() }
}

#[test]
fn test_parse_frontmatter_basic() {
    let content = r#"---
name: test-skill
description: "A test skill"
always: true
---

# Test Skill

Some body content here.
"#;
    let (meta, body) = parse_frontmatter(content).unwrap();
    assert_eq!(meta.name, "test-skill");
    assert_eq!(meta.description, "A test skill");
    assert!(meta.always);
    assert!(meta.requires.bins.is_empty());
    assert!(meta.requires.env.is_empty());
    assert!(body.contains("# Test Skill"));
    assert!(body.contains("Some body content here."));
}

#[test]
fn test_parse_frontmatter_with_requires() {
    let content = r#"---
name: github
description: "GitHub CLI"
requires:
  bins: ["gh", "git"]
  env: ["GITHUB_TOKEN"]
---

# GitHub
"#;
    let (meta, body) = parse_frontmatter(content).unwrap();
    assert_eq!(meta.name, "github");
    assert!(!meta.always);
    assert_eq!(meta.requires.bins, vec!["gh", "git"]);
    assert_eq!(meta.requires.env, vec!["GITHUB_TOKEN"]);
    assert!(body.contains("# GitHub"));
}

#[test]
fn test_parse_frontmatter_no_frontmatter() {
    let content = "# Just a markdown file\n\nNo frontmatter here.";
    assert!(parse_frontmatter(content).is_none());
}

#[test]
fn test_parse_frontmatter_missing_name() {
    let content = r#"---
description: "No name field"
---

Body
"#;
    assert!(parse_frontmatter(content).is_none());
}

#[test]
fn test_parse_yaml_array() {
    assert_eq!(parse_yaml_array(r#"["gh", "git"]"#), vec!["gh", "git"]);
    assert_eq!(parse_yaml_array(r#"["single"]"#), vec!["single"]);
    assert!(parse_yaml_array("[]").is_empty());
    assert!(parse_yaml_array("").is_empty());
}

#[test]
fn test_check_requirements_no_requirements() {
    let reqs = SkillRequirements::default();
    assert!(check_requirements(&reqs, &vec![], &Env::empty()));
}

#[test]
fn test_check_requirements_missing_bin() {
    let reqs = SkillRequirements { bins: vec!["nonexistent_binary_xyz_12345".to_string()], env: vec![] };
    assert!(!check_requirements(&reqs, &vec!["sh".to_string()], &Env::empty()));
}

#[test]
fn test_check_requirements_missing_env() {
    let reqs = SkillRequirements { bins: vec![], env: vec!["NONEXISTENT_ENV_VAR_XYZ_12345".to_string()] };
    assert!(!check_requirements(&reqs, &vec![], &Env::empty()));
}

#[test]
fn check_requirements_met_when_all_present() {
    let reqs = SkillRequirements { bins: vec!["gh".to_string()], env: vec!["TOKEN".to_string()] };
    assert!(check_requirements(&reqs, &vec!["gh".to_string()], &env(&[("TOKEN", "x")])));
}

#[test]
fn test_skills_loader_without_workspace_dir() {
    let loader = SkillsLoader::new(None);
    let skills = loader.load_all(&vec![], &vec![], &Env::empty());
    assert!(skills.is_empty());
}

#[test]
fn test_build_prompt_section_empty_without_workspace_dir() {
    let loader = SkillsLoader::new(None);
    let section = loader.build_prompt_section(&vec![], &vec![], &Env::empty());
    assert!(section.is_empty());
}

#[test]
fn test_workspace_skill_loads() {
    let loader = SkillsLoader::new(Some("/tmp/ws".to_string()));
    let files = vec![(
        "/tmp/ws/skills/github/SKILL.md".to_string(),
        "---\nname: github\ndescription: \"Custom github skill\"\nalways: true\n---\n\n# Custom GitHub\n".to_string(),
    )];
    let skills = loader.load_all(&files, &vec![], &Env::empty());
    let github = skills.iter().find(|s| s.meta.name == "github").unwrap();
    assert_eq!(github.meta.description, "Custom github skill");
    assert!(github.meta.always);
    assert!(matches!(github.source, SkillSource::Workspace(_)));
}

#[test]
fn later_skill_file_replaces_earlier_and_skills_are_sorted() {
    let loader = SkillsLoader::new(Some("/w".to_string()));
    let files = vec![
        ("/w/b.md".to_string(), "---\nname: zeta\ndescription: \"first\"\n---\nA".to_string()),
        ("/w/a.md".to_string(), "---\nname: alpha\ndescription: \"a\"\n---\nB".to_string()),
        ("/w/c.md".to_string(), "---\nname: zeta\ndescription: \"second\"\n---\nC".to_string()),
        ("/w/d.md".to_string(), "no front matter".to_string()),
    ];
    let skills = loader.load_all(&files, &vec![], &Env::empty());
    assert_eq!(skills.len(), 2);
    assert_eq!(skills[0].meta.name, "alpha");
    assert_eq!(skills[1].meta.name, "zeta");
    assert_eq!(skills[1].meta.description, "second");
}

#[test]
fn test_prompt_uses_filesystem_read_instructions_for_on_demand_skills() {
    let loader = SkillsLoader::new(Some("/tmp/ws".to_string()));
    let files = vec![(
        "/tmp/ws/skills/github/SKILL.md".to_string(),
        "---\nname: github\ndescription: \"Custom github skill\"\nalways: false\n---\n\n# Custom GitHub\n".to_string(),
    )];
    let prompt = loader.build_prompt_section(&files, &vec![], &Env::empty());
    assert!(prompt.contains("filesystem_read"));
    assert!(!prompt.contains("cat <path>"));
}
