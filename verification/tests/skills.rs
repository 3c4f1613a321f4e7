use cc_switch_tui::skills::{
    filter_skills, installed_skill_key, marketplace_skill_row, MarketplaceSkill, Skill,
};

fn skill(key: &str, name: &str, description: &str, directory: &str) -> Skill {
    Skill {
        key: key.to_string(),
        name: name.to_string(),
        description: description.to_string(),
        directory: directory.to_string(),
        readme_url: None,
        repo_owner: None,
        repo_name: None,
        repo_branch: None,
        installed: false,
    }
}

#[test]
fn filter_skills_matches_any_field_ignoring_case() {
    let skills = || {
        vec![
            skill("k1", "PDF Tools", "work with documents", "pdf"),
            skill("k2", "Git", "version control", "git-helper"),
            skill("owner/Search", "finder", "x", "y"),
        ]
    };
    let names = |v: Vec<Skill>| v.into_iter().map(|s| s.name).collect::<Vec<_>>();
    assert_eq!(names(filter_skills(skills(), "  pdf ")), vec!["PDF Tools"]);
    assert_eq!(names(filter_skills(skills(), "HELPER")), vec!["Git"]);
    assert_eq!(names(filter_skills(skills(), "search")), vec!["finder"]);
    assert_eq!(names(filter_skills(skills(), "DOC")), vec!["PDF Tools"]);
    assert_eq!(filter_skills(skills(), "   ").len(), 3);
    assert!(filter_skills(skills(), "zzz").is_empty());
}

#[test]
fn marketplace_rows_are_marked_installed_by_lowercased_key() {
    let installed = vec![installed_skill_key(
        "PDF",
        Some("Anthropics".to_string()),
        Some("Skills".to_string()),
    )];
    assert_eq!(installed[0], ("pdf".to_string(), "anthropics".to_string(), "skills".to_string()));
    let item = |dir: &str| MarketplaceSkill {
        key: "k".to_string(),
        name: "n".to_string(),
        directory: dir.to_string(),
        readme_url: None,
        repo_owner: "anthropics".to_string(),
        repo_name: "SKILLS".to_string(),
        repo_branch: "main".to_string(),
        installs: 1234,
    };
    let row = marketplace_skill_row(item("pdf"), &installed);
    assert!(row.installed);
    assert_eq!(row.description, "1234 installs");
    assert_eq!(row.repo_branch, Some("main".to_string()));
    assert!(!marketplace_skill_row(item("docx"), &installed).installed);
    assert_eq!(installed_skill_key("D", None, None), ("d".to_string(), String::new(), String::new()));
}
