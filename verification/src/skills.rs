//! The skills list: which marketplace skills are installed already, and
//! which skills a search query keeps.
use vstd::prelude::*;

use crate::text::{chars_of, contains, contains_chars, decimal, decimal_chars, extend_chars, string_of, trim, trim_chars};
use crate::workspace::{str_lowercase, str_to_lowercase};

verus! {

/// A skill as the skills page lists it.
#[derive(Debug, PartialEq, Eq)]
pub struct Skill {
    pub key: String,
    pub name: String,
    pub description: String,
    pub directory: String,
    pub readme_url: Option<String>,
    pub repo_owner: Option<String>,
    pub repo_name: Option<String>,
    pub repo_branch: Option<String>,
    pub installed: bool,
}

/// A skill found on the skills.sh marketplace.
#[derive(Debug, PartialEq, Eq)]
pub struct MarketplaceSkill {
    pub key: String,
    pub name: String,
    pub directory: String,
    pub readme_url: Option<String>,
    pub repo_owner: String,
    pub repo_name: String,
    pub repo_branch: String,
    pub installs: u64,
}

/// How an installed skill is recognised: its directory, repository owner
/// and repository name, lower-cased.
pub type SkillKey = (String, String, String);

pub open spec fn key_view(k: SkillKey) -> (Seq<char>, Seq<char>, Seq<char>) {
    (k.0@, k.1@, k.2@)
}

pub open spec fn text_or_empty(o: Option<String>) -> Seq<char> {
    match o {
        Some(t) => t@,
        None => Seq::empty(),
    }
}

/// The key of an installed skill (a missing owner or name counts as empty).
pub open spec fn installed_key_spec(directory: Seq<char>, owner: Option<String>, name: Option<String>) -> (
    Seq<char>,
    Seq<char>,
    Seq<char>,
) {
    (str_lowercase(directory), str_lowercase(text_or_empty(owner)), str_lowercase(text_or_empty(name)))
}

/// The key of an installed skill, from its directory and repository.
pub fn installed_skill_key(directory: &str, owner: Option<String>, name: Option<String>) -> (k: SkillKey)
    ensures
        key_view(k) == installed_key_spec(directory@, owner, name),
{
    let owner_text = match owner {
        Some(o) => o,
        None => String::new(),
    };
    let name_text = match name {
        Some(n) => n,
        None => String::new(),
    };
    (str_to_lowercase(directory), str_to_lowercase(owner_text.as_str()), str_to_lowercase(name_text.as_str()))
}

/// Whether `k` is among `keys`.
pub open spec fn has_key(keys: Seq<SkillKey>, k: (Seq<char>, Seq<char>, Seq<char>)) -> bool {
    exists|i: int| 0 <= i < keys.len() && key_view(#[trigger] keys[i]) == k
}

/// A marketplace skill as a row of the list: described by its install
/// count, and marked installed when its lower-cased directory and repository
/// are among `installed`.
pub open spec fn marketplace_row_spec(item: MarketplaceSkill, installed: Seq<SkillKey>) -> (
    Seq<char>,
    Seq<char>,
    Seq<char>,
    Seq<char>,
    bool,
) {
    (
        item.key@,
        item.name@,
        decimal(item.installs as nat) + " installs"@,
        item.directory@,
        has_key(
            installed,
            (str_lowercase(item.directory@), str_lowercase(item.repo_owner@), str_lowercase(item.repo_name@)),
        ),
    )
}

pub open spec fn row_view(s: Skill) -> (Seq<char>, Seq<char>, Seq<char>, Seq<char>, bool) {
    (s.key@, s.name@, s.description@, s.directory@, s.installed)
}

fn strings_equal(a: &String, b: &String) -> (r: bool)
    ensures
        r == (a@ == b@),
{
    *a == *b
}

/// Turns a marketplace skill into a row of the list.
pub fn marketplace_skill_row(item: MarketplaceSkill, installed: &Vec<SkillKey>) -> (s: Skill)
    ensures
        row_view(s) == marketplace_row_spec(item, installed@),
        s.readme_url == item.readme_url,
        s.repo_owner == Some(item.repo_owner),
        s.repo_name == Some(item.repo_name),
        s.repo_branch == Some(item.repo_branch),
{
    let d = str_to_lowercase(item.directory.as_str());
    let o = str_to_lowercase(item.repo_owner.as_str());
    let n = str_to_lowercase(item.repo_name.as_str());
    let mut found = false;
    let mut i: usize = 0;
    while i < installed.len()
        invariant
            i <= installed@.len(),
            found == exists|j: int| 0 <= j < i && key_view(#[trigger] installed@[j]) == (d@, o@, n@),
        decreases installed@.len() - i,
    {
        let k = &installed[i];
        if strings_equal(&k.0, &d) && strings_equal(&k.1, &o) && strings_equal(&k.2, &n) {
            found = true;
        }
        proof {
            if key_view(installed@[i as int]) == (d@, o@, n@) {
                assert(found);
            }
        }
        i += 1;
    }
    let mut desc = decimal_chars(item.installs);
    extend_chars(&mut desc, &chars_of(" installs"));
    Skill {
        key: item.key,
        name: item.name,
        description: string_of(&desc),
        directory: item.directory,
        readme_url: item.readme_url,
        repo_owner: Some(item.repo_owner),
        repo_name: Some(item.repo_name),
        repo_branch: Some(item.repo_branch),
        installed: found,
    }
}

/// Whether a skill matches the lower-cased query `q`: its name, directory,
/// description or key, lower-cased, contains it.
pub open spec fn skill_matches(s: Skill, q: Seq<char>) -> bool {
    ||| contains(str_lowercase(s.name@), q)
    ||| contains(str_lowercase(s.directory@), q)
    ||| contains(str_lowercase(s.description@), q)
    ||| contains(str_lowercase(s.key@), q)
}

/// The query as matched: trimmed, then lower-cased.
pub open spec fn skill_query(query: Seq<char>) -> Seq<char> {
    str_lowercase(trim(query))
}

/// The skills that a search keeps, in order: all of them for a blank
/// query.
pub open spec fn filter_skills_spec(skills: Seq<Skill>, query: Seq<char>) -> Seq<Skill> {
    if skill_query(query).len() == 0 {
        skills
    } else {
        skills.filter(|s: Skill| skill_matches(s, skill_query(query)))
    }
}

fn lowered_contains(text: &String, q: &Vec<char>) -> (b: bool)
    ensures
        b == contains(str_lowercase(text@), q@),
{
    let low = str_to_lowercase(text.as_str());
    contains_chars(&chars_of(low.as_str()), q)
}

/// Whether `s` matches the lower-cased query `q`.
pub fn skill_matches_query(s: &Skill, q: &Vec<char>) -> (b: bool)
    ensures
        b == skill_matches(*s, q@),
{
    lowered_contains(&s.name, q) || lowered_contains(&s.directory, q) || lowered_contains(
        &s.description,
        q,
    ) || lowered_contains(&s.key, q)
}

/// Keeps the skills whose name, directory, description or key contains the
/// trimmed query, ignoring case as lower-casing does.
pub fn filter_skills(skills: Vec<Skill>, query: &str) -> (out: Vec<Skill>)
    ensures
        out@ == filter_skills_spec(skills@, query@),
{
    let t = string_of(&trim_chars(&chars_of(query)));
    let q_string = str_to_lowercase(t.as_str());
    let q = chars_of(q_string.as_str());
    if q.len() == 0 {
        return skills;
    }
    let ghost rows = skills@;
    let ghost keep = |s: Skill| skill_matches(s, q@);
    let mut skills = skills;
    let total = skills.len();
    let mut kept: Vec<Skill> = Vec::new();
    let mut i: usize = 0;
    assert(rows.take(0) =~= Seq::<Skill>::empty());
    while skills.len() > 0
        invariant
            i <= rows.len() == total,
            skills@ == rows.skip(i as int),
            kept@ == rows.take(i as int).filter(keep),
            keep == (|s: Skill| skill_matches(s, q@)),
        decreases skills@.len(),
    {
        let s = skills.remove(0);
        proof {
            assert(s == rows[i as int]);
            assert(rows.take(i + 1) =~= rows.take(i as int).push(rows[i as int]));
            rows.take(i as int).lemma_filter_push(rows[i as int], keep);
        }
        if skill_matches_query(&s, &q) {
            kept.push(s);
        }
        assert(i < rows.len());
        i = i + 1;
        assert(skills@ =~= rows.skip(i as int));
    }
    assert(rows.take(i as int) =~= rows);
    kept
}

} // verus!
