//! The system prompt, composed of its sections.
use vstd::prelude::*;

use crate::config::PermissionMode;
use crate::text;

verus! {

/// What is told while plan mode is active.
pub const PLAN_MODE_REMINDER: &'static str =
    "Plan mode is active. Do not create, modify, or delete any file except the selected plan file. Read-only investigation is allowed; propose changes in the plan instead of applying them.";

/// The sections of a system prompt.
#[derive(Debug, PartialEq, Eq)]
pub struct PromptSections {
    pub base: String,
    pub instructions: String,
    pub auto_memory: String,
    pub available_skills: Vec<String>,
    pub active_skill: Option<String>,
    pub permission_mode: PermissionMode,
}

impl Default for PromptSections {
    fn default() -> (sections: Self)
        ensures
            sections.base@.len() == 0,
            sections.instructions@.len() == 0,
            sections.auto_memory@.len() == 0,
            sections.available_skills@.len() == 0,
            sections.active_skill is None,
            sections.permission_mode is Default,
    {
        PromptSections {
            base: String::new(),
            instructions: String::new(),
            auto_memory: String::new(),
            available_skills: Vec::new(),
            active_skill: None,
            permission_mode: PermissionMode::default(),
        }
    }
}

/// The section that says `body` under `title`, if there is anything to say.
pub open spec fn section(title: Seq<char>, body: Seq<char>) -> Seq<Seq<char>> {
    if text::is_blank(body) {
        Seq::empty()
    } else {
        seq![title + text::trimmed(body)]
    }
}

/// The sections that are told, in order.
pub open spec fn told_sections(sections: PromptSections) -> Seq<Seq<char>> {
    section(Seq::empty(), sections.base@) + section(
        "## Project instructions\n\n"@,
        sections.instructions@,
    ) + section("## Memory\n\n"@, sections.auto_memory@) + (if sections.available_skills@.len()
        == 0 {
        Seq::empty()
    } else {
        seq![
            "## Available skills\n\n"@ + text::joined(
                text::texts(sections.available_skills@),
                "\n"@,
            ),
        ]
    }) + (match sections.active_skill {
        Some(skill) => section("## Active skill\n\n"@, skill@),
        None => Seq::empty(),
    }) + (if sections.permission_mode is Plan {
        seq!["## Mode reminder\n\n"@ + PLAN_MODE_REMINDER@]
    } else {
        Seq::empty()
    })
}

/// Adds the section that says `body` under `title`, if there is anything to say.
fn add_section(told: &mut Vec<String>, title: &str, body: &str)
    ensures
        text::texts(final(told)@) == text::texts(old(told)@) + section(title@, body@),
{
    let ghost before = text::texts(told@);
    if !text::blank(body) {
        let whole = text::concat(title, text::trim(body).as_str());
        told.push(whole);
        assert(text::texts(told@) =~= before + section(title@, body@));
    } else {
        assert(before + section(title@, body@) =~= before);
    }
}

impl PromptSections {
    /// The sections that have something to say, with an empty line between them.
    pub fn compose(&self) -> (prompt: String)
        ensures
            prompt@ == text::joined(told_sections(*self), "\n\n"@),
    {
        let mut told: Vec<String> = Vec::new();
        assert(text::texts(told@) =~= Seq::<Seq<char>>::empty());
        add_section(&mut told, "", self.base.as_str());
        proof {
            reveal_strlit("");
            assert(""@ =~= Seq::<char>::empty());
        }
        add_section(&mut told, "## Project instructions\n\n", self.instructions.as_str());
        add_section(&mut told, "## Memory\n\n", self.auto_memory.as_str());
        if self.available_skills.len() > 0 {
            let ghost before = text::texts(told@);
            let listed = text::join(&self.available_skills, "\n");
            let whole = text::concat("## Available skills\n\n", listed.as_str());
            told.push(whole);
            assert(text::texts(told@) =~= before + seq![whole@]);
        }
        if let Some(skill) = &self.active_skill {
            add_section(&mut told, "## Active skill\n\n", skill.as_str());
        }
        if let PermissionMode::Plan = self.permission_mode {
            let ghost before = text::texts(told@);
            let whole = text::concat("## Mode reminder\n\n", PLAN_MODE_REMINDER);
            told.push(whole);
            assert(text::texts(told@) =~= before + seq![whole@]);
        }
        assert(text::texts(told@) =~= told_sections(*self));
        text::join(&told, "\n\n")
    }
}

/// Only plan mode is told of: in it the reminder comes last, and which of the other modes
/// is active changes nothing.
pub proof fn law_only_plan_mode_reminds(sections: PromptSections, other: PromptSections)
    requires
        sections == (PromptSections { permission_mode: sections.permission_mode, ..other }),
    ensures
        sections.permission_mode is Plan ==> told_sections(sections).len() > 0 && told_sections(
            sections,
        ).last() == "## Mode reminder\n\n"@ + PLAN_MODE_REMINDER@,
        !(sections.permission_mode is Plan) && !(other.permission_mode is Plan) ==> told_sections(
            sections,
        ) == told_sections(other),
{
}

/// The sections of a prompt come in their order, each with its title and without white space
/// around it, and those that say nothing are left out.
pub proof fn law_sections_come_in_order(sections: PromptSections)
    ensures
        ({
            let told = told_sections(sections);
            let base = spoken(sections.base@);
            let instructions = base + spoken(sections.instructions@);
            let memory = instructions + spoken(sections.auto_memory@);
            let skills = memory + if sections.available_skills@.len() > 0 {
                1int
            } else {
                0int
            };
            let active = skills + match sections.active_skill {
                Some(skill) => spoken(skill@),
                None => 0,
            };
            &&& told.len() == active + if sections.permission_mode is Plan {
                1int
            } else {
                0int
            }
            &&& !text::is_blank(sections.base@) ==> told[0] == text::trimmed(sections.base@)
            &&& !text::is_blank(sections.instructions@) ==> told[base]
                == "## Project instructions\n\n"@ + text::trimmed(sections.instructions@)
            &&& !text::is_blank(sections.auto_memory@) ==> told[instructions] == "## Memory\n\n"@
                + text::trimmed(sections.auto_memory@)
            &&& sections.available_skills@.len() > 0 ==> told[memory]
                == "## Available skills\n\n"@ + text::joined(
                text::texts(sections.available_skills@),
                "\n"@,
            )
            &&& sections.active_skill is Some && !text::is_blank((sections.active_skill->0)@)
                ==> told[skills] == "## Active skill\n\n"@ + text::trimmed(
                (sections.active_skill->0)@,
            )
        }),
{
    let base = text::trimmed(sections.base@);
    assert(Seq::<char>::empty() + base =~= base);
}

/// How many sections a text makes: one, unless it is blank.
pub open spec fn spoken(body: Seq<char>) -> int {
    if text::is_blank(body) {
        0
    } else {
        1
    }
}

} // verus!
