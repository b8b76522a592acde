//! The plan file of a workspace.
use vstd::prelude::*;

use crate::text;
use crate::workspace::WorkspacePaths;
use crate::workspace;

verus! {

/// Why a plan could not be read or written.
#[derive(Debug, PartialEq, Eq)]
pub enum PlanError {
    CreateDirectory { path: String },
    Write { path: String },
    Read { path: String },
}

impl PlanError {
    /// What the error says to a reader.
    pub fn message(&self) -> (result: String)
        ensures
            result@ == (match *self {
                PlanError::CreateDirectory { .. } => "failed to create the plans directory"@,
                PlanError::Write { path } => "failed to write plan "@ + path@,
                PlanError::Read { path } => "failed to read plan "@ + path@,
            }),
    {
        match self {
            PlanError::CreateDirectory { .. } => text::copy_text(
                "failed to create the plans directory",
            ),
            PlanError::Write { path } => text::concat("failed to write plan ", path.as_str()),
            PlanError::Read { path } => text::concat("failed to read plan ", path.as_str()),
        }
    }
}

/// Which file of a workspace holds the plan.
#[derive(Debug, Clone, PartialEq, Eq)]
pub struct PlanFileManager {
    work_dir: String,
    selected_path: Option<String>,
}

/// What a [`PlanFileManager`] holds.
#[verifier::ext_equal]
pub struct PlanView {
    pub work_dir: Seq<char>,
    pub selected_path: Option<Seq<char>>,
}

impl View for PlanFileManager {
    type V = PlanView;

    closed spec fn view(&self) -> PlanView {
        PlanView {
            work_dir: self.work_dir@,
            selected_path: text::optional_text(self.selected_path),
        }
    }
}

/// The directory of the plans of a workspace.
pub open spec fn plans_of(work_dir: Seq<char>) -> Seq<char> {
    workspace::path_below(work_dir, ".mycode/plans"@)
}

/// The plan file that is named after a time and a counter.
pub open spec fn plan_file(work_dir: Seq<char>, time: u64, counter: u64) -> Seq<char> {
    workspace::path_below(
        plans_of(work_dir),
        "plan-"@ + workspace::slug_of(time, counter) + ".md"@,
    )
}

impl PlanFileManager {
    /// A manager without a selected plan.
    pub fn new(work_dir: String) -> (manager: Self)
        ensures
            manager@ == (PlanView { work_dir: work_dir@, selected_path: None }),
    {
        PlanFileManager { work_dir, selected_path: None }
    }

    /// Selects a new plan file, named after a time and a counter.
    pub fn select_new_path(&mut self, time: u64, counter: u64) -> (path: String)
        ensures
            path@ == plan_file(old(self)@.work_dir, time, counter),
            final(self)@ == (PlanView { selected_path: Some(path@), ..old(self)@ }),
    {
        let name = text::concat3(
            "plan-",
            workspace::unique_slug(time, counter).as_str(),
            ".md",
        );
        let path = workspace::join_path(self.plans_dir().as_str(), name.as_str());
        self.selected_path = Some(path.clone());
        path
    }

    /// The selected plan file. Where none is selected, a new one is.
    pub fn select_path(&mut self, time: u64, counter: u64) -> (path: String)
        ensures
            path@ == match old(self)@.selected_path {
                Some(selected) => selected,
                None => plan_file(old(self)@.work_dir, time, counter),
            },
            final(self)@ == (PlanView { selected_path: Some(path@), ..old(self)@ }),
    {
        if let Some(path) = &self.selected_path {
            return path.clone();
        }
        self.select_new_path(time, counter)
    }

    /// Selects no plan.
    pub fn reset(&mut self)
        ensures
            final(self)@ == (PlanView { selected_path: None, ..old(self)@ }),
    {
        self.selected_path = None;
    }

    pub fn selected_path(&self) -> (path: Option<&str>)
        ensures
            match path {
                Some(path) => self@.selected_path == Some(path@),
                None => self@.selected_path is None,
            },
    {
        match &self.selected_path {
            Some(path) => Some(path.as_str()),
            None => None,
        }
    }

    /// The directory of the plans.
    pub fn plans_dir(&self) -> (path: String)
        ensures
            path@ == plans_of(self@.work_dir),
    {
        WorkspacePaths::new(self.work_dir.clone()).plans_dir()
    }
}

/// Plans of different times or counters stand in different files.
pub proof fn law_plans_do_not_collide(
    work_dir: Seq<char>,
    time: u64,
    counter: u64,
    other_time: u64,
    other_counter: u64,
)
    requires
        plan_file(work_dir, time, counter) == plan_file(work_dir, other_time, other_counter),
    ensures
        time == other_time,
        counter == other_counter,
{
    reveal_strlit("plan-");
    reveal_strlit(".md");
    let name = "plan-"@ + workspace::slug_of(time, counter) + ".md"@;
    let other = "plan-"@ + workspace::slug_of(other_time, other_counter) + ".md"@;
    let base = plans_of(work_dir);
    assert(name[0] == 'p' && other[0] == 'p');
    let prefix = if base.len() == 0 || base.last() == '/' {
        base
    } else {
        base.push('/')
    };
    assert(plan_file(work_dir, time, counter).skip(prefix.len() as int) =~= name);
    assert(plan_file(work_dir, other_time, other_counter).skip(prefix.len() as int) =~= other);
    assert(name.subrange(5, name.len() - 3) =~= workspace::slug_of(time, counter));
    assert(other.subrange(5, other.len() - 3) =~= workspace::slug_of(other_time, other_counter));
    workspace::law_slugs_are_unique(time, counter, other_time, other_counter);
}

/// A plan stands in the folder for plans of the work directory, under the time and the counter of
/// its making.
pub proof fn law_plans_stand_in_their_folder(work_dir: Seq<char>, time: u64, counter: u64)
    requires
        work_dir.len() > 0,
        work_dir.last() != '/',
    ensures
        plan_file(work_dir, time, counter) == work_dir + "/.mycode/plans/plan-"@ + text::decimal(
            time as nat,
        ) + "-"@ + text::decimal(counter as nat) + ".md"@,
{
    reveal_strlit(".mycode/plans");
    reveal_strlit("/.mycode/plans/plan-");
    reveal_strlit("plan-");
    reveal_strlit(".md");
    let folder = plans_of(work_dir);
    assert(folder.last() == 's');
    assert(plan_file(work_dir, time, counter) =~= work_dir + "/.mycode/plans/plan-"@ + text::decimal(
        time as nat,
    ) + "-"@ + text::decimal(counter as nat) + ".md"@);
}

} // verus!
