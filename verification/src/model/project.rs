//! Projects that runtimes belong to.

use vstd::prelude::*;

verus! {

/// A detected project root (usually a git work tree).
#[derive(Debug, Clone, PartialEq, Eq)]
pub struct Project {
    pub name: String,
    pub root: String,
}

/// A project as a model.
pub struct ProjectModel {
    pub name: Seq<char>,
    pub root: Seq<char>,
}

impl View for Project {
    type V = ProjectModel;

    open spec fn view(&self) -> ProjectModel {
        ProjectModel { name: self.name@, root: self.root@ }
    }
}

/// The model of an optional project.
pub open spec fn project_view(p: Option<Project>) -> Option<ProjectModel> {
    match p {
        Some(p) => Some(p@),
        None => None,
    }
}

impl Project {
    pub fn copy(&self) -> (r: Project)
        ensures
            r == *self,
    {
        Project { name: self.name.clone(), root: self.root.clone() }
    }
}

/// A copy of an optional project.
pub fn copy_project(p: &Option<Project>) -> (r: Option<Project>)
    ensures
        r == *p,
{
    match p {
        Some(p) => Some(p.copy()),
        None => None,
    }
}

} // verus!
