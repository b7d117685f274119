use vstd::prelude::*;
use crate::drip::Drip;
use crate::error::Error;
use crate::synth::{is_leaf_plan, plan_drip, AtomMode, AtomTask, LeafPlan, TaskArrow};

verus! {

/// Carries out the arrows of one drip, from the repo onto the site. It never
/// asks before replacing anything: confirmation is its caller's business.
pub struct Executor<'a> {
    /// where the root of the repo is, globally
    pub repo: &'a str,
    /// the drip to carry out
    pub drip: &'a Drip,
}

impl<'a> Executor<'a> {
    /// What each arrow asks for when the site is brought in line with the repo.
    pub fn plan(&self) -> (r: Vec<LeafPlan>)
        ensures
            r@.len() == self.drip.arrows@.len(),
            forall|i: int|
                0 <= i < r@.len() ==> is_leaf_plan(self.repo@, *self.drip, #[trigger] self.drip.arrows@[i], TaskArrow::RepoToSite, r@[i]),
    {
        plan_drip(self.repo, self.drip, TaskArrow::RepoToSite)
    }

    /// Whether a clone into `dst` may go ahead: not over an existing path.
    pub fn check_clone(dst: &str, dst_exists: bool) -> (r: Result<(), Error>)
        ensures
            r is Ok <==> !dst_exists,
            r matches Err(e) ==> (e matches Error::DestinationExists(d) && d@ == dst@),
    {
        if dst_exists {
            return Err(Error::DestinationExists(String::from_str(dst)));
        }
        Ok(())
    }

    /// Whether `task` may go ahead, given whether its two ends exist. A link
    /// needs its source and must not replace its destination; a copy
    /// overwrites.
    pub fn check_task(task: &AtomTask, src_exists: bool, dst_exists: bool) -> (r: Result<(), Error>)
        ensures
            task.mode == AtomMode::FileCopy ==> r is Ok,
            task.mode == AtomMode::Link ==> {
                &&& !src_exists ==> r == Err::<(), Error>(Error::MissingSource(task.src))
                &&& src_exists && dst_exists ==> r == Err::<(), Error>(Error::DestinationExists(task.dst))
                &&& src_exists && !dst_exists ==> r is Ok
            },
    {
        match task.mode {
            AtomMode::FileCopy => Ok(()),
            AtomMode::Link => {
                if !src_exists {
                    Err(Error::MissingSource(task.src.clone()))
                } else if dst_exists {
                    Err(Error::DestinationExists(task.dst.clone()))
                } else {
                    Ok(())
                }
            },
        }
    }
}

} // verus!
