//! The job that refreshes the resources of components, as a list of steps.

use vstd::prelude::*;
use crate::visibility::{Instant, Visibility};
use crate::ws_event::{ComponentId, WsPayload};

verus! {

/// Why a job cannot be taken up or carried out.
#[derive(Clone, Copy, Debug, PartialEq, Eq)]
pub enum JobConsumerError {
    /// The job does not have the three arguments of a refresh job; it has this many.
    InvalidArguments(usize),
    ComponentNotFound(ComponentId),
}

/// What a refresh job does next.
#[derive(Clone, Debug, PartialEq, Eq)]
pub enum RefreshStep {
    /// Refresh the resource of this component, publish that it was
    /// refreshed, and commit.
    Refresh { component_id: ComponentId, event: WsPayload },
    /// Nothing is left to do.
    Done,
}

/// How a run of a refresh job ends.
#[derive(Clone, Copy, Debug, PartialEq, Eq)]
pub struct RefreshRun {
    /// How many components were refreshed, each with its event published
    /// and its commit made.
    pub refreshed: usize,
    /// `Ok` where all were; else the component that was not there.
    pub result: Result<(), JobConsumerError>,
}

/// Whether the component at position `i` is there, as `present` tells; a
/// component of which `present` tells nothing is not.
pub open spec fn is_present(present: Seq<bool>, i: int) -> bool {
    0 <= i < present.len() && present[i]
}

/// The position of the first component from `i` on that is not there, or
/// the number of components where all from `i` on are there.
pub open spec fn first_missing(ids: Seq<ComponentId>, present: Seq<bool>, i: int) -> int
    decreases ids.len() - i,
{
    if i < 0 || i >= ids.len() {
        ids.len() as int
    } else if is_present(present, i) {
        first_missing(ids, present, i + 1)
    } else {
        i
    }
}

#[derive(Clone, Debug, PartialEq, Eq)]
pub struct RefreshJob {
    pub(crate) component_ids: Vec<ComponentId>,
    pub(crate) visibility: Visibility,
}

impl RefreshJob {
    pub open(crate) spec fn spec_component_ids(&self) -> Seq<ComponentId> {
        self.component_ids@
    }

    pub open(crate) spec fn spec_visibility(&self) -> Visibility {
        self.visibility
    }

    pub fn new(visibility: Visibility, component_ids: Vec<ComponentId>) -> (job: RefreshJob)
        ensures
            job.spec_component_ids() == component_ids@,
            job.spec_visibility() == visibility,
    {
        RefreshJob { component_ids, visibility }
    }

    /// A refresh job takes three arguments: the components, who asks, and
    /// from where it looks.
    pub fn check_arguments(count: usize) -> (r: Result<(), JobConsumerError>)
        ensures
            r == if count == 3 {
                Ok::<(), JobConsumerError>(())
            } else {
                Err(JobConsumerError::InvalidArguments(count))
            },
    {
        if count != 3 {
            Err(JobConsumerError::InvalidArguments(count))
        } else {
            Ok(())
        }
    }

    pub fn job_name(&self) -> (name: String)
        ensures
            name@ == "RefreshJob"@,
    {
        String::from_str("RefreshJob")
    }

    /// How often the job is tried again: never.
    pub fn retry(&self) -> (r: Option<u32>)
        ensures
            r == Some(0u32),
    {
        Some(0)
    }

    pub fn visibility(&self) -> (v: Visibility)
        ensures
            v == self.spec_visibility(),
    {
        self.visibility
    }

    pub fn component_ids(&self) -> (ids: &Vec<ComponentId>)
        ensures
            ids@ == self.spec_component_ids(),
    {
        &self.component_ids
    }

    /// The standpoint from which the job works: that of the job, with
    /// deleted records in sight as of `now`.
    pub fn working_visibility(&self, now: Instant) -> (v: Visibility)
        ensures
            v == (Visibility {
                change_set_pk: self.spec_visibility().change_set_pk,
                deleted_at: Some(now),
            }),
    {
        Visibility::new(self.visibility.change_set_pk, Some(now))
    }

    /// What the job does after `done` of its components are refreshed.
    pub fn step(&self, done: usize) -> (s: RefreshStep)
        ensures
            s == if done < self.spec_component_ids().len() {
                RefreshStep::Refresh {
                    component_id: self.spec_component_ids()[done as int],
                    event: WsPayload::ResourceRefreshed(self.spec_component_ids()[done as int]),
                }
            } else {
                RefreshStep::Done
            },
    {
        if done < self.component_ids.len() {
            let component_id = self.component_ids[done];
            RefreshStep::Refresh { component_id, event: WsPayload::ResourceRefreshed(component_id) }
        } else {
            RefreshStep::Done
        }
    }

    /// How a run of the job ends where `present` tells, for each component
    /// in turn, whether it is there: the components are refreshed in their
    /// order, each with its event and its commit, up to the first that is
    /// not there, which is the error of the run. A job without components
    /// refreshes nothing, commits nothing and ends well.
    pub fn run(&self, present: &Vec<bool>) -> (r: RefreshRun)
        ensures
            r.refreshed == first_missing(self.spec_component_ids(), present@, 0),
            r.refreshed <= self.spec_component_ids().len(),
            r.result == if r.refreshed == self.spec_component_ids().len() {
                Ok::<(), JobConsumerError>(())
            } else {
                Err(
                    JobConsumerError::ComponentNotFound(
                        self.spec_component_ids()[r.refreshed as int],
                    ),
                )
            },
    {
        let mut done: usize = 0;
        while done < self.component_ids.len()
            invariant
                done <= self.component_ids@.len(),
                first_missing(self.component_ids@, present@, 0) == first_missing(
                    self.component_ids@,
                    present@,
                    done as int,
                ),
            decreases self.component_ids@.len() - done,
        {
            if !(done < present.len() && present[done]) {
                return RefreshRun {
                    refreshed: done,
                    result: Err(JobConsumerError::ComponentNotFound(self.component_ids[done])),
                };
            }
            done += 1;
        }
        RefreshRun { refreshed: done, result: Ok(()) }
    }

    /// The error for a component that the job was to refresh and that is not there.
    pub fn missing(component_id: ComponentId) -> (e: JobConsumerError)
        ensures
            e == JobConsumerError::ComponentNotFound(component_id),
    {
        JobConsumerError::ComponentNotFound(component_id)
    }
}

} // verus!
