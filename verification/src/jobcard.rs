//! A production job's identity and progress counters.

use vstd::prelude::*;

use crate::error::is_invalid_field;
use crate::error::OpenProtocolError;
use crate::validate::check_string_empty;

verus! {

use vstd::string::StringExecFns;

/// A single job card: job identity, mold, and progress counters.  Whether
/// `progress` stays at or under `total` is a caller expectation, not an
/// invariant this type enforces.
#[derive(Clone, Debug, PartialEq)]
pub struct JobCard {
    /// Unique job ID, which cannot be empty.
    pub job_card_id: String,
    /// ID of the set of mold data to load for this job, which cannot be
    /// empty.
    pub mold_id: String,
    /// Current production progress, in number of molded parts.
    pub progress: u32,
    /// Total number of parts to mold.
    pub total: u32,
}

/// Mathematical model of a `JobCard`.
pub struct JobCardView {
    pub job_card_id: Seq<char>,
    pub mold_id: Seq<char>,
    pub progress: u32,
    pub total: u32,
}

impl View for JobCard {
    type V = JobCardView;

    open spec fn view(&self) -> JobCardView {
        JobCardView {
            job_card_id: self.job_card_id@,
            mold_id: self.mold_id@,
            progress: self.progress,
            total: self.total,
        }
    }
}

/// Well-formed job card: both identifiers non-empty.
pub open spec fn jobcard_wf(j: JobCardView) -> bool {
    j.job_card_id.len() > 0 && j.mold_id.len() > 0
}

impl JobCard {
    /// Builds a job card from its parts.
    pub fn new(job_card_id: &str, mold_id: &str, progress: u32, total: u32) -> (r: JobCard)
        ensures
            r.job_card_id@ == job_card_id@,
            r.mold_id@ == mold_id@,
            r.progress == progress,
            r.total == total,
    {
        JobCard {
            job_card_id: String::from_str(job_card_id),
            mold_id: String::from_str(mold_id),
            progress,
            total,
        }
    }

    /// Decides `jobcard_wf` exactly.
    pub fn check(&self) -> (r: Result<(), OpenProtocolError>)
        ensures
            r is Ok <==> jobcard_wf(self@),
            r matches Err(e) ==> ({
                if self.job_card_id@.len() == 0 {
                    is_invalid_field(e, "job_card_id"@, self.job_card_id@, "cannot be empty"@)
                } else {
                    is_invalid_field(e, "mold_id"@, self.mold_id@, "cannot be empty"@)
                }
            }),
    {
        match check_string_empty(self.job_card_id.as_str(), "job_card_id") {
            Err(e) => {
                return Err(e);
            },
            Ok(()) => {},
        }
        match check_string_empty(self.mold_id.as_str(), "mold_id") {
            Err(e) => {
                return Err(e);
            },
            Ok(()) => {},
        }
        Ok(())
    }
}

} // verus!
