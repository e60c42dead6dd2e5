//! Evaluation of a candidate by configured checks.
use vstd::prelude::*;
use crate::common::ProcessStatus;
use crate::error::Error;
use crate::text::{is_blank, is_blank_spec, contains_any, contains_any_spec};

verus! {

/// The checks that decide whether a task succeeded: shell scripts run in order.
#[derive(Clone, Debug)]
pub struct EvaluationSpec {
    pub checks: Vec<String>,
}

/// A check is acceptable when it is not blank and holds no NUL character.
pub open spec fn check_ok(c: Seq<char>) -> bool {
    !is_blank_spec(c) && !contains_any_spec(c, seq!['\0'])
}

impl EvaluationSpec {
    /// Every check must be a nonempty script without NUL characters.
    pub fn validate(&self) -> (r: Result<(), Error>)
        ensures
            r is Ok <==> forall|i: int| 0 <= i < self.checks@.len() ==> check_ok(#[trigger] self.checks@[i]@),
            r matches Err(e) ==> e is InvalidInput
                && e.message_spec() == "Checks must be nonempty shell scripts without NUL bytes"@,
    {
        let nul = ['\0'];
        assert(nul@ =~= seq!['\0']);
        let mut i: usize = 0;
        while i < self.checks.len()
            invariant
                i <= self.checks@.len(),
                nul@ == seq!['\0'],
                forall|j: int| 0 <= j < i ==> check_ok(#[trigger] self.checks@[j]@),
            decreases self.checks.len() - i,
        {
            let c = self.checks[i].as_str();
            if is_blank(c) || contains_any(c, &nul) {
                return Err(Error::InvalidInput(String::from_str("Checks must be nonempty shell scripts without NUL bytes")));
            }
            i = i + 1;
        }
        Ok(())
    }

    /// Both specifications hold the same checks, in the same order.
    pub fn same_checks(&self, other: &Self) -> (r: bool)
        ensures
            r == (crate::text::views(self.checks@) == crate::text::views(other.checks@)),
    {
        if self.checks.len() != other.checks.len() {
            proof {
                assert(crate::text::views(self.checks@).len() != crate::text::views(other.checks@).len());
            }
            return false;
        }
        let mut i: usize = 0;
        while i < self.checks.len()
            invariant
                i <= self.checks@.len(),
                self.checks@.len() == other.checks@.len(),
                forall|j: int| 0 <= j < i ==> self.checks@[j]@ == other.checks@[j]@,
            decreases self.checks.len() - i,
        {
            if !crate::text::str_eq(self.checks[i].as_str(), other.checks[i].as_str()) {
                proof {
                    assert(crate::text::views(self.checks@)[i as int] != crate::text::views(other.checks@)[i as int]);
                }
                return false;
            }
            i = i + 1;
        }
        assert(crate::text::views(self.checks@) =~= crate::text::views(other.checks@));
        true
    }
}

#[derive(Clone, Copy, Debug, PartialEq, Eq, Structural)]
pub enum EvaluationStatus {
    Completed,
    NotConfigured,
    Interrupted,
    TimedOut,
}

#[derive(Clone, Copy, Debug, PartialEq, Eq, Structural)]
pub enum CheckStatus {
    Passed,
    Failed,
    Interrupted,
    TimedOut,
    NotRun,
}

/// The outcome of one check; `action` names the recorded process action, when one ran.
#[derive(Clone, Debug)]
pub struct CheckResult {
    pub name: String,
    pub command: String,
    pub status: CheckStatus,
    pub action: Option<String>,
}

#[derive(Clone, Debug)]
pub struct Evaluation {
    pub id: String,
    pub spec: EvaluationSpec,
    pub status: EvaluationStatus,
    pub success: bool,
    pub checks: Vec<CheckResult>,
    pub summary: String,
}

} // verus!
