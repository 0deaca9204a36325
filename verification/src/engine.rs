//! The workflow engine: the ordered step list, the cursor that marks the next
//! step of sequential execution, the variable store, the rule that finishes a
//! dispatched step (status check, body parse, extraction), the cursor policy
//! for each execution mode, and the reload-merge policy.

use vstd::prelude::*;
use crate::extract::{extract, spec_extract};
use crate::json::{JsonModel, JsonValue};
use crate::step::{parse_body, response_tree, Outcome, Step, StepError};
use crate::store::VarStore;

verus! {

/// A loaded workflow definition: the declared steps in order and the declared
/// variables.
pub struct Workflow {
    pub steps: Vec<Step>,
    pub vars: VarStore,
}

/// The engine's whole mutable state. The cursor marks the next step of
/// sequential execution; `cursor == steps.len()` (or beyond, after a reload
/// that shortened the list) means the workflow is complete.
pub struct Engine {
    pub steps: Vec<Step>,
    pub cursor: usize,
    pub vars: VarStore,
}

/// The store after the `save_as`/`extract_path` pair of a step, if declared
/// and if its path yields a value.
pub open spec fn extract_single(
    save_as: Option<String>,
    extract_path: Option<String>,
    tree: JsonModel,
    vars: Map<Seq<char>, Seq<char>>,
) -> Map<Seq<char>, Seq<char>> {
    match (save_as, extract_path) {
        (Some(name), Some(path)) => match spec_extract(tree, path@) {
            Some(val) => vars.insert(name@, val),
            None => vars,
        },
        _ => vars,
    }
}

/// How many values the `save_as`/`extract_path` pair saves: one or none.
pub open spec fn count_single(
    save_as: Option<String>,
    extract_path: Option<String>,
    tree: JsonModel,
) -> nat {
    match (save_as, extract_path) {
        (Some(name), Some(path)) => match spec_extract(tree, path@) {
            Some(val) => 1nat,
            None => 0nat,
        },
        _ => 0nat,
    }
}

/// The store after the `save_multiple` entries, each extracted independently
/// in order; an entry whose path yields nothing is skipped without failing.
pub open spec fn extract_multi(
    entries: Seq<(String, String)>,
    tree: JsonModel,
    vars: Map<Seq<char>, Seq<char>>,
) -> Map<Seq<char>, Seq<char>>
    decreases entries.len(),
{
    if entries.len() == 0 {
        vars
    } else {
        let next = match spec_extract(tree, entries[0].1@) {
            Some(val) => vars.insert(entries[0].0@, val),
            None => vars,
        };
        extract_multi(entries.skip(1), tree, next)
    }
}

/// How many of the `save_multiple` entries save a value.
pub open spec fn count_multi(entries: Seq<(String, String)>, tree: JsonModel) -> nat
    decreases entries.len(),
{
    if entries.len() == 0 {
        0nat
    } else {
        (match spec_extract(tree, entries[0].1@) {
            Some(val) => 1nat,
            None => 0nat,
        }) + count_multi(entries.skip(1), tree)
    }
}

/// The store after every extraction a step declares, against one response
/// tree: the `save_as` pair first, then the `save_multiple` entries in order.
pub open spec fn vars_after_step(
    step: Step,
    tree: JsonModel,
    vars: Map<Seq<char>, Seq<char>>,
) -> Map<Seq<char>, Seq<char>> {
    extract_multi(
        step.save_multiple@,
        tree,
        extract_single(step.save_as, step.extract_path, tree, vars),
    )
}

/// How many values a step's extractions save against one response tree.
pub open spec fn step_extract_count(step: Step, tree: JsonModel) -> nat {
    count_single(step.save_as, step.extract_path, tree) + count_multi(step.save_multiple@, tree)
}

/// Where the cursor stands after a step at `index` ends with `outcome`.
/// Sequential execution (and a jump that happened to hit the cursor) advances
/// past a completed step; a batch run also advances past a skipped one; a
/// failed step never moves the cursor, so it can be retried.
pub open spec fn next_cursor(cursor: int, index: int, outcome: Outcome, batch: bool) -> int {
    match outcome {
        Outcome::Completed(_) => if index == cursor {
            index + 1
        } else {
            cursor
        },
        Outcome::Cancelled => if batch && index == cursor {
            index + 1
        } else {
            cursor
        },
        Outcome::Failed => cursor,
    }
}

impl Engine {
    /// An engine over a loaded workflow, with the cursor at `start_from`.
    pub fn new(workflow: Workflow, start_from: usize) -> (r: Engine)
        ensures
            r.steps == workflow.steps,
            r.vars == workflow.vars,
            r.cursor == start_from,
    {
        Engine { steps: workflow.steps, cursor: start_from, vars: workflow.vars }
    }

    /// How many steps the workflow has.
    pub fn step_count(&self) -> (r: usize)
        ensures
            r == self.steps@.len(),
    {
        self.steps.len()
    }

    /// Whether sequential execution is past the last step.
    pub fn is_complete(&self) -> (r: bool)
        ensures
            r == (self.cursor >= self.steps@.len()),
    {
        self.cursor >= self.steps.len()
    }

    /// Finishes a dispatched step from its transport result: checks the
    /// status, parses the body, performs the declared extractions, and says
    /// how many variables were saved. On any failure the store is untouched —
    /// in particular a wrong status skips extraction entirely, whatever the
    /// body holds.
    #[verifier::loop_isolation(false)]
    pub fn complete_step(&mut self, index: usize, status: u16, body: String) -> (r: Result<
        usize,
        StepError,
    >)
        requires
            index < old(self).steps@.len(),
            old(self).steps@[index as int].save_multiple@.len() < usize::MAX,
        ensures
            final(self).steps == old(self).steps,
            final(self).cursor == old(self).cursor,
            match r {
                Ok(count) => {
                    &&& status == old(self).steps@[index as int].expected_status
                    &&& match response_tree(body@) {
                        Some(tree) => final(self).vars@ == vars_after_step(
                            old(self).steps@[index as int],
                            tree,
                            old(self).vars@,
                        ) && count == step_extract_count(old(self).steps@[index as int], tree),
                        None => false,
                    }
                },
                Err(e) => final(self).vars == old(self).vars && match e {
                    StepError::UnexpectedStatus { expected, actual, body: b } => {
                        &&& expected == old(self).steps@[index as int].expected_status
                        &&& actual == status
                        &&& status != expected
                        &&& b == body
                    },
                    StepError::MalformedResponse { body: b } => {
                        &&& status == old(self).steps@[index as int].expected_status
                        &&& response_tree(body@) is None
                        &&& b == body
                    },
                    _ => false,
                },
            },
    {
        let ghost step0 = self.steps@[index as int];
        let ghost vars0 = self.vars@;
        let expected = self.steps[index].expected_status;
        if status != expected {
            return Err(StepError::UnexpectedStatus { expected, actual: status, body });
        }
        let tree = match parse_body(body.as_str()) {
            Some(t) => t,
            None => {
                return Err(StepError::MalformedResponse { body });
            }
        };
        let ghost tm = tree@;
        let mut count: usize = 0;
        let save_as = match &self.steps[index].save_as {
            Some(n) => Some(n.clone()),
            None => None,
        };
        let extract_path = match &self.steps[index].extract_path {
            Some(p) => Some(p.clone()),
            None => None,
        };
        match (save_as, extract_path) {
            (Some(name), Some(path)) => {
                match extract(&tree, path.as_str()) {
                    Some(val) => {
                        self.vars.set(name.as_str(), val);
                        count = 1;
                    }
                    None => {}
                }
            }
            _ => {}
        }
        proof {
            assert(self.vars@ == extract_single(step0.save_as, step0.extract_path, tm, vars0));
            assert(count == count_single(step0.save_as, step0.extract_path, tm));
        }
        let ghost sm = step0.save_multiple@;
        let n = self.steps[index].save_multiple.len();
        let mut i: usize = 0;
        proof {
            assert(sm.skip(0) =~= sm);
        }
        while i < n
            invariant
                i <= n,
                n == sm.len(),
                self.steps == old(self).steps,
                self.cursor == old(self).cursor,
                count <= i + 1,
                vars_after_step(step0, tm, vars0) == extract_multi(sm.skip(i as int), tm, self.vars@),
                step_extract_count(step0, tm) == count + count_multi(sm.skip(i as int), tm),
            decreases n - i,
        {
            proof {
                assert(sm.skip(i as int)[0] == sm[i as int]);
                assert(sm.skip(i as int).skip(1) =~= sm.skip(i as int + 1));
            }
            let name = self.steps[index].save_multiple[i].0.clone();
            let path = self.steps[index].save_multiple[i].1.clone();
            match extract(&tree, path.as_str()) {
                Some(val) => {
                    self.vars.set(name.as_str(), val);
                    count = count + 1;
                }
                None => {}
            }
            i = i + 1;
        }
        proof {
            assert(sm.skip(n as int) =~= Seq::<(String, String)>::empty());
        }
        Ok(count)
    }

    /// Moves the cursor as the mode's policy says after a step at `index`
    /// ended with `outcome`; steps and variables are untouched.
    pub fn record_outcome(&mut self, index: usize, outcome: &Outcome, batch: bool)
        requires
            index < old(self).steps@.len(),
        ensures
            final(self).steps == old(self).steps,
            final(self).vars == old(self).vars,
            final(self).cursor as int == next_cursor(
                old(self).cursor as int,
                index as int,
                *outcome,
                batch,
            ),
    {
        let limit = self.steps.len();
        proof {
            assert(index < limit);
        }
        match outcome {
            Outcome::Completed(_) => {
                if index == self.cursor {
                    self.cursor = index + 1;
                }
            }
            Outcome::Cancelled => {
                if batch && index == self.cursor {
                    self.cursor = index + 1;
                }
            }
            Outcome::Failed => {}
        }
    }

    /// Applies a reload: a parsed definition replaces the step list wholesale
    /// and the declared variables are merged under the in-memory store, so
    /// runtime-learned values win over file-declared ones of the same name; a
    /// failed parse (`None`) leaves the engine exactly as it was. The cursor
    /// is never touched or validated against the new step count.
    pub fn reload(&mut self, loaded: Option<Workflow>)
        ensures
            loaded is None ==> *final(self) == *old(self),
            match loaded {
                Some(w) => {
                    &&& final(self).steps == w.steps
                    &&& final(self).cursor == old(self).cursor
                    &&& forall|k: Seq<char>| #[trigger] old(self).vars@.contains_key(k)
                        ==> final(self).vars@.contains_key(k) && final(self).vars@[k] == old(
                        self,
                    ).vars@[k]
                    &&& forall|k: Seq<char>| #[trigger] w.vars@.contains_key(k)
                        ==> final(self).vars@.contains_key(k)
                    &&& forall|k: Seq<char>| #[trigger] final(self).vars@.contains_key(k) ==> old(
                        self,
                    ).vars@.contains_key(k) || w.vars@.contains_key(k)
                    &&& forall|k: Seq<char>|
                        #[trigger] final(self).vars@.contains_key(k) && !old(
                            self,
                        ).vars@.contains_key(k) ==> final(self).vars@[k] == w.vars@[k]
                },
                None => true,
            },
    {
        match loaded {
            None => {}
            Some(w) => {
                self.steps = w.steps;
                self.vars.merge_preserving_existing(&w.vars);
            }
        }
    }
}

} // verus!
