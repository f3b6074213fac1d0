//! Putting a new build in the program's place, one step at a time.
//!
//! A running program cannot be overwritten on Windows, but it can be
//! renamed. So the new build is written beside it, the running one is moved
//! aside, and the new one takes its name. The caller performs each step and
//! says whether it worked.

use vstd::prelude::*;

verus! {

/// What is to be done next.
#[derive(Debug, Clone, Copy, PartialEq, Eq, Structural)]
pub enum Step {
    /// Write the new build beside the program.
    Stage,
    /// Make it a program, where a file has to be made one.
    Permit,
    /// Remove what an earlier update moved aside.
    Clear,
    /// Move the program aside.
    SetAside,
    /// Give the new build the program's name.
    PutInPlace,
    /// Give the program its name back.
    PutBack,
    /// Remove the new build.
    Discard,
    /// The new build is in place.
    Done,
    /// The program is what it was.
    Failed,
}

impl Step {
    /// What follows a step. Only where the new build could not take the
    /// program's name is there anything to undo.
    pub open spec fn spec_next(self, worked: bool) -> Step {
        match self {
            Step::Stage => if worked {
                Step::Permit
            } else {
                Step::Failed
            },
            Step::Permit => if worked {
                Step::Clear
            } else {
                Step::Failed
            },
            Step::Clear => Step::SetAside,
            Step::SetAside => if worked {
                Step::PutInPlace
            } else {
                Step::Failed
            },
            Step::PutInPlace => if worked {
                Step::Done
            } else {
                Step::PutBack
            },
            Step::PutBack => Step::Discard,
            Step::Discard => Step::Failed,
            Step::Done => Step::Done,
            Step::Failed => Step::Failed,
        }
    }

    /// The first step.
    pub fn first() -> (r: Step)
        ensures
            r == Step::Stage,
    {
        Step::Stage
    }

    /// The step that follows, given whether this one worked.
    pub fn next(self, worked: bool) -> (r: Step)
        ensures
            r == self.spec_next(worked),
    {
        match self {
            Step::Stage => if worked {
                Step::Permit
            } else {
                Step::Failed
            },
            Step::Permit => if worked {
                Step::Clear
            } else {
                Step::Failed
            },
            Step::Clear => Step::SetAside,
            Step::SetAside => if worked {
                Step::PutInPlace
            } else {
                Step::Failed
            },
            Step::PutInPlace => if worked {
                Step::Done
            } else {
                Step::PutBack
            },
            Step::PutBack => Step::Discard,
            Step::Discard => Step::Failed,
            Step::Done => Step::Done,
            Step::Failed => Step::Failed,
        }
    }

    /// Whether the failure of this step is why there is no update. Clearing
    /// away and undoing are tried, and that is all.
    pub fn decides(self) -> (r: bool)
        ensures
            r == (self.spec_next(true) != self.spec_next(false)),
    {
        match self {
            Step::Stage | Step::Permit | Step::SetAside | Step::PutInPlace => true,
            Step::Clear | Step::PutBack | Step::Discard | Step::Done | Step::Failed => false,
        }
    }
}

/// What stands under each name.
#[verifier::ext_equal]
pub struct Files {
    pub program: Option<Seq<u8>>,
    pub staged: Option<Seq<u8>>,
    pub aside: Option<Seq<u8>>,
}

impl Files {
    /// What a step makes of the files. A step that fails leaves them as
    /// they are, but for writing, which may leave `partial` behind.
    pub open spec fn after(self, step: Step, worked: bool, build: Seq<u8>, partial: Option<Seq<u8>>) -> Files {
        if !worked {
            if step is Stage {
                Files { staged: partial, ..self }
            } else {
                self
            }
        } else {
            match step {
                Step::Stage => Files { staged: Some(build), ..self },
                Step::Clear => Files { aside: None, ..self },
                Step::SetAside => Files { program: None, aside: self.program, ..self },
                Step::PutInPlace => Files { program: self.staged, staged: None, ..self },
                Step::PutBack => Files { program: self.aside, aside: None, ..self },
                Step::Discard => Files { staged: None, ..self },
                _ => self,
            }
        }
    }
}

/// Where a replacement ends, given which steps work, and the files then.
pub open spec fn replaced(
    files: Files,
    step: Step,
    works: spec_fn(Step) -> bool,
    build: Seq<u8>,
    partial: Option<Seq<u8>>,
) -> (Step, Files)
    decreases remaining(step),
{
    if step is Done || step is Failed {
        (step, files)
    } else {
        replaced(
            files.after(step, works(step), build, partial),
            step.spec_next(works(step)),
            works,
            build,
            partial,
        )
    }
}

/// How many steps there can still be.
pub open spec fn remaining(step: Step) -> nat {
    match step {
        Step::Stage => 7,
        Step::Permit => 6,
        Step::Clear => 5,
        Step::SetAside => 4,
        Step::PutInPlace => 3,
        Step::PutBack => 2,
        Step::Discard => 1,
        Step::Done => 0,
        Step::Failed => 0,
    }
}

/// A finished replacement has the new build in the program's place and the
/// old one beside it, and leaves nothing else behind.
pub proof fn law_the_old_build_is_kept_beside_the_new_one(
    files: Files,
    works: spec_fn(Step) -> bool,
    build: Seq<u8>,
    partial: Option<Seq<u8>>,
)
    requires
        files.program is Some,
        replaced(files, Step::Stage, works, build, partial).0 is Done,
    ensures
        replaced(files, Step::Stage, works, build, partial).1 == (Files {
            program: Some(build),
            staged: None,
            aside: files.program,
        }),
{
    reveal_with_fuel(replaced, 9);
}

/// A replacement that failed leaves the program as it was; only if the
/// undoing fails too does it stand under the other name.
pub proof fn law_a_failed_replacement_loses_nothing(
    files: Files,
    works: spec_fn(Step) -> bool,
    build: Seq<u8>,
    partial: Option<Seq<u8>>,
)
    requires
        files.program is Some,
        replaced(files, Step::Stage, works, build, partial).0 is Failed,
    ensures
        ({
            let after = replaced(files, Step::Stage, works, build, partial).1;
            ||| after.program == files.program
            ||| !works(Step::PutInPlace) && !works(Step::PutBack) && after.aside == files.program
        }),
{
    reveal_with_fuel(replaced, 9);
}

/// Every replacement ends, one way or the other.
pub proof fn law_a_replacement_ends(
    files: Files,
    step: Step,
    works: spec_fn(Step) -> bool,
    build: Seq<u8>,
    partial: Option<Seq<u8>>,
)
    ensures
        replaced(files, step, works, build, partial).0 is Done || replaced(
            files,
            step,
            works,
            build,
            partial,
        ).0 is Failed,
    decreases remaining(step),
{
    if !(step is Done || step is Failed) {
        law_a_replacement_ends(
            files.after(step, works(step), build, partial),
            step.spec_next(works(step)),
            works,
            build,
            partial,
        );
    }
}

/// A replacement succeeds exactly if the new build can be written, made a
/// program and given the program's name, and the old one can be moved aside.
/// That nothing could be cleared away does not stop it.
pub proof fn law_a_replacement_succeeds_if_its_steps_do(
    files: Files,
    works: spec_fn(Step) -> bool,
    build: Seq<u8>,
    partial: Option<Seq<u8>>,
)
    ensures
        replaced(files, Step::Stage, works, build, partial).0 is Done <==> works(Step::Stage) && works(Step::Permit)
            && works(Step::SetAside) && works(Step::PutInPlace),
{
    reveal_with_fuel(replaced, 9);
}

/// What an earlier update left is cleared away before the program is moved
/// aside, and a new build that could not take the program's name is removed
/// after the program has its name back.
pub proof fn law_a_replacement_clears_up(
    files: Files,
    works: spec_fn(Step) -> bool,
    build: Seq<u8>,
    partial: Option<Seq<u8>>,
)
    ensures
        ({
            let after = replaced(files, Step::Stage, works, build, partial).1;
            &&& works(Step::Stage) && works(Step::Permit) && works(Step::Clear) && !works(Step::SetAside)
                ==> after.aside is None
            &&& works(Step::Stage) && works(Step::Permit) && works(Step::SetAside) && !works(Step::PutInPlace) && works(
                Step::PutBack,
            ) && works(Step::Discard) ==> after == (Files { program: files.program, staged: None, aside: None })
            &&& !works(Step::Stage) ==> after == (Files { staged: partial, ..files })
            &&& works(Step::Stage) && !works(Step::Permit) ==> after == (Files { staged: Some(build), ..files })
        }),
{
    reveal_with_fuel(replaced, 9);
}

} // verus!
