//! The course of an operation over its two stores, the catalogue file and the
//! target style sheet: which outside steps it takes, which restorations follow
//! the failure of a step, and what is reported in the end.
//!
//! Each style is one transaction. The stores are written one after the other,
//! so a failure may leave them apart; the restorations then write back the
//! copies that were taken before the first step.

use vstd::prelude::*;
use crate::config::restore_config;
use crate::errors::{message_of, Error};
use crate::update::{config_lost, file_lost, recover_failure};

verus! {

/// The operations on a style.
#[derive(Clone, Copy, Debug, PartialEq, Eq, Structural)]
pub enum Operation {
    Add,
    Remove,
    Update,
    Toggle,
}

/// The outside steps of an operation.
#[derive(Clone, Copy, Debug, PartialEq, Eq, Structural)]
pub enum Step {
    /// Write the catalogue as the operation has changed it.
    WriteCatalogue,
    /// Append the style's region to its target.
    AppendRegion,
    /// Write the target without the style's region.
    RewriteTarget,
    /// Fetch the style's CSS and resolve its settings.
    Resolve,
    /// Update the style, as an operation of its own.
    Update,
}

/// The stores to restore from their copies.
#[derive(Clone, Copy, Debug, PartialEq, Eq, Structural)]
pub struct Restoration {
    pub catalogue: bool,
    pub target: bool,
}

/// The steps of `operation`, in order. `config_only` says that the style is
/// disabled, so that it gets no region; `target_present` says that its target
/// could be opened, so that there may be a region to take out.
pub open spec fn plan_of(operation: Operation, config_only: bool, target_present: bool) -> Seq<
    Step,
> {
    let append = if config_only {
        Seq::<Step>::empty()
    } else {
        seq![Step::AppendRegion]
    };
    let rewrite = if target_present {
        seq![Step::RewriteTarget]
    } else {
        Seq::<Step>::empty()
    };
    match operation {
        Operation::Add => seq![Step::WriteCatalogue] + append,
        Operation::Remove => seq![Step::WriteCatalogue] + rewrite,
        Operation::Update => seq![Step::WriteCatalogue] + rewrite + seq![
            Step::Resolve,
            Step::WriteCatalogue,
        ] + append,
        Operation::Toggle => seq![Step::WriteCatalogue, Step::Update],
    }
}

/// What is restored when `failed` fails in `operation`. An update restores both
/// stores, whichever step fails. The other operations restore the catalogue when
/// the step after its writing fails, and nothing when the writing itself does.
pub open spec fn restoration_of(operation: Operation, failed: Step) -> Restoration {
    match operation {
        Operation::Update => Restoration { catalogue: true, target: true },
        Operation::Add => Restoration { catalogue: failed == Step::AppendRegion, target: false },
        Operation::Remove => Restoration {
            catalogue: failed == Step::RewriteTarget,
            target: false,
        },
        Operation::Toggle => Restoration { catalogue: failed == Step::Update, target: false },
    }
}

/// The steps of `operation`, in order.
pub fn plan(operation: Operation, config_only: bool, target_present: bool) -> (steps: Vec<Step>)
    ensures
        steps@ == plan_of(operation, config_only, target_present),
{
    let mut steps: Vec<Step> = Vec::new();
    steps.push(Step::WriteCatalogue);
    match operation {
        Operation::Add => {
            if !config_only {
                steps.push(Step::AppendRegion);
            }
        },
        Operation::Remove => {
            if target_present {
                steps.push(Step::RewriteTarget);
            }
        },
        Operation::Update => {
            if target_present {
                steps.push(Step::RewriteTarget);
            }
            steps.push(Step::Resolve);
            steps.push(Step::WriteCatalogue);
            if !config_only {
                steps.push(Step::AppendRegion);
            }
        },
        Operation::Toggle => {
            steps.push(Step::Update);
        },
    }
    proof {
        assert(steps@ =~= plan_of(operation, config_only, target_present));
    }
    steps
}

/// What is restored when `failed` fails in `operation`.
pub fn restoration(operation: Operation, failed: Step) -> (restored: Restoration)
    ensures
        restored == restoration_of(operation, failed),
{
    match operation {
        Operation::Update => Restoration { catalogue: true, target: true },
        Operation::Add => Restoration {
            catalogue: matches!(failed, Step::AppendRegion),
            target: false,
        },
        Operation::Remove => Restoration {
            catalogue: matches!(failed, Step::RewriteTarget),
            target: false,
        },
        Operation::Toggle => Restoration { catalogue: matches!(failed, Step::Update), target: false },
    }
}

/// What `operation` reports after `failed` has failed with `failure` and the
/// restorations have been tried. `catalogue` and `target` are what came of them;
/// one that was not due counts as done.
///
/// Without a restoration the failure itself is reported. An operation that
/// restores the catalogue alone reports success where that was done, since the
/// state from before stands again, and the failure joined with the loss where it
/// was not. An update reports each loss, and both, joined, where both stores are
/// lost.
pub fn report(
    operation: Operation,
    failed: Step,
    failure: Error,
    catalogue: Result<(), Error>,
    target: Result<(), Error>,
) -> (outcome: Result<(), Error>)
    ensures
        !restoration_of(operation, failed).catalogue ==> outcome == Err::<(), Error>(failure),
        restoration_of(operation, failed).catalogue && !restoration_of(operation, failed).target
            ==> match catalogue {
            Ok(_) => outcome is Ok,
            Err(loss) => outcome is Err && outcome->Err_0 is Recovery && message_of(outcome->Err_0)
                == message_of(failure) + message_of(loss),
        },
        restoration_of(operation, failed).target ==> match (catalogue, target) {
            (Ok(_), Ok(_)) => outcome is Ok,
            (Err(_), Ok(_)) => outcome is Err && outcome->Err_0 is Config && message_of(
                outcome->Err_0,
            ) == config_lost(),
            (Ok(_), Err(_)) => outcome is Err && outcome->Err_0 is Io && message_of(
                outcome->Err_0,
            ) == file_lost(),
            (Err(_), Err(_)) => outcome is Err && outcome->Err_0 is Recovery && message_of(
                outcome->Err_0,
            ) == config_lost() + file_lost(),
        },
{
    let due = restoration(operation, failed);
    if due.target {
        recover_failure(catalogue, target)
    } else if due.catalogue {
        restore_config(&failure, catalogue)
    } else {
        Err(failure)
    }
}

/// Every operation begins by writing the catalogue, and the failure of that
/// first writing is restored by no operation but the update.
pub proof fn lemma_catalogue_first(operation: Operation, config_only: bool, target_present: bool)
    ensures
        plan_of(operation, config_only, target_present).len() > 0,
        plan_of(operation, config_only, target_present)[0] == Step::WriteCatalogue,
        operation != Operation::Update ==> restoration_of(operation, Step::WriteCatalogue) == (
        Restoration { catalogue: false, target: false }),
{
}

/// No operation restores the target without the catalogue.
pub proof fn lemma_target_never_alone(operation: Operation, failed: Step)
    ensures
        restoration_of(operation, failed).target ==> restoration_of(operation, failed).catalogue,
{
}

/// A style that is disabled gets no region, and a target that cannot be opened
/// is not written: the plan then leaves these steps out.
pub proof fn lemma_plan_leaves_out(operation: Operation, config_only: bool, target_present: bool)
    ensures
        config_only ==> !plan_of(operation, config_only, target_present).contains(
            Step::AppendRegion,
        ),
        !target_present ==> !plan_of(operation, config_only, target_present).contains(
            Step::RewriteTarget,
        ),
{
    let steps = plan_of(operation, config_only, target_present);
    if config_only && steps.contains(Step::AppendRegion) {
        let at = choose|at: int| 0 <= at < steps.len() && steps[at] == Step::AppendRegion;
        assert(steps[at] == Step::AppendRegion);
    }
    if !target_present && steps.contains(Step::RewriteTarget) {
        let at = choose|at: int| 0 <= at < steps.len() && steps[at] == Step::RewriteTarget;
        assert(steps[at] == Step::RewriteTarget);
    }
}

} // verus!
