//! The steps of the operations that change the file system.
//!
//! The library never touches the disk. An operation is a short chain of
//! steps: each asks the caller for one call on the file system, and what the
//! caller reports of that call decides the step after. To activate an
//! installation the marker is taken away and then set anew; between the two
//! calls no installation is active, and running the activation again mends
//! that.

use vstd::prelude::*;
use crate::dirs2::marker_of;
use crate::error::{Error, ErrorView, IoFailure};
use crate::jvm::JvmInfoView;

verus! {

/// A step of an operation that changes the file system. The caller does what
/// the step asks for and reports what came of it; the step after tells how to
/// go on. `Done` and `Failed` ask for nothing: they end the operation.
#[derive(Debug, PartialEq, Eq)]
pub enum Step {
    /// Take the marker at `marker` away. The marker is a link: only the link
    /// goes. Afterwards, where there is a `target`, the marker is set to it.
    Unload { marker: String, target: Option<String> },
    /// Make `marker` a symbolic link that leads to `target`.
    Link { target: String, marker: String },
    /// Remove the directory `path` with everything below it.
    Remove { path: String },
    /// The operation is complete. `path` is what it was about.
    Done { path: String },
    /// The operation failed. No further step follows.
    Failed(Error),
}

/// A [`Step`] with each path as a sequence of characters.
pub ghost enum StepView {
    Unload { marker: Seq<char>, target: Option<Seq<char>> },
    Link { target: Seq<char>, marker: Seq<char> },
    Remove { path: Seq<char> },
    Done { path: Seq<char> },
    Failed(ErrorView),
}

/// A path that may be missing, as a sequence of characters.
pub open spec fn option_view(o: Option<String>) -> Option<Seq<char>> {
    match o {
        Some(s) => Some(s@),
        None => None,
    }
}

impl View for Step {
    type V = StepView;

    open spec fn view(&self) -> StepView {
        match *self {
            Step::Unload { marker, target } => StepView::Unload {
                marker: marker@,
                target: option_view(target),
            },
            Step::Link { target, marker } => StepView::Link { target: target@, marker: marker@ },
            Step::Remove { path } => StepView::Remove { path: path@ },
            Step::Done { path } => StepView::Done { path: path@ },
            Step::Failed(e) => StepView::Failed(e@),
        }
    }
}

/// The step that follows `step` once the caller has done what it asks for
/// and `outcome` came of it. That there was no marker to take away is no
/// failure. A step that ends the operation is followed by itself.
pub open spec fn advanced(step: StepView, outcome: Result<(), IoFailure>) -> StepView {
    match step {
        StepView::Unload { marker, target } => match outcome {
            Ok(_) | Err(IoFailure::NotFound) => match target {
                Some(target) => StepView::Link { target, marker },
                None => StepView::Done { path: marker },
            },
            Err(cause) => StepView::Failed(ErrorView::ActivationFailed { path: marker, cause }),
        },
        StepView::Link { target, marker } => match outcome {
            Ok(_) => StepView::Done { path: target },
            Err(cause) => StepView::Failed(ErrorView::ActivationFailed { path: marker, cause }),
        },
        StepView::Remove { path } => match outcome {
            Ok(_) => StepView::Done { path },
            Err(cause) => StepView::Failed(ErrorView::RemovalFailed { path, cause }),
        },
        StepView::Done { .. } | StepView::Failed(_) => step,
    }
}

/// The first step of activating the installation at `index`.
pub open spec fn load_plan(info: JvmInfoView, index: usize) -> StepView {
    if index < info.paths.len() {
        StepView::Unload {
            marker: marker_of(info.root),
            target: Some(info.paths[index as int]),
        }
    } else {
        StepView::Failed(index_error(info, index))
    }
}

/// The first step of removing the installation at `index`.
pub open spec fn remove_plan(info: JvmInfoView, index: usize) -> StepView {
    if index < info.paths.len() {
        StepView::Remove { path: info.paths[index as int] }
    } else {
        StepView::Failed(index_error(info, index))
    }
}

/// The failure of asking for an index that the registry does not hold.
pub open spec fn index_error(info: JvmInfoView, index: usize) -> ErrorView {
    ErrorView::IndexOutOfRange { index, len: info.paths.len() as usize }
}

/// Where the steps from `step` on lead, the caller reporting `outcomes` one
/// after the other.
pub open spec fn run(step: StepView, outcomes: Seq<Result<(), IoFailure>>) -> StepView
    decreases outcomes.len(),
{
    if outcomes.len() == 0 {
        step
    } else {
        run(advanced(step, outcomes[0]), outcomes.drop_first())
    }
}

/// The step asks for nothing: the operation has ended.
pub open spec fn is_end(step: StepView) -> bool {
    step is Done || step is Failed
}

/// The installation that the marker leads to once the caller has done what
/// `step` asks for and `outcome` came of it; `before`, where it led before.
/// `None`: there is no marker. What fails changes nothing.
pub open spec fn marker_after(
    step: StepView,
    outcome: Result<(), IoFailure>,
    before: Option<Seq<char>>,
) -> Option<Seq<char>> {
    match step {
        StepView::Unload { .. } => if outcome is Ok {
            None
        } else {
            before
        },
        StepView::Link { target, .. } => if outcome is Ok {
            Some(target)
        } else {
            before
        },
        _ => before,
    }
}

/// The installation that the marker leads to after the steps from `step` on,
/// the caller reporting `outcomes` one after the other.
pub open spec fn marker_after_run(
    step: StepView,
    outcomes: Seq<Result<(), IoFailure>>,
    before: Option<Seq<char>>,
) -> Option<Seq<char>>
    decreases outcomes.len(),
{
    if outcomes.len() == 0 {
        before
    } else {
        marker_after_run(
            advanced(step, outcomes[0]),
            outcomes.drop_first(),
            marker_after(step, outcomes[0], before),
        )
    }
}

/// An operation that has ended stays as it is and leaves the marker alone,
/// whatever is reported to it.
pub proof fn lemma_end_is_final(
    step: StepView,
    outcomes: Seq<Result<(), IoFailure>>,
    before: Option<Seq<char>>,
)
    requires
        is_end(step),
    ensures
        run(step, outcomes) == step,
        marker_after_run(step, outcomes, before) == before,
    decreases outcomes.len(),
{
    if outcomes.len() > 0 {
        lemma_end_is_final(step, outcomes.drop_first(), before);
    }
}

/// An index that the registry does not hold fails at once, for activation as
/// for removal: no step asks for anything, so nothing on disk is touched,
/// and the marker leads where it led.
pub proof fn lemma_index_out_of_range(
    info: JvmInfoView,
    index: usize,
    outcomes: Seq<Result<(), IoFailure>>,
    before: Option<Seq<char>>,
)
    requires
        index >= info.paths.len(),
    ensures
        run(load_plan(info, index), outcomes) == StepView::Failed(index_error(info, index)),
        run(remove_plan(info, index), outcomes) == StepView::Failed(index_error(info, index)),
        marker_after_run(load_plan(info, index), outcomes, before) == before,
        marker_after_run(remove_plan(info, index), outcomes, before) == before,
{
    lemma_end_is_final(load_plan(info, index), outcomes, before);
    lemma_end_is_final(remove_plan(info, index), outcomes, before);
}

/// Activation takes two steps. Where the marker could be taken away, or
/// there was none, and the new one could be set, the operation is complete
/// and the marker leads to the installation at `index`, wherever it led
/// before.
pub proof fn lemma_activation(
    info: JvmInfoView,
    index: usize,
    unload: Result<(), IoFailure>,
    before: Option<Seq<char>>,
)
    requires
        index < info.paths.len(),
        unload is Ok || unload == Err::<(), IoFailure>(IoFailure::NotFound),
    ensures
        run(load_plan(info, index), seq![unload, Ok(())]) == (StepView::Done {
            path: info.paths[index as int],
        }),
        marker_after_run(load_plan(info, index), seq![unload, Ok(())], before) == Some(
            info.paths[index as int],
        ),
{
    let outcomes = seq![unload, Ok::<(), IoFailure>(())];
    let first = load_plan(info, index);
    let second = advanced(first, unload);
    let rest = outcomes.drop_first();
    assert(outcomes[0] == unload);
    assert(rest[0] == Ok::<(), IoFailure>(()));
    assert(rest.drop_first().len() == 0);
    assert(run(second, rest) == run(advanced(second, rest[0]), rest.drop_first()));
    assert(marker_after_run(second, rest, marker_after(first, unload, before))
        == marker_after_run(
        advanced(second, rest[0]),
        rest.drop_first(),
        marker_after(second, rest[0], marker_after(first, unload, before)),
    ));
}

/// However an activation goes, the marker leads where it led before, or
/// nowhere, or to the installation at `index`; and where the activation
/// failed, it leads where it led before or nowhere.
pub proof fn lemma_activation_marker(
    info: JvmInfoView,
    index: usize,
    outcomes: Seq<Result<(), IoFailure>>,
    before: Option<Seq<char>>,
)
    requires
        index < info.paths.len(),
    ensures
        ({
            let after = marker_after_run(load_plan(info, index), outcomes, before);
            &&& after == before || after is None || after == Some(info.paths[index as int])
            &&& run(load_plan(info, index), outcomes) is Failed ==> after == before || after
                is None
            &&& run(load_plan(info, index), outcomes) is Done ==> after == Some(
                info.paths[index as int],
            )
        }),
{
    let first = load_plan(info, index);
    if outcomes.len() > 0 {
        let second = advanced(first, outcomes[0]);
        let rest = outcomes.drop_first();
        let m1 = marker_after(first, outcomes[0], before);
        if is_end(second) {
            lemma_end_is_final(second, rest, m1);
        } else if rest.len() > 0 {
            let third = advanced(second, rest[0]);
            let m2 = marker_after(second, rest[0], m1);
            assert(is_end(third));
            lemma_end_is_final(third, rest.drop_first(), m2);
        }
    }
}

/// Removal takes one step, and what it removes is an installation of the
/// root; the marker is not touched.
pub proof fn lemma_removal(
    info: JvmInfoView,
    index: usize,
    outcomes: Seq<Result<(), IoFailure>>,
    before: Option<Seq<char>>,
)
    requires
        index < info.paths.len(),
        outcomes.len() >= 1,
    ensures
        is_end(run(remove_plan(info, index), outcomes)),
        outcomes[0] is Ok ==> run(remove_plan(info, index), outcomes) == (StepView::Done {
            path: info.paths[index as int],
        }),
        marker_after_run(remove_plan(info, index), outcomes, before) == before,
{
    let first = remove_plan(info, index);
    let second = advanced(first, outcomes[0]);
    lemma_end_is_final(second, outcomes.drop_first(), before);
}

impl Step {
    /// The step that follows, given what came of doing what this one asks
    /// for.
    pub fn advance(self, outcome: Result<(), IoFailure>) -> (next: Step)
        ensures
            next@ == advanced(self@, outcome),
    {
        match self {
            Step::Unload { marker, target } => match outcome {
                Ok(_) | Err(IoFailure::NotFound) => match target {
                    Some(target) => Step::Link { target, marker },
                    None => Step::Done { path: marker },
                },
                Err(cause) => Step::Failed(Error::ActivationFailed { path: marker, cause }),
            },
            Step::Link { target, marker } => match outcome {
                Ok(_) => Step::Done { path: target },
                Err(cause) => Step::Failed(Error::ActivationFailed { path: marker, cause }),
            },
            Step::Remove { path } => match outcome {
                Ok(_) => Step::Done { path },
                Err(cause) => Step::Failed(Error::RemovalFailed { path, cause }),
            },
            Step::Done { path } => Step::Done { path },
            Step::Failed(e) => Step::Failed(e),
        }
    }

    /// How the operation ended: the path it was about, or its failure.
    /// `None` as long as the step asks for something.
    pub fn finish(self) -> (r: Option<Result<String, Error>>)
        ensures
            match self@ {
                StepView::Done { path } => r matches Some(Ok(p)) && p@ == path,
                StepView::Failed(e) => r matches Some(Err(f)) && f@ == e,
                _ => r is None,
            },
    {
        match self {
            Step::Done { path } => Some(Ok(path)),
            Step::Failed(e) => Some(Err(e)),
            _ => None,
        }
    }
}

} // verus!
