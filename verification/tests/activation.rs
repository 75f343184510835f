use javamanager::error::{Error, IoFailure};
use javamanager::jvm::JvmInfo;
use javamanager::step::Step;

const ROOT: &str = "/Library/Java/JavaVirtualMachines";
const MARKER: &str = "/Library/Java/JavaVirtualMachines/Current";
const A: &str = "/Library/Java/JavaVirtualMachines/a";
const B: &str = "/Library/Java/JavaVirtualMachines/b";

fn registry() -> JvmInfo {
    let names = Ok(vec![String::from("a"), String::from("Current"), String::from("b")]);
    JvmInfo::new(ROOT, &names).unwrap()
}

fn s(text: &str) -> String {
    String::from(text)
}

#[test]
fn load_at_first_takes_the_marker_away() {
    assert_eq!(registry().load_at(1), Step::Unload { marker: s(MARKER), target: Some(s(B)) });
    assert_eq!(registry().load_at(0), Step::Unload { marker: s(MARKER), target: Some(s(A)) });
}

#[test]
fn load_at_then_sets_the_marker_and_is_done() {
    let step = registry().load_at(1).advance(Ok(()));
    assert_eq!(step, Step::Link { target: s(B), marker: s(MARKER) });
    let step = step.advance(Ok(()));
    assert_eq!(step, Step::Done { path: s(B) });
    assert_eq!(step.finish(), Some(Ok(s(B))));
}

#[test]
fn load_at_goes_on_where_there_was_no_marker() {
    let step = registry().load_at(0).advance(Err(IoFailure::NotFound));
    assert_eq!(step, Step::Link { target: s(A), marker: s(MARKER) });
}

#[test]
fn load_at_stops_where_the_marker_cannot_be_taken_away() {
    let step = registry().load_at(0).advance(Err(IoFailure::Other(13)));
    assert_eq!(
        step,
        Step::Failed(Error::ActivationFailed { path: s(MARKER), cause: IoFailure::Other(13) })
    );
    assert_eq!(
        step.finish(),
        Some(Err(Error::ActivationFailed { path: s(MARKER), cause: IoFailure::Other(13) }))
    );
}

#[test]
fn load_at_fails_where_the_marker_cannot_be_set() {
    let step = registry().load_at(0).advance(Ok(())).advance(Err(IoFailure::Other(30)));
    assert_eq!(
        step,
        Step::Failed(Error::ActivationFailed { path: s(MARKER), cause: IoFailure::Other(30) })
    );
    let step = registry().load_at(0).advance(Ok(())).advance(Err(IoFailure::NotFound));
    assert_eq!(
        step,
        Step::Failed(Error::ActivationFailed { path: s(MARKER), cause: IoFailure::NotFound })
    );
}

#[test]
fn load_at_with_a_bad_index_asks_for_nothing() {
    let step = registry().load_at(2);
    assert_eq!(step, Step::Failed(Error::IndexOutOfRange { index: 2, len: 2 }));
    let step = step.advance(Ok(()));
    assert_eq!(step, Step::Failed(Error::IndexOutOfRange { index: 2, len: 2 }));
    assert_eq!(step.finish(), Some(Err(Error::IndexOutOfRange { index: 2, len: 2 })));
}

#[test]
fn remove_at_removes_the_directory_of_the_installation() {
    let step = registry().remove_at(1);
    assert_eq!(step, Step::Remove { path: s(B) });
    let step = step.advance(Ok(()));
    assert_eq!(step, Step::Done { path: s(B) });
}

#[test]
fn remove_at_reports_a_failed_removal() {
    let step = registry().remove_at(0).advance(Err(IoFailure::Other(66)));
    assert_eq!(
        step,
        Step::Failed(Error::RemovalFailed { path: s(A), cause: IoFailure::Other(66) })
    );
    let step = registry().remove_at(0).advance(Err(IoFailure::NotFound));
    assert_eq!(
        step,
        Step::Failed(Error::RemovalFailed { path: s(A), cause: IoFailure::NotFound })
    );
}

#[test]
fn remove_at_with_a_bad_index_asks_for_nothing() {
    let step = registry().remove_at(7);
    assert_eq!(step, Step::Failed(Error::IndexOutOfRange { index: 7, len: 2 }));
    assert_eq!(step.advance(Err(IoFailure::NotFound)).finish(), Some(Err(Error::IndexOutOfRange { index: 7, len: 2 })));
}

#[test]
fn unload_takes_the_marker_away_and_nothing_more() {
    let step = registry().unload();
    assert_eq!(step, Step::Unload { marker: s(MARKER), target: None });
    assert_eq!(step.advance(Ok(())), Step::Done { path: s(MARKER) });
    assert_eq!(registry().unload().advance(Err(IoFailure::NotFound)), Step::Done { path: s(MARKER) });
    assert_eq!(
        registry().unload().advance(Err(IoFailure::Other(1))),
        Step::Failed(Error::ActivationFailed { path: s(MARKER), cause: IoFailure::Other(1) })
    );
}

#[test]
fn finish_of_a_step_that_asks_for_something_is_none() {
    assert_eq!(registry().load_at(0).finish(), None);
    assert_eq!(registry().load_at(0).advance(Ok(())).finish(), None);
    assert_eq!(registry().remove_at(0).finish(), None);
    assert_eq!(registry().unload().finish(), None);
}

#[test]
fn an_ended_operation_stays_as_it_is() {
    let done = registry().remove_at(0).advance(Ok(()));
    assert_eq!(done.advance(Err(IoFailure::Other(5))), Step::Done { path: s(A) });
}
