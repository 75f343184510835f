use javamanager::error::{Error, IoFailure};
use javamanager::init::{init, Init};
use javamanager::jvm::{JvmInfo, MarkerState};
use javamanager::mac::describe_release;

const ROOT: &str = "/Library/Java/JavaVirtualMachines";
const MARKER: &str = "/Library/Java/JavaVirtualMachines/Current";

fn registry(v: &[&str]) -> Result<JvmInfo, Error> {
    JvmInfo::new(ROOT, &Ok(v.iter().map(|s| String::from(*s)).collect()))
}

#[test]
fn init_with_a_valid_marker_has_nothing_to_do() {
    let marker = MarkerState::ActiveMarkerValid(describe_release(MARKER, "JAVA_VERSION=17"));
    assert_eq!(init(ROOT, &marker, None, &registry(&["a"])), Init::Existing);
    assert_eq!(init(ROOT, &marker, Some("/elsewhere"), &registry(&[])), Init::Existing);
}

#[test]
fn init_with_a_dangling_marker_reports_it() {
    let marker = MarkerState::ActiveMarkerDangling {
        path: String::from(MARKER),
        cause: IoFailure::Other(13),
    };
    assert_eq!(
        init(ROOT, &marker, None, &registry(&["a"])),
        Init::Report(Error::MetadataUnreadable {
            path: String::from(MARKER),
            cause: IoFailure::Other(13),
        })
    );
}

#[test]
fn init_reports_a_java_home_that_is_not_the_marker() {
    let r = init(ROOT, &MarkerState::NoActiveMarker, Some("/usr/lib/jvm/default"), &registry(&["a"]));
    assert_eq!(r, Init::WrongJavaHome { expected: String::from(MARKER) });
}

#[test]
fn init_accepts_a_java_home_that_is_the_marker() {
    let r = init(ROOT, &MarkerState::NoActiveMarker, Some(MARKER), &registry(&["a"]));
    assert_eq!(r, Init::JavaHomeSet);
}

#[test]
fn init_without_java_home_asks_which_installation() {
    let r = init(ROOT, &MarkerState::NoActiveMarker, None, &registry(&["a", "Current", "b"]));
    assert_eq!(r, Init::Choose { count: 2 });
}

#[test]
fn init_without_java_home_and_without_installations() {
    let r = init(ROOT, &MarkerState::NoActiveMarker, None, &registry(&["Current"]));
    assert_eq!(r, Init::NothingInstalled { root: String::from(ROOT) });
}

#[test]
fn init_without_java_home_reports_an_unreadable_root() {
    let failed = JvmInfo::new(ROOT, &Err(IoFailure::NotFound));
    let r = init(ROOT, &MarkerState::NoActiveMarker, None, &failed);
    assert_eq!(
        r,
        Init::Report(Error::RootUnavailable { path: String::from(ROOT), cause: IoFailure::NotFound })
    );
}
