//! Setting a root directory up: what to do, given what is there.

use vstd::prelude::*;
use crate::dirs2::{marker_of, marker_path};
use crate::error::{Error, ErrorView};
use crate::jvm::{JvmInfo, JvmInfoView, MarkerState, MarkerStateView};
use crate::text::str_eq;

verus! {

/// What setting up comes to.
#[derive(Debug, PartialEq, Eq)]
pub enum Init {
    /// The marker leads to an installation: there is nothing to set up.
    Existing,
    /// The marker or the root directory cannot be read: report the failure.
    Report(Error),
    /// The environment names a home of Java that is not the marker. It is
    /// for the user to change it to `expected`; nothing is changed for them.
    WrongJavaHome { expected: String },
    /// The environment names the marker as the home of Java: an installation
    /// has yet to be made the active one.
    JavaHomeSet,
    /// The root directory `root` holds no installation to choose from.
    NothingInstalled { root: String },
    /// Ask the user which of the `count` installations to make the active
    /// one.
    Choose { count: usize },
}

/// An [`Init`] with each path as a sequence of characters.
pub ghost enum InitView {
    Existing,
    Report(ErrorView),
    WrongJavaHome { expected: Seq<char> },
    JavaHomeSet,
    NothingInstalled { root: Seq<char> },
    Choose { count: usize },
}

impl View for Init {
    type V = InitView;

    open spec fn view(&self) -> InitView {
        match *self {
            Init::Existing => InitView::Existing,
            Init::Report(e) => InitView::Report(e@),
            Init::WrongJavaHome { expected } => InitView::WrongJavaHome { expected: expected@ },
            Init::JavaHomeSet => InitView::JavaHomeSet,
            Init::NothingInstalled { root } => InitView::NothingInstalled { root: root@ },
            Init::Choose { count } => InitView::Choose { count },
        }
    }
}

/// A registry or the failure to make one, by their views.
pub open spec fn registry_view(r: Result<JvmInfo, Error>) -> Result<JvmInfoView, ErrorView> {
    match r {
        Ok(info) => Ok(info@),
        Err(e) => Err(e@),
    }
}

/// A home of Java that the environment may name, as a sequence of characters.
pub open spec fn home_view(java_home: Option<&str>) -> Option<Seq<char>> {
    match java_home {
        Some(home) => Some(home@),
        None => None,
    }
}

/// What setting up the root directory `root` comes to: with the marker in
/// the state `marker`, the environment naming `java_home` as the home of
/// Java, and `registry` made from the directory.
pub open spec fn init_of(
    root: Seq<char>,
    marker: MarkerStateView,
    java_home: Option<Seq<char>>,
    registry: Result<JvmInfoView, ErrorView>,
) -> InitView {
    match marker {
        MarkerStateView::ActiveMarkerValid(_) => InitView::Existing,
        MarkerStateView::ActiveMarkerDangling { path, cause } => InitView::Report(
            ErrorView::MetadataUnreadable { path, cause },
        ),
        MarkerStateView::NoActiveMarker => match java_home {
            Some(home) => if home == marker_of(root) {
                InitView::JavaHomeSet
            } else {
                InitView::WrongJavaHome { expected: marker_of(root) }
            },
            None => match registry {
                Err(e) => InitView::Report(e),
                Ok(info) => if info.paths.len() == 0 {
                    InitView::NothingInstalled { root }
                } else {
                    InitView::Choose { count: info.paths.len() as usize }
                },
            },
        },
    }
}

/// Decides what setting up the root directory `root` comes to. A home of
/// Java that does not fit is reported, never put right in silence.
pub fn init(
    root: &str,
    marker: &MarkerState,
    java_home: Option<&str>,
    registry: &Result<JvmInfo, Error>,
) -> (r: Init)
    ensures
        r@ == init_of(root@, marker@, home_view(java_home), registry_view(*registry)),
{
    match marker {
        MarkerState::ActiveMarkerValid(_) => Init::Existing,
        MarkerState::ActiveMarkerDangling { path, cause } => Init::Report(
            Error::MetadataUnreadable { path: path.clone(), cause: *cause },
        ),
        MarkerState::NoActiveMarker => match java_home {
            Some(home) => {
                let expected = marker_path(root);
                if str_eq(home, expected.as_str()) {
                    Init::JavaHomeSet
                } else {
                    Init::WrongJavaHome { expected }
                }
            },
            None => match registry {
                Err(e) => Init::Report(e.duplicate()),
                Ok(info) => {
                    let count = info.len();
                    if count == 0 {
                        Init::NothingInstalled { root: root.to_owned() }
                    } else {
                        Init::Choose { count }
                    }
                },
            },
        },
    }
}

} // verus!
