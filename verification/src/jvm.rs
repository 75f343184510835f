//! The installations of one root directory, and the one that is active.

use vstd::prelude::*;
use crate::dirs2::{child, child_path, entry_name_ok, is_entry_name, marker_of, marker_path};
use crate::error::{Error, ErrorView, IoFailure};
use crate::mac::{current_of, described, marker_state_of, outcome_view, read_view};
use crate::step::{index_error, load_plan, remove_plan, Step, StepView};
use crate::text::{chars_of, piece, pieces, split_ranges, views};

verus! {

/// The key of the vendor in a release file.
pub const VENDOR_KEY: &'static str = "IMPLEMENTOR";

/// The key of the version in a release file.
pub const VERSION_KEY: &'static str = "JAVA_VERSION";

/// The key of the variant in a release file.
pub const VARIANT_KEY: &'static str = "JVM_VARIANT";

/// The description of one installation. It is made from one reading of the
/// release file and does not follow what happens on disk afterwards.
#[derive(Clone, PartialEq, Eq, Debug)]
pub struct Metadata {
    pub(crate) vendor: String,
    pub(crate) version: String,
    pub(crate) variant: String,
    pub(crate) path: String,
}

/// A [`Metadata`] with each field as a sequence of characters.
pub ghost struct MetadataView {
    pub vendor: Seq<char>,
    pub version: Seq<char>,
    pub variant: Seq<char>,
    pub path: Seq<char>,
}

impl View for Metadata {
    type V = MetadataView;

    open(crate) spec fn view(&self) -> MetadataView {
        MetadataView {
            vendor: self.vendor@,
            version: self.version@,
            variant: self.variant@,
            path: self.path@,
        }
    }
}

/// What the caller found at the marker: whether an entry of that name exists,
/// and what reading the release file below it gave.
#[derive(Debug)]
pub struct MarkerProbe {
    pub entry: Result<(), IoFailure>,
    pub release: Result<String, IoFailure>,
}

/// A [`MarkerProbe`] with the text as a sequence of characters.
pub ghost struct MarkerProbeView {
    pub entry: Result<(), IoFailure>,
    pub release: Result<Seq<char>, IoFailure>,
}

impl View for MarkerProbe {
    type V = MarkerProbeView;

    open spec fn view(&self) -> MarkerProbeView {
        MarkerProbeView { entry: self.entry, release: read_view(self.release) }
    }
}

/// The states of the marker of a root directory.
#[derive(Clone, PartialEq, Eq, Debug)]
pub enum MarkerState {
    /// There is no marker: no installation is active.
    NoActiveMarker,
    /// The marker leads to an installation with this description.
    ActiveMarkerValid(Metadata),
    /// There is a marker, but no release file can be read through it.
    ActiveMarkerDangling { path: String, cause: IoFailure },
}

/// A [`MarkerState`] by the views of what it holds.
pub ghost enum MarkerStateView {
    NoActiveMarker,
    ActiveMarkerValid(MetadataView),
    ActiveMarkerDangling { path: Seq<char>, cause: IoFailure },
}

impl View for MarkerState {
    type V = MarkerStateView;

    open spec fn view(&self) -> MarkerStateView {
        match *self {
            MarkerState::NoActiveMarker => MarkerStateView::NoActiveMarker,
            MarkerState::ActiveMarkerValid(md) => MarkerStateView::ActiveMarkerValid(md@),
            MarkerState::ActiveMarkerDangling { path, cause } => {
                MarkerStateView::ActiveMarkerDangling { path: path@, cause }
            },
        }
    }
}

/// The place of the directory's own name among the segments of the path of
/// an installation below the system's root directory.
pub const NAME_DEPTH: usize = 4;

/// Two descriptions tell of the same release: vendor, version and variant
/// are the same. The path is left out of the comparison.
pub open spec fn same_release(a: MetadataView, b: MetadataView) -> bool {
    a.vendor == b.vendor && a.version == b.version && a.variant == b.variant
}

/// Whether the installation described by `md` is the active one, or why that
/// cannot be told.
pub open spec fn is_current_of(md: MetadataView, marker: MarkerStateView) -> Result<
    bool,
    ErrorView,
> {
    match current_of(marker) {
        Ok(current) => Ok(same_release(md, current)),
        Err(e) => Err(e),
    }
}

/// A verdict or a failure, by their views.
pub open spec fn verdict_view(r: Result<bool, Error>) -> Result<bool, ErrorView> {
    match r {
        Ok(b) => Ok(b),
        Err(e) => Err(e@),
    }
}

/// The description of the active installation of `root`.
pub fn current_metadata(root: &str, probe: &MarkerProbe) -> (r: Result<Metadata, Error>)
    ensures
        outcome_view(r) == current_of(marker_state_of(root@, probe@)),
{
    crate::mac::current_metadata(root, probe)
}

impl Metadata {
    /// Describes the installation at `dir` from what reading its release file
    /// gave.
    pub fn new(dir: &str, release: &Result<String, IoFailure>) -> (r: Result<Metadata, Error>)
        ensures
            outcome_view(r) == described(dir@, read_view(*release)),
    {
        crate::mac::metadata(dir, release)
    }

    /// The version.
    pub fn version(&self) -> (r: &str)
        ensures
            r@ == self@.version,
    {
        self.version.as_str()
    }

    /// The vendor.
    pub fn vendor(&self) -> (r: &str)
        ensures
            r@ == self@.vendor,
    {
        self.vendor.as_str()
    }

    /// The variant.
    pub fn variant(&self) -> (r: &str)
        ensures
            r@ == self@.variant,
    {
        self.variant.as_str()
    }

    /// The directory of the installation.
    pub fn path(&self) -> (r: &String)
        ensures
            r@ == self@.path,
    {
        &self.path
    }

    /// Whether this installation is the active one: whether the marker leads
    /// to a release of the same vendor, version and variant. Where there is
    /// no marker the answer is the error [`Error::MarkerAbsent`], not `false`.
    pub fn is_current(&self, marker: &MarkerState) -> (r: Result<bool, Error>)
        ensures
            verdict_view(r) == is_current_of(self@, marker@),
    {
        match marker {
            MarkerState::NoActiveMarker => Err(Error::MarkerAbsent),
            MarkerState::ActiveMarkerValid(current) => Ok(
                self.vendor == current.vendor && self.version == current.version && self.variant
                    == current.variant,
            ),
            MarkerState::ActiveMarkerDangling { path, cause } => Err(
                Error::MetadataUnreadable { path: path.clone(), cause: *cause },
            ),
        }
    }

    /// The name of the installation's directory: the segment of the path at
    /// [`NAME_DEPTH`], counted from 0 between the separators. A path with
    /// fewer segments has none.
    pub fn file_name(&self) -> (r: Option<&str>)
        ensures
            match piece(self@.path, '/', NAME_DEPTH as int) {
                Some(name) => r matches Some(s) && s@ == name,
                None => r is None,
            },
    {
        let v = chars_of(self.path.as_str());
        let parts = split_ranges(&v, '/');
        if NAME_DEPTH < parts.len() {
            let (a, b) = parts[NAME_DEPTH];
            proof {
                assert(parts@[NAME_DEPTH as int].0 <= parts@[NAME_DEPTH as int].1 <= v@.len());
                assert(pieces(v@, parts@)[NAME_DEPTH as int] == v@.subrange(a as int, b as int));
            }
            Some(self.path.as_str().substring_char(a, b))
        } else {
            None
        }
    }
}

/// One entry of the root directory as the caller found it: its name, and
/// what reading the release file below it gave.
#[derive(Debug)]
pub struct DirEntry {
    pub name: String,
    pub release: Result<String, IoFailure>,
}

/// A [`DirEntry`] with name and text as sequences of characters.
pub ghost struct DirEntryView {
    pub name: Seq<char>,
    pub release: Result<Seq<char>, IoFailure>,
}

impl View for DirEntry {
    type V = DirEntryView;

    open spec fn view(&self) -> DirEntryView {
        DirEntryView { name: self.name@, release: read_view(self.release) }
    }
}

/// The entries of `v`, each by its view.
pub open spec fn entry_views(v: Seq<DirEntry>) -> Seq<DirEntryView> {
    Seq::new(v.len(), |i: int| v[i]@)
}

/// The descriptions and failures of `v`, each by its view.
pub open spec fn outcome_views(v: Seq<Result<Metadata, Error>>) -> Seq<
    Result<MetadataView, ErrorView>,
> {
    Seq::new(v.len(), |i: int| outcome_view(v[i]))
}

/// The paths of the installations of `root`, given the names of its
/// entries: one path for each name that an installation can have, in the
/// order of the names.
pub open spec fn registry(root: Seq<char>, names: Seq<Seq<char>>) -> Seq<Seq<char>>
    decreases names.len(),
{
    if names.len() == 0 {
        Seq::empty()
    } else {
        let before = registry(root, names.drop_last());
        if is_entry_name(names.last()) {
            before.push(child(root, names.last()))
        } else {
            before
        }
    }
}

/// What describing each installation of `root` gives, in the order of the
/// entries.
pub open spec fn listed(root: Seq<char>, entries: Seq<DirEntryView>) -> Seq<
    Result<MetadataView, ErrorView>,
>
    decreases entries.len(),
{
    if entries.len() == 0 {
        Seq::empty()
    } else {
        let before = listed(root, entries.drop_last());
        let e = entries.last();
        if is_entry_name(e.name) {
            before.push(described(child(root, e.name), e.release))
        } else {
            before
        }
    }
}

/// `path` is the directory of an installation of `root`: an entry of `root`
/// with a name that an installation can have.
pub open spec fn is_installation(root: Seq<char>, path: Seq<char>) -> bool {
    exists|name: Seq<char>| is_entry_name(name) && path == child(root, name)
}

/// Every path of a registry is the directory of an installation of its root.
pub proof fn lemma_registry_paths(root: Seq<char>, names: Seq<Seq<char>>)
    ensures
        forall|i: int|
            0 <= i < registry(root, names).len() ==> is_installation(
                root,
                #[trigger] registry(root, names)[i],
            ),
    decreases names.len(),
{
    if names.len() > 0 {
        let before = registry(root, names.drop_last());
        lemma_registry_paths(root, names.drop_last());
        assert forall|i: int| 0 <= i < registry(root, names).len() implies is_installation(
            root,
            #[trigger] registry(root, names)[i],
        ) by {
            if i < before.len() {
                assert(registry(root, names)[i] == before[i]);
            } else {
                assert(is_entry_name(names.last()));
                assert(registry(root, names)[i] == child(root, names.last()));
            }
        }
    }
}

/// Describes every installation of `root`. `listing` is what reading the
/// directory gave: each entry with what reading the release file below it
/// gave. An installation whose release file cannot be read has its failure
/// in its place and does not stop the others.
pub fn read_jvms(root: &str, listing: &Result<Vec<DirEntry>, IoFailure>) -> (r: Result<
    Vec<Result<Metadata, Error>>,
    Error,
>)
    ensures
        match *listing {
            Ok(entries) => r matches Ok(jvms) && outcome_views(jvms@) == listed(
                root@,
                entry_views(entries@),
            ),
            Err(cause) => r matches Err(e) && e@ == (ErrorView::RootUnavailable {
                path: root@,
                cause,
            }),
        },
{
    match listing {
        Err(cause) => Err(Error::RootUnavailable { path: root.to_owned(), cause: *cause }),
        Ok(entries) => {
            let mut jvms: Vec<Result<Metadata, Error>> = Vec::new();
            let ghost all = entry_views(entries@);
            let mut i: usize = 0;
            assert(all.take(0) =~= Seq::<DirEntryView>::empty());
            assert(outcome_views(jvms@) =~= listed(root@, all.take(0)));
            while i < entries.len()
                invariant
                    i <= entries.len(),
                    all == entry_views(entries@),
                    outcome_views(jvms@) == listed(root@, all.take(i as int)),
                decreases entries.len() - i,
            {
                let entry = &entries[i];
                let ghost before = outcome_views(jvms@);
                proof {
                    assert(all.take(i + 1).drop_last() =~= all.take(i as int));
                    assert(all.take(i + 1).last() == entry@);
                }
                if entry_name_ok(entry.name.as_str()) {
                    let dir = child_path(root, entry.name.as_str());
                    let md = crate::mac::metadata(dir.as_str(), &entry.release);
                    jvms.push(md);
                    assert(outcome_views(jvms@) =~= before.push(outcome_view(md)));
                }
                i += 1;
            }
            assert(all.take(entries.len() as int) =~= all);
            Ok(jvms)
        },
    }
}

/// The installations of one root directory as they were when the directory
/// was read. An index counts for this value only.
pub struct JvmInfo {
    root: String,
    paths: Vec<String>,
}

/// A [`JvmInfo`] with each path as a sequence of characters.
pub ghost struct JvmInfoView {
    pub root: Seq<char>,
    pub paths: Seq<Seq<char>>,
}

impl View for JvmInfo {
    type V = JvmInfoView;

    closed spec fn view(&self) -> JvmInfoView {
        JvmInfoView { root: self.root@, paths: views(self.paths@) }
    }
}

/// The registry of a root directory without entries is empty, and so is the
/// list of its descriptions.
pub proof fn lemma_empty_root(root: Seq<char>)
    ensures
        registry(root, Seq::empty()) == Seq::<Seq<char>>::empty(),
        listed(root, Seq::empty()) == Seq::<Result<MetadataView, ErrorView>>::empty(),
{
}

/// The path of an entry tells its name: two names with one path are one.
pub proof fn lemma_child_tells_name(root: Seq<char>, a: Seq<char>, b: Seq<char>)
    requires
        child(root, a) == child(root, b),
    ensures
        a == b,
{
    if root.len() == 0 || root.last() == '/' {
        assert((root + a).skip(root.len() as int) =~= a);
        assert((root + b).skip(root.len() as int) =~= b);
    } else {
        let prefix = root + seq!['/'];
        assert(child(root, a) =~= prefix + a);
        assert(child(root, b) =~= prefix + b);
        assert((prefix + a).skip(prefix.len() as int) =~= a);
        assert((prefix + b).skip(prefix.len() as int) =~= b);
    }
}

/// The marker is no installation: whatever the entries of the root are, no
/// path of the registry is the path of the marker. A root that holds the
/// marker alone has an empty registry.
pub proof fn lemma_marker_is_left_out(root: Seq<char>, names: Seq<Seq<char>>)
    ensures
        !registry(root, names).contains(marker_of(root)),
        registry(root, seq![crate::dirs2::CURRENT@]) == Seq::<Seq<char>>::empty(),
{
    lemma_registry_paths(root, names);
    if registry(root, names).contains(marker_of(root)) {
        let i = registry(root, names).index_of(marker_of(root));
        let path = registry(root, names)[i];
        assert(is_installation(root, path));
        let name = choose|name: Seq<char>| is_entry_name(name) && path == child(root, name);
        lemma_child_tells_name(root, name, crate::dirs2::CURRENT@);
    }
    let only = seq![crate::dirs2::CURRENT@];
    assert(only.drop_last() =~= Seq::<Seq<char>>::empty());
    assert(registry(root, only.drop_last()) =~= Seq::<Seq<char>>::empty());
}

/// The names of the entries, in order.
pub open spec fn names_of(entries: Seq<DirEntryView>) -> Seq<Seq<char>> {
    Seq::new(entries.len(), |i: int| entries[i].name)
}

/// The path that a description or a failure of a listing is about.
pub open spec fn subject(r: Result<MetadataView, ErrorView>) -> Option<Seq<char>> {
    match r {
        Ok(md) => Some(md.path),
        Err(ErrorView::MetadataUnreadable { path, .. }) => Some(path),
        Err(_) => None,
    }
}

/// A listing goes by the registry: it has one place for each installation,
/// and the description at an index is that of the path that the registry has
/// at the same index. Where the release file could not be read, the failure
/// at the index names that file.
pub proof fn lemma_listing_goes_by_registry(root: Seq<char>, entries: Seq<DirEntryView>)
    ensures
        listed(root, entries).len() == registry(root, names_of(entries)).len(),
        forall|i: int|
            0 <= i < listed(root, entries).len() ==> subject(#[trigger] listed(root, entries)[i])
                == if listed(root, entries)[i] is Ok {
                Some(registry(root, names_of(entries))[i])
            } else {
                Some(crate::dirs2::release_of(registry(root, names_of(entries))[i]))
            },
    decreases entries.len(),
{
    if entries.len() > 0 {
        let front = entries.drop_last();
        assert(names_of(entries).drop_last() =~= names_of(front));
        assert(names_of(entries).last() == entries.last().name);
        lemma_listing_goes_by_registry(root, front);
        assert forall|i: int| 0 <= i < listed(root, entries).len() implies subject(
            #[trigger] listed(root, entries)[i],
        ) == if listed(root, entries)[i] is Ok {
            Some(registry(root, names_of(entries))[i])
        } else {
            Some(crate::dirs2::release_of(registry(root, names_of(entries))[i]))
        } by {
            if i < listed(root, front).len() {
                assert(listed(root, entries)[i] == listed(root, front)[i]);
                assert(registry(root, names_of(entries))[i] == registry(root, names_of(front))[i]);
            }
        }
    }
}

/// Once an installation has been made the active one, it is the active one,
/// and any other is exactly if it is of the same vendor, version and
/// variant. The marker then leads to the installation's directory, so that
/// what is read through the marker is the text of the installation's own
/// release file: `text`. The paths differ and are not compared.
pub proof fn lemma_activated_is_current(
    root: Seq<char>,
    dir: Seq<char>,
    text: Seq<char>,
    other_dir: Seq<char>,
    other_text: Seq<char>,
)
    ensures
        ({
            let probe = MarkerProbeView { entry: Ok(()), release: Ok(text) };
            let state = marker_state_of(root, probe);
            let activated = crate::mac::describe(dir, crate::ini::parse_text(text));
            let other = crate::mac::describe(other_dir, crate::ini::parse_text(other_text));
            &&& state is ActiveMarkerValid
            &&& is_current_of(activated, state) == Ok::<bool, ErrorView>(true)
            &&& is_current_of(other, state) == Ok::<bool, ErrorView>(
                same_release(other, activated),
            )
        }),
{
}

/// Without a marker the question whether an installation is active has no
/// answer: it fails with the error kept for that case, which is neither
/// `true` nor `false`.
pub proof fn lemma_no_marker_no_verdict(md: MetadataView, root: Seq<char>, probe: MarkerProbeView)
    requires
        probe.entry == Err::<(), IoFailure>(IoFailure::NotFound),
    ensures
        is_current_of(md, marker_state_of(root, probe)) == Err::<bool, ErrorView>(
            ErrorView::MarkerAbsent,
        ),
        is_current_of(md, marker_state_of(root, probe)) != Ok::<bool, ErrorView>(false),
{
}

impl JvmInfo {
    #[verifier::type_invariant]
    spec fn below_root(&self) -> bool {
        forall|i: int|
            0 <= i < self.paths@.len() ==> is_installation(self.root@, #[trigger] self.paths@[i]@)
    }

    /// The registry of `root`. `listing` is what reading the directory gave:
    /// the names of its entries. The marker is no installation, and neither
    /// is a name that no entry of a directory can have.
    pub fn new(root: &str, listing: &Result<Vec<String>, IoFailure>) -> (r: Result<JvmInfo, Error>)
        ensures
            match *listing {
                Ok(names) => r matches Ok(info) && info@ == (JvmInfoView {
                    root: root@,
                    paths: registry(root@, views(names@)),
                }),
                Err(cause) => r matches Err(e) && e@ == (ErrorView::RootUnavailable {
                    path: root@,
                    cause,
                }),
            },
    {
        match listing {
            Err(cause) => Err(Error::RootUnavailable { path: root.to_owned(), cause: *cause }),
            Ok(names) => {
                let mut paths: Vec<String> = Vec::new();
                let ghost all = views(names@);
                let mut i: usize = 0;
                assert(all.take(0) =~= Seq::<Seq<char>>::empty());
                assert(views(paths@) =~= registry(root@, all.take(0)));
                while i < names.len()
                    invariant
                        i <= names.len(),
                        all == views(names@),
                        views(paths@) == registry(root@, all.take(i as int)),
                    decreases names.len() - i,
                {
                    let name = names[i].as_str();
                    let ghost before = views(paths@);
                    proof {
                        assert(all.take(i + 1).drop_last() =~= all.take(i as int));
                        assert(all.take(i + 1).last() == name@);
                    }
                    if entry_name_ok(name) {
                        let dir = child_path(root, name);
                        paths.push(dir);
                        assert(views(paths@) =~= before.push(child(root@, name@)));
                    }
                    i += 1;
                }
                let owned = root.to_owned();
                proof {
                    assert(all.take(names.len() as int) =~= all);
                    lemma_registry_paths(root@, all);
                    assert forall|i: int| 0 <= i < paths@.len() implies is_installation(
                        owned@,
                        #[trigger] paths@[i]@,
                    ) by {
                        assert(views(paths@)[i] == paths@[i]@);
                    }
                }
                Ok(JvmInfo { root: owned, paths })
            },
        }
    }

    /// The number of installations.
    pub fn len(&self) -> (n: usize)
        ensures
            n == self@.paths.len(),
    {
        self.paths.len()
    }

    /// The path of the installation at `index`. Nothing on disk is touched.
    pub fn lookup(&self, index: usize) -> (r: Result<&String, Error>)
        ensures
            match r {
                Ok(path) => index < self@.paths.len() && path@ == self@.paths[index as int]
                    && is_installation(self@.root, path@),
                Err(e) => index >= self@.paths.len() && e@ == index_error(self@, index),
            },
    {
        proof {
            use_type_invariant(self);
        }
        if index < self.paths.len() {
            Ok(&self.paths[index])
        } else {
            Err(Error::IndexOutOfRange { index, len: self.paths.len() })
        }
    }

    /// The paths of the installations, in the order of the directory.
    pub fn as_vec(&self) -> (r: &Vec<String>)
        ensures
            views(r@) == self@.paths,
    {
        &self.paths
    }

    /// The paths of the installations, in the order of the directory.
    pub fn into_vec(self) -> (r: Vec<String>)
        ensures
            views(r@) == self@.paths,
    {
        self.paths
    }

    /// Describes the installation at `index` from what reading its release
    /// file gave.
    pub fn metadata_at(&self, index: usize, release: &Result<String, IoFailure>) -> (r: Result<
        Metadata,
        Error,
    >)
        ensures
            outcome_view(r) == if index < self@.paths.len() {
                described(self@.paths[index as int], read_view(*release))
            } else {
                Err(index_error(self@, index))
            },
    {
        match self.lookup(index) {
            Ok(path) => Metadata::new(path.as_str(), release),
            Err(e) => Err(e),
        }
    }

    /// Begins to remove the installation at `index`: the first step.
    ///
    /// Removal is recursive. An installation is a tree of files, and to
    /// remove an empty directory only would never succeed on one. What goes
    /// is an entry of the root directory: never the root itself, never the
    /// marker, nothing outside the root. With an index that the registry
    /// does not hold the operation has failed before anything on disk is
    /// touched.
    pub fn remove_at(&self, index: usize) -> (step: Step)
        ensures
            step@ == remove_plan(self@, index),
            step@ matches StepView::Remove { path } ==> is_installation(self@.root, path),
    {
        match self.lookup(index) {
            Ok(path) => Step::Remove { path: path.clone() },
            Err(e) => Step::Failed(e),
        }
    }

    /// Begins to make the installation at `index` the active one: the first
    /// step. The marker that is there is taken away first, then the new one
    /// is set. With an index that the registry does not hold the operation
    /// has failed before anything on disk is touched. Between the two steps
    /// no installation is active; to run the operation again mends that.
    pub fn load_at(&self, index: usize) -> (step: Step)
        ensures
            step@ == load_plan(self@, index),
            step@ matches StepView::Unload { target: Some(target), .. } ==> is_installation(
                self@.root,
                target,
            ),
    {
        match self.lookup(index) {
            Ok(path) => Step::Unload {
                marker: marker_path(self.root.as_str()),
                target: Some(path.clone()),
            },
            Err(e) => Step::Failed(e),
        }
    }

    /// Begins to take the marker away, so that no installation is active.
    pub fn unload(&self) -> (step: Step)
        ensures
            step@ == (StepView::Unload { marker: marker_of(self@.root), target: None }),
    {
        Step::Unload { marker: marker_path(self.root.as_str()), target: None }
    }
}

} // verus!

