//! Reading the release file of an installation.
//!
//! An installation describes itself in the file `Contents/Home/release` below
//! its directory. Vendor and version are taken from their keys. The variant is
//! taken from its key too; where the key is missing it is guessed from marks
//! that the vendors leave anywhere among the values.

use vstd::prelude::*;
use crate::dirs2::{marker_of, marker_path, release_file, release_of};
use crate::error::{Error, ErrorView, IoFailure};
use crate::ini::{any_value_contains, parse_text, Ini};
use crate::jvm::{
    MarkerProbe, MarkerProbeView, MarkerState, MarkerStateView, Metadata, MetadataView,
    VARIANT_KEY, VENDOR_KEY, VERSION_KEY,
};

verus! {

/// The directory in which macOS keeps the Java installations.
pub const JAVA_VM_DIR: &'static str = "/Library/Java/JavaVirtualMachines";

/// What stands for a vendor or a version that the release file does not give.
pub const UNKNOWN: &'static str = "<unknown>";

/// The variant of an installation that bears no mark.
pub const DEFAULT_VARIANT: &'static str = "Hotspot";

/// One rule of the guess: a value that holds `marker` tells that the variant
/// is `label`.
pub struct VariantRule {
    pub marker: &'static str,
    pub label: &'static str,
}

/// The rules of the guess, the one that counts most first. GraalVM is known
/// by its name; Zulu by the name of its vendor or by its own. The marks are
/// looked for as they are written here, in lower case.
pub open spec fn variant_rules() -> Seq<VariantRule> {
    seq![
        VariantRule { marker: "graalvm", label: "GraalVM" },
        VariantRule { marker: "azul", label: "Zulu" },
        VariantRule { marker: "zulu", label: "Zulu" },
    ]
}

/// The label of the first of `rules` whose marker some value of `m` holds, or
/// the default variant where there is none.
pub open spec fn first_match(rules: Seq<VariantRule>, m: Map<Seq<char>, Seq<char>>) -> Seq<char>
    decreases rules.len(),
{
    if rules.len() == 0 {
        DEFAULT_VARIANT@
    } else if any_value_contains(m, rules[0].marker@) {
        rules[0].label@
    } else {
        first_match(rules.drop_first(), m)
    }
}

/// The variant that the values of `m` point to.
pub open spec fn guessed_variant(m: Map<Seq<char>, Seq<char>>) -> Seq<char> {
    first_match(variant_rules(), m)
}

/// The value of `key` in `m`, or `fallback` where `m` has no such key.
pub open spec fn value_or(m: Map<Seq<char>, Seq<char>>, key: Seq<char>, fallback: Seq<char>) -> Seq<
    char,
> {
    if m.contains_key(key) {
        m[key]
    } else {
        fallback
    }
}

/// The description of the installation at `path` whose release file holds
/// the entries `m`.
pub open spec fn describe(path: Seq<char>, m: Map<Seq<char>, Seq<char>>) -> MetadataView {
    MetadataView {
        vendor: value_or(m, VENDOR_KEY@, UNKNOWN@),
        version: value_or(m, VERSION_KEY@, UNKNOWN@),
        variant: value_or(m, VARIANT_KEY@, guessed_variant(m)),
        path,
    }
}

/// What a read gave, with the text as a sequence of characters.
pub open spec fn read_view(release: Result<String, IoFailure>) -> Result<Seq<char>, IoFailure> {
    match release {
        Ok(text) => Ok(text@),
        Err(cause) => Err(cause),
    }
}

/// A description or a failure, by their views.
pub open spec fn outcome_view(r: Result<Metadata, Error>) -> Result<MetadataView, ErrorView> {
    match r {
        Ok(md) => Ok(md@),
        Err(e) => Err(e@),
    }
}

/// What comes of describing the installation at `path`, given what reading
/// its release file gave.
pub open spec fn described(path: Seq<char>, release: Result<Seq<char>, IoFailure>) -> Result<
    MetadataView,
    ErrorView,
> {
    match release {
        Ok(text) => Ok(describe(path, parse_text(text))),
        Err(cause) => Err(ErrorView::MetadataUnreadable { path: release_of(path), cause }),
    }
}

/// The state of the marker of `root`, given what the caller found at it.
pub open spec fn marker_state_of(root: Seq<char>, probe: MarkerProbeView) -> MarkerStateView {
    match probe.entry {
        Err(IoFailure::NotFound) => MarkerStateView::NoActiveMarker,
        Err(cause) => MarkerStateView::ActiveMarkerDangling { path: marker_of(root), cause },
        Ok(_) => match probe.release {
            Ok(text) => MarkerStateView::ActiveMarkerValid(
                describe(marker_of(root), parse_text(text)),
            ),
            Err(cause) => MarkerStateView::ActiveMarkerDangling {
                path: release_of(marker_of(root)),
                cause,
            },
        },
    }
}

/// The description of the active installation, or why there is none to give.
pub open spec fn current_of(state: MarkerStateView) -> Result<MetadataView, ErrorView> {
    match state {
        MarkerStateView::NoActiveMarker => Err(ErrorView::MarkerAbsent),
        MarkerStateView::ActiveMarkerValid(md) => Ok(md),
        MarkerStateView::ActiveMarkerDangling { path, cause } => Err(
            ErrorView::MetadataUnreadable { path, cause },
        ),
    }
}

/// Of the rules whose marker some value holds, the first decides, whatever
/// the rules after it would say.
pub proof fn lemma_first_match(rules: Seq<VariantRule>, m: Map<Seq<char>, Seq<char>>, i: int)
    requires
        0 <= i < rules.len(),
        any_value_contains(m, rules[i].marker@),
        forall|j: int| 0 <= j < i ==> !any_value_contains(m, (#[trigger] rules[j]).marker@),
    ensures
        first_match(rules, m) == rules[i].label@,
    decreases rules.len(),
{
    if i > 0 {
        let rest = rules.drop_first();
        assert(!any_value_contains(m, rules[0].marker@));
        assert(rest[i - 1] == rules[i]);
        assert forall|j: int| 0 <= j < i - 1 implies !any_value_contains(
            m,
            (#[trigger] rest[j]).marker@,
        ) by {
            assert(rest[j] == rules[j + 1]);
        }
        lemma_first_match(rest, m, i - 1);
    }
}

/// Where no value holds the marker of any rule, the variant is the default.
pub proof fn lemma_no_match(rules: Seq<VariantRule>, m: Map<Seq<char>, Seq<char>>)
    requires
        forall|j: int| 0 <= j < rules.len() ==> !any_value_contains(m, (#[trigger] rules[j]).marker@),
    ensures
        first_match(rules, m) == DEFAULT_VARIANT@,
    decreases rules.len(),
{
    if rules.len() > 0 {
        let rest = rules.drop_first();
        assert(!any_value_contains(m, rules[0].marker@));
        assert forall|j: int| 0 <= j < rest.len() implies !any_value_contains(
            m,
            (#[trigger] rest[j]).marker@,
        ) by {
            assert(rest[j] == rules[j + 1]);
        }
        lemma_no_match(rest, m);
    }
}

/// Without a variant key the variant is guessed: it is the label of the
/// first rule of the table whose marker some value holds. Marks of rules
/// further down, and anything else among the values, change nothing.
pub proof fn lemma_variant_by_mark(path: Seq<char>, m: Map<Seq<char>, Seq<char>>, i: int)
    requires
        !m.contains_key(VARIANT_KEY@),
        0 <= i < variant_rules().len(),
        any_value_contains(m, variant_rules()[i].marker@),
        forall|j: int|
            0 <= j < i ==> !any_value_contains(m, (#[trigger] variant_rules()[j]).marker@),
    ensures
        describe(path, m).variant == variant_rules()[i].label@,
{
    lemma_first_match(variant_rules(), m, i);
}

/// Without a variant key, a value that holds the first marker of the table
/// makes the variant the first label, whatever the other values hold.
pub proof fn lemma_first_mark_counts_most(path: Seq<char>, m: Map<Seq<char>, Seq<char>>)
    requires
        !m.contains_key(VARIANT_KEY@),
        any_value_contains(m, "graalvm"@),
    ensures
        describe(path, m).variant == "GraalVM"@,
{
    lemma_first_match(variant_rules(), m, 0);
}

/// Without a variant key and without any mark the variant is the default.
pub proof fn lemma_variant_without_mark(path: Seq<char>, m: Map<Seq<char>, Seq<char>>)
    requires
        !m.contains_key(VARIANT_KEY@),
        forall|j: int|
            0 <= j < variant_rules().len() ==> !any_value_contains(
                m,
                (#[trigger] variant_rules()[j]).marker@,
            ),
    ensures
        describe(path, m).variant == DEFAULT_VARIANT@,
{
    lemma_no_match(variant_rules(), m);
}

/// A variant key, where there is one, decides the variant; nothing is
/// guessed.
pub proof fn lemma_variant_by_key(path: Seq<char>, m: Map<Seq<char>, Seq<char>>)
    requires
        m.contains_key(VARIANT_KEY@),
    ensures
        describe(path, m).variant == m[VARIANT_KEY@],
{
}

/// Without a marker nothing is active, and asking for the active
/// installation fails with the error kept for that case alone.
pub proof fn lemma_marker_absent(root: Seq<char>, probe: MarkerProbeView)
    requires
        probe.entry == Err::<(), IoFailure>(IoFailure::NotFound),
    ensures
        marker_state_of(root, probe) == MarkerStateView::NoActiveMarker,
        current_of(marker_state_of(root, probe)) == Err::<MetadataView, ErrorView>(
            ErrorView::MarkerAbsent,
        ),
{
}

/// The error kept for the missing marker comes in no other case.
pub proof fn lemma_marker_absent_only(root: Seq<char>, probe: MarkerProbeView)
    ensures
        current_of(marker_state_of(root, probe)) == Err::<MetadataView, ErrorView>(
            ErrorView::MarkerAbsent,
        ) <==> probe.entry == Err::<(), IoFailure>(IoFailure::NotFound),
{
}

/// The rules of the guess, the one that counts most first.
pub fn variant_table() -> (rules: Vec<VariantRule>)
    ensures
        rules@ == variant_rules(),
{
    let rules = vec![
        VariantRule { marker: "graalvm", label: "GraalVM" },
        VariantRule { marker: "azul", label: "Zulu" },
        VariantRule { marker: "zulu", label: "Zulu" },
    ];
    assert(rules@ =~= variant_rules());
    rules
}

/// Guesses the variant from the marks among the values of a release file.
pub fn guess_variant(ini: &Ini) -> (label: &'static str)
    ensures
        label@ == guessed_variant(ini@),
{
    let rules = variant_table();
    let mut i: usize = 0;
    assert(rules@.skip(0) =~= rules@);
    while i < rules.len()
        invariant
            i <= rules.len(),
            rules@ == variant_rules(),
            guessed_variant(ini@) == first_match(rules@.skip(i as int), ini@),
        decreases rules.len() - i,
    {
        assert(rules@.skip(i as int).drop_first() =~= rules@.skip(i + 1));
        assert(rules@.skip(i as int)[0] == rules@[i as int]);
        if ini.any_value_contains(rules[i].marker) {
            return rules[i].label;
        }
        i += 1;
    }
    DEFAULT_VARIANT
}

/// Describes the installation at `path` from the text of its release file.
/// No text is refused.
pub fn describe_release(path: &str, text: &str) -> (md: Metadata)
    ensures
        md@ == describe(path@, parse_text(text@)),
{
    let ini = Ini::parse(text);
    let vendor = match ini.get(VENDOR_KEY) {
        Some(v) => v.to_owned(),
        None => UNKNOWN.to_owned(),
    };
    let version = match ini.get(VERSION_KEY) {
        Some(v) => v.to_owned(),
        None => UNKNOWN.to_owned(),
    };
    let variant = match ini.get(VARIANT_KEY) {
        Some(v) => v.to_owned(),
        None => guess_variant(&ini).to_owned(),
    };
    Metadata { vendor, version, variant, path: path.to_owned() }
}

/// Describes the installation at `path` from what reading its release file
/// gave. A failed read is handed on with the path of the file.
pub fn metadata(path: &str, release: &Result<String, IoFailure>) -> (r: Result<Metadata, Error>)
    ensures
        outcome_view(r) == described(path@, read_view(*release)),
{
    match release {
        Ok(text) => Ok(describe_release(path, text.as_str())),
        Err(cause) => Err(Error::MetadataUnreadable { path: release_file(path), cause: *cause }),
    }
}

/// The state of the marker of `root`, from what the caller found at it.
pub fn marker_state(root: &str, probe: &MarkerProbe) -> (state: MarkerState)
    ensures
        state@ == marker_state_of(root@, probe@),
{
    let marker = marker_path(root);
    match &probe.entry {
        Err(IoFailure::NotFound) => MarkerState::NoActiveMarker,
        Err(cause) => MarkerState::ActiveMarkerDangling { path: marker, cause: *cause },
        Ok(_) => match &probe.release {
            Ok(text) => MarkerState::ActiveMarkerValid(
                describe_release(marker.as_str(), text.as_str()),
            ),
            Err(cause) => MarkerState::ActiveMarkerDangling {
                path: release_file(marker.as_str()),
                cause: *cause,
            },
        },
    }
}

/// The description of the active installation of `root`. Where the marker
/// does not exist the error is [`Error::MarkerAbsent`]; where it exists and
/// its release file cannot be read, [`Error::MetadataUnreadable`].
pub fn current_metadata(root: &str, probe: &MarkerProbe) -> (r: Result<Metadata, Error>)
    ensures
        outcome_view(r) == current_of(marker_state_of(root@, probe@)),
{
    match marker_state(root, probe) {
        MarkerState::NoActiveMarker => Err(Error::MarkerAbsent),
        MarkerState::ActiveMarkerValid(md) => Ok(md),
        MarkerState::ActiveMarkerDangling { path, cause } => Err(
            Error::MetadataUnreadable { path, cause },
        ),
    }
}

} // verus!
