use javamanager::error::{Error, IoFailure};
use javamanager::jvm::{MarkerProbe, MarkerState};
use javamanager::mac::{describe_release, guess_variant, marker_state, variant_table};
use javamanager::ini::Ini;
use javamanager::{current_metadata, metadata, Metadata, VARIANT_KEY, VENDOR_KEY, VERSION_KEY};

const ROOT: &str = "/Library/Java/JavaVirtualMachines";
const JDK: &str = "/Library/Java/JavaVirtualMachines/jdk-17.jdk";

fn text(s: &str) -> Result<String, IoFailure> {
    Ok(String::from(s))
}

#[test]
fn keys_are_those_of_a_release_file() {
    assert_eq!(VENDOR_KEY, "IMPLEMENTOR");
    assert_eq!(VERSION_KEY, "JAVA_VERSION");
    assert_eq!(VARIANT_KEY, "JVM_VARIANT");
}

#[test]
fn metadata_reads_vendor_version_and_variant() {
    let release = text("IMPLEMENTOR=\"Oracle Corporation\"\nJAVA_VERSION=\"17.0.1\"\nJVM_VARIANT=\"Server\"\n");
    let md = metadata(JDK, &release).unwrap();
    assert_eq!(md.vendor(), "Oracle Corporation");
    assert_eq!(md.version(), "17.0.1");
    assert_eq!(md.variant(), "Server");
    assert_eq!(md.path(), JDK);
}

#[test]
fn metadata_of_an_empty_release_file_is_unknown_and_default() {
    let md = metadata(JDK, &text("")).unwrap();
    assert_eq!(md.vendor(), "<unknown>");
    assert_eq!(md.version(), "<unknown>");
    assert_eq!(md.variant(), "Hotspot");
    assert_eq!(md.path(), JDK);
}

#[test]
fn metadata_new_is_the_same_description() {
    let release = text("IMPLEMENTOR=Azul\nJAVA_VERSION=11");
    assert_eq!(Metadata::new(JDK, &release), metadata(JDK, &release));
    let missing = Err(IoFailure::NotFound);
    assert_eq!(Metadata::new(JDK, &missing), metadata(JDK, &missing));
}

#[test]
fn metadata_of_an_unreadable_release_file_names_the_file() {
    let r = metadata(JDK, &Err(IoFailure::NotFound));
    assert_eq!(
        r,
        Err(Error::MetadataUnreadable {
            path: String::from("/Library/Java/JavaVirtualMachines/jdk-17.jdk/Contents/Home/release"),
            cause: IoFailure::NotFound,
        })
    );
    let r = metadata(JDK, &Err(IoFailure::Other(13)));
    assert_eq!(
        r,
        Err(Error::MetadataUnreadable {
            path: String::from("/Library/Java/JavaVirtualMachines/jdk-17.jdk/Contents/Home/release"),
            cause: IoFailure::Other(13),
        })
    );
}

#[test]
fn variant_table_is_in_order_of_precedence() {
    let rules = variant_table();
    let pairs: Vec<(&str, &str)> = rules.iter().map(|r| (r.marker, r.label)).collect();
    assert_eq!(pairs, vec![("graalvm", "GraalVM"), ("azul", "Zulu"), ("zulu", "Zulu")]);
}

#[test]
fn variant_is_guessed_from_a_mark_in_any_value() {
    let md = describe_release(JDK, "IMPLEMENTOR=Oracle\nSOURCE=\".:git:graalvm-21\"");
    assert_eq!(md.variant(), "GraalVM");
    let md = describe_release(JDK, "IMPLEMENTOR=\"azul systems\"");
    assert_eq!(md.variant(), "Zulu");
    let md = describe_release(JDK, "IMPLEMENTOR_VERSION=\"zulu11.50\"");
    assert_eq!(md.variant(), "Zulu");
}

#[test]
fn variant_mark_of_the_first_brand_wins_over_every_other() {
    let md = describe_release(JDK, "A=\"built with azul\"\nB=hotspot\nC=graalvm\nD=zulu");
    assert_eq!(md.variant(), "GraalVM");
    let md = describe_release(JDK, "A=graalvm\nB=\"azul zulu hotspot\"");
    assert_eq!(md.variant(), "GraalVM");
    let md = describe_release(JDK, "A=\"hotspot build\"\nB=\"azul\"");
    assert_eq!(md.variant(), "Zulu");
}

#[test]
fn variant_marks_are_case_sensitive_and_looked_for_in_values_only() {
    let md = describe_release(JDK, "IMPLEMENTOR=\"Azul Systems\"\nX=GraalVM\nY=ZULU");
    assert_eq!(md.variant(), "Hotspot");
    let md = describe_release(JDK, "graalvm=1\nazul=2");
    assert_eq!(md.variant(), "Hotspot");
}

#[test]
fn variant_key_wins_over_the_guess() {
    let md = describe_release(JDK, "JVM_VARIANT=\"Client\"\nSOURCE=graalvm");
    assert_eq!(md.variant(), "Client");
    let md = describe_release(JDK, "SOURCE=graalvm\nJVM_VARIANT=");
    assert_eq!(md.variant(), "");
}

#[test]
fn guess_variant_without_any_mark_is_the_default() {
    assert_eq!(guess_variant(&Ini::parse("A=1\nB=hotspot")), "Hotspot");
    assert_eq!(guess_variant(&Ini::parse("")), "Hotspot");
    assert_eq!(guess_variant(&Ini::parse("A=xgraalvmx")), "GraalVM");
}

#[test]
fn file_name_is_the_directory_below_the_system_root() {
    let md = describe_release(JDK, "");
    assert_eq!(md.file_name(), Some("jdk-17.jdk"));
    let md = describe_release("/Library/Java/JavaVirtualMachines/Current/Contents/Home", "");
    assert_eq!(md.file_name(), Some("Current"));
    let md = describe_release("/a/b/c/", "");
    assert_eq!(md.file_name(), Some(""));
}

#[test]
fn file_name_of_a_shallow_path_is_none() {
    assert_eq!(describe_release("/Library/Java/JavaVirtualMachines", "").file_name(), None);
    assert_eq!(describe_release("jdk", "").file_name(), None);
    assert_eq!(describe_release("", "").file_name(), None);
}

#[test]
fn marker_state_without_marker() {
    let probe = MarkerProbe { entry: Err(IoFailure::NotFound), release: Err(IoFailure::NotFound) };
    assert_eq!(marker_state(ROOT, &probe), MarkerState::NoActiveMarker);
    let probe = MarkerProbe { entry: Err(IoFailure::NotFound), release: text("IMPLEMENTOR=x") };
    assert_eq!(marker_state(ROOT, &probe), MarkerState::NoActiveMarker);
}

#[test]
fn marker_state_with_a_marker_that_leads_nowhere() {
    let probe = MarkerProbe { entry: Ok(()), release: Err(IoFailure::NotFound) };
    assert_eq!(
        marker_state(ROOT, &probe),
        MarkerState::ActiveMarkerDangling {
            path: String::from("/Library/Java/JavaVirtualMachines/Current/Contents/Home/release"),
            cause: IoFailure::NotFound,
        }
    );
    let probe = MarkerProbe { entry: Err(IoFailure::Other(13)), release: Err(IoFailure::Other(13)) };
    assert_eq!(
        marker_state(ROOT, &probe),
        MarkerState::ActiveMarkerDangling {
            path: String::from("/Library/Java/JavaVirtualMachines/Current"),
            cause: IoFailure::Other(13),
        }
    );
}

#[test]
fn marker_state_with_a_valid_marker() {
    let probe = MarkerProbe { entry: Ok(()), release: text("IMPLEMENTOR=Azul\nJAVA_VERSION=11\nX=zulu") };
    match marker_state(ROOT, &probe) {
        MarkerState::ActiveMarkerValid(md) => {
            assert_eq!(md.vendor(), "Azul");
            assert_eq!(md.version(), "11");
            assert_eq!(md.variant(), "Zulu");
            assert_eq!(md.path(), "/Library/Java/JavaVirtualMachines/Current");
        }
        other => panic!("unexpected state {:?}", other),
    }
}

#[test]
fn current_metadata_tells_absent_from_unreadable() {
    let absent = MarkerProbe { entry: Err(IoFailure::NotFound), release: Err(IoFailure::NotFound) };
    assert_eq!(current_metadata(ROOT, &absent), Err(Error::MarkerAbsent));
    let dangling = MarkerProbe { entry: Ok(()), release: Err(IoFailure::NotFound) };
    assert_eq!(
        current_metadata(ROOT, &dangling),
        Err(Error::MetadataUnreadable {
            path: String::from("/Library/Java/JavaVirtualMachines/Current/Contents/Home/release"),
            cause: IoFailure::NotFound,
        })
    );
    let valid = MarkerProbe { entry: Ok(()), release: text("JAVA_VERSION=21") };
    let md = current_metadata(ROOT, &valid).unwrap();
    assert_eq!(md.version(), "21");
    assert_eq!(md.vendor(), "<unknown>");
    assert_eq!(javamanager::jvm::current_metadata(ROOT, &valid), Ok(md));
}

#[test]
fn is_current_compares_vendor_version_and_variant_but_not_the_path() {
    let release = "IMPLEMENTOR=Oracle\nJAVA_VERSION=17\nJVM_VARIANT=Server";
    let md = describe_release(JDK, release);
    let marker = MarkerState::ActiveMarkerValid(describe_release("/elsewhere/Current", release));
    assert_eq!(md.is_current(&marker), Ok(true));
    for other in [
        "IMPLEMENTOR=Azul\nJAVA_VERSION=17\nJVM_VARIANT=Server",
        "IMPLEMENTOR=Oracle\nJAVA_VERSION=11\nJVM_VARIANT=Server",
        "IMPLEMENTOR=Oracle\nJAVA_VERSION=17\nJVM_VARIANT=Client",
    ] {
        let marker = MarkerState::ActiveMarkerValid(describe_release(JDK, other));
        assert_eq!(md.is_current(&marker), Ok(false));
    }
}

#[test]
fn is_current_without_marker_is_an_error_and_not_false() {
    let md = describe_release(JDK, "IMPLEMENTOR=Oracle");
    let r = md.is_current(&MarkerState::NoActiveMarker);
    assert_eq!(r, Err(Error::MarkerAbsent));
    assert_ne!(r, Ok(false));
}

#[test]
fn is_current_with_a_dangling_marker_is_unreadable() {
    let md = describe_release(JDK, "IMPLEMENTOR=Oracle");
    let marker = MarkerState::ActiveMarkerDangling {
        path: String::from("/r/Current/Contents/Home/release"),
        cause: IoFailure::Other(5),
    };
    assert_eq!(
        md.is_current(&marker),
        Err(Error::MetadataUnreadable {
            path: String::from("/r/Current/Contents/Home/release"),
            cause: IoFailure::Other(5),
        })
    );
}

#[test]
fn error_gives_its_path_and_cause() {
    let e = Error::RootUnavailable { path: String::from("/r"), cause: IoFailure::Other(13) };
    assert_eq!(e.path(), Some("/r"));
    assert_eq!(e.cause(), Some(IoFailure::Other(13)));
    assert_eq!(e.duplicate(), e);
    let e = Error::ActivationFailed { path: String::from("/r/Current"), cause: IoFailure::NotFound };
    assert_eq!(e.path(), Some("/r/Current"));
    assert_eq!(e.cause(), Some(IoFailure::NotFound));
    assert_eq!(e.duplicate(), e);
    let e = Error::RemovalFailed { path: String::from("/r/a"), cause: IoFailure::Other(66) };
    assert_eq!(e.path(), Some("/r/a"));
    assert_eq!(e.duplicate(), e);
    let e = Error::MetadataUnreadable { path: String::from("/r/a/x"), cause: IoFailure::Other(2) };
    assert_eq!(e.path(), Some("/r/a/x"));
    assert_eq!(e.duplicate(), e);
    assert_eq!(Error::MarkerAbsent.path(), None);
    assert_eq!(Error::MarkerAbsent.cause(), None);
    assert_eq!(Error::MarkerAbsent.duplicate(), Error::MarkerAbsent);
    let e = Error::IndexOutOfRange { index: 3, len: 2 };
    assert_eq!(e.path(), None);
    assert_eq!(e.cause(), None);
    assert_eq!(e.duplicate(), e);
}
