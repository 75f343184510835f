use javamanager::dirs2::{
    child_path, entry_name_ok, java_home_is_marker, jvm_respo, marker_path, release_file, CURRENT,
};
use javamanager::JAVA_VM_DIR;

#[test]
fn jvm_respo_is_the_system_directory() {
    assert_eq!(jvm_respo(), Some(String::from("/Library/Java/JavaVirtualMachines")));
    assert_eq!(JAVA_VM_DIR, "/Library/Java/JavaVirtualMachines");
}

#[test]
fn child_path_puts_one_separator_between() {
    assert_eq!(child_path("/Library/Java", "jdk-17.jdk"), "/Library/Java/jdk-17.jdk");
    assert_eq!(child_path("/Library/Java/", "jdk-17.jdk"), "/Library/Java/jdk-17.jdk");
    assert_eq!(child_path("/", "a"), "/a");
    assert_eq!(child_path("", "a"), "a");
    assert_eq!(child_path("rel", ""), "rel/");
}

#[test]
fn marker_path_is_the_entry_named_current() {
    assert_eq!(CURRENT, "Current");
    assert_eq!(marker_path(JAVA_VM_DIR), "/Library/Java/JavaVirtualMachines/Current");
    assert_eq!(marker_path("/tmp/root/"), "/tmp/root/Current");
}

#[test]
fn release_file_lies_below_contents_and_home() {
    assert_eq!(
        release_file("/Library/Java/JavaVirtualMachines/jdk-17.jdk"),
        "/Library/Java/JavaVirtualMachines/jdk-17.jdk/Contents/Home/release"
    );
    assert_eq!(release_file("/r/"), "/r/Contents/Home/release");
}

#[test]
fn entry_name_ok_accepts_directory_names() {
    assert!(entry_name_ok("jdk-17.jdk"));
    assert!(entry_name_ok(".DS_Store"));
    assert!(entry_name_ok("Current.jdk"));
    assert!(entry_name_ok("current"));
    assert!(entry_name_ok("..."));
}

#[test]
fn entry_name_ok_refuses_the_marker_and_what_is_no_name() {
    assert!(!entry_name_ok("Current"));
    assert!(!entry_name_ok(""));
    assert!(!entry_name_ok("."));
    assert!(!entry_name_ok(".."));
    assert!(!entry_name_ok("a/b"));
    assert!(!entry_name_ok("/"));
}

#[test]
fn java_home_is_marker_compares_with_the_marker_path() {
    assert!(java_home_is_marker("/Library/Java/JavaVirtualMachines/Current", JAVA_VM_DIR));
    assert!(!java_home_is_marker("/Library/Java/JavaVirtualMachines/jdk-17.jdk", JAVA_VM_DIR));
    assert!(!java_home_is_marker("", JAVA_VM_DIR));
}
