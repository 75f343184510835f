use javamanager::ini::Ini;

#[test]
fn parse_gives_each_key_its_value() {
    let ini = Ini::parse("IMPLEMENTOR=Oracle\nJAVA_VERSION=17\n");
    assert_eq!(ini.get("IMPLEMENTOR"), Some("Oracle"));
    assert_eq!(ini.get("JAVA_VERSION"), Some("17"));
    assert_eq!(ini.get("JVM_VARIANT"), None);
    assert_eq!(ini.len(), 2);
}

#[test]
fn parse_takes_the_quotes_off_keys_and_values() {
    let ini = Ini::parse("JAVA_VERSION=\"17.0.1\"\n\"OS_NAME\"=\"Darwin\"");
    assert_eq!(ini.get("JAVA_VERSION"), Some("17.0.1"));
    assert_eq!(ini.get("OS_NAME"), Some("Darwin"));
    assert_eq!(ini.get("\"OS_NAME\""), None);
}

#[test]
fn parse_takes_off_whole_runs_of_quotes_but_none_inside() {
    let ini = Ini::parse("A=\"\"x\"y\"\"\"\nB=\"\"");
    assert_eq!(ini.get("A"), Some("x\"y"));
    assert_eq!(ini.get("B"), Some(""));
}

#[test]
fn parse_lets_the_last_of_two_lines_with_one_key_win() {
    let ini = Ini::parse("A=1\nB=2\nA=3");
    assert_eq!(ini.get("A"), Some("3"));
    assert_eq!(ini.get("B"), Some("2"));
    assert_eq!(ini.len(), 2);
}

#[test]
fn parse_passes_over_lines_without_equals_sign() {
    let ini = Ini::parse("# release\nA=1\n\nnot an entry\nB=2\nC=3\ntrailer");
    assert_eq!(ini.len(), 3);
    assert_eq!(ini.get("A"), Some("1"));
    assert_eq!(ini.get("B"), Some("2"));
    assert_eq!(ini.get("C"), Some("3"));
    assert_eq!(ini.get("not an entry"), None);
    assert_eq!(ini.get("# release"), None);
}

#[test]
fn parse_of_text_without_entries_is_empty() {
    assert_eq!(Ini::parse("").len(), 0);
    assert_eq!(Ini::parse("\n\n").len(), 0);
    assert_eq!(Ini::parse("no entry here").len(), 0);
}

#[test]
fn parse_cuts_a_line_at_its_first_equals_sign_only() {
    let ini = Ini::parse("SOURCE=\".:git:a=b\"\nX==\n");
    assert_eq!(ini.get("SOURCE"), Some(".:git:a=b"));
    assert_eq!(ini.get("X"), Some("="));
}

#[test]
fn parse_accepts_an_empty_key_and_an_empty_value() {
    let ini = Ini::parse("=v\nK=");
    assert_eq!(ini.get(""), Some("v"));
    assert_eq!(ini.get("K"), Some(""));
    assert_eq!(ini.len(), 2);
}

#[test]
fn parse_keeps_blanks_and_carriage_returns() {
    let ini = Ini::parse("A = 1\r\nB=2");
    assert_eq!(ini.get("A "), Some(" 1\r"));
    assert_eq!(ini.get("A"), None);
    assert_eq!(ini.get("B"), Some("2"));
}

#[test]
fn parse_keys_that_differ_only_in_quotes_are_one_key() {
    let ini = Ini::parse("\"A\"=1\nA=2");
    assert_eq!(ini.len(), 1);
    assert_eq!(ini.get("A"), Some("2"));
}

#[test]
fn parse_handles_characters_outside_ascii() {
    let ini = Ini::parse("IMPLEMENTOR=\"Société Générale\"\nÜ=ü");
    assert_eq!(ini.get("IMPLEMENTOR"), Some("Société Générale"));
    assert_eq!(ini.get("Ü"), Some("ü"));
}

#[test]
fn any_value_contains_looks_at_values_only() {
    let ini = Ini::parse("zulu=1\nB=\"some azul thing\"");
    assert!(ini.any_value_contains("azul"));
    assert!(!ini.any_value_contains("zulu"));
    assert!(ini.any_value_contains("thing"));
    assert!(!ini.any_value_contains("Azul"));
}

#[test]
fn any_value_contains_does_not_see_a_value_that_was_replaced() {
    let ini = Ini::parse("A=graalvm\nA=plain");
    assert!(!ini.any_value_contains("graalvm"));
    assert!(ini.any_value_contains("plain"));
}

#[test]
fn any_value_contains_on_no_entries_is_false() {
    assert!(!Ini::parse("").any_value_contains("a"));
    assert!(!Ini::parse("").any_value_contains(""));
    assert!(Ini::parse("A=").any_value_contains(""));
}

#[test]
fn into_hash_map_holds_the_same_entries() {
    let map = Ini::parse("A=1\nnoise\nB=\"two\"\nA=3").into_hash_map();
    assert_eq!(map.len(), 2);
    assert_eq!(map.get("A").map(|v| v.as_str()), Some("3"));
    assert_eq!(map.get("B").map(|v| v.as_str()), Some("two"));
    assert!(map.get("noise").is_none());
    assert!(!map.contains_key("C"));
}
