use voyager_disco::hook::{
    eq_ignore_ascii_case, executable_mode, install, is_zsa_vendor_attribute, watch_service_unit,
    HOOK_COMMAND, SERVICE_NAME,
};

#[test]
fn new_hook_file_holds_the_command() {
    assert_eq!(install(None).unwrap(), "voyager-disco omarchy match-theme\n");
}

#[test]
fn command_is_appended_on_its_own_line() {
    assert_eq!(
        install(Some("#!/bin/sh\necho hi")).unwrap(),
        "#!/bin/sh\necho hi\nvoyager-disco omarchy match-theme\n"
    );
    assert_eq!(
        install(Some("echo hi\n")).unwrap(),
        "echo hi\nvoyager-disco omarchy match-theme\n"
    );
    assert_eq!(install(Some("")).unwrap(), "\nvoyager-disco omarchy match-theme\n");
}

#[test]
fn installed_hook_is_left_alone() {
    assert_eq!(install(Some("echo hi\nvoyager-disco omarchy match-theme\n")), None);
    assert_eq!(install(Some("  voyager-disco omarchy match-theme \r\nx")), None);
}

#[test]
fn command_inside_a_longer_line_does_not_count() {
    assert_eq!(
        install(Some("# voyager-disco omarchy match-theme")).unwrap(),
        "# voyager-disco omarchy match-theme\nvoyager-disco omarchy match-theme\n"
    );
}

#[test]
fn installing_twice_changes_nothing() {
    for start in [None, Some(""), Some("echo a"), Some("echo a\n")] {
        let once = install(start).unwrap();
        assert_eq!(install(Some(&once)), None);
    }
}

#[test]
fn hook_mode_gains_execute_bits() {
    assert_eq!(executable_mode(0o644), 0o755);
    assert_eq!(executable_mode(0o100600), 0o100711);
    assert_eq!(executable_mode(0o755), 0o755);
}

#[test]
fn service_unit_text() {
    assert_eq!(
        watch_service_unit("/usr/local/bin/voyager-disco"),
        "[Unit]\nDescription=Sync ZSA keyboard LEDs with the Omarchy theme on connect\n\n\
         [Service]\nExecStart=/usr/local/bin/voyager-disco omarchy watch\nRestart=on-failure\n\
         RestartSec=2\n\n[Install]\nWantedBy=default.target\n"
    );
    assert_eq!(SERVICE_NAME, "voyager-disco-watch.service");
    assert_eq!(HOOK_COMMAND, "voyager-disco omarchy match-theme");
}

#[test]
fn zsa_vendor_attribute() {
    assert!(is_zsa_vendor_attribute("3297"));
    assert!(!is_zsa_vendor_attribute("3298"));
    assert!(!is_zsa_vendor_attribute("03297"));
    assert!(!is_zsa_vendor_attribute(""));
}

#[test]
fn ascii_case_is_ignored() {
    assert!(eq_ignore_ascii_case("AbC1", "aBc1"));
    assert!(!eq_ignore_ascii_case("abc", "abd"));
    assert!(!eq_ignore_ascii_case("\u{c9}", "\u{e9}"));
}
