use myssh::wait::check_wait_appeared;

#[test]
fn it_compiles() {
    assert!(true);
}

#[test]
fn test_config_structure() {}

#[test]
fn test_check_wait_appeared() {
    assert!(check_wait_appeared("$", "user@host:~$"));
    assert!(!check_wait_appeared("$", "user@host:~#"));
    assert!(check_wait_appeared("$|#", "user@host:~$"));
    assert!(check_wait_appeared("$|#", "user@host:~#"));
}

#[test]
fn wait_alternatives_are_trimmed() {
    assert!(check_wait_appeared(" Password: | password for ", "[sudo] password for bob"));
    assert!(check_wait_appeared(" Password: | password for ", "Password:"));
    assert!(!check_wait_appeared(" Password: | password for ", "password:"));
}

#[test]
fn wait_empty_alternatives_never_match() {
    assert!(!check_wait_appeared("", "anything"));
    assert!(!check_wait_appeared("|", "anything|"));
    assert!(!check_wait_appeared("  |\t", "  \t"));
    assert!(check_wait_appeared("||x||", "xyz"));
}

#[test]
fn wait_pattern_must_occur_whole() {
    assert!(!check_wait_appeared("Password:", "Passw"));
    assert!(check_wait_appeared("Password:", "Enter Password: "));
    assert!(!check_wait_appeared("$", ""));
}

#[test]
fn wait_monotonic_on_concrete_output() {
    let before = "login as: ";
    let after = "login as: root\r\n$ ";
    assert!(!check_wait_appeared("$|#", before));
    assert!(check_wait_appeared("$|#", after));
    assert!(check_wait_appeared("$|#", &format!("{}{}", after, "more output")));
}

#[test]
fn wait_unicode_text() {
    assert!(check_wait_appeared("输入密码|密码", "请输入密码："));
    assert!(!check_wait_appeared("密码", "口令"));
}

#[test]
fn wait_holds_in_larger_text() {
    assert!(check_wait_appeared("#", "root@h:~# "));
    assert!(check_wait_appeared("#", "earlier\r\nroot@h:~# later"));
}
