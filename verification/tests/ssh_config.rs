use session_core::ssh_config::{parse_ssh_config, SshHostAlias};

fn aliases(text: &str) -> Vec<String> {
    parse_ssh_config(text).into_iter().map(|h| h.alias).collect()
}

fn aliases_of(got: &[SshHostAlias]) -> Vec<&str> {
    got.iter().map(|h| h.alias.as_str()).collect()
}

#[test]
fn parses_a_basic_host_block() {
    let got = parse_ssh_config("Host main\n  HostName 10.0.0.1\n  User ubuntu\n  Port 2222\n");
    assert_eq!(got.len(), 1);
    assert_eq!(got[0].alias, "main");
    assert_eq!(got[0].host_name.as_deref(), Some("10.0.0.1"));
    assert_eq!(got[0].user.as_deref(), Some("ubuntu"));
    assert_eq!(got[0].port, Some(2222));
    assert_eq!(got[0].proxy_jump, None);
}

#[test]
fn one_line_may_declare_several_aliases_sharing_options() {
    let got = parse_ssh_config("Host a b c\n  HostName 10.0.0.9\n  User u\n");
    assert_eq!(aliases_of(&got), vec!["a", "b", "c"]);
    for h in &got {
        assert_eq!(h.host_name.as_deref(), Some("10.0.0.9"));
        assert_eq!(h.user.as_deref(), Some("u"));
    }
}

#[test]
fn host_star_is_skipped_and_does_not_leak_globals_into_the_previous_alias() {
    let got = parse_ssh_config("Host main\n  HostName 10.0.0.1\nHost *\n  User global-user\n");
    assert_eq!(aliases_of(&got), vec!["main"]);
    assert_eq!(got[0].user, None, "`Host *` 之后的全局选项不能算进上一个别名");
}

#[test]
fn wildcard_and_negated_patterns_are_dropped_but_literals_survive() {
    assert_eq!(aliases("Host *.example.com\n  User u\n"), Vec::<String>::new());
    let got = parse_ssh_config("Host *.example.com foo !bar\n  User u\n");
    assert_eq!(aliases_of(&got), vec!["foo"]);
    assert_eq!(got[0].user.as_deref(), Some("u"));
}

#[test]
fn keyword_is_case_insensitive_and_accepts_equals_separator_and_tabs() {
    let got = parse_ssh_config("host main\n\tHOSTNAME=10.0.0.1\n\tUser=ubuntu\n");
    assert_eq!(got.len(), 1);
    assert_eq!(got[0].host_name.as_deref(), Some("10.0.0.1"));
    assert_eq!(got[0].user.as_deref(), Some("ubuntu"));
}

#[test]
fn line_start_comments_are_ignored() {
    let got = parse_ssh_config("# Host commented\nHost main\n  # User nobody\n  HostName 10.0.0.1\n");
    assert_eq!(aliases_of(&got), vec!["main"]);
    assert_eq!(got[0].user, None);
    assert_eq!(got[0].host_name.as_deref(), Some("10.0.0.1"));
}

#[test]
fn crlf_input_parses_the_same_as_lf() {
    let got = parse_ssh_config("Host main\r\n  HostName 10.0.0.1\r\n  User ubuntu\r\n");
    assert_eq!(got.len(), 1);
    assert_eq!(got[0].alias, "main");
    assert_eq!(got[0].host_name.as_deref(), Some("10.0.0.1"));
    assert_eq!(got[0].user.as_deref(), Some("ubuntu"));
}

#[test]
fn leading_utf8_bom_does_not_swallow_the_first_host() {
    let got = parse_ssh_config("\u{feff}Host main\n  HostName 10.0.0.1\n");
    assert_eq!(aliases_of(&got), vec!["main"]);
}

#[test]
fn match_blocks_end_the_current_section() {
    let got = parse_ssh_config("Host main\n  HostName 10.0.0.1\nMatch host foo\n  User nope\n");
    assert_eq!(aliases_of(&got), vec!["main"]);
    assert_eq!(got[0].user, None);
}

#[test]
fn repeated_alias_is_deduplicated_and_first_value_wins() {
    let got = parse_ssh_config("Host a\n  HostName first\nHost a\n  HostName second\n  User late\n");
    assert_eq!(aliases_of(&got), vec!["a"]);
    assert_eq!(got[0].host_name.as_deref(), Some("first"));
    assert_eq!(got[0].user.as_deref(), Some("late"));
}

#[test]
fn proxy_jump_is_captured_and_non_numeric_port_is_ignored() {
    let got = parse_ssh_config("Host main\n  ProxyJump bastion\n  Port not-a-number\n");
    assert_eq!(got.len(), 1);
    assert_eq!(got[0].proxy_jump.as_deref(), Some("bastion"));
    assert_eq!(got[0].port, None);
}

#[test]
fn empty_input_yields_no_hosts() {
    assert!(parse_ssh_config("").is_empty());
    assert!(parse_ssh_config("\n\n   \n").is_empty());
}

// ---- added ----

#[test]
fn keyword_without_value_and_lines_without_separator_are_skipped() {
    let got = parse_ssh_config("Host a\n  User\n  User =  \n  HostName\t=\t h1 \nHostName\n  Port 70000\n  Port 22\n");
    assert_eq!(aliases_of(&got), vec!["a"]);
    assert_eq!(got[0].user, None);
    assert_eq!(got[0].host_name.as_deref(), Some("h1"));
    assert_eq!(got[0].port, Some(22));
}

#[test]
fn options_before_any_host_belong_to_no_alias() {
    let got = parse_ssh_config("User root\nHost x y x\n  Port 2200\n");
    assert_eq!(aliases_of(&got), vec!["x", "y"]);
    assert_eq!(got[0].user, None);
    assert_eq!(got[0].port, Some(2200));
    assert_eq!(got[1].port, Some(2200));
}
