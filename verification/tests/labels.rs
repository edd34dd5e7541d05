use termviai::hosts::Host;
use termviai::labels::{
    default_tab_label, domain_name, pane_label, restored_name_is_custom, split_percent, tab_label, tab_name,
    TabNameError, ssh_domain, SshProfile,
};
use termviai::workspaces::{SavedLayout, SplitAxis};

fn ipv6(text: &[char]) -> bool {
    text.iter().collect::<String>().parse::<core::net::Ipv6Addr>().is_ok()
}

#[test]
fn labels_describe_hosts_without_shell_titles() {
    assert_eq!(default_tab_label(&["209".into()]), "209");
    assert_eq!(default_tab_label(&["209".into(), "212".into()]), "209 + 212");
    assert_eq!(default_tab_label(&["209".into(), "212".into(), "217".into()]), "209 + 2 hosts");
}

#[test]
fn generated_tab_labels_follow_pane_removal_but_manual_names_remain() {
    assert_eq!(tab_label(None, &["209".into(), "212".into()]), "209 + 212");
    assert_eq!(tab_label(None, &["212".into()]), "212");
    assert_eq!(tab_label(Some("Production"), &["212".into()]), "Production");
    assert_eq!(tab_label(Some(""), &["212".into()]), "212");
}

#[test]
fn restoring_generated_group_names_does_not_freeze_old_host_labels() {
    let layout = SavedLayout::Split {
        axis: SplitAxis::Horizontal,
        first_percent: 50,
        first: Box::new(SavedLayout::Pane { host: Host::quick_connect("209", &ipv6).unwrap() }),
        second: Box::new(SavedLayout::Pane { host: Host::quick_connect("212", &ipv6).unwrap() }),
    };
    assert!(!restored_name_is_custom(None, &layout));
    assert!(!restored_name_is_custom(Some("209 + 212"), &layout));
    assert!(restored_name_is_custom(Some("Production"), &layout));
}

#[test]
fn an_empty_tab_is_a_workspace() {
    assert_eq!(default_tab_label(&[]), "Workspace");
}

#[test]
fn domain_names_carry_keepalive_and_identity() {
    let host = Host {
        label: "server".into(),
        address: "example.org".into(),
        port: 22,
        username: "alice".into(),
        group: String::new(),
        identity_file: "key.pem".into(),
    };
    assert_eq!(domain_name(&host, 30), "termviai:alice:example.org:22:key.pem:server:keepalive=30");
    assert_ne!(domain_name(&host, 30), domain_name(&host, 0));
}

#[test]
fn split_shares_round_and_stay_within_bounds() {
    assert_eq!(split_percent(40, 60), 40);
    assert_eq!(split_percent(1, 2), 33);
    assert_eq!(split_percent(2, 1), 67);
    assert_eq!(split_percent(0, 100), 1);
    assert_eq!(split_percent(100, 0), 99);
    assert_eq!(split_percent(0, 0), 1);
}

#[test]
fn tab_names_are_trimmed_and_limited_to_eighty_characters() {
    assert_eq!(tab_name("  build box \t").unwrap(), "build box");
    assert_eq!(tab_name(&"x".repeat(80)).unwrap(), "x".repeat(80));
    assert_eq!(tab_name(&"x".repeat(81)), Err(TabNameError::Invalid));
    assert_eq!(tab_name("   "), Err(TabNameError::Invalid));
    assert_eq!(tab_name("bad\u{7}name"), Err(TabNameError::Invalid));
    assert_eq!(TabNameError::Invalid.message(), "Enter a name with 1\u{2013}80 characters.");
}

#[test]
fn sessions_without_a_labelled_host_are_terminals() {
    let mut host = Host {
        label: "db".to_string(),
        address: "db.example.org".to_string(),
        port: 22,
        username: String::new(),
        group: String::new(),
        identity_file: String::new(),
    };
    assert_eq!(pane_label(Some(&host)), "db");
    host.label.clear();
    assert_eq!(pane_label(Some(&host)), "Terminal");
    assert_eq!(pane_label(None), "Terminal");
}

fn option<'a>(profile: &'a SshProfile, key: &str) -> &'a str {
    profile.ssh_option.iter().find(|(k, _)| k == key).map(|(_, v)| v.as_str()).unwrap()
}

#[test]
fn termviai_ssh_domain_carries_keepalive_and_changes_cache_identity() {
    let host = Host {
        label: "server".into(),
        address: "example.org".into(),
        port: 22,
        username: "alice".into(),
        group: String::new(),
        identity_file: "key.pem".into(),
    };
    let enabled = ssh_domain(&host, 30);
    assert_eq!(option(&enabled, "serveraliveinterval"), "30");
    assert_eq!(option(&enabled, "identityfile"), "key.pem");
    let disabled = ssh_domain(&host, 0);
    assert_eq!(option(&disabled, "serveraliveinterval"), "0");
    assert_ne!(enabled.name, disabled.name);
}

#[test]
fn ssh_profiles_leave_out_what_the_host_does_not_set() {
    let host = Host {
        label: "db".into(),
        address: "2001:db8::1".into(),
        port: 2222,
        username: String::new(),
        group: String::new(),
        identity_file: String::new(),
    };
    let profile = ssh_domain(&host, 45);
    assert_eq!(profile.remote_address, "[2001:db8::1]:2222");
    assert_eq!(profile.username, None);
    assert_eq!(profile.ssh_option, vec![("serveraliveinterval".to_string(), "45".to_string())]);
}
