use termviai::hosts::{Host, HostError, HostStore, HostStoreError, KeyFile, StoredFile};

fn ipv6(text: &[char]) -> bool {
    text.iter().collect::<String>().parse::<core::net::Ipv6Addr>().is_ok()
}

fn quick(text: &str) -> Result<Host, HostError> {
    Host::quick_connect(text, &ipv6)
}

#[test]
fn ssh_addresses() {
    let host = quick("ssh alice@[2001:db8::1]:2200").unwrap();
    assert_eq!(host.endpoint(), "[2001:db8::1]:2200");
    assert_eq!(host.username, "alice");
    assert_eq!(quick("example.org").unwrap().port, 22);
    for bad in [
        "telnet://server",
        "ssh://server",
        "server:0",
        "server:65536",
        "-oProxyCommand=x",
        "server command",
        "[not-ipv6]:22",
        "[2001:db8::1]:bad",
    ] {
        assert!(quick(bad).is_err(), "{}", bad);
    }
}

#[test]
fn quick_connect_reports_each_reason() {
    assert_eq!(quick("ssh://server").unwrap_err(), HostError::QuickConnectFormat);
    assert_eq!(quick("a b").unwrap_err(), HostError::QuickConnectFormat);
    assert_eq!(quick("[2001:db8::1").unwrap_err(), HostError::MissingBracket);
    assert_eq!(quick("[nope]").unwrap_err(), HostError::BracketNotIpv6);
    assert_eq!(quick("[::1]22").unwrap_err(), HostError::BracketPort);
    assert_eq!(quick("server:x").unwrap_err(), HostError::InvalidSshPort);
    assert_eq!(quick("server:0").unwrap_err(), HostError::InvalidPort);
    assert_eq!(quick("-x").unwrap_err(), HostError::InvalidAddress);
    assert_eq!(quick("al ice@server").unwrap_err(), HostError::QuickConnectFormat);
}

#[test]
fn quick_connect_keeps_unicode_and_defaults_the_label() {
    let host = quick("  用户@example.org:2222  ").unwrap();
    assert_eq!(host.username, "用户");
    assert_eq!(host.address, "example.org");
    assert_eq!(host.port, 2222);
    assert_eq!(host.label, "example.org");
    assert_eq!(host.endpoint(), "example.org:2222");
    let v6 = quick("[::1]").unwrap();
    assert_eq!(v6.address, "::1");
    assert_eq!(v6.endpoint(), "[::1]:22");
}

fn host(address: &str) -> Host {
    Host {
        label: String::new(),
        address: address.into(),
        port: 22,
        username: String::new(),
        group: String::new(),
        identity_file: String::new(),
    }
}

#[test]
fn validation_trims_and_rejects_bad_fields() {
    let mut h = host("  example.org ");
    h.label = "  web ".into();
    h.validate(&ipv6, &|_: &[char]| true).unwrap();
    assert_eq!(h.address, "example.org");
    assert_eq!(h.label, "web");

    let mut bracketed = host("[2001:db8::2]");
    bracketed.validate(&ipv6, &|_: &[char]| true).unwrap();
    assert_eq!(bracketed.address, "2001:db8::2");

    let mut zero = host("example.org");
    zero.port = 0;
    assert_eq!(zero.validate(&ipv6, &|_: &[char]| true), Err(HostError::InvalidPort));

    let mut user = host("example.org");
    user.username = "a b".into();
    assert_eq!(user.validate(&ipv6, &|_: &[char]| true), Err(HostError::InvalidUsername));

    let mut group = host("example.org");
    group.group = "x\u{7}".into();
    assert_eq!(group.validate(&ipv6, &|_: &[char]| true), Err(HostError::ControlCharacters));

    let mut v6 = host("fe80::zz");
    assert_eq!(v6.validate(&ipv6, &|_: &[char]| true), Err(HostError::InvalidIpv6));

    let mut scheme = host("ssh://x");
    assert_eq!(scheme.validate(&ipv6, &|_: &[char]| true), Err(HostError::InvalidAddress));

    let mut key = host("example.org");
    key.identity_file = "/missing/key".into();
    assert_eq!(key.validate(&ipv6, &|_: &[char]| false), Err(HostError::MissingKeyFile));
    let mut present = host("example.org");
    present.identity_file = " /keys/id ".into();
    present.validate(&ipv6, &|_: &[char]| true).unwrap();
    assert_eq!(present.identity_file, "/keys/id");
}

#[test]
fn errors_explain_themselves() {
    assert_eq!(HostError::InvalidPort.message(), "Port must be between 1 and 65535.");
    assert_eq!(HostStoreError::Open.message(), "Could not open the local host library.");
    assert_eq!(
        HostStoreError::Read.message(),
        "Could not read the local host library. The file has been preserved."
    );
}

#[test]
fn a_missing_library_is_empty_and_a_broken_one_is_an_error() {
    let empty = HostStore::load(StoredFile::Missing).unwrap();
    assert!(empty.hosts.is_empty() && empty.keys.is_empty());
    assert_eq!(HostStore::load(StoredFile::Unopenable).unwrap_err(), HostStoreError::Open);
    assert_eq!(HostStore::load(StoredFile::Unreadable).unwrap_err(), HostStoreError::Read);
    let stored = HostStore {
        hosts: vec![host("a")],
        keys: vec![KeyFile { label: "k".into(), path: "/k".into() }],
    };
    let read = HostStore::load(StoredFile::Read(stored)).unwrap();
    assert_eq!(read.hosts.len(), 1);
    assert_eq!(read.keys[0].path, "/k");
}
