use termviai::hosts::{Host, HostError, StoredFile};
use termviai::workspaces::{
    group_request, new_id, normalized_address, same_host, save_request, workspace_name, SavedLayout, SplitAxis,
    WorkspaceError, WorkspaceStore, MAX_HISTORY, MAX_RECENT, MAX_SAVED,
};

fn ipv6(text: &[char]) -> bool {
    text.iter().collect::<String>().parse::<core::net::Ipv6Addr>().is_ok()
}

fn canon(text: &[char]) -> Option<Vec<char>> {
    text.iter()
        .collect::<String>()
        .parse::<core::net::IpAddr>()
        .ok()
        .map(|ip| ip.to_string().chars().collect())
}

fn host(address: &str) -> Host {
    Host::quick_connect(address, &ipv6).unwrap()
}

fn group() -> SavedLayout {
    SavedLayout::Split {
        axis: SplitAxis::Horizontal,
        first_percent: 40,
        first: Box::new(SavedLayout::Pane { host: host("one") }),
        second: Box::new(SavedLayout::Split {
            axis: SplitAxis::Vertical,
            first_percent: 65,
            first: Box::new(SavedLayout::Pane { host: host("alice@two:2222") }),
            second: Box::new(SavedLayout::Pane { host: host("[2001:db8::1]") }),
        }),
    }
}

fn fresh() -> WorkspaceStore {
    WorkspaceStore::load(StoredFile::Missing, &ipv6).unwrap()
}

#[test]
fn layouts_count_and_list_their_hosts() {
    let layout = group();
    assert_eq!(layout.pane_count(), 3);
    let hosts = layout.hosts();
    assert_eq!(hosts[1].username, "alice");
    assert_eq!(hosts[2].address, "2001:db8::1");
}

#[test]
fn workspace_recents_deduplicate_identity_update_label_and_cap_entries() {
    let mut store = fresh();
    for index in 0..MAX_RECENT + 5 {
        store
            .record_recent(&host(&format!("server-{}", index)), 1000 + index as u64, &canon, &ipv6)
            .unwrap();
    }
    assert_eq!(store.recent.len(), MAX_RECENT);
    let mut renamed = host("SERVER-34");
    renamed.label = "Staging".into();
    store.record_recent(&renamed, 2000, &canon, &ipv6).unwrap();
    assert_eq!(store.recent.len(), MAX_RECENT);
    assert_eq!(store.recent[0].host.label, "Staging");
    store.record_recent(&host("alice@SERVER-34"), 2001, &canon, &ipv6).unwrap();
    assert_eq!(store.recent[0].host.username, "alice");
    assert_eq!(store.recent[1].host.label, "Staging");
}

#[test]
fn stamps_stay_after_every_entry_even_when_the_clock_goes_back() {
    let mut store = fresh();
    store.record_recent(&host("a"), 500, &canon, &ipv6).unwrap();
    store.record_recent(&host("b"), 100, &canon, &ipv6).unwrap();
    assert_eq!(store.recent[0].host.address, "b");
    assert_eq!(store.recent[0].last_connected_ms, 501);
    assert_eq!(store.next_stamp_at(0), 502);
    assert_eq!(store.next_stamp_at(9000), 9000);
}

#[test]
fn ip_addresses_compare_in_canonical_form() {
    let a = host("[2001:db8:0::1]");
    let b = host("[2001:DB8::1]");
    assert!(same_host(&a, &b, &canon));
    assert_eq!(normalized_address(&a, &canon).iter().collect::<String>(), "2001:db8::1");
    assert_eq!(normalized_address(&host("Example.ORG"), &canon).iter().collect::<String>(), "example.org");
    assert!(!same_host(&host("example.org"), &host("bob@example.org"), &canon));
}

#[test]
fn workspace_history_deduplicates_layouts_but_keeps_ssh_credentials_distinct() {
    let mut store = fresh();
    store.record_group_history("Original", group(), 10, &canon, &ipv6).unwrap();
    let id = store.history[0].id.clone();
    let mut updated = group();
    if let SavedLayout::Split { first, .. } = &mut updated {
        if let SavedLayout::Pane { host } = first.as_mut() {
            host.label = "A new label".into();
        }
    }
    store.record_group_history("Renamed", updated.clone(), 11, &canon, &ipv6).unwrap();
    assert_eq!(store.history.len(), 1);
    assert_eq!(store.history[0].id, id);
    assert_eq!(store.history[0].name, "Renamed");
    if let SavedLayout::Split { first, .. } = &mut updated {
        if let SavedLayout::Pane { host } = first.as_mut() {
            host.identity_file = "not-currently-mounted/id_ed25519".into();
        }
    }
    store.record_group_history("Different key", updated, 12, &canon, &ipv6).unwrap();
    assert_eq!(store.history.len(), 2);
}

#[test]
fn single_terminals_are_not_group_history() {
    let mut store = fresh();
    store
        .record_group_history("Solo", SavedLayout::Pane { host: host("one") }, 10, &canon, &ipv6)
        .unwrap();
    assert!(store.history.is_empty());
    assert_eq!(
        group_request("Solo", &SavedLayout::Pane { host: host("one") }, &ipv6).unwrap(),
        None
    );
    assert_eq!(group_request("  Pair ", &group(), &ipv6).unwrap().unwrap(), "Pair");
}

#[test]
fn history_keeps_the_newest_groups() {
    let mut store = fresh();
    for index in 0..MAX_HISTORY + 3 {
        let layout = SavedLayout::Split {
            axis: SplitAxis::Vertical,
            first_percent: 50,
            first: Box::new(SavedLayout::Pane { host: host(&format!("h{}", index)) }),
            second: Box::new(SavedLayout::Pane { host: host("shared") }),
        };
        store.record_group_history("G", layout, 100 + index as u64, &canon, &ipv6).unwrap();
    }
    assert_eq!(store.history.len(), MAX_HISTORY);
    assert!(store.history[0].updated_at_ms > store.history[1].updated_at_ms);
}

#[test]
fn saving_keeps_a_stable_id_and_renames() {
    let mut store = fresh();
    let id = store.save_group(None, "开发环境", group(), 10, &ipv6).unwrap();
    assert!(id.starts_with("workspace-"));
    assert_eq!(id.len(), "workspace-".len() + 32);
    let updated = store.save_group(Some(&id), "生产环境", group(), 11, &ipv6).unwrap();
    assert_eq!(id, updated);
    assert_eq!(store.saved.len(), 1);
    assert_eq!(store.saved[0].name, "生产环境");
    assert_eq!(store.saved[0].layout, group());
    store.rename_saved(&id, " Renamed ", 12, &ipv6).unwrap();
    assert_eq!(store.saved[0].name, "Renamed");
    assert_eq!(store.saved[0].updated_at_ms, 12);
    assert_eq!(store.rename_saved("other", "x", 13, &ipv6), Err(WorkspaceError::Missing));
    assert_eq!(store.rename_saved(&id, "\n", 13, &ipv6), Err(WorkspaceError::Name));
}

#[test]
fn workspace_invalid_layout_or_name_does_not_modify_library() {
    let mut store = fresh();
    store.save_group(None, "Good", group(), 10, &ipv6).unwrap();
    let mut invalid = group();
    if let SavedLayout::Split { first_percent, .. } = &mut invalid {
        *first_percent = 100;
    }
    assert_eq!(store.save_group(None, "Invalid", invalid, 11, &ipv6), Err(WorkspaceError::SplitPercent));
    assert_eq!(store.save_group(None, "\n", group(), 11, &ipv6), Err(WorkspaceError::Name));
    assert_eq!(
        store.save_group(None, "Single", SavedLayout::Pane { host: host("one") }, 11, &ipv6),
        Err(WorkspaceError::TooFewPanes)
    );
    assert_eq!(store.save_group(Some(""), "Group", group(), 11, &ipv6), Err(WorkspaceError::Id));
    assert_eq!(save_request(Some("a\tb"), "Group", &group(), &ipv6), Err(WorkspaceError::Id));
    assert_eq!(store.saved.len(), 1);
    assert_eq!(store.saved[0].name, "Good");
}

#[test]
fn a_full_library_only_takes_replacements() {
    let mut store = fresh();
    for index in 0..MAX_SAVED {
        store.save_group(Some(&format!("id-{}", index)), "G", group(), index as u64, &ipv6).unwrap();
    }
    assert_eq!(store.save_group(Some("new"), "G", group(), 500, &ipv6), Err(WorkspaceError::LibraryFull));
    assert_eq!(store.save_group(Some("id-3"), "Again", group(), 501, &ipv6).unwrap(), "id-3");
    assert_eq!(store.saved.len(), MAX_SAVED);
    assert_eq!(store.saved[0].name, "Again");
}

#[test]
fn workspace_stale_windows_merge_without_reverting_saved_names() {
    let mut first = fresh();
    let id = first.save_group(None, "Initial", group(), 10, &ipv6).unwrap();
    let second = first.clone();
    first.record_recent(&host("one"), 20, &canon, &ipv6).unwrap();
    let mut stale = second.clone();
    stale.record_recent(&host("two"), 15, &canon, &ipv6).unwrap();
    first.rename_saved(&id, "Renamed", 30, &ipv6).unwrap();
    stale.save(&mut first, &canon, &ipv6).unwrap();
    assert_eq!(first.recent.len(), 2);
    assert_eq!(first.saved[0].name, "Renamed");
}

#[test]
fn workspace_compatible_unknown_metadata_survives_updates() {
    let mut latest = fresh();
    latest.extra.push(("future_metadata".into(), "{\"keep\":true}".into()));
    let mut cache = fresh();
    cache.extra.push(("future_metadata".into(), "{\"keep\":false}".into()));
    cache.extra.push(("other".into(), "1".into()));
    cache.save(&mut latest, &canon, &ipv6).unwrap();
    assert_eq!(latest.extra.len(), 2);
    assert_eq!(latest.extra[0].1, "{\"keep\":true}");
    assert_eq!(latest.extra[1].0, "other");
}

#[test]
fn workspace_corruption_and_future_versions_are_never_overwritten() {
    assert_eq!(WorkspaceStore::load(StoredFile::Unreadable, &ipv6).unwrap_err(), WorkspaceError::Read);
    assert_eq!(WorkspaceStore::load(StoredFile::Unopenable, &ipv6).unwrap_err(), WorkspaceError::Open);
    let mut future = fresh();
    future.version = 999;
    assert_eq!(WorkspaceStore::load(StoredFile::Read(future.clone()), &ipv6).unwrap_err(), WorkspaceError::Version);
    let mut latest = fresh();
    assert_eq!(future.save(&mut latest, &canon, &ipv6), Err(WorkspaceError::Version));
    assert_eq!(
        WorkspaceError::StoredId.message(),
        "The workspace library contains an invalid ID."
    );
}

#[test]
fn stored_hosts_are_checked_without_their_key_files() {
    let mut h = host("one");
    h.identity_file = "/not/mounted".into();
    let mut store = fresh();
    store.record_recent(&h, 1, &canon, &ipv6).unwrap();
    h.identity_file = "bad\u{1}".into();
    assert_eq!(store.record_recent(&h, 2, &canon, &ipv6), Err(WorkspaceError::KeyPathControl));
    h.identity_file.clear();
    h.port = 0;
    assert_eq!(store.record_recent(&h, 2, &canon, &ipv6), Err(WorkspaceError::Host(HostError::InvalidPort)));
}

#[test]
fn names_are_trimmed_and_bounded() {
    assert_eq!(workspace_name("  dev  ").unwrap(), "dev");
    assert!(workspace_name("").is_err());
    assert!(workspace_name(&"x".repeat(121)).is_err());
    assert_eq!(workspace_name(&"界".repeat(120)).unwrap().chars().count(), 120);
}

#[test]
fn generated_ids_differ() {
    assert_ne!(new_id(), new_id());
}

#[test]
fn workspace_round_trip_preserves_nested_layout_and_stable_id() {
    let mut store = fresh();
    let id = store.save_group(None, "\u{5f00}\u{53d1}\u{73af}\u{5883}", group(), 10, &ipv6).unwrap();
    store.record_group_history("\u{5f00}\u{53d1}\u{73af}\u{5883}", group(), 11, &canon, &ipv6).unwrap();
    let updated = store.save_group(Some(&id), "\u{751f}\u{4ea7}\u{73af}\u{5883}", group(), 12, &ipv6).unwrap();
    assert_eq!(id, updated);
    let loaded = store.clone();
    assert_eq!(loaded.saved.len(), 1);
    assert_eq!(loaded.saved[0].name, "\u{751f}\u{4ea7}\u{73af}\u{5883}");
    assert_eq!(loaded.saved[0].layout, group());
    assert_eq!(loaded.saved[0].layout.pane_count(), 3);
    assert_eq!(loaded.saved[0].layout.hosts()[1].username, "alice");
    assert_eq!(loaded.history.len(), 1);
}
