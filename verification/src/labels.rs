//! Stable names for SSH sessions and tabs: the connection domain of a host,
//! tab labels made of host labels, and the split shares of a saved layout.
use vstd::prelude::*;
use crate::hosts::{endpoint_spec, Host};
use crate::text::{any_control, append_chars, chars_of, decimal, decimal_chars, has_control, same_chars, string_of, trim_chars, trimmed};
use crate::workspaces::{layout_hosts, SavedLayout};

verus! {

broadcast use vstd::string::group_string_axioms;

/// The name of the connection domain of `host`. Everything that changes the
/// connection is part of it, so a changed host or keepalive never reuses a
/// cached connection.
pub open spec fn domain_name_spec(host: Host, keepalive: u64) -> Seq<char> {
    "termviai:"@ + host.username@ + ":"@ + endpoint_spec(host@) + ":"@ + host.identity_file@ + ":"@ + host.label@
        + ":keepalive="@ + decimal(keepalive as nat)
}

pub fn domain_name(host: &Host, ssh_keepalive_interval: u64) -> (name: String)
    ensures
        name@ == domain_name_spec(*host, ssh_keepalive_interval),
{
    let separator = chars_of(":");
    let mut out = chars_of("termviai:");
    append_chars(&mut out, chars_of(host.username.as_str()).as_slice());
    append_chars(&mut out, separator.as_slice());
    append_chars(&mut out, chars_of(host.endpoint().as_str()).as_slice());
    append_chars(&mut out, separator.as_slice());
    append_chars(&mut out, chars_of(host.identity_file.as_str()).as_slice());
    append_chars(&mut out, separator.as_slice());
    append_chars(&mut out, chars_of(host.label.as_str()).as_slice());
    append_chars(&mut out, chars_of(":keepalive=").as_slice());
    append_chars(&mut out, decimal_chars(ssh_keepalive_interval).as_slice());
    string_of(out.as_slice())
}

/// The label of a tab whose sessions have `labels`: the host label for one,
/// both for two, and the first with a count of the others for more.
pub open spec fn default_label_spec(labels: Seq<Seq<char>>) -> Seq<char> {
    if labels.len() == 0 {
        "Workspace"@
    } else if labels.len() == 1 {
        labels[0]
    } else if labels.len() == 2 {
        labels[0] + " + "@ + labels[1]
    } else {
        labels[0] + " + "@ + decimal((labels.len() - 1) as nat) + " hosts"@
    }
}

/// The characters of each label.
pub open spec fn label_views(labels: Seq<String>) -> Seq<Seq<char>> {
    labels.map_values(|l: String| l@)
}

pub fn default_tab_label(labels: &[String]) -> (label: String)
    ensures
        label@ == default_label_spec(label_views(labels@)),
{
    let n = labels.len();
    if n == 0 {
        return string_of(chars_of("Workspace").as_slice());
    }
    assert(label_views(labels@)[0] == labels@[0]@);
    if n == 1 {
        return labels[0].clone();
    }
    let mut out = chars_of(labels[0].as_str());
    append_chars(&mut out, chars_of(" + ").as_slice());
    if n == 2 {
        assert(label_views(labels@)[1] == labels@[1]@);
        append_chars(&mut out, chars_of(labels[1].as_str()).as_slice());
    } else {
        append_chars(&mut out, decimal_chars((n - 1) as u64).as_slice());
        append_chars(&mut out, chars_of(" hosts").as_slice());
    }
    string_of(out.as_slice())
}

/// A tab shows its custom title when it has a non-empty one, and otherwise
/// the label of its hosts.
pub fn tab_label(custom_title: Option<&str>, labels: &[String]) -> (label: String)
    ensures
        match custom_title {
            Some(title) if title@.len() > 0 => label@ == title@,
            _ => label@ == default_label_spec(label_views(labels@)),
        },
{
    match custom_title {
        Some(title) => {
            let chars = chars_of(title);
            if chars.len() > 0 {
                return string_of(chars.as_slice());
            }
        },
        None => {},
    }
    default_tab_label(labels)
}

/// Whether a restored group name was chosen by the user: a generated name
/// follows the host labels as they are now instead of freezing old ones.
pub open spec fn name_is_custom(name: Option<Seq<char>>, layout: SavedLayout) -> bool {
    match name {
        Some(n) => n.len() > 0 && n != default_label_spec(layout_hosts(layout).map_values(|h: crate::hosts::HostFields| h.label)),
        None => false,
    }
}

pub fn restored_name_is_custom(name: Option<&str>, layout: &SavedLayout) -> (custom: bool)
    ensures
        custom == name_is_custom(match name { Some(n) => Some(n@), None => None }, *layout),
{
    let name = match name {
        Some(n) => n,
        None => {
            return false;
        },
    };
    let hosts = layout.hosts();
    let ghost fields = layout_hosts(*layout);
    let mut labels: Vec<String> = Vec::new();
    let mut i: usize = 0;
    while i < hosts.len()
        invariant
            i <= hosts.len(),
            hosts@.map_values(|h: &Host| h@) == fields,
            labels@.len() == i,
            forall|k: int| 0 <= k < i ==> (#[trigger] labels@[k])@ == fields[k].label,
        decreases hosts.len() - i,
    {
        assert(hosts@.map_values(|h: &Host| h@)[i as int] == hosts@[i as int]@);
        labels.push(hosts[i].label.clone());
        i = i + 1;
    }
    let generated = default_tab_label(labels.as_slice());
    assert(label_views(labels@) =~= fields.map_values(|h: crate::hosts::HostFields| h.label));
    let chars = chars_of(name);
    chars.len() > 0 && !same_chars(chars.as_slice(), chars_of(generated.as_str()).as_slice())
}

/// The share of a split's first part, in percent rounded to the nearest
/// whole number and kept within 1 to 99.
pub open spec fn split_percent_spec(first: int, second: int) -> int {
    let total = if first + second > 0 { first + second } else { 1 };
    let p = (first * 100 + (first + second) / 2) / total;
    if p < 1 { 1 } else if p > 99 { 99 } else { p }
}

pub fn split_percent(first: usize, second: usize) -> (percent: u8)
    requires
        first + second <= usize::MAX,
        first * 100 + (first + second) / 2 <= usize::MAX,
    ensures
        percent == split_percent_spec(first as int, second as int),
        1 <= percent <= 99,
{
    let total: usize = first + second;
    let divisor: usize = if total > 0 { total } else { 1 };
    let p: usize = (first * 100 + total / 2) / divisor;
    if p < 1 {
        1
    } else if p > 99 {
        99
    } else {
        p as u8
    }
}

/// A name given to a tab is refused.
#[derive(Debug, Clone, Copy, PartialEq, Eq, Structural)]
pub enum TabNameError {
    Invalid,
}

impl TabNameError {
    /// The explanation shown to the user, as text.
    pub open spec fn explanation(&self) -> Seq<char> {
        "Enter a name with 1\u{2013}80 characters."@
    }

    /// The explanation shown to the user.
    pub fn message(&self) -> (text: &'static str)
        ensures
            text@ == self.explanation(),
    {
        "Enter a name with 1\u{2013}80 characters."
    }
}

/// The name a tab takes: the text trimmed, 1 to 80 characters, with no
/// control character.
pub open spec fn tab_name_check(name: Seq<char>) -> Option<Seq<char>> {
    let t = trimmed(name);
    if t.len() == 0 || t.len() > 80 || has_control(t) {
        None
    } else {
        Some(t)
    }
}

pub fn tab_name(name: &str) -> (result: Result<String, TabNameError>)
    ensures
        match tab_name_check(name@) {
            Some(t) => result matches Ok(s) && s@ == t,
            None => result == Err::<String, TabNameError>(TabNameError::Invalid),
        },
{
    let chars = chars_of(name);
    let t = trim_chars(chars.as_slice());
    if t.len() == 0 || t.len() > 80 || any_control(t.as_slice()) {
        return Err(TabNameError::Invalid);
    }
    Ok(string_of(t.as_slice()))
}

/// The label of a session: its host's label, or "Terminal" for a session
/// without a host or with an unlabelled one.
pub fn pane_label(host: Option<&Host>) -> (label: String)
    ensures
        label@ == match host {
            Some(h) => if h.label@.len() > 0 { h.label@ } else { "Terminal"@ },
            None => "Terminal"@,
        },
{
    match host {
        Some(h) => {
            if chars_of(h.label.as_str()).len() > 0 {
                return h.label.clone();
            }
        },
        None => {},
    }
    "Terminal".to_string()
}

/// How a session reaches its host over SSH: the domain's name, the address
/// and port, the user, and the options passed to the SSH client.
#[derive(Debug)]
pub struct SshProfile {
    pub name: String,
    pub remote_address: String,
    pub username: Option<String>,
    pub ssh_option: Vec<(String, String)>,
}

/// The options of a profile: the keepalive interval always, the identity
/// file when the host has one.
pub open spec fn ssh_options_spec(host: Host, keepalive: u64) -> Seq<(Seq<char>, Seq<char>)> {
    let interval = seq![("serveraliveinterval"@, decimal(keepalive as nat))];
    if host.identity_file@.len() > 0 {
        interval.push(("identityfile"@, host.identity_file@))
    } else {
        interval
    }
}

/// The SSH profile of the session for `host`, sending keepalives every
/// `ssh_keepalive_interval` seconds (0: never); its name is the domain name,
/// so profiles that differ never share a cached connection.
pub fn ssh_domain(host: &Host, ssh_keepalive_interval: u64) -> (profile: SshProfile)
    ensures
        profile.name@ == domain_name_spec(*host, ssh_keepalive_interval),
        profile.remote_address@ == endpoint_spec(host@),
        profile.username == if host.username@.len() > 0 { Some(host.username) } else { None::<String> },
        profile.ssh_option@.map_values(|o: (String, String)| (o.0@, o.1@)) == ssh_options_spec(
            *host,
            ssh_keepalive_interval,
        ),
{
    let username = if chars_of(host.username.as_str()).len() > 0 {
        Some(host.username.clone())
    } else {
        None
    };
    let mut ssh_option: Vec<(String, String)> = Vec::new();
    ssh_option.push(
        ("serveraliveinterval".to_string(), string_of(decimal_chars(ssh_keepalive_interval).as_slice())),
    );
    if chars_of(host.identity_file.as_str()).len() > 0 {
        ssh_option.push(("identityfile".to_string(), host.identity_file.clone()));
    }
    let profile = SshProfile {
        name: domain_name(host, ssh_keepalive_interval),
        remote_address: host.endpoint(),
        username,
        ssh_option,
    };
    assert(profile.ssh_option@.map_values(|o: (String, String)| (o.0@, o.1@)) =~= ssh_options_spec(
        *host,
        ssh_keepalive_interval,
    ));
    profile
}

} // verus!
