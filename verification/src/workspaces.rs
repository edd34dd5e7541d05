//! SSH workspace shortcuts: split layouts of hosts, recent connections and
//! saved groups. They hold connection metadata, never credentials.
use vstd::prelude::*;
use crate::hosts::{
    StoredFile, answers, strip_ends, strip_leading, strip_trailing, unbracketed, validated, Host, HostError, HostFields,
};
use crate::text::{
    any_control, ascii_lower, chars_of, has_control, lower_ascii, same_chars, string_of, trim_chars,
    trimmed,
};

verus! {

broadcast use vstd::string::group_string_axioms;

pub const SCHEMA_VERSION: u32 = 1;
pub const MAX_RECENT: usize = 30;
pub const MAX_HISTORY: usize = 20;
pub const MAX_SAVED: usize = 100;
pub const MAX_PANES: usize = 64;
pub const MAX_DEPTH: usize = 16;

#[derive(Clone, Copy, Debug, PartialEq, Eq, Structural)]
pub enum SplitAxis {
    /// First is left, second is right.
    Horizontal,
    /// First is above, second is below.
    Vertical,
}

#[derive(Debug, PartialEq, Eq)]
pub enum SavedLayout {
    Pane { host: Host },
    Split { axis: SplitAxis, first_percent: u8, first: Box<SavedLayout>, second: Box<SavedLayout> },
}

impl Clone for SavedLayout {
    fn clone(&self) -> (copy: Self)
        ensures
            copy == *self,
        decreases self,
    {
        match self {
            SavedLayout::Pane { host } => SavedLayout::Pane { host: host.clone() },
            SavedLayout::Split { axis, first_percent, first, second } => {
                let a: SavedLayout = (**first).clone();
                let b: SavedLayout = (**second).clone();
                SavedLayout::Split { axis: *axis, first_percent: *first_percent, first: Box::new(a), second: Box::new(b) }
            },
        }
    }
}

#[derive(Clone, Debug, PartialEq, Eq)]
pub struct RecentConnection {
    pub host: Host,
    pub last_connected_ms: u64,
}

#[derive(Clone, Debug, PartialEq, Eq)]
pub struct SavedWorkspace {
    pub id: String,
    pub name: String,
    pub layout: SavedLayout,
    pub updated_at_ms: u64,
}

#[derive(Debug, Clone, Copy, PartialEq, Eq, Structural)]
pub enum WorkspaceError {
    TooDeep,
    TooManyPanes,
    SplitPercent,
    Host(HostError),
    KeyPathControl,
    Name,
    Id,
    StoredId,
    TooFewPanes,
    LibraryFull,
    Missing,
    Version,
    TooManySaved,
    Open,
    Read,
}

impl WorkspaceError {
    /// The explanation shown to the user, as text.
    pub open spec fn explanation(&self) -> Seq<char> {
        match self {
            WorkspaceError::TooDeep => "The workspace layout has too many nested splits."@,
            WorkspaceError::TooManyPanes => "A saved workspace can contain at most 64 terminals."@,
            WorkspaceError::SplitPercent => "A workspace split must leave space for both terminals."@,
            WorkspaceError::Host(e) => e.explanation(),
            WorkspaceError::KeyPathControl => "The SSH key path contains control characters."@,
            WorkspaceError::Name => "Give the workspace a name of 1–120 characters, without control characters."@,
            WorkspaceError::Id => "The saved workspace ID is invalid."@,
            WorkspaceError::StoredId => "The workspace library contains an invalid ID."@,
            WorkspaceError::TooFewPanes => "Save a workspace after adding at least two SSH terminals."@,
            WorkspaceError::LibraryFull => "The saved workspace library is full (100 groups)."@,
            WorkspaceError::Missing => "The saved workspace no longer exists."@,
            WorkspaceError::Version => "Unsupported workspace library version. The existing file has been preserved."@,
            WorkspaceError::TooManySaved => "The workspace library has too many saved groups. The file has been preserved."@,
            WorkspaceError::Open => "Could not open saved workspaces."@,
            WorkspaceError::Read => "Could not read saved workspaces. The existing file has been preserved."@,
        }
    }

    /// The explanation shown to the user.
    pub fn message(&self) -> (text: &'static str)
        ensures
            text@ == self.explanation(),
    {
        match self {
            WorkspaceError::TooDeep => "The workspace layout has too many nested splits.",
            WorkspaceError::TooManyPanes => "A saved workspace can contain at most 64 terminals.",
            WorkspaceError::SplitPercent => "A workspace split must leave space for both terminals.",
            WorkspaceError::Host(e) => e.message(),
            WorkspaceError::KeyPathControl => "The SSH key path contains control characters.",
            WorkspaceError::Name => "Give the workspace a name of 1–120 characters, without control characters.",
            WorkspaceError::Id => "The saved workspace ID is invalid.",
            WorkspaceError::StoredId => "The workspace library contains an invalid ID.",
            WorkspaceError::TooFewPanes => "Save a workspace after adding at least two SSH terminals.",
            WorkspaceError::LibraryFull => "The saved workspace library is full (100 groups).",
            WorkspaceError::Missing => "The saved workspace no longer exists.",
            WorkspaceError::Version => "Unsupported workspace library version. The existing file has been preserved.",
            WorkspaceError::TooManySaved => "The workspace library has too many saved groups. The file has been preserved.",
            WorkspaceError::Open => "Could not open saved workspaces.",
            WorkspaceError::Read => "Could not read saved workspaces. The existing file has been preserved.",
        }
    }
}

/// The hosts of a layout, first to second.
pub open spec fn layout_hosts(layout: SavedLayout) -> Seq<HostFields>
    decreases layout,
{
    match layout {
        SavedLayout::Pane { host } => seq![host@],
        SavedLayout::Split { first, second, .. } => layout_hosts(*first) + layout_hosts(*second),
    }
}

pub open spec fn layout_panes(layout: SavedLayout) -> nat
    decreases layout,
{
    match layout {
        SavedLayout::Pane { .. } => 1,
        SavedLayout::Split { first, second, .. } => layout_panes(*first) + layout_panes(*second),
    }
}

pub proof fn lemma_panes_are_hosts(layout: SavedLayout)
    ensures
        layout_panes(layout) == layout_hosts(layout).len(),
        layout_panes(layout) >= 1,
    decreases layout,
{
    match layout {
        SavedLayout::Split { first, second, .. } => {
            lemma_panes_are_hosts(*first);
            lemma_panes_are_hosts(*second);
        },
        _ => {},
    }
}

impl SavedLayout {
    pub fn pane_count(&self) -> (count: usize)
        requires
            layout_panes(*self) <= usize::MAX,
        ensures
            count == layout_panes(*self),
        decreases self,
    {
        match self {
            SavedLayout::Pane { .. } => 1,
            SavedLayout::Split { first, second, .. } => {
                proof {
                    lemma_panes_are_hosts(**first);
                    lemma_panes_are_hosts(**second);
                }
                first.pane_count() + second.pane_count()
            },
        }
    }

    pub fn hosts(&self) -> (hosts: Vec<&Host>)
        ensures
            hosts@.map_values(|h: &Host| h@) == layout_hosts(*self),
    {
        let mut hosts: Vec<&Host> = Vec::new();
        self.collect_hosts(&mut hosts);
        assert(hosts@.map_values(|h: &Host| h@) =~= layout_hosts(*self));
        hosts
    }

    fn collect_hosts<'a>(&'a self, hosts: &mut Vec<&'a Host>)
        ensures
            final(hosts)@.map_values(|h: &Host| h@) == old(hosts)@.map_values(|h: &Host| h@) + layout_hosts(*self),
        decreases self,
    {
        match self {
            SavedLayout::Pane { host } => {
                let ghost before = hosts@;
                hosts.push(host);
                assert(hosts@.map_values(|h: &Host| h@) =~= before.map_values(|h: &Host| h@) + layout_hosts(*self));
            },
            SavedLayout::Split { first, second, .. } => {
                first.collect_hosts(hosts);
                second.collect_hosts(hosts);
                assert(layout_hosts(*self) =~= layout_hosts(**first) + layout_hosts(**second));
            },
        }
    }
}

/// What a deterministic check answers for `input`.
pub open spec fn verdict<F: Fn(&[char]) -> bool>(check: F, input: Seq<char>) -> bool {
    choose|b: bool| answers(check, input, b)
}

/// The check gives one answer for each text.
pub open spec fn deterministic<F: Fn(&[char]) -> bool>(check: F) -> bool {
    forall|x1: &[char], x2: &[char], b1: bool, b2: bool|
        #![trigger call_ensures(check, (x1,), b1), call_ensures(check, (x2,), b2)]
        x1@ == x2@ && call_ensures(check, (x1,), b1) && call_ensures(check, (x2,), b2) ==> b1 == b2
}

pub proof fn lemma_verdict(check: impl Fn(&[char]) -> bool, input: Seq<char>, b: bool)
    requires
        deterministic(check),
        answers(check, input, b),
    ensures
        verdict(check, input) == b,
{
    let v = verdict(check, input);
    assert(answers(check, input, v));
}

/// The host a library stores: its key path is not checked against the disk,
/// so an unavailable removable key drive cannot invalidate a whole library.
pub open spec fn host_check<F: Fn(&[char]) -> bool>(ipv6_parses: F, host: HostFields) -> Result<(), WorkspaceError> {
    if has_control(host.identity_file) {
        Err(WorkspaceError::KeyPathControl)
    } else {
        let cleared = HostFields { identity_file: Seq::empty(), ..host };
        match validated(cleared, verdict(ipv6_parses, unbracketed(trimmed(cleared.address))), true).1 {
            Ok(()) => Ok(()),
            Err(e) => Err(WorkspaceError::Host(e)),
        }
    }
}

pub fn validate_host<V: Fn(&[char]) -> bool>(host: &Host, ipv6_parses: &V) -> (result: Result<(), WorkspaceError>)
    requires
        forall|x: &[char]| call_requires(*ipv6_parses, (x,)),
        deterministic(*ipv6_parses),
    ensures
        result == host_check(*ipv6_parses, host@),
{
    let mut host = host.clone();
    let key = chars_of(host.identity_file.as_str());
    if any_control(key.as_slice()) {
        return Err(WorkspaceError::KeyPathControl);
    }
    host.identity_file = String::new();
    let ghost cleared = host@;
    let checked = host.validate(ipv6_parses, &|path: &[char]| false);
    proof {
        let (v6, k) = choose|ipv6_ok: bool, key_ok: bool|
            {
                &&& crate::hosts::ipv6_consulted(cleared) ==> answers(*ipv6_parses, unbracketed(trimmed(cleared.address)), ipv6_ok)
                &&& #[trigger] validated(cleared, ipv6_ok, key_ok) == (host@, checked)
            };
        assert(trimmed(cleared.identity_file) =~= Seq::<char>::empty());
        assert(validated(cleared, v6, k) == validated(cleared, v6, true));
        if crate::hosts::ipv6_consulted(cleared) {
            lemma_verdict(*ipv6_parses, unbracketed(trimmed(cleared.address)), v6);
        } else {
            assert(validated(cleared, v6, true) == validated(cleared, verdict(*ipv6_parses, unbracketed(trimmed(cleared.address))), true));
        }
    }
    match checked {
        Ok(()) => Ok(()),
        Err(e) => Err(WorkspaceError::Host(e)),
    }
}

/// A workspace name: trimmed, 1 to 120 characters, no control characters.
pub open spec fn name_check(name: Seq<char>) -> Result<Seq<char>, WorkspaceError> {
    let t = trimmed(name);
    if t.len() == 0 || t.len() > 120 || has_control(t) {
        Err(WorkspaceError::Name)
    } else {
        Ok(t)
    }
}

pub fn workspace_name(name: &str) -> (result: Result<String, WorkspaceError>)
    ensures
        match name_check(name@) {
            Ok(t) => result matches Ok(s) && s@ == t,
            Err(e) => result == Err::<String, WorkspaceError>(e),
        },
{
    let chars = chars_of(name);
    let t = trim_chars(chars.as_slice());
    if t.len() == 0 || t.len() > 120 || any_control(t.as_slice()) {
        return Err(WorkspaceError::Name);
    }
    Ok(string_of(t.as_slice()))
}

/// What the layout check reports, and the panes counted so far.
pub open spec fn layout_check<F: Fn(&[char]) -> bool>(
    ipv6_parses: F,
    layout: SavedLayout,
    depth: nat,
    panes: nat,
) -> (Result<(), WorkspaceError>, nat)
    decreases layout,
{
    if depth > MAX_DEPTH {
        (Err(WorkspaceError::TooDeep), panes)
    } else {
        match layout {
            SavedLayout::Pane { host } => {
                let count = panes + 1;
                if count > MAX_PANES {
                    (Err(WorkspaceError::TooManyPanes), count)
                } else {
                    (host_check(ipv6_parses, host@), count)
                }
            },
            SavedLayout::Split { first_percent, first, second, .. } => {
                if !(1 <= first_percent <= 99) {
                    (Err(WorkspaceError::SplitPercent), panes)
                } else {
                    let (result, count) = layout_check(ipv6_parses, *first, depth + 1, panes);
                    if result is Err {
                        (result, count)
                    } else {
                        layout_check(ipv6_parses, *second, depth + 1, count)
                    }
                }
            },
        }
    }
}

proof fn lemma_layout_check_counts<F: Fn(&[char]) -> bool>(ipv6_parses: F, layout: SavedLayout, depth: nat, panes: nat)
    ensures
        layout_check(ipv6_parses, layout, depth, panes).1 >= panes,
        layout_check(ipv6_parses, layout, depth, panes).0 is Ok ==> layout_check(ipv6_parses, layout, depth, panes).1 <= MAX_PANES,
    decreases layout,
{
    if depth <= MAX_DEPTH {
        match layout {
            SavedLayout::Split { first_percent, first, second, .. } => {
                lemma_layout_check_counts(ipv6_parses, *first, depth + 1, panes);
                let (result, count) = layout_check(ipv6_parses, *first, depth + 1, panes);
                lemma_layout_check_counts(ipv6_parses, *second, depth + 1, count);
            },
            _ => {},
        }
    }
}

impl SavedLayout {
    /// At most 16 nested splits and 64 panes, each split leaving 1–99 percent
    /// to its first part, and every host valid.
    pub fn validate<V: Fn(&[char]) -> bool>(&self, depth: usize, panes: &mut usize, ipv6_parses: &V) -> (result: Result<(), WorkspaceError>)
        requires
            forall|x: &[char]| call_requires(*ipv6_parses, (x,)),
            deterministic(*ipv6_parses),
            *old(panes) <= MAX_PANES,
        ensures
            (result, *final(panes) as nat) == layout_check(*ipv6_parses, *self, depth as nat, *old(panes) as nat),
        decreases self,
    {
        if depth > MAX_DEPTH {
            return Err(WorkspaceError::TooDeep);
        }
        match self {
            SavedLayout::Pane { host } => {
                *panes = *panes + 1;
                if *panes > MAX_PANES {
                    return Err(WorkspaceError::TooManyPanes);
                }
                validate_host(host, ipv6_parses)
            },
            SavedLayout::Split { first_percent, first, second, .. } => {
                if !(1 <= *first_percent && *first_percent <= 99) {
                    return Err(WorkspaceError::SplitPercent);
                }
                proof {
                    lemma_layout_check_counts(*ipv6_parses, **first, depth as nat + 1, *panes as nat);
                }
                match first.validate(depth + 1, panes, ipv6_parses) {
                    Ok(()) => second.validate(depth + 1, panes, ipv6_parses),
                    Err(e) => Err(e),
                }
            },
        }
    }
}

pub open spec fn opt_chars(o: Option<Vec<char>>) -> Option<Seq<char>> {
    match o {
        Some(v) => Some(v@),
        None => None,
    }
}

/// `canon` answered `out` for some slice holding `input`.
pub open spec fn canon_answers<C: Fn(&[char]) -> Option<Vec<char>>>(canon: C, input: Seq<char>, out: Option<Seq<char>>) -> bool {
    exists|x: &[char], r: Option<Vec<char>>| x@ == input && #[trigger] call_ensures(canon, (x,), r) && opt_chars(r) == out
}

/// The canonical form of an IP address gives one answer for each text.
pub open spec fn canon_deterministic<C: Fn(&[char]) -> Option<Vec<char>>>(canon: C) -> bool {
    forall|x1: &[char], x2: &[char], r1: Option<Vec<char>>, r2: Option<Vec<char>>|
        #![trigger call_ensures(canon, (x1,), r1), call_ensures(canon, (x2,), r2)]
        x1@ == x2@ && call_ensures(canon, (x1,), r1) && call_ensures(canon, (x2,), r2) ==> opt_chars(r1) == opt_chars(r2)
}

/// The canonical text of `input` as an IP address, if it is one.
pub open spec fn canonical_of<C: Fn(&[char]) -> Option<Vec<char>>>(canon: C, input: Seq<char>) -> Option<Seq<char>> {
    choose|out: Option<Seq<char>>| canon_answers(canon, input, out)
}

pub proof fn lemma_canonical<C: Fn(&[char]) -> Option<Vec<char>>>(canon: C, input: Seq<char>, out: Option<Seq<char>>)
    requires
        canon_deterministic(canon),
        canon_answers(canon, input, out),
    ensures
        canonical_of(canon, input) == out,
{
    let o = canonical_of(canon, input);
    assert(canon_answers(canon, input, o));
}

/// The address without surrounding space and brackets.
pub open spec fn bare_address(address: Seq<char>) -> Seq<char> {
    strip_trailing(strip_leading(trimmed(address), '['), ']')
}

/// What identifies a host's address: the canonical form of an IP address,
/// any other name in ASCII lower case.
pub open spec fn address_key<C: Fn(&[char]) -> Option<Vec<char>>>(canon: C, address: Seq<char>) -> Seq<char> {
    let bare = bare_address(address);
    match canonical_of(canon, bare) {
        Some(c) => c,
        None => bare.map_values(|c: char| ascii_lower(c)),
    }
}

/// Address, user, port and key identify a connection; the label does not.
pub open spec fn same_host_spec<C: Fn(&[char]) -> Option<Vec<char>>>(canon: C, a: HostFields, b: HostFields) -> bool {
    &&& a.port == b.port
    &&& a.username == b.username
    &&& a.identity_file == b.identity_file
    &&& address_key(canon, a.address) == address_key(canon, b.address)
}

pub fn normalized_address<C: Fn(&[char]) -> Option<Vec<char>>>(host: &Host, canon: &C) -> (key: Vec<char>)
    requires
        forall|x: &[char]| call_requires(*canon, (x,)),
        canon_deterministic(*canon),
    ensures
        key@ == address_key(*canon, host@.address),
{
    let chars = chars_of(host.address.as_str());
    let t = trim_chars(chars.as_slice());
    let bare = strip_ends(t.as_slice(), '[', ']');
    let answer = canon(bare.as_slice());
    proof {
        assert(canon_answers(*canon, bare@, opt_chars(answer)));
        lemma_canonical(*canon, bare@, opt_chars(answer));
    }
    match answer {
        Some(c) => c,
        None => lower_ascii(bare.as_slice()),
    }
}

pub fn same_host<C: Fn(&[char]) -> Option<Vec<char>>>(a: &Host, b: &Host, canon: &C) -> (same: bool)
    requires
        forall|x: &[char]| call_requires(*canon, (x,)),
        canon_deterministic(*canon),
    ensures
        same == same_host_spec(*canon, a@, b@),
{
    if a.port != b.port || a.username != b.username || a.identity_file != b.identity_file {
        return false;
    }
    let ka = normalized_address(a, canon);
    let kb = normalized_address(b, canon);
    same_chars(ka.as_slice(), kb.as_slice())
}

/// Two layouts open the same connections in the same arrangement.
pub open spec fn same_connections_spec<C: Fn(&[char]) -> Option<Vec<char>>>(canon: C, a: SavedLayout, b: SavedLayout) -> bool
    decreases a,
{
    match (a, b) {
        (SavedLayout::Pane { host: x }, SavedLayout::Pane { host: y }) => same_host_spec(canon, x@, y@),
        (
            SavedLayout::Split { axis: a_axis, first_percent: a_percent, first: a_first, second: a_second },
            SavedLayout::Split { axis: b_axis, first_percent: b_percent, first: b_first, second: b_second },
        ) => a_axis == b_axis && a_percent == b_percent && same_connections_spec(canon, *a_first, *b_first)
            && same_connections_spec(canon, *a_second, *b_second),
        _ => false,
    }
}

impl SavedLayout {
    pub fn same_connections<C: Fn(&[char]) -> Option<Vec<char>>>(&self, other: &Self, canon: &C) -> (same: bool)
        requires
            forall|x: &[char]| call_requires(*canon, (x,)),
            canon_deterministic(*canon),
        ensures
            same == same_connections_spec(*canon, *self, *other),
        decreases self,
    {
        match (self, other) {
            (SavedLayout::Pane { host: a }, SavedLayout::Pane { host: b }) => same_host(a, b, canon),
            (
                SavedLayout::Split { axis: a_axis, first_percent: a_percent, first: a_first, second: a_second },
                SavedLayout::Split { axis: b_axis, first_percent: b_percent, first: b_first, second: b_second },
            ) => *a_axis == *b_axis && *a_percent == *b_percent && a_first.same_connections(b_first, canon)
                && a_second.same_connections(b_second, canon),
            _ => false,
        }
    }
}

/// `same_host_spec` compares identities: it is reflexive and symmetric.
pub proof fn lemma_same_host_equivalence<C: Fn(&[char]) -> Option<Vec<char>>>(canon: C, a: HostFields, b: HostFields)
    ensures
        same_host_spec(canon, a, a),
        same_host_spec(canon, a, b) == same_host_spec(canon, b, a),
{
}

/// Entries ordered by a time stamp, newest first.
pub trait Stamped {
    spec fn stamp_spec(&self) -> u64;

    fn stamp(&self) -> (stamp: u64)
        ensures
            stamp == self.stamp_spec(),
    ;
}

impl Stamped for RecentConnection {
    open spec fn stamp_spec(&self) -> u64 {
        self.last_connected_ms
    }

    fn stamp(&self) -> (stamp: u64) {
        self.last_connected_ms
    }
}

impl Stamped for SavedWorkspace {
    open spec fn stamp_spec(&self) -> u64 {
        self.updated_at_ms
    }

    fn stamp(&self) -> (stamp: u64) {
        self.updated_at_ms
    }
}

/// `x` placed before the first entry that is older than it.
pub open spec fn insert_by_stamp<T: Stamped>(sorted: Seq<T>, x: T) -> Seq<T>
    decreases sorted.len(),
{
    if sorted.len() == 0 {
        seq![x]
    } else if sorted[0].stamp_spec() < x.stamp_spec() {
        seq![x] + sorted
    } else {
        seq![sorted[0]] + insert_by_stamp(sorted.drop_first(), x)
    }
}

/// Newest first; entries with equal stamps keep their order.
pub open spec fn sort_by_stamp<T: Stamped>(s: Seq<T>) -> Seq<T>
    decreases s.len(),
{
    if s.len() == 0 {
        s
    } else {
        insert_by_stamp(sort_by_stamp(s.drop_last()), s.last())
    }
}

pub open spec fn newest_first<T: Stamped>(s: Seq<T>) -> bool {
    forall|i: int, j: int| 0 <= i < j < s.len() ==> s[i].stamp_spec() >= s[j].stamp_spec()
}

/// The position `insert_by_stamp` chooses: the first older entry.
pub open spec fn insert_position<T: Stamped>(sorted: Seq<T>, x: T) -> int
    decreases sorted.len(),
{
    if sorted.len() == 0 {
        0
    } else if sorted[0].stamp_spec() < x.stamp_spec() {
        0
    } else {
        1 + insert_position(sorted.drop_first(), x)
    }
}

proof fn lemma_insert_position<T: Stamped>(sorted: Seq<T>, x: T)
    ensures
        0 <= insert_position(sorted, x) <= sorted.len(),
        insert_by_stamp(sorted, x) == sorted.subrange(0, insert_position(sorted, x)).push(x) + sorted.subrange(
            insert_position(sorted, x),
            sorted.len() as int,
        ),
        forall|k: int| 0 <= k < insert_position(sorted, x) ==> !(sorted[k].stamp_spec() < x.stamp_spec()),
        insert_position(sorted, x) < sorted.len() ==> sorted[insert_position(sorted, x)].stamp_spec() < x.stamp_spec(),
    decreases sorted.len(),
{
    if sorted.len() > 0 && !(sorted[0].stamp_spec() < x.stamp_spec()) {
        let rest = sorted.drop_first();
        lemma_insert_position(rest, x);
        let p = insert_position(rest, x);
        assert(insert_by_stamp(sorted, x) =~= sorted.subrange(0, p + 1).push(x) + sorted.subrange(p + 1, sorted.len() as int));
        assert forall|k: int| 0 <= k < p + 1 implies !(sorted[k].stamp_spec() < x.stamp_spec()) by {
            if k > 0 {
                assert(sorted[k] == rest[k - 1]);
            }
        }
    } else {
        assert(insert_by_stamp(sorted, x) =~= sorted.subrange(0, 0).push(x) + sorted.subrange(0, sorted.len() as int));
    }
}

/// Inserting keeps the newest-first order.
pub proof fn lemma_insert_keeps_order<T: Stamped>(sorted: Seq<T>, x: T)
    requires
        newest_first(sorted),
    ensures
        newest_first(insert_by_stamp(sorted, x)),
        insert_by_stamp(sorted, x).len() == sorted.len() + 1,
    decreases sorted.len(),
{
    if sorted.len() > 0 && !(sorted[0].stamp_spec() < x.stamp_spec()) {
        let rest = sorted.drop_first();
        lemma_insert_keeps_order(rest, x);
        lemma_insert_position(rest, x);
        let r = insert_by_stamp(rest, x);
        assert forall|i: int, j: int| 0 <= i < j < (seq![sorted[0]] + r).len() implies (seq![sorted[0]] + r)[i].stamp_spec()
            >= (seq![sorted[0]] + r)[j].stamp_spec() by {
            if i == 0 {
                let p = insert_position(rest, x);
                let y = r[j - 1];
                if j - 1 < p {
                    assert(y == rest[j - 1]);
                } else if j - 1 > p {
                    assert(y == rest[j - 2]);
                }
            }
        }
    } else if sorted.len() > 0 {
        assert forall|i: int, j: int| 0 <= i < j < (seq![x] + sorted).len() implies (seq![x] + sorted)[i].stamp_spec()
            >= (seq![x] + sorted)[j].stamp_spec() by {
            if i == 0 {
                assert(sorted[0].stamp_spec() >= sorted[j - 1].stamp_spec());
            }
        }
    }
}

/// The stable sort orders entries newest first and keeps all of them.
pub proof fn lemma_sort_orders<T: Stamped>(s: Seq<T>)
    ensures
        newest_first(sort_by_stamp(s)),
        sort_by_stamp(s).len() == s.len(),
    decreases s.len(),
{
    if s.len() > 0 {
        lemma_sort_orders(s.drop_last());
        lemma_insert_keeps_order(sort_by_stamp(s.drop_last()), s.last());
    }
}

/// Sort `entries` newest first; entries with equal stamps keep their order.
pub fn sort_newest_first<T: Stamped>(entries: &mut Vec<T>)
    ensures
        final(entries)@ == sort_by_stamp(old(entries)@),
{
    let ghost original = entries@;
    let mut rest: Vec<T> = Vec::new();
    std::mem::swap(&mut rest, entries);
    let mut sorted: Vec<T> = Vec::new();
    let ghost mut taken: int = 0;
    while rest.len() > 0
        invariant
            0 <= taken <= original.len(),
            rest@ == original.subrange(taken, original.len() as int),
            sorted@ == sort_by_stamp(original.subrange(0, taken)),
        decreases rest.len(),
    {
        let x = rest.remove(0);
        proof {
            lemma_insert_position(sorted@, x);
        }
        let mut p: usize = 0;
        while p < sorted.len() && !(sorted[p].stamp() < x.stamp())
            invariant
                p <= sorted.len(),
                forall|k: int| 0 <= k < p ==> !(sorted@[k].stamp_spec() < x.stamp_spec()),
                0 <= insert_position(sorted@, x) <= sorted@.len(),
                forall|k: int| 0 <= k < insert_position(sorted@, x) ==> !(sorted@[k].stamp_spec() < x.stamp_spec()),
                insert_position(sorted@, x) < sorted@.len() ==> sorted@[insert_position(sorted@, x)].stamp_spec() < x.stamp_spec(),
            decreases sorted.len() - p,
        {
            p = p + 1;
        }
        assert(p == insert_position(sorted@, x));
        let ghost before = sorted@;
        sorted.insert(p, x);
        proof {
            assert(sorted@ =~= before.subrange(0, p as int).push(x) + before.subrange(p as int, before.len() as int));
            let next = original.subrange(0, taken + 1);
            assert(next.drop_last() =~= original.subrange(0, taken));
            assert(next.last() == x);
            taken = taken + 1;
        }
    }
    assert(original.subrange(0, taken) =~= original);
    *entries = sorted;
}

/// The library held in memory: recent connections, group history and saved
/// groups, the schema version, and fields written by a compatible newer
/// version, kept as raw JSON text under their keys.
#[derive(Clone, Debug)]
pub struct WorkspaceStore {
    pub recent: Vec<RecentConnection>,
    pub history: Vec<SavedWorkspace>,
    pub saved: Vec<SavedWorkspace>,
    pub version: u32,
    pub extra: Vec<(String, String)>,
}

impl Default for WorkspaceStore {
    fn default() -> (store: Self)
        ensures
            store.recent@.len() == 0,
            store.history@.len() == 0,
            store.saved@.len() == 0,
            store.version == SCHEMA_VERSION,
            store.extra@.len() == 0,
    {
        WorkspaceStore { recent: Vec::new(), history: Vec::new(), saved: Vec::new(), version: SCHEMA_VERSION, extra: Vec::new() }
    }
}

/// The first host of `recent` that fails its check, if any.
pub open spec fn recent_check<F: Fn(&[char]) -> bool>(ipv6_parses: F, recent: Seq<RecentConnection>) -> Result<(), WorkspaceError>
    decreases recent.len(),
{
    if recent.len() == 0 {
        Ok(())
    } else {
        match host_check(ipv6_parses, recent[0].host@) {
            Err(e) => Err(e),
            Ok(()) => recent_check(ipv6_parses, recent.drop_first()),
        }
    }
}

/// An identifier that can name a saved group.
pub open spec fn id_valid(id: Seq<char>) -> bool {
    id.len() > 0 && !has_control(id)
}

/// The first group of `entries` with an invalid id, name or layout, if any.
pub open spec fn entries_check<F: Fn(&[char]) -> bool>(ipv6_parses: F, entries: Seq<SavedWorkspace>) -> Result<(), WorkspaceError>
    decreases entries.len(),
{
    if entries.len() == 0 {
        Ok(())
    } else {
        let entry = entries[0];
        if !id_valid(entry.id@) {
            Err(WorkspaceError::StoredId)
        } else if name_check(entry.name@) is Err {
            Err(WorkspaceError::Name)
        } else {
            match layout_check(ipv6_parses, entry.layout, 0, 0).0 {
                Err(e) => Err(e),
                Ok(()) => entries_check(ipv6_parses, entries.drop_first()),
            }
        }
    }
}

/// Whether a library may be kept or written: a known version, at most 100
/// saved groups, and valid entries.
pub open spec fn store_check<F: Fn(&[char]) -> bool>(ipv6_parses: F, store: WorkspaceStore) -> Result<(), WorkspaceError> {
    if store.version != SCHEMA_VERSION {
        Err(WorkspaceError::Version)
    } else if store.saved@.len() > MAX_SAVED {
        Err(WorkspaceError::TooManySaved)
    } else {
        match recent_check(ipv6_parses, store.recent@) {
            Err(e) => Err(e),
            Ok(()) => entries_check(ipv6_parses, store.saved@ + store.history@),
        }
    }
}

fn check_entries<V: Fn(&[char]) -> bool>(entries: &Vec<SavedWorkspace>, ipv6_parses: &V) -> (result: Result<(), WorkspaceError>)
    requires
        forall|x: &[char]| call_requires(*ipv6_parses, (x,)),
        deterministic(*ipv6_parses),
    ensures
        result == entries_check(*ipv6_parses, entries@),
{
    let mut i: usize = 0;
    assert(entries@.subrange(0, entries@.len() as int) =~= entries@);
    while i < entries.len()
        invariant
            i <= entries.len(),
            forall|x: &[char]| call_requires(*ipv6_parses, (x,)),
            deterministic(*ipv6_parses),
            entries_check(*ipv6_parses, entries@) == entries_check(*ipv6_parses, entries@.subrange(i as int, entries@.len() as int)),
        decreases entries.len() - i,
    {
        let ghost rest = entries@.subrange(i as int, entries@.len() as int);
        assert(rest.drop_first() =~= entries@.subrange(i + 1, entries@.len() as int));
        assert(rest[0] == entries@[i as int]);
        let entry = &entries[i];
        let id = chars_of(entry.id.as_str());
        if id.len() == 0 || any_control(id.as_slice()) {
            return Err(WorkspaceError::StoredId);
        }
        match workspace_name(entry.name.as_str()) {
            Err(_) => {
                return Err(WorkspaceError::Name);
            },
            Ok(_) => {},
        }
        let mut panes: usize = 0;
        match entry.layout.validate(0, &mut panes, ipv6_parses) {
            Err(e) => {
                return Err(e);
            },
            Ok(()) => {},
        }
        i = i + 1;
    }
    assert(entries@.subrange(entries@.len() as int, entries@.len() as int) =~= Seq::<SavedWorkspace>::empty());
    Ok(())
}

impl WorkspaceStore {
    pub fn validate<V: Fn(&[char]) -> bool>(&self, ipv6_parses: &V) -> (result: Result<(), WorkspaceError>)
        requires
            forall|x: &[char]| call_requires(*ipv6_parses, (x,)),
            deterministic(*ipv6_parses),
        ensures
            result == store_check(*ipv6_parses, *self),
    {
        if self.version != SCHEMA_VERSION {
            return Err(WorkspaceError::Version);
        }
        if self.saved.len() > MAX_SAVED {
            return Err(WorkspaceError::TooManySaved);
        }
        let mut i: usize = 0;
        assert(self.recent@.subrange(0, self.recent@.len() as int) =~= self.recent@);
        while i < self.recent.len()
            invariant
                i <= self.recent.len(),
                self.version == SCHEMA_VERSION,
                self.saved@.len() <= MAX_SAVED,
                forall|x: &[char]| call_requires(*ipv6_parses, (x,)),
                deterministic(*ipv6_parses),
                recent_check(*ipv6_parses, self.recent@) == recent_check(*ipv6_parses, self.recent@.subrange(i as int, self.recent@.len() as int)),
            decreases self.recent.len() - i,
        {
            let ghost rest = self.recent@.subrange(i as int, self.recent@.len() as int);
            assert(rest.drop_first() =~= self.recent@.subrange(i + 1, self.recent@.len() as int));
            assert(rest[0] == self.recent@[i as int]);
            match validate_host(&self.recent[i].host, ipv6_parses) {
                Err(e) => {
                    return Err(e);
                },
                Ok(()) => {},
            }
            i = i + 1;
        }
        assert(self.recent@.subrange(self.recent@.len() as int, self.recent@.len() as int) =~= Seq::<RecentConnection>::empty());
        match check_entries(&self.saved, ipv6_parses) {
            Err(e) => {
                proof {
                    lemma_entries_check_append(*ipv6_parses, self.saved@, self.history@);
                }
                Err(e)
            },
            Ok(()) => {
                proof {
                    lemma_entries_check_append(*ipv6_parses, self.saved@, self.history@);
                }
                check_entries(&self.history, ipv6_parses)
            },
        }
    }

    /// Newest first; at most 30 recent connections and 20 history groups.
    pub fn sort_and_trim(&mut self)
        ensures
            final(self).recent@ == sort_by_stamp(old(self).recent@).take(
                if old(self).recent@.len() < MAX_RECENT { old(self).recent@.len() as int } else { MAX_RECENT as int },
            ),
            final(self).history@ == sort_by_stamp(old(self).history@).take(
                if old(self).history@.len() < MAX_HISTORY { old(self).history@.len() as int } else { MAX_HISTORY as int },
            ),
            final(self).saved@ == sort_by_stamp(old(self).saved@),
            final(self).version == old(self).version,
            final(self).extra == old(self).extra,
    {
        proof {
            lemma_sort_orders(self.recent@);
            lemma_sort_orders(self.history@);
        }
        sort_newest_first(&mut self.recent);
        self.recent.truncate(MAX_RECENT);
        sort_newest_first(&mut self.history);
        self.history.truncate(MAX_HISTORY);
        sort_newest_first(&mut self.saved);
        assert(self.recent@ =~= sort_by_stamp(old(self).recent@).take(
            if old(self).recent@.len() < MAX_RECENT { old(self).recent@.len() as int } else { MAX_RECENT as int },
        ));
        assert(self.history@ =~= sort_by_stamp(old(self).history@).take(
            if old(self).history@.len() < MAX_HISTORY { old(self).history@.len() as int } else { MAX_HISTORY as int },
        ));
    }
}

proof fn lemma_entries_check_append<F: Fn(&[char]) -> bool>(ipv6_parses: F, a: Seq<SavedWorkspace>, b: Seq<SavedWorkspace>)
    ensures
        entries_check(ipv6_parses, a + b) == match entries_check(ipv6_parses, a) {
            Err(e) => Err(e),
            Ok(()) => entries_check(ipv6_parses, b),
        },
    decreases a.len(),
{
    if a.len() > 0 {
        assert((a + b).drop_first() =~= a.drop_first() + b);
        assert((a + b)[0] == a[0]);
        lemma_entries_check_append(ipv6_parses, a.drop_first(), b);
    } else {
        assert(a + b =~= b);
    }
}

/// A random 64-bit number from the thread's generator.
#[verifier::external_body]
fn random_u64() -> u64 {
    fastrand::u64(..)
}

/// Milliseconds since the Unix epoch as the system clock reports them
/// (0 before the epoch, saturating at `u64::MAX`).
#[verifier::external_body]
pub fn now_ms() -> u64 {
    let elapsed = std::time::SystemTime::now().duration_since(std::time::UNIX_EPOCH).unwrap_or_default();
    u64::try_from(elapsed.as_millis()).unwrap_or(u64::MAX)
}

pub open spec fn hex_digit(d: nat) -> char {
    if d < 10 {
        ((d + 48) as u32) as char
    } else {
        ((d + 87) as u32) as char
    }
}

/// `n` as 16 lower-case hexadecimal digits, most significant first.
pub open spec fn hex16(n: nat) -> Seq<char> {
    Seq::new(16, |i: int| hex_digit((n / pow16((15 - i) as nat)) % 16))
}

pub open spec fn pow16(e: nat) -> nat
    decreases e,
{
    if e == 0 {
        1
    } else {
        16 * pow16((e - 1) as nat)
    }
}

proof fn lemma_pow16_positive(e: nat)
    ensures
        pow16(e) >= 1,
    decreases e,
{
    if e > 0 {
        lemma_pow16_positive((e - 1) as nat);
    }
}

fn hex_char(d: u64) -> (c: char)
    requires
        d < 16,
    ensures
        c == hex_digit(d as nat),
{
    if d < 10 {
        ((d + 48) as u8) as char
    } else {
        ((d + 87) as u8) as char
    }
}

fn push_hex16(out: &mut Vec<char>, n: u64)
    ensures
        final(out)@ == old(out)@ + hex16(n as nat),
{
    let ghost start = out@;
    let mut i: usize = 0;
    while i < 16
        invariant
            i <= 16,
            out@.len() == start.len() + i,
            out@.subrange(0, start.len() as int) == start,
            forall|k: int| 0 <= k < i ==> #[trigger] out@[start.len() + k] == hex16(n as nat)[k],
        decreases 16 - i,
    {
        let shift: u64 = (60 - 4 * i) as u64;
        let d = (n >> shift) & 15;
        proof {
            assert(d < 16) by (bit_vector)
                requires
                    d == (n >> shift) & 15,
            ;
            assert(((n >> shift) & 15) as nat == (n as nat / pow16((15 - i) as nat)) % 16) by {
                lemma_hex_digit_shift(n, i as nat);
            }
        }
        out.push(hex_char(d));
        proof {
            assert forall|k: int| 0 <= k < i + 1 implies #[trigger] out@[start.len() + k] == hex16(n as nat)[k] by {
                if k < i {
                    assert(out@[start.len() + k] == out@.drop_last()[start.len() + k]);
                }
            }
            assert(out@.subrange(0, start.len() as int) =~= start) by {
                assert forall|k: int| 0 <= k < start.len() implies out@[k] == start[k] by {
                    assert(out@[k] == out@.drop_last()[k]);
                    assert(out@.drop_last().subrange(0, start.len() as int)[k] == start[k]);
                }
            }
        }
        i = i + 1;
    }
    assert forall|k: int| 0 <= k < out@.len() implies out@[k] == (start + hex16(n as nat))[k] by {
        if k < start.len() {
            assert(out@.subrange(0, start.len() as int)[k] == start[k]);
        } else {
            assert(out@[start.len() + (k - start.len())] == hex16(n as nat)[k - start.len()]);
        }
    }
    assert(out@ =~= start + hex16(n as nat));
}

proof fn lemma_hex_digit_shift(n: u64, i: nat)
    requires
        i < 16,
    ensures
        ((n >> ((60 - 4 * i) as u64)) & 15) as nat == (n as nat / pow16((15 - i) as nat)) % 16,
{
    let e = (15 - i) as nat;
    let shift = (60 - 4 * i) as u64;
    assert(shift == 4 * e);
    lemma_pow16_is_shift(e);
    assert((n >> shift) as nat == n as nat / pow16(e)) by {
        lemma_shift_divides(n, e);
    }
    assert(((n >> shift) & 15) == (n >> shift) % 16) by (bit_vector);
}

proof fn lemma_pow16_is_shift(e: nat)
    ensures
        pow16(e) == vstd::arithmetic::power2::pow2(4 * e),
    decreases e,
{
    if e == 0 {
        vstd::arithmetic::power2::lemma2_to64();
    } else {
        lemma_pow16_is_shift((e - 1) as nat);
        vstd::arithmetic::power2::lemma_pow2_adds((4 * (e - 1)) as nat, 4);
        vstd::arithmetic::power2::lemma2_to64();
        assert(4 * e == 4 * (e - 1) + 4);
    }
}

proof fn lemma_shift_divides(n: u64, e: nat)
    requires
        e < 16,
    ensures
        (n >> ((4 * e) as u64)) as nat == n as nat / pow16(e),
{
    lemma_pow16_is_shift(e);
    vstd::bits::lemma_u64_shr_is_div(n, (4 * e) as u64);
}

pub open spec fn id_prefix() -> Seq<char> {
    seq!['w', 'o', 'r', 'k', 's', 'p', 'a', 'c', 'e', '-']
}

/// An identifier of the form `workspace-` followed by 32 lower-case hex digits.
pub open spec fn is_generated_id(id: Seq<char>) -> bool {
    exists|a: u64, b: u64| id == id_prefix() + hex16(a as nat) + hex16(b as nat)
}

/// A fresh random workspace identifier.
pub fn new_id() -> (id: String)
    ensures
        is_generated_id(id@),
{
    let a = random_u64();
    let b = random_u64();
    let mut chars: Vec<char> = vec!['w', 'o', 'r', 'k', 's', 'p', 'a', 'c', 'e', '-'];
    assert(chars@ =~= id_prefix());
    push_hex16(&mut chars, a);
    push_hex16(&mut chars, b);
    string_of(chars.as_slice())
}

/// The newest stamp of `s`, 0 for none.
pub open spec fn max_stamp<T: Stamped>(s: Seq<T>) -> u64
    decreases s.len(),
{
    if s.len() == 0 {
        0
    } else {
        let rest = max_stamp(s.drop_last());
        if s.last().stamp_spec() > rest {
            s.last().stamp_spec()
        } else {
            rest
        }
    }
}

proof fn lemma_max_stamp<T: Stamped>(s: Seq<T>)
    ensures
        forall|k: int| 0 <= k < s.len() ==> #[trigger] s[k].stamp_spec() <= max_stamp(s),
    decreases s.len(),
{
    if s.len() > 0 {
        lemma_max_stamp(s.drop_last());
        assert forall|k: int| 0 <= k < s.len() implies #[trigger] s[k].stamp_spec() <= max_stamp(s) by {
            if k < s.len() - 1 {
                assert(s[k] == s.drop_last()[k]);
            }
        }
    }
}

fn newest_stamp<T: Stamped>(s: &Vec<T>) -> (newest: u64)
    ensures
        newest == max_stamp(s@),
{
    let mut newest: u64 = 0;
    let mut i: usize = 0;
    while i < s.len()
        invariant
            i <= s.len(),
            newest == max_stamp(s@.subrange(0, i as int)),
        decreases s.len() - i,
    {
        let ghost next = s@.subrange(0, i + 1);
        assert(next.drop_last() =~= s@.subrange(0, i as int));
        let stamp = s[i].stamp();
        if stamp > newest {
            newest = stamp;
        }
        i = i + 1;
    }
    assert(s@.subrange(0, s.len() as int) =~= s@);
    newest
}

/// The newest stamp anywhere in the library.
pub open spec fn library_newest(store: WorkspaceStore) -> u64 {
    let a = max_stamp(store.recent@);
    let b = max_stamp(store.history@);
    let c = max_stamp(store.saved@);
    let ab = if a > b { a } else { b };
    if ab > c { ab } else { c }
}

/// The clock reading, but always after every stamp already in the library.
pub open spec fn stamp_after(newest: u64, now: u64) -> u64 {
    let next = if newest < u64::MAX { (newest + 1) as u64 } else { u64::MAX };
    if now > next { now } else { next }
}

impl WorkspaceStore {
    /// A stamp for a change made at `now`: later than every stamp in the
    /// library, so the change sorts first even if the clock went backwards.
    pub fn next_stamp_at(&self, now: u64) -> (stamp: u64)
        ensures
            stamp == stamp_after(library_newest(*self), now),
            stamp >= now,
            forall|k: int| 0 <= k < self.recent@.len() ==> #[trigger] self.recent@[k].stamp_spec() <= stamp,
            forall|k: int| 0 <= k < self.history@.len() ==> #[trigger] self.history@[k].stamp_spec() <= stamp,
            forall|k: int| 0 <= k < self.saved@.len() ==> #[trigger] self.saved@[k].stamp_spec() <= stamp,
            library_newest(*self) < u64::MAX ==> stamp > library_newest(*self),
    {
        proof {
            lemma_max_stamp(self.recent@);
            lemma_max_stamp(self.history@);
            lemma_max_stamp(self.saved@);
        }
        let a = newest_stamp(&self.recent);
        let b = newest_stamp(&self.history);
        let c = newest_stamp(&self.saved);
        let ab = if a > b { a } else { b };
        let newest = if ab > c { ab } else { c };
        let next = newest.saturating_add(1);
        if now > next {
            now
        } else {
            next
        }
    }

    /// A stamp for a change made now; see `next_stamp_at`.
    pub fn next_stamp(&self) -> (stamp: u64)
        ensures
            exists|now: u64| stamp == #[trigger] stamp_after(library_newest(*self), now),
            library_newest(*self) < u64::MAX ==> stamp > library_newest(*self),
    {
        let now = now_ms();
        self.next_stamp_at(now)
    }
}

/// Recent connections other than `host`.
pub open spec fn other_recent<C: Fn(&[char]) -> Option<Vec<char>>>(canon: C, recent: Seq<RecentConnection>, host: HostFields) -> Seq<RecentConnection> {
    recent.filter(|entry: RecentConnection| !same_host_spec(canon, entry.host@, host))
}

/// Groups whose layout opens other connections than `layout`.
pub open spec fn other_layouts<C: Fn(&[char]) -> Option<Vec<char>>>(canon: C, groups: Seq<SavedWorkspace>, layout: SavedLayout) -> Seq<SavedWorkspace> {
    groups.filter(|entry: SavedWorkspace| !same_connections_spec(canon, entry.layout, layout))
}

/// Groups with another identifier than `id`.
pub open spec fn other_ids(groups: Seq<SavedWorkspace>, id: Seq<char>) -> Seq<SavedWorkspace> {
    groups.filter(|entry: SavedWorkspace| entry.id@ != id)
}

/// The first group whose layout opens the same connections, or -1.
pub open spec fn first_same_layout<C: Fn(&[char]) -> Option<Vec<char>>>(canon: C, groups: Seq<SavedWorkspace>, layout: SavedLayout) -> int
    decreases groups.len(),
{
    if groups.len() == 0 {
        -1
    } else if same_connections_spec(canon, groups[0].layout, layout) {
        0
    } else {
        let rest = first_same_layout(canon, groups.drop_first(), layout);
        if rest < 0 { -1 } else { rest + 1 }
    }
}

/// The first group with identifier `id`, or -1.
pub open spec fn first_with_id(groups: Seq<SavedWorkspace>, id: Seq<char>) -> int
    decreases groups.len(),
{
    if groups.len() == 0 {
        -1
    } else if groups[0].id@ == id {
        0
    } else {
        let rest = first_with_id(groups.drop_first(), id);
        if rest < 0 { -1 } else { rest + 1 }
    }
}

proof fn lemma_first_bounds<C: Fn(&[char]) -> Option<Vec<char>>>(canon: C, groups: Seq<SavedWorkspace>, layout: SavedLayout, id: Seq<char>)
    ensures
        -1 <= first_same_layout(canon, groups, layout) < groups.len(),
        first_same_layout(canon, groups, layout) >= 0 ==> same_connections_spec(canon, groups[first_same_layout(canon, groups, layout)].layout, layout),
        -1 <= first_with_id(groups, id) < groups.len(),
        first_with_id(groups, id) >= 0 ==> groups[first_with_id(groups, id)].id@ == id,
        first_with_id(groups, id) < 0 ==> forall|k: int| 0 <= k < groups.len() ==> (#[trigger] groups[k]).id@ != id,
    decreases groups.len(),
{
    if groups.len() > 0 {
        lemma_first_bounds(canon, groups.drop_first(), layout, id);
        assert forall|k: int| 0 <= k < groups.len() && first_with_id(groups, id) < 0 implies (#[trigger] groups[k]).id@ != id by {
            if k > 0 {
                assert(groups[k] == groups.drop_first()[k - 1]);
            }
        }
    }
}

proof fn lemma_first_same_at<C: Fn(&[char]) -> Option<Vec<char>>>(canon: C, groups: Seq<SavedWorkspace>, layout: SavedLayout, i: int)
    requires
        0 <= i <= groups.len(),
        forall|k: int| 0 <= k < i ==> !same_connections_spec(canon, (#[trigger] groups[k]).layout, layout),
        i < groups.len() ==> same_connections_spec(canon, groups[i].layout, layout),
    ensures
        first_same_layout(canon, groups, layout) == if i < groups.len() { i } else { -1 },
    decreases i,
{
    if i > 0 {
        let rest = groups.drop_first();
        assert forall|k: int| 0 <= k < i - 1 implies !same_connections_spec(canon, (#[trigger] rest[k]).layout, layout) by {
            assert(rest[k] == groups[k + 1]);
        }
        if i < groups.len() {
            assert(rest[i - 1] == groups[i]);
        }
        assert(!same_connections_spec(canon, groups[0].layout, layout));
        lemma_first_same_at(canon, rest, layout, i - 1);
    }
}

/// The index of the first group whose layout opens the same connections.
fn find_same_layout<C: Fn(&[char]) -> Option<Vec<char>>>(groups: &Vec<SavedWorkspace>, layout: &SavedLayout, canon: &C) -> (found: Option<usize>)
    requires
        forall|x: &[char]| call_requires(*canon, (x,)),
        canon_deterministic(*canon),
    ensures
        match found {
            Some(k) => k == first_same_layout(*canon, groups@, *layout),
            None => first_same_layout(*canon, groups@, *layout) == -1,
        },
{
    let mut i: usize = 0;
    while i < groups.len()
        invariant
            i <= groups.len(),
            forall|x: &[char]| call_requires(*canon, (x,)),
            canon_deterministic(*canon),
            forall|k: int| 0 <= k < i ==> !same_connections_spec(*canon, (#[trigger] groups@[k]).layout, *layout),
        decreases groups.len() - i,
    {
        if groups[i].layout.same_connections(layout, canon) {
            proof {
                lemma_first_same_at(*canon, groups@, *layout, i as int);
            }
            return Some(i);
        }
        i = i + 1;
    }
    proof {
        lemma_first_same_at(*canon, groups@, *layout, i as int);
    }
    None
}

impl WorkspaceStore {
    /// Record a successful connection. Address, user, port and key identify an
    /// entry; a changed label updates that entry instead of adding another.
    pub fn apply_recent<C: Fn(&[char]) -> Option<Vec<char>>>(&mut self, host: &Host, now: u64, canon: &C)
        requires
            forall|x: &[char]| call_requires(*canon, (x,)),
            canon_deterministic(*canon),
        ensures
            final(self).recent@.len() == other_recent(*canon, old(self).recent@, host@).len() + 1,
            final(self).recent@.drop_last() == other_recent(*canon, old(self).recent@, host@),
            final(self).recent@.last() == (RecentConnection { host: *host, last_connected_ms: stamp_after(library_newest(*old(self)), now) }),
            final(self).history == old(self).history,
            final(self).saved == old(self).saved,
            final(self).version == old(self).version,
            final(self).extra == old(self).extra,
    {
        let stamp = self.next_stamp_at(now);
        let mut rest: Vec<RecentConnection> = Vec::new();
        std::mem::swap(&mut rest, &mut self.recent);
        let ghost original = rest@;
        let ghost pred = |entry: RecentConnection| !same_host_spec(*canon, entry.host@, host@);
        let mut kept: Vec<RecentConnection> = Vec::new();
        let ghost mut taken: int = 0;
        while rest.len() > 0
            invariant
                0 <= taken <= original.len(),
                rest@ == original.subrange(taken, original.len() as int),
                kept@ == original.subrange(0, taken).filter(pred),
                forall|x: &[char]| call_requires(*canon, (x,)),
                canon_deterministic(*canon),
                pred == (|entry: RecentConnection| !same_host_spec(*canon, entry.host@, host@)),
            decreases rest.len(),
        {
            let entry = rest.remove(0);
            proof {
                assert(original.subrange(0, taken + 1) =~= original.subrange(0, taken).push(entry));
                original.subrange(0, taken).lemma_filter_push(entry, pred);
                taken = taken + 1;
            }
            if !same_host(&entry.host, host, canon) {
                kept.push(entry);
            }
        }
        assert(original.subrange(0, taken) =~= original);
        let ghost filtered = kept@;
        kept.push(RecentConnection { host: host.clone(), last_connected_ms: stamp });
        assert(kept@.drop_last() =~= filtered);
        self.recent = kept;
    }

    /// Record a group in the history. A group that opens the same connections
    /// as an earlier one replaces it and keeps its identifier.
    pub fn apply_group_history<C: Fn(&[char]) -> Option<Vec<char>>>(&mut self, name: String, layout: SavedLayout, now: u64, canon: &C)
        requires
            forall|x: &[char]| call_requires(*canon, (x,)),
            canon_deterministic(*canon),
        ensures
            ({
                let previous = first_same_layout(*canon, old(self).history@, layout);
                let entry = final(self).history@.last();
                &&& final(self).history@.len() == other_layouts(*canon, old(self).history@, layout).len() + 1
                &&& final(self).history@.drop_last() == other_layouts(*canon, old(self).history@, layout)
                &&& previous >= 0 ==> entry.id@ == old(self).history@[previous].id@
                &&& previous < 0 ==> is_generated_id(entry.id@)
                &&& entry.name == name
                &&& entry.layout == layout
                &&& entry.updated_at_ms == stamp_after(library_newest(*old(self)), now)
            }),
            final(self).recent == old(self).recent,
            final(self).saved == old(self).saved,
            final(self).version == old(self).version,
            final(self).extra == old(self).extra,
    {
        let stamp = self.next_stamp_at(now);
        let ghost original = self.history@;
        proof {
            lemma_first_bounds(*canon, original, layout, Seq::empty());
        }
        let previous = match find_same_layout(&self.history, &layout, canon) {
            Some(k) => Some(self.history[k].id.clone()),
            None => None,
        };
        let id = match previous {
            Some(id) => id,
            None => new_id(),
        };
        let mut rest: Vec<SavedWorkspace> = Vec::new();
        std::mem::swap(&mut rest, &mut self.history);
        let ghost pred = |entry: SavedWorkspace| !same_connections_spec(*canon, entry.layout, layout);
        let mut kept: Vec<SavedWorkspace> = Vec::new();
        let ghost mut taken: int = 0;
        assert(original.subrange(0, 0) =~= Seq::<SavedWorkspace>::empty());
        while rest.len() > 0
            invariant
                0 <= taken <= original.len(),
                rest@ == original.subrange(taken, original.len() as int),
                kept@ == original.subrange(0, taken).filter(pred),
                forall|x: &[char]| call_requires(*canon, (x,)),
                canon_deterministic(*canon),
                pred == (|entry: SavedWorkspace| !same_connections_spec(*canon, entry.layout, layout)),
            decreases rest.len(),
        {
            let entry = rest.remove(0);
            proof {
                assert(original.subrange(0, taken + 1) =~= original.subrange(0, taken).push(entry));
                original.subrange(0, taken).lemma_filter_push(entry, pred);
                taken = taken + 1;
            }
            if !entry.layout.same_connections(&layout, canon) {
                kept.push(entry);
            }
        }
        assert(original.subrange(0, taken) =~= original);
        let ghost filtered = kept@;
        kept.push(SavedWorkspace { id, name, layout, updated_at_ms: stamp });
        assert(kept@.drop_last() =~= filtered);
        self.history = kept;
    }
}

/// The index of the first item of `s` that satisfies `p`, or -1.
pub open spec fn first_index<T>(s: Seq<T>, p: spec_fn(T) -> bool) -> int
    decreases s.len(),
{
    if s.len() == 0 {
        -1
    } else if p(s[0]) {
        0
    } else {
        let rest = first_index(s.drop_first(), p);
        if rest < 0 { -1 } else { rest + 1 }
    }
}

pub proof fn lemma_first_index_at<T>(s: Seq<T>, p: spec_fn(T) -> bool, i: int)
    requires
        0 <= i <= s.len(),
        forall|k: int| 0 <= k < i ==> !p(#[trigger] s[k]),
        i < s.len() ==> p(s[i]),
    ensures
        first_index(s, p) == if i < s.len() { i } else { -1 },
    decreases i,
{
    if i > 0 {
        let rest = s.drop_first();
        assert forall|k: int| 0 <= k < i - 1 implies !p(#[trigger] rest[k]) by {
            assert(rest[k] == s[k + 1]);
        }
        if i < s.len() {
            assert(rest[i - 1] == s[i]);
        }
        assert(!p(s[0]));
        lemma_first_index_at(rest, p, i - 1);
    }
}

pub proof fn lemma_first_index_bounds<T>(s: Seq<T>, p: spec_fn(T) -> bool)
    ensures
        -1 <= first_index(s, p) < s.len(),
        first_index(s, p) >= 0 ==> p(s[first_index(s, p)]),
        forall|k: int| 0 <= k < s.len() && (first_index(s, p) < 0 || k < first_index(s, p)) ==> !p(#[trigger] s[k]),
    decreases s.len(),
{
    if s.len() > 0 {
        let rest = s.drop_first();
        lemma_first_index_bounds(rest, p);
        assert forall|k: int| 0 <= k < s.len() && (first_index(s, p) < 0 || k < first_index(s, p)) implies !p(#[trigger] s[k]) by {
            if k > 0 {
                assert(s[k] == rest[k - 1]);
            }
        }
    }
}

/// Entries of the recent list for the same connection as `host`.
pub open spec fn recent_for<C: Fn(&[char]) -> Option<Vec<char>>>(canon: C, host: HostFields) -> spec_fn(RecentConnection) -> bool {
    |entry: RecentConnection| same_host_spec(canon, entry.host@, host)
}

/// Groups that `entry` stands for: the same identifier, or in the history
/// the same connections.
pub open spec fn group_for<C: Fn(&[char]) -> Option<Vec<char>>>(canon: C, entry: SavedWorkspace, history: bool) -> spec_fn(SavedWorkspace) -> bool {
    |other: SavedWorkspace| other.id@ == entry.id@ || (history && same_connections_spec(canon, other.layout, entry.layout))
}

/// Metadata stored under `key`.
pub open spec fn has_key(key: Seq<char>) -> spec_fn((String, String)) -> bool {
    |other: (String, String)| other.0@ == key
}

/// Groups with identifier `id`.
pub open spec fn has_id(id: Seq<char>) -> spec_fn(SavedWorkspace) -> bool {
    |entry: SavedWorkspace| entry.id@ == id
}

/// One incoming recent connection merged into `current`: it replaces the
/// entry for the same connection when it is newer, and is added when there is
/// none.
pub open spec fn merge_recent_step<C: Fn(&[char]) -> Option<Vec<char>>>(canon: C, current: Seq<RecentConnection>, incoming: RecentConnection) -> Seq<RecentConnection> {
    let k = first_index(current, recent_for(canon, incoming.host@));
    if k < 0 {
        current.push(incoming)
    } else if incoming.last_connected_ms > current[k].last_connected_ms {
        current.update(k, incoming)
    } else {
        current
    }
}

pub open spec fn merged_recent<C: Fn(&[char]) -> Option<Vec<char>>>(canon: C, current: Seq<RecentConnection>, incoming: Seq<RecentConnection>) -> Seq<RecentConnection>
    decreases incoming.len(),
{
    if incoming.len() == 0 {
        current
    } else {
        merge_recent_step(canon, merged_recent(canon, current, incoming.drop_last()), incoming.last())
    }
}

/// One incoming group merged into `current`, in the same way.
pub open spec fn merge_group_step<C: Fn(&[char]) -> Option<Vec<char>>>(canon: C, current: Seq<SavedWorkspace>, incoming: SavedWorkspace, history: bool) -> Seq<SavedWorkspace> {
    let k = first_index(current, group_for(canon, incoming, history));
    if k < 0 {
        current.push(incoming)
    } else if incoming.updated_at_ms > current[k].updated_at_ms {
        current.update(k, incoming)
    } else {
        current
    }
}

pub open spec fn merged_groups<C: Fn(&[char]) -> Option<Vec<char>>>(canon: C, current: Seq<SavedWorkspace>, incoming: Seq<SavedWorkspace>, history: bool) -> Seq<SavedWorkspace>
    decreases incoming.len(),
{
    if incoming.len() == 0 {
        current
    } else {
        merge_group_step(canon, merged_groups(canon, current, incoming.drop_last(), history), incoming.last(), history)
    }
}

/// Incoming metadata is added under keys that are not there yet.
pub open spec fn merged_extra(current: Seq<(String, String)>, incoming: Seq<(String, String)>) -> Seq<(String, String)>
    decreases incoming.len(),
{
    if incoming.len() == 0 {
        current
    } else {
        let before = merged_extra(current, incoming.drop_last());
        if first_index(before, has_key(incoming.last().0@)) < 0 {
            before.push(incoming.last())
        } else {
            before
        }
    }
}

fn find_recent<C: Fn(&[char]) -> Option<Vec<char>>>(recent: &Vec<RecentConnection>, host: &Host, canon: &C) -> (found: Option<usize>)
    requires
        forall|x: &[char]| call_requires(*canon, (x,)),
        canon_deterministic(*canon),
    ensures
        match found {
            Some(k) => k == first_index(recent@, recent_for(*canon, host@)),
            None => first_index(recent@, recent_for(*canon, host@)) == -1,
        },
{
    let ghost p = recent_for(*canon, host@);
    let mut i: usize = 0;
    while i < recent.len()
        invariant
            i <= recent.len(),
            forall|x: &[char]| call_requires(*canon, (x,)),
            canon_deterministic(*canon),
            p == recent_for(*canon, host@),
            forall|k: int| 0 <= k < i ==> !p(#[trigger] recent@[k]),
        decreases recent.len() - i,
    {
        if same_host(&recent[i].host, host, canon) {
            proof {
                lemma_first_index_at(recent@, p, i as int);
            }
            return Some(i);
        }
        i = i + 1;
    }
    proof {
        lemma_first_index_at(recent@, p, i as int);
    }
    None
}

fn find_group<C: Fn(&[char]) -> Option<Vec<char>>>(groups: &Vec<SavedWorkspace>, entry: &SavedWorkspace, history: bool, canon: &C) -> (found: Option<usize>)
    requires
        forall|x: &[char]| call_requires(*canon, (x,)),
        canon_deterministic(*canon),
    ensures
        match found {
            Some(k) => k == first_index(groups@, group_for(*canon, *entry, history)),
            None => first_index(groups@, group_for(*canon, *entry, history)) == -1,
        },
{
    let ghost p = group_for(*canon, *entry, history);
    let mut i: usize = 0;
    while i < groups.len()
        invariant
            i <= groups.len(),
            forall|x: &[char]| call_requires(*canon, (x,)),
            canon_deterministic(*canon),
            p == group_for(*canon, *entry, history),
            forall|k: int| 0 <= k < i ==> !p(#[trigger] groups@[k]),
        decreases groups.len() - i,
    {
        let matches = groups[i].id == entry.id || (history && groups[i].layout.same_connections(&entry.layout, canon));
        if matches {
            proof {
                lemma_first_index_at(groups@, p, i as int);
            }
            return Some(i);
        }
        i = i + 1;
    }
    proof {
        lemma_first_index_at(groups@, p, i as int);
    }
    None
}

fn find_extra(extra: &Vec<(String, String)>, key: &String) -> (found: bool)
    ensures
        found == (first_index(extra@, has_key(key@)) >= 0),
{
    let ghost p = has_key(key@);
    let mut i: usize = 0;
    while i < extra.len()
        invariant
            i <= extra.len(),
            p == has_key(key@),
            forall|k: int| 0 <= k < i ==> !p(#[trigger] extra@[k]),
        decreases extra.len() - i,
    {
        if extra[i].0 == *key {
            proof {
                lemma_first_index_at(extra@, p, i as int);
            }
            return true;
        }
        i = i + 1;
    }
    proof {
        lemma_first_index_at(extra@, p, i as int);
    }
    false
}

fn merge_groups<C: Fn(&[char]) -> Option<Vec<char>>>(current: &mut Vec<SavedWorkspace>, incoming: Vec<SavedWorkspace>, history: bool, canon: &C)
    requires
        forall|x: &[char]| call_requires(*canon, (x,)),
        canon_deterministic(*canon),
    ensures
        final(current)@ == merged_groups(*canon, old(current)@, incoming@, history),
{
    let ghost start = current@;
    let ghost all = incoming@;
    let mut rest = incoming;
    let ghost mut taken: int = 0;
    assert(all.subrange(0, 0) =~= Seq::<SavedWorkspace>::empty());
    while rest.len() > 0
        invariant
            0 <= taken <= all.len(),
            rest@ == all.subrange(taken, all.len() as int),
            current@ == merged_groups(*canon, start, all.subrange(0, taken), history),
            forall|x: &[char]| call_requires(*canon, (x,)),
            canon_deterministic(*canon),
        decreases rest.len(),
    {
        let entry = rest.remove(0);
        proof {
            let next = all.subrange(0, taken + 1);
            assert(next.drop_last() =~= all.subrange(0, taken));
            assert(next.last() == entry);
            taken = taken + 1;
        }
        match find_group(current, &entry, history, canon) {
            None => {
                current.push(entry);
            },
            Some(k) => {
                proof {
                    lemma_first_index_bounds(current@, group_for(*canon, entry, history));
                }
                if entry.updated_at_ms > current[k].updated_at_ms {
                    current.set(k, entry);
                }
            },
        }
    }
    assert(all.subrange(0, taken) =~= all);
}

/// The newest `cap` entries of `s`, newest first.
pub open spec fn kept_newest<T: Stamped>(s: Seq<T>, cap: usize) -> Seq<T> {
    sort_by_stamp(s).take(if s.len() < cap { s.len() as int } else { cap as int })
}

/// `after` holds the given lists sorted newest first and trimmed to their caps.
pub open spec fn tidied(
    after: WorkspaceStore,
    recent: Seq<RecentConnection>,
    history: Seq<SavedWorkspace>,
    saved: Seq<SavedWorkspace>,
) -> bool {
    &&& after.recent@ == kept_newest(recent, MAX_RECENT)
    &&& after.history@ == kept_newest(history, MAX_HISTORY)
    &&& after.saved@ == sort_by_stamp(saved)
}

/// What a group request asks to record: `None` for a single terminal, which
/// belongs in the recent connections instead.
pub open spec fn group_request_check<F: Fn(&[char]) -> bool>(ipv6_parses: F, name: Seq<char>, layout: SavedLayout) -> Result<Option<Seq<char>>, WorkspaceError> {
    match layout_check(ipv6_parses, layout, 0, 0).0 {
        Err(e) => Err(e),
        Ok(()) => if layout_panes(layout) < 2 {
            Ok(None)
        } else {
            match name_check(name) {
                Err(e) => Err(e),
                Ok(n) => Ok(Some(n)),
            }
        },
    }
}

/// What a save request asks to store: the trimmed name, once the layout, the
/// name and a given identifier are acceptable.
pub open spec fn save_request_check<F: Fn(&[char]) -> bool>(ipv6_parses: F, id: Option<Seq<char>>, name: Seq<char>, layout: SavedLayout) -> Result<Seq<char>, WorkspaceError> {
    match layout_check(ipv6_parses, layout, 0, 0).0 {
        Err(e) => Err(e),
        Ok(()) => if layout_panes(layout) < 2 {
            Err(WorkspaceError::TooFewPanes)
        } else {
            match name_check(name) {
                Err(e) => Err(e),
                Ok(n) => if id matches Some(i) && !id_valid(i) {
                    Err(WorkspaceError::Id)
                } else {
                    Ok(n)
                },
            }
        },
    }
}

proof fn lemma_layout_check_panes<F: Fn(&[char]) -> bool>(ipv6_parses: F, layout: SavedLayout, depth: nat, panes: nat)
    ensures
        layout_check(ipv6_parses, layout, depth, panes).0 is Ok ==> layout_check(ipv6_parses, layout, depth, panes).1 == panes + layout_panes(layout),
    decreases layout,
{
    if depth <= MAX_DEPTH {
        match layout {
            SavedLayout::Split { first_percent, first, second, .. } => {
                lemma_layout_check_panes(ipv6_parses, *first, depth + 1, panes);
                let (result, count) = layout_check(ipv6_parses, *first, depth + 1, panes);
                lemma_layout_check_panes(ipv6_parses, *second, depth + 1, count);
            },
            _ => {},
        }
    }
}

/// The layout check, then the pane count of a valid layout.
fn checked_panes<V: Fn(&[char]) -> bool>(layout: &SavedLayout, ipv6_parses: &V) -> (result: Result<usize, WorkspaceError>)
    requires
        forall|x: &[char]| call_requires(*ipv6_parses, (x,)),
        deterministic(*ipv6_parses),
    ensures
        match layout_check(*ipv6_parses, *layout, 0, 0).0 {
            Err(e) => result == Err::<usize, WorkspaceError>(e),
            Ok(()) => result == Ok::<usize, WorkspaceError>(layout_panes(*layout) as usize) && layout_panes(*layout) <= MAX_PANES,
        },
{
    let mut panes: usize = 0;
    proof {
        lemma_layout_check_panes(*ipv6_parses, *layout, 0, 0);
        lemma_layout_check_counts(*ipv6_parses, *layout, 0, 0);
    }
    match layout.validate(0, &mut panes, ipv6_parses) {
        Err(e) => Err(e),
        Ok(()) => Ok(panes),
    }
}

/// Check a group before it is recorded in the history; `None` for a single
/// terminal.
pub fn group_request<V: Fn(&[char]) -> bool>(name: &str, layout: &SavedLayout, ipv6_parses: &V) -> (result: Result<Option<String>, WorkspaceError>)
    requires
        forall|x: &[char]| call_requires(*ipv6_parses, (x,)),
        deterministic(*ipv6_parses),
    ensures
        match group_request_check(*ipv6_parses, name@, *layout) {
            Err(e) => result == Err::<Option<String>, WorkspaceError>(e),
            Ok(None) => result == Ok::<Option<String>, WorkspaceError>(None),
            Ok(Some(n)) => result matches Ok(Some(s)) && s@ == n,
        },
{
    let panes = match checked_panes(layout, ipv6_parses) {
        Err(e) => {
            return Err(e);
        },
        Ok(panes) => panes,
    };
    if panes < 2 {
        return Ok(None);
    }
    match workspace_name(name) {
        Err(e) => Err(e),
        Ok(n) => Ok(Some(n)),
    }
}

/// Check a group before it is saved; the trimmed name.
pub fn save_request<V: Fn(&[char]) -> bool>(id: Option<&str>, name: &str, layout: &SavedLayout, ipv6_parses: &V) -> (result: Result<String, WorkspaceError>)
    requires
        forall|x: &[char]| call_requires(*ipv6_parses, (x,)),
        deterministic(*ipv6_parses),
    ensures
        match save_request_check(*ipv6_parses, match id { Some(i) => Some(i@), None => None }, name@, *layout) {
            Err(e) => result == Err::<String, WorkspaceError>(e),
            Ok(n) => result matches Ok(s) && s@ == n,
        },
{
    let panes = match checked_panes(layout, ipv6_parses) {
        Err(e) => {
            return Err(e);
        },
        Ok(panes) => panes,
    };
    if panes < 2 {
        return Err(WorkspaceError::TooFewPanes);
    }
    let n = match workspace_name(name) {
        Err(e) => {
            return Err(e);
        },
        Ok(n) => n,
    };
    match id {
        Some(i) => {
            let chars = chars_of(i);
            if chars.len() == 0 || any_control(chars.as_slice()) {
                return Err(WorkspaceError::Id);
            }
        },
        None => {},
    }
    Ok(n)
}

impl WorkspaceStore {
    /// After a change: sort and trim, then check what would be written.
    fn finish<V: Fn(&[char]) -> bool>(&mut self, ipv6_parses: &V) -> (result: Result<(), WorkspaceError>)
        requires
            forall|x: &[char]| call_requires(*ipv6_parses, (x,)),
            deterministic(*ipv6_parses),
        ensures
            tidied(*final(self), old(self).recent@, old(self).history@, old(self).saved@),
            final(self).version == old(self).version,
            final(self).extra == old(self).extra,
            result == store_check(*ipv6_parses, *final(self)),
    {
        self.sort_and_trim();
        self.validate(ipv6_parses)
    }

    /// Record a successful SSH connection in this (freshly read) library:
    /// the host is checked, then `apply_recent`, then the library is sorted,
    /// trimmed and checked before it may be written.
    pub fn record_recent<C: Fn(&[char]) -> Option<Vec<char>>, V: Fn(&[char]) -> bool>(
        &mut self,
        host: &Host,
        now: u64,
        canon: &C,
        ipv6_parses: &V,
    ) -> (result: Result<(), WorkspaceError>)
        requires
            forall|x: &[char]| call_requires(*canon, (x,)),
            canon_deterministic(*canon),
            forall|x: &[char]| call_requires(*ipv6_parses, (x,)),
            deterministic(*ipv6_parses),
        ensures
            match host_check(*ipv6_parses, host@) {
                Err(e) => result == Err::<(), WorkspaceError>(e) && *final(self) == *old(self),
                Ok(()) => {
                    &&& tidied(
                        *final(self),
                        other_recent(*canon, old(self).recent@, host@).push(
                            RecentConnection { host: *host, last_connected_ms: stamp_after(library_newest(*old(self)), now) },
                        ),
                        old(self).history@,
                        old(self).saved@,
                    )
                    &&& final(self).version == old(self).version
                    &&& final(self).extra == old(self).extra
                    &&& result == store_check(*ipv6_parses, *final(self))
                },
            },
    {
        match validate_host(host, ipv6_parses) {
            Err(e) => {
                return Err(e);
            },
            Ok(()) => {},
        }
        self.apply_recent(host, now, canon);
        proof {
            assert(self.recent@ =~= self.recent@.drop_last().push(self.recent@.last()));
        }
        self.finish(ipv6_parses)
    }

    /// Record a group in the history of this library; a single terminal is
    /// not recorded. See `apply_group_history`.
    pub fn record_group_history<C: Fn(&[char]) -> Option<Vec<char>>, V: Fn(&[char]) -> bool>(
        &mut self,
        name: &str,
        layout: SavedLayout,
        now: u64,
        canon: &C,
        ipv6_parses: &V,
    ) -> (result: Result<(), WorkspaceError>)
        requires
            forall|x: &[char]| call_requires(*canon, (x,)),
            canon_deterministic(*canon),
            forall|x: &[char]| call_requires(*ipv6_parses, (x,)),
            deterministic(*ipv6_parses),
        ensures
            match group_request_check(*ipv6_parses, name@, layout) {
                Err(e) => result == Err::<(), WorkspaceError>(e) && *final(self) == *old(self),
                Ok(None) => result == Ok::<(), WorkspaceError>(()) && *final(self) == *old(self),
                Ok(Some(n)) => exists|entry: SavedWorkspace|
                    {
                        &&& entry.name@ == n
                        &&& entry.layout == layout
                        &&& entry.updated_at_ms == stamp_after(library_newest(*old(self)), now)
                        &&& ({
                            let previous = first_same_layout(*canon, old(self).history@, layout);
                            &&& previous >= 0 ==> entry.id@ == old(self).history@[previous].id@
                            &&& previous < 0 ==> is_generated_id(entry.id@)
                        })
                        &&& #[trigger] tidied(
                            *final(self),
                            old(self).recent@,
                            other_layouts(*canon, old(self).history@, layout).push(entry),
                            old(self).saved@,
                        )
                        &&& final(self).version == old(self).version
                        &&& final(self).extra == old(self).extra
                        &&& result == store_check(*ipv6_parses, *final(self))
                    },
            },
    {
        let name = match group_request(name, &layout, ipv6_parses) {
            Err(e) => {
                return Err(e);
            },
            Ok(None) => {
                return Ok(());
            },
            Ok(Some(n)) => n,
        };
        self.apply_group_history(name, layout, now, canon);
        let ghost entry = self.history@.last();
        proof {
            assert(self.history@ =~= self.history@.drop_last().push(entry));
        }
        let result = self.finish(ipv6_parses);
        assert(tidied(*self, old(self).recent@, other_layouts(*canon, old(self).history@, layout).push(entry), old(self).saved@));
        result
    }
}

fn find_id(groups: &Vec<SavedWorkspace>, id: &str) -> (found: Option<usize>)
    ensures
        match found {
            Some(k) => k == first_index(groups@, has_id(id@)),
            None => first_index(groups@, has_id(id@)) == -1,
        },
{
    let ghost p = has_id(id@);
    let wanted = chars_of(id);
    let mut i: usize = 0;
    while i < groups.len()
        invariant
            i <= groups.len(),
            p == has_id(id@),
            wanted@ == id@,
            forall|k: int| 0 <= k < i ==> !p(#[trigger] groups@[k]),
        decreases groups.len() - i,
    {
        let here = chars_of(groups[i].id.as_str());
        if same_chars(here.as_slice(), wanted.as_slice()) {
            proof {
                lemma_first_index_at(groups@, p, i as int);
            }
            return Some(i);
        }
        i = i + 1;
    }
    proof {
        lemma_first_index_at(groups@, p, i as int);
    }
    None
}

impl WorkspaceStore {
    /// Store a saved group under `id`, replacing the group with that id. A
    /// library with 100 saved groups takes only replacements.
    pub fn apply_save_group(&mut self, id: String, name: String, layout: SavedLayout, now: u64) -> (result: Result<(), WorkspaceError>)
        ensures
            old(self).saved@.len() >= MAX_SAVED && first_index(old(self).saved@, has_id(id@)) < 0 ==> {
                &&& result == Err::<(), WorkspaceError>(WorkspaceError::LibraryFull)
                &&& *final(self) == *old(self)
            },
            !(old(self).saved@.len() >= MAX_SAVED && first_index(old(self).saved@, has_id(id@)) < 0) ==> {
                &&& result == Ok::<(), WorkspaceError>(())
                &&& final(self).saved@ == other_ids(old(self).saved@, id@).push(
                    SavedWorkspace { id, name, layout, updated_at_ms: stamp_after(library_newest(*old(self)), now) },
                )
                &&& final(self).recent == old(self).recent
                &&& final(self).history == old(self).history
                &&& final(self).version == old(self).version
                &&& final(self).extra == old(self).extra
            },
    {
        if self.saved.len() >= MAX_SAVED {
            match find_id(&self.saved, id.as_str()) {
                None => {
                    return Err(WorkspaceError::LibraryFull);
                },
                Some(_) => {},
            }
        }
        let stamp = self.next_stamp_at(now);
        let mut rest: Vec<SavedWorkspace> = Vec::new();
        std::mem::swap(&mut rest, &mut self.saved);
        let ghost original = rest@;
        let ghost pred = |entry: SavedWorkspace| entry.id@ != id@;
        let mut kept: Vec<SavedWorkspace> = Vec::new();
        let ghost mut taken: int = 0;
        while rest.len() > 0
            invariant
                0 <= taken <= original.len(),
                rest@ == original.subrange(taken, original.len() as int),
                kept@ == original.subrange(0, taken).filter(pred),
                pred == (|entry: SavedWorkspace| entry.id@ != id@),
            decreases rest.len(),
        {
            let entry = rest.remove(0);
            proof {
                assert(original.subrange(0, taken + 1) =~= original.subrange(0, taken).push(entry));
                original.subrange(0, taken).lemma_filter_push(entry, pred);
                taken = taken + 1;
            }
            if entry.id != id {
                kept.push(entry);
            }
        }
        assert(original.subrange(0, taken) =~= original);
        kept.push(SavedWorkspace { id, name, layout, updated_at_ms: stamp });
        self.saved = kept;
        Ok(())
    }

    /// Save a group in this library, or update the group with the same
    /// identifier; a new group gets a fresh identifier. Returns the
    /// identifier to associate with the live tab.
    pub fn save_group<V: Fn(&[char]) -> bool>(
        &mut self,
        id: Option<&str>,
        name: &str,
        layout: SavedLayout,
        now: u64,
        ipv6_parses: &V,
    ) -> (result: Result<String, WorkspaceError>)
        requires
            forall|x: &[char]| call_requires(*ipv6_parses, (x,)),
            deterministic(*ipv6_parses),
        ensures
            match save_request_check(*ipv6_parses, match id { Some(i) => Some(i@), None => None }, name@, layout) {
                Err(e) => result == Err::<String, WorkspaceError>(e) && *final(self) == *old(self),
                Ok(n) => exists|entry: SavedWorkspace|
                    #![trigger has_id(entry.id@)]
                    {
                        &&& match id {
                            Some(i) => entry.id@ == i@,
                            None => is_generated_id(entry.id@),
                        }
                        &&& if old(self).saved@.len() >= MAX_SAVED && first_index(old(self).saved@, has_id(entry.id@)) < 0 {
                            &&& result == Err::<String, WorkspaceError>(WorkspaceError::LibraryFull)
                            &&& *final(self) == *old(self)
                        } else {
                            &&& entry.name@ == n
                            &&& entry.layout == layout
                            &&& entry.updated_at_ms == stamp_after(library_newest(*old(self)), now)
                            &&& tidied(
                                *final(self),
                                old(self).recent@,
                                old(self).history@,
                                other_ids(old(self).saved@, entry.id@).push(entry),
                            )
                            &&& final(self).version == old(self).version
                            &&& final(self).extra == old(self).extra
                            &&& match store_check(*ipv6_parses, *final(self)) {
                                Ok(()) => result matches Ok(s) && s@ == entry.id@,
                                Err(e) => result == Err::<String, WorkspaceError>(e),
                            }
                        }
                    },
            },
    {
        let name = match save_request(id, name, &layout, ipv6_parses) {
            Err(e) => {
                return Err(e);
            },
            Ok(n) => n,
        };
        let id_arg = id;
        let id: String = match id {
            Some(i) => i.to_string(),
            None => new_id(),
        };
        let ghost entry = SavedWorkspace { id, name, layout, updated_at_ms: stamp_after(library_newest(*old(self)), now) };
        let returned = id.clone();
        match self.apply_save_group(id, name, layout, now) {
            Err(e) => {
                assert(match id_arg { Some(i) => entry.id@ == i@, None => is_generated_id(entry.id@) });
                assert(old(self).saved@.len() >= MAX_SAVED && first_index(old(self).saved@, has_id(entry.id@)) < 0);
                assert(*self == *old(self));
                return Err(e);
            },
            Ok(()) => {},
        }
        let checked = self.finish(ipv6_parses);
        assert(tidied(*self, old(self).recent@, old(self).history@, other_ids(old(self).saved@, entry.id@).push(entry)));
        match checked {
            Err(e) => Err(e),
            Ok(()) => Ok(returned),
        }
    }

    /// Rename the saved group with identifier `id` in this library.
    pub fn rename_saved<V: Fn(&[char]) -> bool>(&mut self, id: &str, name: &str, now: u64, ipv6_parses: &V) -> (result: Result<(), WorkspaceError>)
        requires
            forall|x: &[char]| call_requires(*ipv6_parses, (x,)),
            deterministic(*ipv6_parses),
        ensures
            match name_check(name@) {
                Err(e) => result == Err::<(), WorkspaceError>(e) && *final(self) == *old(self),
                Ok(n) => {
                    let k = first_index(old(self).saved@, has_id(id@));
                    if k < 0 {
                        &&& result == Err::<(), WorkspaceError>(WorkspaceError::Missing)
                        &&& *final(self) == *old(self)
                    } else {
                        exists|renamed: SavedWorkspace|
                            {
                                &&& renamed.id == old(self).saved@[k].id
                                &&& renamed.layout == old(self).saved@[k].layout
                                &&& renamed.name@ == n
                                &&& renamed.updated_at_ms == stamp_after(library_newest(*old(self)), now)
                                &&& #[trigger] tidied(*final(self), old(self).recent@, old(self).history@, old(self).saved@.update(k, renamed))
                                &&& final(self).version == old(self).version
                                &&& final(self).extra == old(self).extra
                                &&& result == store_check(*ipv6_parses, *final(self))
                            }
                    }
                },
            },
    {
        let name = match workspace_name(name) {
            Err(e) => {
                return Err(e);
            },
            Ok(n) => n,
        };
        let stamp = self.next_stamp_at(now);
        let k = match find_id(&self.saved, id) {
            None => {
                return Err(WorkspaceError::Missing);
            },
            Some(k) => k,
        };
        proof {
            lemma_first_index_bounds(self.saved@, has_id(id@));
        }
        let entry = self.saved.remove(k);
        let renamed = SavedWorkspace { id: entry.id, name, layout: entry.layout, updated_at_ms: stamp };
        self.saved.insert(k, renamed);
        assert(self.saved@ =~= old(self).saved@.update(k as int, renamed));
        let result = self.finish(ipv6_parses);
        assert(tidied(*self, old(self).recent@, old(self).history@, old(self).saved@.update(k as int, renamed)));
        result
    }
}

fn merge_recent<C: Fn(&[char]) -> Option<Vec<char>>>(current: &mut Vec<RecentConnection>, incoming: Vec<RecentConnection>, canon: &C)
    requires
        forall|x: &[char]| call_requires(*canon, (x,)),
        canon_deterministic(*canon),
    ensures
        final(current)@ == merged_recent(*canon, old(current)@, incoming@),
{
    let ghost start = current@;
    let ghost all = incoming@;
    let mut rest = incoming;
    let ghost mut taken: int = 0;
    assert(all.subrange(0, 0) =~= Seq::<RecentConnection>::empty());
    while rest.len() > 0
        invariant
            0 <= taken <= all.len(),
            rest@ == all.subrange(taken, all.len() as int),
            current@ == merged_recent(*canon, start, all.subrange(0, taken)),
            forall|x: &[char]| call_requires(*canon, (x,)),
            canon_deterministic(*canon),
        decreases rest.len(),
    {
        let entry = rest.remove(0);
        proof {
            let next = all.subrange(0, taken + 1);
            assert(next.drop_last() =~= all.subrange(0, taken));
            assert(next.last() == entry);
            taken = taken + 1;
        }
        match find_recent(current, &entry.host, canon) {
            None => {
                current.push(entry);
            },
            Some(k) => {
                proof {
                    lemma_first_index_bounds(current@, recent_for(*canon, entry.host@));
                }
                if entry.last_connected_ms > current[k].last_connected_ms {
                    current.set(k, entry);
                }
            },
        }
    }
    assert(all.subrange(0, taken) =~= all);
}

fn merge_extra(current: &mut Vec<(String, String)>, incoming: Vec<(String, String)>)
    ensures
        final(current)@ == merged_extra(old(current)@, incoming@),
{
    let ghost start = current@;
    let ghost all = incoming@;
    let mut rest = incoming;
    let ghost mut taken: int = 0;
    assert(all.subrange(0, 0) =~= Seq::<(String, String)>::empty());
    while rest.len() > 0
        invariant
            0 <= taken <= all.len(),
            rest@ == all.subrange(taken, all.len() as int),
            current@ == merged_extra(start, all.subrange(0, taken)),
        decreases rest.len(),
    {
        let item = rest.remove(0);
        proof {
            let next = all.subrange(0, taken + 1);
            assert(next.drop_last() =~= all.subrange(0, taken));
            assert(next.last() == item);
            taken = taken + 1;
        }
        if !find_extra(current, &item.0) {
            current.push(item);
        }
    }
    assert(all.subrange(0, taken) =~= all);
}

impl WorkspaceStore {
    /// Merge this cached library into `latest`, the library as it is now on
    /// disk. A cached entry replaces the entry it stands for only when it is
    /// newer, so a stale window never reverts a newer change; entries that
    /// `latest` lacks are added, and metadata keys it lacks are kept.
    pub fn save<C: Fn(&[char]) -> Option<Vec<char>>, V: Fn(&[char]) -> bool>(
        self,
        latest: &mut WorkspaceStore,
        canon: &C,
        ipv6_parses: &V,
    ) -> (result: Result<(), WorkspaceError>)
        requires
            forall|x: &[char]| call_requires(*canon, (x,)),
            canon_deterministic(*canon),
            forall|x: &[char]| call_requires(*ipv6_parses, (x,)),
            deterministic(*ipv6_parses),
        ensures
            match store_check(*ipv6_parses, self) {
                Err(e) => result == Err::<(), WorkspaceError>(e) && *final(latest) == *old(latest),
                Ok(()) => {
                    &&& tidied(
                        *final(latest),
                        merged_recent(*canon, old(latest).recent@, self.recent@),
                        merged_groups(*canon, old(latest).history@, self.history@, true),
                        merged_groups(*canon, old(latest).saved@, self.saved@, false),
                    )
                    &&& final(latest).version == old(latest).version
                    &&& final(latest).extra@ == merged_extra(old(latest).extra@, self.extra@)
                    &&& result == store_check(*ipv6_parses, *final(latest))
                },
            },
    {
        match self.validate(ipv6_parses) {
            Err(e) => {
                return Err(e);
            },
            Ok(()) => {},
        }
        let WorkspaceStore { recent, history, saved, version: _, extra } = self;
        merge_recent(&mut latest.recent, recent, canon);
        merge_groups(&mut latest.saved, saved, false, canon);
        merge_groups(&mut latest.history, history, true, canon);
        merge_extra(&mut latest.extra, extra);
        latest.finish(ipv6_parses)
    }
}

/// Address, user, port and key identify a connection: a new label never makes
/// another connection, a different key always does.
pub proof fn lemma_connection_identity<C: Fn(&[char]) -> Option<Vec<char>>>(canon: C, a: HostFields, b: HostFields, label: Seq<char>)
    ensures
        same_host_spec(canon, HostFields { label, ..a }, b) == same_host_spec(canon, a, b),
        a.identity_file != b.identity_file ==> !same_host_spec(canon, a, b),
        a.username != b.username ==> !same_host_spec(canon, a, b),
        a.port != b.port ==> !same_host_spec(canon, a, b),
{
}

/// Recording a connection leaves no other entry for it: what stays of the
/// list before the new entry holds none for the same connection.
pub proof fn lemma_recent_has_no_duplicate<C: Fn(&[char]) -> Option<Vec<char>>>(canon: C, recent: Seq<RecentConnection>, host: HostFields)
    ensures
        forall|k: int| 0 <= k < other_recent(canon, recent, host).len()
            ==> !same_host_spec(canon, (#[trigger] other_recent(canon, recent, host)[k]).host@, host),
{
    let p = |entry: RecentConnection| !same_host_spec(canon, entry.host@, host);
    assert forall|k: int| 0 <= k < other_recent(canon, recent, host).len()
        implies !same_host_spec(canon, (#[trigger] other_recent(canon, recent, host)[k]).host@, host) by {
        let kept = recent.filter(p);
        assert(kept.contains(kept[k]));
        recent.filter_lemma(p);
    }
}

/// Recording a group in the history leaves no other group that opens the
/// same connections.
pub proof fn lemma_history_has_no_duplicate<C: Fn(&[char]) -> Option<Vec<char>>>(canon: C, history: Seq<SavedWorkspace>, layout: SavedLayout)
    ensures
        forall|k: int| 0 <= k < other_layouts(canon, history, layout).len()
            ==> !same_connections_spec(canon, (#[trigger] other_layouts(canon, history, layout)[k]).layout, layout),
{
    let p = |entry: SavedWorkspace| !same_connections_spec(canon, entry.layout, layout);
    assert forall|k: int| 0 <= k < other_layouts(canon, history, layout).len()
        implies !same_connections_spec(canon, (#[trigger] other_layouts(canon, history, layout)[k]).layout, layout) by {
        let kept = history.filter(p);
        assert(kept.contains(kept[k]));
        history.filter_lemma(p);
    }
}

/// Merging a stale cache never reverts a change: every group already there
/// keeps its place and is replaced only by a newer one, and none is lost.
pub proof fn lemma_merge_groups_never_reverts<C: Fn(&[char]) -> Option<Vec<char>>>(
    canon: C,
    current: Seq<SavedWorkspace>,
    incoming: Seq<SavedWorkspace>,
    history: bool,
)
    ensures
        merged_groups(canon, current, incoming, history).len() >= current.len(),
        forall|k: int| 0 <= k < current.len() ==> {
            ||| #[trigger] merged_groups(canon, current, incoming, history)[k] == current[k]
            ||| merged_groups(canon, current, incoming, history)[k].updated_at_ms > current[k].updated_at_ms
        },
    decreases incoming.len(),
{
    if incoming.len() > 0 {
        let before = merged_groups(canon, current, incoming.drop_last(), history);
        lemma_merge_groups_never_reverts(canon, current, incoming.drop_last(), history);
        lemma_first_index_bounds(before, group_for(canon, incoming.last(), history));
        let after = merged_groups(canon, current, incoming, history);
        assert forall|k: int| 0 <= k < current.len() implies {
            ||| #[trigger] after[k] == current[k]
            ||| after[k].updated_at_ms > current[k].updated_at_ms
        } by {
            assert(before[k] == current[k] || before[k].updated_at_ms > current[k].updated_at_ms);
        }
    }
}

/// The same for recent connections.
pub proof fn lemma_merge_recent_never_reverts<C: Fn(&[char]) -> Option<Vec<char>>>(
    canon: C,
    current: Seq<RecentConnection>,
    incoming: Seq<RecentConnection>,
)
    ensures
        merged_recent(canon, current, incoming).len() >= current.len(),
        forall|k: int| 0 <= k < current.len() ==> {
            ||| #[trigger] merged_recent(canon, current, incoming)[k] == current[k]
            ||| merged_recent(canon, current, incoming)[k].last_connected_ms > current[k].last_connected_ms
        },
    decreases incoming.len(),
{
    if incoming.len() > 0 {
        let before = merged_recent(canon, current, incoming.drop_last());
        lemma_merge_recent_never_reverts(canon, current, incoming.drop_last());
        lemma_first_index_bounds(before, recent_for(canon, incoming.last().host@));
        let after = merged_recent(canon, current, incoming);
        assert forall|k: int| 0 <= k < current.len() implies {
            ||| #[trigger] after[k] == current[k]
            ||| after[k].last_connected_ms > current[k].last_connected_ms
        } by {
            assert(before[k] == current[k] || before[k].last_connected_ms > current[k].last_connected_ms);
        }
    }
}

/// `list` holds an entry for the connection of `entry` that is at least as
/// new as `entry`.
pub open spec fn keeps_recent<C: Fn(&[char]) -> Option<Vec<char>>>(canon: C, list: Seq<RecentConnection>, entry: RecentConnection) -> bool {
    exists|j: int|
        0 <= j < list.len() && same_host_spec(canon, (#[trigger] list[j]).host@, entry.host@)
            && list[j].last_connected_ms >= entry.last_connected_ms
}

proof fn lemma_recent_step_keeps<C: Fn(&[char]) -> Option<Vec<char>>>(
    canon: C,
    before: Seq<RecentConnection>,
    incoming: RecentConnection,
    entry: RecentConnection,
)
    requires
        keeps_recent(canon, before, entry),
    ensures
        keeps_recent(canon, merge_recent_step(canon, before, incoming), entry),
{
    let after = merge_recent_step(canon, before, incoming);
    let j = choose|j: int|
        0 <= j < before.len() && same_host_spec(canon, (#[trigger] before[j]).host@, entry.host@)
            && before[j].last_connected_ms >= entry.last_connected_ms;
    lemma_first_index_bounds(before, recent_for(canon, incoming.host@));
    let k = first_index(before, recent_for(canon, incoming.host@));
    if k >= 0 && incoming.last_connected_ms > before[k].last_connected_ms && j == k {
        assert(same_host_spec(canon, before[k].host@, incoming.host@));
        assert(after[k] == incoming);
        assert(same_host_spec(canon, after[k].host@, entry.host@));
    } else {
        assert(after[j] == before[j]);
    }
}

proof fn lemma_recent_step_adds<C: Fn(&[char]) -> Option<Vec<char>>>(
    canon: C,
    before: Seq<RecentConnection>,
    incoming: RecentConnection,
)
    ensures
        keeps_recent(canon, merge_recent_step(canon, before, incoming), incoming),
{
    let after = merge_recent_step(canon, before, incoming);
    lemma_first_index_bounds(before, recent_for(canon, incoming.host@));
    let k = first_index(before, recent_for(canon, incoming.host@));
    lemma_same_host_equivalence(canon, incoming.host@, incoming.host@);
    if k < 0 {
        assert(after[before.len() as int] == incoming);
    } else {
        assert(same_host_spec(canon, before[k].host@, incoming.host@));
        assert(same_host_spec(canon, after[k].host@, incoming.host@));
    }
}

/// Merging never drops a newer connection: for every incoming recent
/// connection, the merged list holds an entry for the same connection that is
/// at least as new, so a newer incoming entry replaces an older one.
pub proof fn lemma_merge_recent_keeps_incoming<C: Fn(&[char]) -> Option<Vec<char>>>(
    canon: C,
    current: Seq<RecentConnection>,
    incoming: Seq<RecentConnection>,
)
    ensures
        forall|i: int|
            0 <= i < incoming.len() ==> keeps_recent(
                canon,
                merged_recent(canon, current, incoming),
                #[trigger] incoming[i],
            ),
    decreases incoming.len(),
{
    if incoming.len() > 0 {
        let rest = incoming.drop_last();
        let before = merged_recent(canon, current, rest);
        lemma_merge_recent_keeps_incoming(canon, current, rest);
        lemma_recent_step_adds(canon, before, incoming.last());
        assert forall|i: int| 0 <= i < incoming.len() implies keeps_recent(
            canon,
            merged_recent(canon, current, incoming),
            #[trigger] incoming[i],
        ) by {
            if i < incoming.len() - 1 {
                assert(rest[i] == incoming[i]);
                lemma_recent_step_keeps(canon, before, incoming.last(), incoming[i]);
            }
        }
    }
}

/// `list` holds a group that `entry` stands for (see `group_for`) that is at
/// least as new as `entry`.
pub open spec fn keeps_group<C: Fn(&[char]) -> Option<Vec<char>>>(canon: C, list: Seq<SavedWorkspace>, entry: SavedWorkspace, history: bool) -> bool {
    exists|j: int|
        0 <= j < list.len() && {
            ||| (#[trigger] list[j]).id@ == entry.id@
            ||| history && same_connections_spec(canon, list[j].layout, entry.layout)
        } && list[j].updated_at_ms >= entry.updated_at_ms
}

proof fn lemma_group_step_adds<C: Fn(&[char]) -> Option<Vec<char>>>(
    canon: C,
    before: Seq<SavedWorkspace>,
    incoming: SavedWorkspace,
    history: bool,
)
    ensures
        keeps_group(canon, merge_group_step(canon, before, incoming, history), incoming, history),
{
    let after = merge_group_step(canon, before, incoming, history);
    lemma_first_index_bounds(before, group_for(canon, incoming, history));
    let k = first_index(before, group_for(canon, incoming, history));
    if k < 0 {
        assert(after[before.len() as int] == incoming);
    } else if incoming.updated_at_ms > before[k].updated_at_ms {
        assert(after[k] == incoming);
    } else {
        assert(group_for(canon, incoming, history)(before[k]));
        assert(after[k] == before[k]);
    }
}

proof fn lemma_saved_step_keeps<C: Fn(&[char]) -> Option<Vec<char>>>(
    canon: C,
    before: Seq<SavedWorkspace>,
    incoming: SavedWorkspace,
    entry: SavedWorkspace,
)
    requires
        keeps_group(canon, before, entry, false),
    ensures
        keeps_group(canon, merge_group_step(canon, before, incoming, false), entry, false),
{
    let after = merge_group_step(canon, before, incoming, false);
    let j = choose|j: int|
        0 <= j < before.len() && {
            ||| (#[trigger] before[j]).id@ == entry.id@
            ||| false && same_connections_spec(canon, before[j].layout, entry.layout)
        } && before[j].updated_at_ms >= entry.updated_at_ms;
    lemma_first_index_bounds(before, group_for(canon, incoming, false));
    let k = first_index(before, group_for(canon, incoming, false));
    if k >= 0 && incoming.updated_at_ms > before[k].updated_at_ms && j == k {
        assert(group_for(canon, incoming, false)(before[k]));
        assert(after[k] == incoming);
    } else {
        assert(after[j] == before[j]);
    }
}

/// Merging never loses a group: the last incoming group is always
/// represented in the merged list by a group it stands for that is at least as
/// new, and in the saved list (matched by identifier) every incoming group is.
/// A group missing from `current` is therefore added.
pub proof fn lemma_merge_groups_keeps_incoming<C: Fn(&[char]) -> Option<Vec<char>>>(
    canon: C,
    current: Seq<SavedWorkspace>,
    incoming: Seq<SavedWorkspace>,
    history: bool,
)
    ensures
        incoming.len() > 0 ==> keeps_group(
            canon,
            merged_groups(canon, current, incoming, history),
            incoming.last(),
            history,
        ),
        !history ==> forall|i: int|
            0 <= i < incoming.len() ==> keeps_group(
                canon,
                merged_groups(canon, current, incoming, history),
                #[trigger] incoming[i],
                false,
            ),
    decreases incoming.len(),
{
    if incoming.len() > 0 {
        let rest = incoming.drop_last();
        let before = merged_groups(canon, current, rest, history);
        lemma_merge_groups_keeps_incoming(canon, current, rest, history);
        lemma_group_step_adds(canon, before, incoming.last(), history);
        if !history {
            assert forall|i: int| 0 <= i < incoming.len() implies keeps_group(
                canon,
                merged_groups(canon, current, incoming, history),
                #[trigger] incoming[i],
                false,
            ) by {
                if i < incoming.len() - 1 {
                    assert(rest[i] == incoming[i]);
                    lemma_saved_step_keeps(canon, before, incoming.last(), incoming[i]);
                }
            }
        }
    }
}

/// Merging metadata loses nothing: every entry already there stays where it
/// was, unchanged, and every incoming key is present afterwards.
pub proof fn lemma_merge_extra_keeps_keys(current: Seq<(String, String)>, incoming: Seq<(String, String)>)
    ensures
        merged_extra(current, incoming).len() >= current.len(),
        forall|k: int| 0 <= k < current.len() ==> #[trigger] merged_extra(current, incoming)[k] == current[k],
        forall|i: int|
            0 <= i < incoming.len() ==> exists|j: int|
                0 <= j < merged_extra(current, incoming).len() && (#[trigger] merged_extra(
                    current,
                    incoming,
                )[j]).0@ == (#[trigger] incoming[i]).0@,
    decreases incoming.len(),
{
    if incoming.len() > 0 {
        let rest = incoming.drop_last();
        let before = merged_extra(current, rest);
        let after = merged_extra(current, incoming);
        lemma_merge_extra_keeps_keys(current, rest);
        let last = incoming.last();
        lemma_first_index_bounds(before, has_key(last.0@));
        let k = first_index(before, has_key(last.0@));
        assert forall|m: int| 0 <= m < before.len() implies #[trigger] after[m] == before[m] by {}
        assert forall|i: int| 0 <= i < incoming.len() implies exists|j: int|
            0 <= j < after.len() && (#[trigger] after[j]).0@ == (#[trigger] incoming[i]).0@ by {
            if i < incoming.len() - 1 {
                assert(rest[i] == incoming[i]);
                let j = choose|j: int| 0 <= j < before.len() && (#[trigger] before[j]).0@ == rest[i].0@;
                assert(after[j] == before[j]);
            } else if k < 0 {
                assert(after[before.len() as int] == last);
            } else {
                assert(has_key(last.0@)(before[k]));
                assert(after[k] == before[k]);
            }
        }
    }
}

/// A tidied list is ordered newest first and holds at most `cap` entries.
pub proof fn lemma_kept_newest<T: Stamped>(s: Seq<T>, cap: usize)
    ensures
        newest_first(kept_newest(s, cap)),
        kept_newest(s, cap).len() == if s.len() < cap { s.len() } else { cap as nat },
{
    lemma_sort_orders(s);
}

impl WorkspaceStore {
    /// The library a file holds, checked, sorted and trimmed: an empty one
    /// when there is no file yet. A file that cannot be opened or read, or
    /// that fails the check, is an error, and stays untouched.
    pub fn load<V: Fn(&[char]) -> bool>(file: StoredFile<WorkspaceStore>, ipv6_parses: &V) -> (result: Result<WorkspaceStore, WorkspaceError>)
        requires
            forall|x: &[char]| call_requires(*ipv6_parses, (x,)),
            deterministic(*ipv6_parses),
        ensures
            match file {
                StoredFile::Missing => result matches Ok(store) && {
                    &&& store.recent@.len() == 0
                    &&& store.history@.len() == 0
                    &&& store.saved@.len() == 0
                    &&& store.version == SCHEMA_VERSION
                    &&& store.extra@.len() == 0
                },
                StoredFile::Unopenable => result == Err::<WorkspaceStore, WorkspaceError>(WorkspaceError::Open),
                StoredFile::Unreadable => result == Err::<WorkspaceStore, WorkspaceError>(WorkspaceError::Read),
                StoredFile::Read(store) => match store_check(*ipv6_parses, store) {
                    Err(e) => result == Err::<WorkspaceStore, WorkspaceError>(e),
                    Ok(()) => result matches Ok(loaded) && {
                        &&& tidied(loaded, store.recent@, store.history@, store.saved@)
                        &&& loaded.version == store.version
                        &&& loaded.extra == store.extra
                    },
                },
            },
    {
        let mut store = match file {
            StoredFile::Missing => {
                return Ok(WorkspaceStore::default());
            },
            StoredFile::Unopenable => {
                return Err(WorkspaceError::Open);
            },
            StoredFile::Unreadable => {
                return Err(WorkspaceError::Read);
            },
            StoredFile::Read(store) => store,
        };
        match store.validate(ipv6_parses) {
            Err(e) => {
                return Err(e);
            },
            Ok(()) => {},
        }
        store.sort_and_trim();
        Ok(store)
    }
}

} // verus!
