//! Local host metadata. Authentication stays with the SSH transport.
use vstd::prelude::*;
use crate::text::{
    any_control, any_space_or_control, append_chars, char_count, chars_of, contains_chars, count_char,
    count_words, decimal, decimal_chars, first_index, first_index_of, has_char, has_control,
    has_space_or_control, last_index, last_index_of, lemma_count_has_last, lemma_first_index_bounds, lemma_last_index_bounds,
    matches_at, occurs_at, occurs_in, parse_u16, parse_u16_spec, slice_chars, string_of, trim_chars,
    trim_string, trimmed, word_count,
};

verus! {

broadcast use vstd::string::group_string_axioms;

#[derive(Debug, PartialEq, Eq)]
pub struct Host {
    pub label: String,
    pub address: String,
    pub port: u16,
    pub username: String,
    pub group: String,
    pub identity_file: String,
}

/// The text of every field of a host.
pub struct HostFields {
    pub label: Seq<char>,
    pub address: Seq<char>,
    pub port: u16,
    pub username: Seq<char>,
    pub group: Seq<char>,
    pub identity_file: Seq<char>,
}

impl View for Host {
    type V = HostFields;

    open spec fn view(&self) -> HostFields {
        HostFields {
            label: self.label@,
            address: self.address@,
            port: self.port,
            username: self.username@,
            group: self.group@,
            identity_file: self.identity_file@,
        }
    }
}

impl Clone for Host {
    fn clone(&self) -> (copy: Self)
        ensures
            copy == *self,
    {
        Host {
            label: self.label.clone(),
            address: self.address.clone(),
            port: self.port,
            username: self.username.clone(),
            group: self.group.clone(),
            identity_file: self.identity_file.clone(),
        }
    }
}

impl Default for Host {
    fn default() -> (host: Self)
        ensures
            host@ == (HostFields {
                label: Seq::empty(),
                address: Seq::empty(),
                port: 0,
                username: Seq::empty(),
                group: Seq::empty(),
                identity_file: Seq::empty(),
            }),
    {
        Host {
            label: String::new(),
            address: String::new(),
            port: 0,
            username: String::new(),
            group: String::new(),
            identity_file: String::new(),
        }
    }
}

#[derive(Debug, Clone, Copy, PartialEq, Eq, Structural)]
pub enum HostError {
    InvalidAddress,
    InvalidIpv6,
    InvalidPort,
    InvalidUsername,
    ControlCharacters,
    MissingKeyFile,
    QuickConnectFormat,
    MissingBracket,
    BracketNotIpv6,
    BracketPort,
    InvalidSshPort,
}

impl HostError {
    /// The explanation shown to the user, as text.
    pub open spec fn explanation(&self) -> Seq<char> {
        match self {
            HostError::InvalidAddress => "Enter a hostname or IP address, without a protocol or username."@,
            HostError::InvalidIpv6 => "Enter a valid IPv6 address; put the SSH port in the Port field."@,
            HostError::InvalidPort => "Port must be between 1 and 65535."@,
            HostError::InvalidUsername => "Username cannot contain spaces or control characters."@,
            HostError::ControlCharacters => "Fields cannot contain control characters."@,
            HostError::MissingKeyFile => "The private key file does not exist on this computer."@,
            HostError::QuickConnectFormat => "Use user@hostname or user@hostname:port for SSH."@,
            HostError::MissingBracket => "IPv6 address needs a closing ]."@,
            HostError::BracketNotIpv6 => "Brackets must contain a valid IPv6 address."@,
            HostError::BracketPort => "Use [IPv6]:port."@,
            HostError::InvalidSshPort => "Invalid SSH port."@,
        }
    }

    /// The explanation shown to the user.
    pub fn message(&self) -> (text: &'static str)
        ensures
            text@ == self.explanation(),
    {
        match self {
            HostError::InvalidAddress => "Enter a hostname or IP address, without a protocol or username.",
            HostError::InvalidIpv6 => "Enter a valid IPv6 address; put the SSH port in the Port field.",
            HostError::InvalidPort => "Port must be between 1 and 65535.",
            HostError::InvalidUsername => "Username cannot contain spaces or control characters.",
            HostError::ControlCharacters => "Fields cannot contain control characters.",
            HostError::MissingKeyFile => "The private key file does not exist on this computer.",
            HostError::QuickConnectFormat => "Use user@hostname or user@hostname:port for SSH.",
            HostError::MissingBracket => "IPv6 address needs a closing ].",
            HostError::BracketNotIpv6 => "Brackets must contain a valid IPv6 address.",
            HostError::BracketPort => "Use [IPv6]:port.",
            HostError::InvalidSshPort => "Invalid SSH port.",
        }
    }
}

/// `callback` answered `answer` for some slice holding `input`.
pub open spec fn answers<F: Fn(&[char]) -> bool>(callback: F, input: Seq<char>, answer: bool) -> bool {
    exists|x: &[char]| x@ == input && #[trigger] call_ensures(callback, (x,), answer)
}

pub open spec fn scheme_separator() -> Seq<char> {
    seq![':', '/', '/']
}

/// Addresses that cannot name a host: empty, with spaces or control
/// characters, with a protocol or user, or looking like an option.
pub open spec fn address_rejected(address: Seq<char>) -> bool {
    ||| address.len() == 0
    ||| has_space_or_control(address)
    ||| occurs_in(address, scheme_separator())
    ||| address.contains('@')
    ||| address[0] == '-'
}

/// An address with a colon or a bracket must be an IPv6 address.
pub open spec fn looks_ipv6(address: Seq<char>) -> bool {
    address.contains(':') || address.contains('[') || address.contains(']')
}

/// The address inside one pair of enclosing brackets, if it has them.
pub open spec fn unbracketed(address: Seq<char>) -> Seq<char> {
    if address.len() >= 2 && address[0] == '[' && address.last() == ']' {
        address.subrange(1, address.len() - 1)
    } else {
        address
    }
}

pub open spec fn trimmed_fields(h: HostFields) -> HostFields {
    HostFields {
        label: trimmed(h.label),
        address: trimmed(h.address),
        port: h.port,
        username: trimmed(h.username),
        group: trimmed(h.group),
        identity_file: trimmed(h.identity_file),
    }
}

/// Whether validation asks if the address is an IPv6 address.
pub open spec fn ipv6_consulted(h: HostFields) -> bool {
    let t = trimmed_fields(h);
    !address_rejected(t.address) && looks_ipv6(t.address)
}

/// The fields after validation and its verdict, given the answers of the IPv6
/// parser and of the key-file check.
pub open spec fn validated(h: HostFields, ipv6_ok: bool, key_ok: bool) -> (HostFields, Result<(), HostError>) {
    let t = trimmed_fields(h);
    if address_rejected(t.address) {
        (t, Err(HostError::InvalidAddress))
    } else if looks_ipv6(t.address) && !ipv6_ok {
        (t, Err(HostError::InvalidIpv6))
    } else {
        let t2 = if looks_ipv6(t.address) {
            HostFields { address: unbracketed(t.address), ..t }
        } else {
            t
        };
        if t2.port == 0 {
            (t2, Err(HostError::InvalidPort))
        } else if has_space_or_control(t2.username) {
            (t2, Err(HostError::InvalidUsername))
        } else if has_control(t2.label) || has_control(t2.group) || has_control(t2.identity_file) {
            (t2, Err(HostError::ControlCharacters))
        } else {
            let t3 = if t2.label.len() == 0 {
                HostFields { label: t2.address, ..t2 }
            } else {
                t2
            };
            if t3.identity_file.len() > 0 && !key_ok {
                (t3, Err(HostError::MissingKeyFile))
            } else {
                (t3, Ok(()))
            }
        }
    }
}

/// Whether validation asks if the key file exists.
pub open spec fn key_consulted(h: HostFields, ipv6_ok: bool) -> bool {
    let t = trimmed_fields(h);
    &&& !address_rejected(t.address)
    &&& !(looks_ipv6(t.address) && !ipv6_ok)
    &&& t.port != 0
    &&& !has_space_or_control(t.username)
    &&& !has_control(t.label) && !has_control(t.group) && !has_control(t.identity_file)
    &&& t.identity_file.len() > 0
}

/// The characters between one pair of enclosing brackets.
fn unbracket(address: &[char]) -> (inner: Vec<char>)
    ensures
        inner@ == unbracketed(address@),
{
    let n = address.len();
    if n >= 2 && address[0] == '[' && address[n - 1] == ']' {
        let mut inner: Vec<char> = Vec::new();
        let mut i: usize = 1;
        while i < n - 1
            invariant
                1 <= i <= n - 1,
                n == address.len(),
                inner@ == address@.subrange(1, i as int),
            decreases n - 1 - i,
        {
            inner.push(address[i]);
            assert(address@.subrange(1, i + 1) =~= address@.subrange(1, i as int).push(address@[i as int]));
            i = i + 1;
        }
        inner
    } else {
        let mut copy: Vec<char> = Vec::new();
        append_chars(&mut copy, address);
        copy
    }
}

/// Leading `c` removed, as often as it occurs.
pub open spec fn strip_leading(s: Seq<char>, c: char) -> Seq<char>
    decreases s.len(),
{
    if s.len() > 0 && s[0] == c {
        strip_leading(s.drop_first(), c)
    } else {
        s
    }
}

/// Trailing `c` removed, as often as it occurs.
pub open spec fn strip_trailing(s: Seq<char>, c: char) -> Seq<char>
    decreases s.len(),
{
    if s.len() > 0 && s.last() == c {
        strip_trailing(s.drop_last(), c)
    } else {
        s
    }
}

pub fn strip_ends(s: &[char], front: char, back: char) -> (t: Vec<char>)
    ensures
        t@ == strip_trailing(strip_leading(s@, front), back),
{
    let mut t: Vec<char> = Vec::new();
    let mut start: usize = 0;
    assert(s@.subrange(0, s@.len() as int) =~= s@);
    while start < s.len() && s[start] == front
        invariant
            start <= s.len(),
            strip_leading(s@, front) == strip_leading(s@.subrange(start as int, s@.len() as int), front),
        decreases s.len() - start,
    {
        let ghost rest = s@.subrange(start as int, s@.len() as int);
        assert(rest.drop_first() =~= s@.subrange(start + 1, s@.len() as int));
        start = start + 1;
    }
    let ghost lead = s@.subrange(start as int, s@.len() as int);
    assert(strip_leading(lead, front) == lead);
    let mut end: usize = s.len();
    while end > start && s[end - 1] == back
        invariant
            start <= end <= s.len(),
            strip_trailing(lead, back) == strip_trailing(s@.subrange(start as int, end as int), back),
        decreases end - start,
    {
        let ghost cur = s@.subrange(start as int, end as int);
        assert(cur.drop_last() =~= s@.subrange(start as int, end - 1));
        end = end - 1;
    }
    let mut i: usize = start;
    while i < end
        invariant
            start <= i <= end,
            end <= s.len(),
            t@ == s@.subrange(start as int, i as int),
        decreases end - i,
    {
        t.push(s[i]);
        assert(s@.subrange(start as int, i + 1) =~= s@.subrange(start as int, i as int).push(s@[i as int]));
        i = i + 1;
    }
    t
}

/// `address:port`, with an IPv6 address in brackets.
pub open spec fn endpoint_spec(h: HostFields) -> Seq<char> {
    let addr = strip_trailing(strip_leading(h.address, '['), ']');
    if addr.contains(':') {
        seq!['['] + addr + seq![']', ':'] + decimal(h.port as nat)
    } else {
        addr + seq![':'] + decimal(h.port as nat)
    }
}

impl Host {
    pub fn endpoint(&self) -> (endpoint: String)
        ensures
            endpoint@ == endpoint_spec(self@),
    {
        let address = chars_of(self.address.as_str());
        let addr = strip_ends(address.as_slice(), '[', ']');
        let port = decimal_chars(self.port as u64);
        let mut out: Vec<char> = Vec::new();
        if has_char(addr.as_slice(), ':') {
            out.push('[');
            append_chars(&mut out, addr.as_slice());
            out.push(']');
            out.push(':');
            append_chars(&mut out, port.as_slice());
            assert(out@ =~= seq!['['] + addr@ + seq![']', ':'] + decimal(self.port as nat));
        } else {
            append_chars(&mut out, addr.as_slice());
            out.push(':');
            append_chars(&mut out, port.as_slice());
            assert(out@ =~= addr@ + seq![':'] + decimal(self.port as nat));
        }
        string_of(out.as_slice())
    }

    /// Trim every field and check the host can be connected to. An address
    /// with a colon or bracket must satisfy `ipv6_parses` (and loses one pair
    /// of enclosing brackets); a key file must satisfy `is_key_file`. An empty
    /// label becomes the address.
    pub fn validate<V: Fn(&[char]) -> bool, K: Fn(&[char]) -> bool>(
        &mut self,
        ipv6_parses: &V,
        is_key_file: &K,
    ) -> (result: Result<(), HostError>)
        requires
            forall|x: &[char]| call_requires(*ipv6_parses, (x,)),
            forall|x: &[char]| call_requires(*is_key_file, (x,)),
        ensures
            exists|ipv6_ok: bool, key_ok: bool|
                {
                    &&& ipv6_consulted(old(self)@) ==> answers(
                        *ipv6_parses,
                        unbracketed(trimmed(old(self)@.address)),
                        ipv6_ok,
                    )
                    &&& key_consulted(old(self)@, ipv6_ok) ==> answers(
                        *is_key_file,
                        trimmed(old(self)@.identity_file),
                        key_ok,
                    )
                    &&& #[trigger] validated(old(self)@, ipv6_ok, key_ok) == (final(self)@, result)
                },
    {
        let ghost start = self@;
        self.label = trim_string(&self.label);
        self.address = trim_string(&self.address);
        self.username = trim_string(&self.username);
        self.group = trim_string(&self.group);
        self.identity_file = trim_string(&self.identity_file);
        let ghost t = self@;
        assert(t == trimmed_fields(start));
        let addr = chars_of(self.address.as_str());
        let scheme: Vec<char> = vec![':', '/', '/'];
        assert(scheme@ =~= scheme_separator());
        if addr.len() == 0 || any_space_or_control(addr.as_slice()) || contains_chars(
            addr.as_slice(),
            scheme.as_slice(),
        ) || has_char(addr.as_slice(), '@') || addr[0] == '-' {
            assert(validated(start, false, false) == (self@, Err::<(), HostError>(HostError::InvalidAddress)));
            return Err(HostError::InvalidAddress);
        }
        let mut ipv6_ok = true;
        if has_char(addr.as_slice(), ':') || has_char(addr.as_slice(), '[') || has_char(addr.as_slice(), ']') {
            let inner = unbracket(addr.as_slice());
            ipv6_ok = ipv6_parses(inner.as_slice());
            assert(answers(*ipv6_parses, unbracketed(t.address), ipv6_ok));
            if !ipv6_ok {
                assert(validated(start, ipv6_ok, false) == (self@, Err::<(), HostError>(HostError::InvalidIpv6)));
                return Err(HostError::InvalidIpv6);
            }
            self.address = string_of(inner.as_slice());
        }
        let ghost t2 = self@;
        if self.port == 0 {
            assert(validated(start, ipv6_ok, false) == (self@, Err::<(), HostError>(HostError::InvalidPort)));
            return Err(HostError::InvalidPort);
        }
        let user = chars_of(self.username.as_str());
        if any_space_or_control(user.as_slice()) {
            assert(validated(start, ipv6_ok, false) == (self@, Err::<(), HostError>(HostError::InvalidUsername)));
            return Err(HostError::InvalidUsername);
        }
        let label = chars_of(self.label.as_str());
        let group = chars_of(self.group.as_str());
        let key = chars_of(self.identity_file.as_str());
        if any_control(label.as_slice()) || any_control(group.as_slice()) || any_control(key.as_slice()) {
            assert(validated(start, ipv6_ok, false) == (self@, Err::<(), HostError>(HostError::ControlCharacters)));
            return Err(HostError::ControlCharacters);
        }
        if label.len() == 0 {
            self.label = self.address.clone();
        }
        if key.len() != 0 {
            let key_ok = is_key_file(key.as_slice());
            assert(answers(*is_key_file, t.identity_file, key_ok));
            if !key_ok {
                assert(validated(start, ipv6_ok, key_ok) == (self@, Err::<(), HostError>(HostError::MissingKeyFile)));
                return Err(HostError::MissingKeyFile);
            }
            assert(validated(start, ipv6_ok, key_ok) == (self@, Ok::<(), HostError>(())));
            return Ok(());
        }
        assert(validated(start, ipv6_ok, true) == (self@, Ok::<(), HostError>(())));
        Ok(())
    }
}

pub open spec fn ssh_prefix() -> Seq<char> {
    seq!['s', 's', 'h', ' ']
}

/// The typed text without surrounding space and without one leading `ssh `.
pub open spec fn command_text(text: Seq<char>) -> Seq<char> {
    let t = trimmed(text);
    if occurs_at(t, ssh_prefix(), 0) {
        t.subrange(4, t.len() as int)
    } else {
        t
    }
}

/// The parts of a quick-connect line: `user@host`, `user@host:port`,
/// `user@[ipv6]` or `user@[ipv6]:port`, the user being optional.
/// `bracket_ok` is whether the text between brackets is an IPv6 address.
pub open spec fn connect_fields(text: Seq<char>, bracket_ok: bool) -> Result<HostFields, HostError> {
    let t = command_text(text);
    if occurs_in(t, scheme_separator()) || word_count(t) != 1 {
        Err(HostError::QuickConnectFormat)
    } else {
        let at = last_index_of(t, '@');
        let user = if at >= 0 { t.subrange(0, at) } else { Seq::<char>::empty() };
        let endpoint = if at >= 0 { t.subrange(at + 1, t.len() as int) } else { t };
        let fields = |address: Seq<char>, port: u16| HostFields {
            label: Seq::empty(),
            address,
            port,
            username: user,
            group: Seq::empty(),
            identity_file: Seq::empty(),
        };
        if endpoint.len() > 0 && endpoint[0] == '[' {
            let end = first_index_of(endpoint, ']');
            if end < 0 {
                Err(HostError::MissingBracket)
            } else if !bracket_ok {
                Err(HostError::BracketNotIpv6)
            } else {
                let inner = endpoint.subrange(1, end);
                let suffix = endpoint.subrange(end + 1, endpoint.len() as int);
                if suffix.len() == 0 {
                    Ok(fields(inner, 22))
                } else if suffix[0] != ':' {
                    Err(HostError::BracketPort)
                } else {
                    match parse_u16_spec(suffix.drop_first()) {
                        Some(port) => Ok(fields(inner, port)),
                        None => Err(HostError::InvalidSshPort),
                    }
                }
            }
        } else if count_char(endpoint, ':') == 1 {
            let colon = last_index_of(endpoint, ':');
            match parse_u16_spec(endpoint.subrange(colon + 1, endpoint.len() as int)) {
                Some(port) => Ok(fields(endpoint.subrange(0, colon), port)),
                None => Err(HostError::InvalidSshPort),
            }
        } else {
            Ok(fields(endpoint, 22))
        }
    }
}

/// The text between the brackets, when the endpoint starts with one.
pub open spec fn bracket_text(text: Seq<char>) -> Seq<char> {
    let t = command_text(text);
    let at = last_index_of(t, '@');
    let endpoint = if at >= 0 { t.subrange(at + 1, t.len() as int) } else { t };
    endpoint.subrange(1, first_index_of(endpoint, ']'))
}

/// Whether reading `text` asks if the text between brackets is an IPv6 address.
pub open spec fn bracket_consulted(text: Seq<char>) -> bool {
    let t = command_text(text);
    let at = last_index_of(t, '@');
    let endpoint = if at >= 0 { t.subrange(at + 1, t.len() as int) } else { t };
    &&& !(occurs_in(t, scheme_separator()) || word_count(t) != 1)
    &&& endpoint.len() > 0 && endpoint[0] == '['
    &&& first_index_of(endpoint, ']') >= 0
}

fn without_ssh_prefix(text: &str) -> (t: Vec<char>)
    ensures
        t@ == command_text(text@),
{
    let chars = chars_of(text);
    let t = trim_chars(chars.as_slice());
    let prefix: Vec<char> = vec!['s', 's', 'h', ' '];
    assert(prefix@ =~= ssh_prefix());
    if matches_at(t.as_slice(), prefix.as_slice(), 0) {
        slice_chars(t.as_slice(), 4, t.len())
    } else {
        t
    }
}

fn host_fields(address: Vec<char>, port: u16, username: &Vec<char>) -> (host: Host)
    ensures
        host@ == (HostFields {
            label: Seq::empty(),
            address: address@,
            port,
            username: username@,
            group: Seq::empty(),
            identity_file: Seq::empty(),
        }),
{
    Host {
        label: String::new(),
        address: string_of(address.as_slice()),
        port,
        username: string_of(username.as_slice()),
        group: String::new(),
        identity_file: String::new(),
    }
}

/// The validated host a quick-connect line describes, or why there is none.
pub open spec fn quick_connect_outcome(text: Seq<char>, bracket_ok: bool, ipv6_ok: bool) -> Result<HostFields, HostError> {
    match connect_fields(text, bracket_ok) {
        Err(e) => Err(e),
        Ok(fields) => match validated(fields, ipv6_ok, true) {
            (host, Ok(())) => Ok(host),
            (_, Err(e)) => Err(e),
        },
    }
}

impl Host {
    /// Read a host from a quick-connect line; see `connect_fields`. The host
    /// is then validated, with no key file.
    #[verifier::rlimit(40)]
    #[verifier::spinoff_prover]
    pub fn quick_connect<V: Fn(&[char]) -> bool>(text: &str, ipv6_parses: &V) -> (result: Result<Host, HostError>)
        requires
            forall|x: &[char]| call_requires(*ipv6_parses, (x,)),
        ensures
            exists|bracket_ok: bool, ipv6_ok: bool|
                {
                    &&& bracket_consulted(text@) ==> answers(*ipv6_parses, bracket_text(text@), bracket_ok)
                    &&& connect_fields(text@, bracket_ok) matches Ok(fields) ==> (ipv6_consulted(fields)
                        ==> answers(*ipv6_parses, unbracketed(trimmed(fields.address)), ipv6_ok))
                    &&& match #[trigger] quick_connect_outcome(text@, bracket_ok, ipv6_ok) {
                        Ok(fields) => result matches Ok(host) && host@ == fields,
                        Err(e) => result == Err::<Host, HostError>(e),
                    }
                },
    {
        let t = without_ssh_prefix(text);
        let scheme: Vec<char> = vec![':', '/', '/'];
        assert(scheme@ =~= scheme_separator());
        if contains_chars(t.as_slice(), scheme.as_slice()) || count_words(t.as_slice()) != 1 {
            assert(connect_fields(text@, false) == Err::<HostFields, HostError>(HostError::QuickConnectFormat));
            return Err(HostError::QuickConnectFormat);
        }
        proof {
            lemma_last_index_bounds(t@, '@');
        }
        let (user, endpoint) = match last_index(t.as_slice(), '@') {
            Some(at) => {
                assert(at < t@.len());
                (slice_chars(t.as_slice(), 0, at), slice_chars(t.as_slice(), at + 1, t.len()))
            },
            None => (Vec::new(), t),
        };
        let ghost at = last_index_of(command_text(text@), '@');
        assert(user@ =~= (if at >= 0 { command_text(text@).subrange(0, at) } else { Seq::<char>::empty() }));
        assert(endpoint@ =~= (if at >= 0 { command_text(text@).subrange(at + 1, command_text(text@).len() as int) } else { command_text(text@) }));
        let mut bracket_ok = true;
        let parsed: Result<Host, HostError> = if endpoint.len() > 0 && endpoint[0] == '[' {
            proof {
                lemma_first_index_bounds(endpoint@, ']');
            }
            match first_index(endpoint.as_slice(), ']') {
                None => {
                    assert(connect_fields(text@, false) == Err::<HostFields, HostError>(HostError::MissingBracket));
                    return Err(HostError::MissingBracket);
                },
                Some(end) => {
                    let inner = slice_chars(endpoint.as_slice(), 1, end);
                    bracket_ok = ipv6_parses(inner.as_slice());
                    assert(answers(*ipv6_parses, bracket_text(text@), bracket_ok));
                    if !bracket_ok {
                        assert(connect_fields(text@, bracket_ok) == Err::<HostFields, HostError>(HostError::BracketNotIpv6));
                        return Err(HostError::BracketNotIpv6);
                    }
                    let suffix = slice_chars(endpoint.as_slice(), end + 1, endpoint.len());
                    if suffix.len() == 0 {
                        let h = host_fields(inner, 22, &user);
                        assert(connect_fields(text@, bracket_ok) == Ok::<HostFields, HostError>(h@));
                        Ok(h)
                    } else if suffix[0] != ':' {
                        assert(connect_fields(text@, bracket_ok) == Err::<HostFields, HostError>(HostError::BracketPort));
                        return Err(HostError::BracketPort);
                    } else {
                        let digits = slice_chars(suffix.as_slice(), 1, suffix.len());
                        assert(digits@ =~= suffix@.drop_first());
                        match parse_u16(digits.as_slice()) {
                            Some(port) => {
                                let h = host_fields(inner, port, &user);
                                assert(connect_fields(text@, bracket_ok) == Ok::<HostFields, HostError>(h@));
                                Ok(h)
                            },
                            None => {
                                assert(connect_fields(text@, bracket_ok) == Err::<HostFields, HostError>(HostError::InvalidSshPort));
                                return Err(HostError::InvalidSshPort);
                            },
                        }
                    }
                },
            }
        } else if char_count(endpoint.as_slice(), ':') == 1 {
            proof {
                lemma_last_index_bounds(endpoint@, ':');
                lemma_count_has_last(endpoint@, ':');
            }
            let colon = match last_index(endpoint.as_slice(), ':') {
                Some(colon) => colon,
                None => 0,
            };
            assert(endpoint@[colon as int] == ':');
            let digits = slice_chars(endpoint.as_slice(), colon + 1, endpoint.len());
            match parse_u16(digits.as_slice()) {
                Some(port) => {
                    let h = host_fields(slice_chars(endpoint.as_slice(), 0, colon), port, &user);
                    assert(connect_fields(text@, bracket_ok) == Ok::<HostFields, HostError>(h@));
                    Ok(h)
                },
                None => {
                    assert(connect_fields(text@, bracket_ok) == Err::<HostFields, HostError>(HostError::InvalidSshPort));
                    return Err(HostError::InvalidSshPort);
                },
            }
        } else {
            let h = host_fields(endpoint, 22, &user);
            assert(connect_fields(text@, bracket_ok) == Ok::<HostFields, HostError>(h@));
            Ok(h)
        };
        match parsed {
            Ok(mut host) => {
                let ghost fields = host@;
                assert(connect_fields(text@, bracket_ok) == Ok::<HostFields, HostError>(fields));
                let checked = host.validate(ipv6_parses, &|path: &[char]| false);
                let ghost answer = choose|ipv6_ok: bool, key_ok: bool|
                    {
                        &&& ipv6_consulted(fields) ==> answers(*ipv6_parses, unbracketed(trimmed(fields.address)), ipv6_ok)
                        &&& #[trigger] validated(fields, ipv6_ok, key_ok) == (host@, checked)
                    };
                let ghost ipv6_ok = answer.0;
                let ghost key_ok = answer.1;
                assert(fields.identity_file =~= Seq::<char>::empty());
                assert(trimmed(fields.identity_file) =~= Seq::<char>::empty());
                assert(validated(fields, ipv6_ok, key_ok) == validated(fields, ipv6_ok, true));
                match checked {
                    Ok(()) => {
                        assert(quick_connect_outcome(text@, bracket_ok, ipv6_ok) == Ok::<HostFields, HostError>(host@));
                        Ok(host)
                    },
                    Err(e) => {
                        assert(quick_connect_outcome(text@, bracket_ok, ipv6_ok) == Err::<HostFields, HostError>(e));
                        Err(e)
                    },
                }
            },
            Err(e) => Err(e),
        }
    }
}

/// A private key known to the library, under a label of the user's.
#[derive(Clone, Debug)]
pub struct KeyFile {
    pub label: String,
    pub path: String,
}

/// The local host library: hosts and keys.
#[derive(Clone, Debug)]
pub struct HostStore {
    pub hosts: Vec<Host>,
    pub keys: Vec<KeyFile>,
}

impl Default for HostStore {
    fn default() -> (store: Self)
        ensures
            store.hosts@.len() == 0,
            store.keys@.len() == 0,
    {
        HostStore { hosts: Vec::new(), keys: Vec::new() }
    }
}

/// What reading a library file found.
pub enum StoredFile<T> {
    /// There is no file yet.
    Missing,
    /// The file exists but could not be opened.
    Unopenable,
    /// The file could not be read as a library.
    Unreadable,
    Read(T),
}

#[derive(Debug, Clone, Copy, PartialEq, Eq, Structural)]
pub enum HostStoreError {
    Open,
    Read,
}

impl HostStoreError {
    /// The explanation shown to the user, as text.
    pub open spec fn explanation(&self) -> Seq<char> {
        match self {
            HostStoreError::Open => "Could not open the local host library."@,
            HostStoreError::Read => "Could not read the local host library. The file has been preserved."@,
        }
    }

    /// The explanation shown to the user.
    pub fn message(&self) -> (text: &'static str)
        ensures
            text@ == self.explanation(),
    {
        match self {
            HostStoreError::Open => "Could not open the local host library.",
            HostStoreError::Read => "Could not read the local host library. The file has been preserved.",
        }
    }
}

impl HostStore {
    /// The library a file holds: an empty one when there is no file yet. A
    /// file that cannot be opened or read is an error, and stays untouched.
    pub fn load(file: StoredFile<HostStore>) -> (result: Result<HostStore, HostStoreError>)
        ensures
            match file {
                StoredFile::Missing => result matches Ok(store) && store.hosts@.len() == 0 && store.keys@.len() == 0,
                StoredFile::Unopenable => result == Err::<HostStore, HostStoreError>(HostStoreError::Open),
                StoredFile::Unreadable => result == Err::<HostStore, HostStoreError>(HostStoreError::Read),
                StoredFile::Read(store) => result == Ok::<HostStore, HostStoreError>(store),
            },
    {
        match file {
            StoredFile::Missing => Ok(HostStore::default()),
            StoredFile::Unopenable => Err(HostStoreError::Open),
            StoredFile::Unreadable => Err(HostStoreError::Read),
            StoredFile::Read(store) => Ok(store),
        }
    }
}

} // verus!
