//! Filtering rules: what to allow or block, described by optional match
//! fields, a direction, an action and a priority.

use vstd::prelude::*;
use crate::addr::{ip_of, parse_ip};
use crate::network::{cidr_of, IpNetwork};
use crate::text::chars_of;

verus! {

/// The transport protocols that a rule can name.
#[derive(Clone, Copy, Debug, PartialEq, Eq, Structural)]
pub enum Protocol {
    Tcp,
    Udp,
}

/// The direction of the traffic that a rule covers.
#[derive(Clone, Copy, Debug, PartialEq, Eq, Structural)]
pub enum Direction {
    Inbound,
    Outbound,
    Both,
}

/// What happens to the traffic that a rule matches.
#[derive(Clone, Copy, Debug, PartialEq, Eq, Structural)]
pub enum FilterAction {
    Allow,
    Block,
}

/// The engine's code for a terminating action that blocks.
pub const FWP_ACTION_BLOCK: u32 = 0x1001;

/// The engine's code for a terminating action that permits.
pub const FWP_ACTION_PERMIT: u32 = 0x1002;

impl FilterAction {
    /// The engine's code for the action.
    pub open spec fn spec_action_type(self) -> u32 {
        match self {
            FilterAction::Allow => FWP_ACTION_PERMIT,
            FilterAction::Block => FWP_ACTION_BLOCK,
        }
    }

    /// The engine's code for the action.
    #[verifier::when_used_as_spec(spec_action_type)]
    pub fn action_type(self) -> (code: u32)
        ensures
            code == self.spec_action_type(),
    {
        match self {
            FilterAction::Allow => FWP_ACTION_PERMIT,
            FilterAction::Block => FWP_ACTION_BLOCK,
        }
    }
}

/// A text that names no known protocol.
#[derive(Clone, Copy, Debug, PartialEq, Eq, Structural)]
pub struct UnknownProtocol;

/// Whether `c` is the lower-case letter `lower` in either case.
pub open spec fn is_letter(c: char, lower: char) -> bool {
    c == lower || c as u32 + 32 == lower as u32
}

/// Whether `s` spells the three lower-case letters, in any mix of cases.
pub open spec fn spells(s: Seq<char>, a: char, b: char, c: char) -> bool {
    s.len() == 3 && is_letter(s[0], a) && is_letter(s[1], b) && is_letter(s[2], c)
}

/// The protocol named by `s`, whatever the case of its letters.
pub open spec fn protocol_of(s: Seq<char>) -> Option<Protocol> {
    if spells(s, 't', 'c', 'p') {
        Some(Protocol::Tcp)
    } else if spells(s, 'u', 'd', 'p') {
        Some(Protocol::Udp)
    } else {
        None
    }
}

fn letter_is(c: char, lower: char) -> (r: bool)
    requires
        'a' <= lower <= 'z',
    ensures
        r == is_letter(c, lower),
{
    c == lower || (c as u32) + 32 == lower as u32
}

impl Protocol {
    /// The number that identifies the protocol in an IP header.
    pub open spec fn spec_number(self) -> u8 {
        match self {
            Protocol::Tcp => 6u8,
            Protocol::Udp => 17u8,
        }
    }

    /// The number that identifies the protocol in an IP header: 6 for TCP,
    /// 17 for UDP.
    #[verifier::when_used_as_spec(spec_number)]
    pub fn number(self) -> (n: u8)
        ensures
            n == self.spec_number(),
    {
        match self {
            Protocol::Tcp => 6u8,
            Protocol::Udp => 17u8,
        }
    }

    /// The usual upper-case name of the protocol.
    pub fn name(self) -> (s: &'static str)
        ensures
            s@ == match self {
                Protocol::Tcp => "TCP"@,
                Protocol::Udp => "UDP"@,
            },
    {
        match self {
            Protocol::Tcp => "TCP",
            Protocol::Udp => "UDP",
        }
    }

    /// Reads the name of a protocol, in any mix of cases.
    pub fn from_str(s: &str) -> (r: Result<Protocol, UnknownProtocol>)
        ensures
            r == match protocol_of(s@) {
                Some(p) => Ok::<Protocol, UnknownProtocol>(p),
                None => Err(UnknownProtocol),
            },
    {
        let c = chars_of(s);
        if c.len() != 3 {
            return Err(UnknownProtocol);
        }
        if letter_is(c[0], 't') && letter_is(c[1], 'c') && letter_is(c[2], 'p') {
            Ok(Protocol::Tcp)
        } else if letter_is(c[0], 'u') && letter_is(c[1], 'd') && letter_is(c[2], 'p') {
            Ok(Protocol::Udp)
        } else {
            Err(UnknownProtocol)
        }
    }
}

/// The two address fields of a rule.
#[derive(Clone, Copy, Debug, PartialEq, Eq, Structural)]
pub enum AddressField {
    Local,
    Remote,
}

/// An address field of a rule that is neither an address nor a CIDR range.
#[derive(Clone, Debug, PartialEq, Eq)]
pub struct UnresolvableAddress {
    pub field: AddressField,
    pub value: String,
}

/// One filtering intent. The engine that installs the rule records in
/// `filter_ids` the identifiers of the filters that stand for it.
#[derive(Clone, Debug)]
pub struct FilterRule {
    pub name: String,
    pub app_path: Option<String>,
    pub local: Option<String>,
    pub remote: Option<String>,
    pub local_port: Option<u16>,
    pub remote_port: Option<u16>,
    pub local_port_range: Option<(u16, u16)>,
    pub remote_port_range: Option<(u16, u16)>,
    pub protocol: Option<Protocol>,
    pub direction: Direction,
    pub action: FilterAction,
    pub priority: u32,
    pub description: Option<String>,
    pub enabled: bool,
    pub filter_ids: Vec<u64>,
}

/// Whether `s` is an address or a CIDR range.
pub open spec fn resolves(s: Seq<char>) -> bool {
    ip_of(s) is Some || cidr_of(s) is Ok
}

/// Whether an optional address field is absent or resolves.
pub open spec fn field_resolves(field: Option<String>) -> bool {
    match field {
        Some(s) => resolves(s@),
        None => true,
    }
}

/// Tells whether `s` is an address or a CIDR range.
pub fn address_resolves(s: &str) -> (r: bool)
    ensures
        r == resolves(s@),
{
    let chars = chars_of(s);
    match parse_ip(&chars) {
        Some(_) => true,
        None => IpNetwork::from_cidr(s).is_ok(),
    }
}

impl FilterRule {
    /// Whether both address fields, where present, resolve.
    pub open spec fn is_valid(&self) -> bool {
        field_resolves(self.remote) && field_resolves(self.local)
    }

    /// A rule that blocks both directions and matches everything.
    pub fn new(name: &str) -> (r: FilterRule)
        ensures
            r.name@ == name@,
            r.filter_ids@.len() == 0,
            r == (FilterRule {
                name: r.name,
                app_path: None,
                local: None,
                remote: None,
                local_port: None,
                remote_port: None,
                local_port_range: None,
                remote_port_range: None,
                protocol: None,
                direction: Direction::Both,
                action: FilterAction::Block,
                priority: 0,
                description: None,
                enabled: true,
                filter_ids: r.filter_ids,
            }),
    {
        FilterRule {
            name: name.to_owned(),
            app_path: None,
            local: None,
            remote: None,
            local_port: None,
            remote_port: None,
            local_port_range: None,
            remote_port_range: None,
            protocol: None,
            direction: Direction::Both,
            action: FilterAction::Block,
            priority: 0,
            description: None,
            enabled: true,
            filter_ids: Vec::new(),
        }
    }

    /// A rule with every field given. A priority that is left out is 200.
    pub fn new_with_params(
        name: &str,
        app_path: Option<String>,
        local: Option<String>,
        remote: Option<String>,
        local_port: Option<u16>,
        remote_port: Option<u16>,
        local_port_range: Option<(u16, u16)>,
        remote_port_range: Option<(u16, u16)>,
        protocol: Option<Protocol>,
        direction: Direction,
        action: FilterAction,
        priority: Option<u32>,
        description: Option<String>,
    ) -> (r: FilterRule)
        ensures
            r.name@ == name@,
            r.filter_ids@.len() == 0,
            r == (FilterRule {
                name: r.name,
                app_path,
                local,
                remote,
                local_port,
                remote_port,
                local_port_range,
                remote_port_range,
                protocol,
                direction,
                action,
                priority: match priority {
                    Some(p) => p,
                    None => 200u32,
                },
                description,
                enabled: true,
                filter_ids: r.filter_ids,
            }),
    {
        FilterRule {
            name: name.to_owned(),
            app_path,
            local,
            remote,
            local_port,
            remote_port,
            local_port_range,
            remote_port_range,
            protocol,
            direction,
            action,
            priority: match priority {
                Some(p) => p,
                None => 200,
            },
            description,
            enabled: true,
            filter_ids: Vec::new(),
        }
    }

    /// Checks that each address field that is present is an address or a
    /// CIDR range. The remote address is looked at first.
    pub fn validate(&self) -> (r: Result<(), UnresolvableAddress>)
        ensures
            r is Ok <==> self.is_valid(),
            r matches Err(e) ==> if !field_resolves(self.remote) {
                e.field == AddressField::Remote && e.value@ == self.remote->0@
            } else {
                e.field == AddressField::Local && e.value@ == self.local->0@
            },
    {
        match &self.remote {
            Some(remote) => {
                if !address_resolves(remote.as_str()) {
                    return Err(
                        UnresolvableAddress { field: AddressField::Remote, value: remote.clone() },
                    );
                }
            },
            None => {},
        }
        match &self.local {
            Some(local) => {
                if !address_resolves(local.as_str()) {
                    return Err(
                        UnresolvableAddress { field: AddressField::Local, value: local.clone() },
                    );
                }
            },
            None => {},
        }
        Ok(())
    }
}

impl FilterRule {
    /// Names the application that the rule is about, or none.
    pub fn set_app_path(&mut self, path: Option<String>)
        ensures
            *final(self) == (FilterRule { app_path: path, ..*old(self) }),
    {
        self.app_path = path;
    }

    /// Sets the local address or range, or none.
    pub fn set_local_ip(&mut self, ip: Option<String>)
        ensures
            *final(self) == (FilterRule { local: ip, ..*old(self) }),
    {
        self.local = ip;
    }

    /// Sets the remote address or range, or none.
    pub fn set_remote_ip(&mut self, ip: Option<String>)
        ensures
            *final(self) == (FilterRule { remote: ip, ..*old(self) }),
    {
        self.remote = ip;
    }

    /// Sets the single local port, or none.
    pub fn set_local_port(&mut self, port: Option<u16>)
        ensures
            *final(self) == (FilterRule { local_port: port, ..*old(self) }),
    {
        self.local_port = port;
    }

    /// Sets the single remote port, or none.
    pub fn set_remote_port(&mut self, port: Option<u16>)
        ensures
            *final(self) == (FilterRule { remote_port: port, ..*old(self) }),
    {
        self.remote_port = port;
    }

    /// Sets the range of local ports, or none. It counts only while no single
    /// local port is set.
    pub fn set_local_port_range(&mut self, range: Option<(u16, u16)>)
        ensures
            *final(self) == (FilterRule { local_port_range: range, ..*old(self) }),
    {
        self.local_port_range = range;
    }

    /// Sets the range of remote ports, or none. It counts only while no single
    /// remote port is set.
    pub fn set_remote_port_range(&mut self, range: Option<(u16, u16)>)
        ensures
            *final(self) == (FilterRule { remote_port_range: range, ..*old(self) }),
    {
        self.remote_port_range = range;
    }

    /// Sets the protocol, or none.
    pub fn set_protocol(&mut self, protocol: Option<Protocol>)
        ensures
            *final(self) == (FilterRule { protocol: protocol, ..*old(self) }),
    {
        self.protocol = protocol;
    }

    /// Sets the direction.
    pub fn set_direction(&mut self, direction: Direction)
        ensures
            *final(self) == (FilterRule { direction: direction, ..*old(self) }),
    {
        self.direction = direction;
    }

    /// Sets the action.
    pub fn set_action(&mut self, action: FilterAction)
        ensures
            *final(self) == (FilterRule { action: action, ..*old(self) }),
    {
        self.action = action;
    }

    /// Sets the priority.
    pub fn set_priority(&mut self, priority: u32)
        ensures
            *final(self) == (FilterRule { priority: priority, ..*old(self) }),
    {
        self.priority = priority;
    }

    /// Sets the description, or none.
    pub fn set_description(&mut self, description: Option<String>)
        ensures
            *final(self) == (FilterRule { description: description, ..*old(self) }),
    {
        self.description = description;
    }

    /// The rule, about the application at `path`.
    pub fn app_path(self, path: &str) -> (r: FilterRule)
        ensures
            r.app_path matches Some(p) && p@ == path@,
            r == (FilterRule { app_path: r.app_path, ..self }),
    {
        let mut r = self;
        r.app_path = Some(path.to_owned());
        r
    }

    /// The rule, with the local address or range `ip`.
    pub fn local_ip(self, ip: &str) -> (r: FilterRule)
        ensures
            r.local matches Some(t) && t@ == ip@,
            r == (FilterRule { local: r.local, ..self }),
    {
        let mut r = self;
        r.local = Some(ip.to_owned());
        r
    }

    /// The rule, with the remote address or range `ip`.
    pub fn remote_ip(self, ip: &str) -> (r: FilterRule)
        ensures
            r.remote matches Some(t) && t@ == ip@,
            r == (FilterRule { remote: r.remote, ..self }),
    {
        let mut r = self;
        r.remote = Some(ip.to_owned());
        r
    }

    /// The rule, with the single local port `port`.
    pub fn local_port(self, port: u16) -> (r: FilterRule)
        ensures
            r == (FilterRule { local_port: Some(port), ..self }),
    {
        let mut r = self;
        r.local_port = Some(port);
        r
    }

    /// The rule, with the single remote port `port`.
    pub fn remote_port(self, port: u16) -> (r: FilterRule)
        ensures
            r == (FilterRule { remote_port: Some(port), ..self }),
    {
        let mut r = self;
        r.remote_port = Some(port);
        r
    }

    /// The rule, with the local ports from `start` to `end`.
    pub fn local_port_range(self, start: u16, end: u16) -> (r: FilterRule)
        ensures
            r == (FilterRule { local_port_range: Some((start, end)), ..self }),
    {
        let mut r = self;
        r.local_port_range = Some((start, end));
        r
    }

    /// The rule, with the remote ports from `start` to `end`.
    pub fn remote_port_range(self, start: u16, end: u16) -> (r: FilterRule)
        ensures
            r == (FilterRule { remote_port_range: Some((start, end)), ..self }),
    {
        let mut r = self;
        r.remote_port_range = Some((start, end));
        r
    }

    /// The rule, for the protocol `protocol`.
    pub fn protocol(self, protocol: Protocol) -> (r: FilterRule)
        ensures
            r == (FilterRule { protocol: Some(protocol), ..self }),
    {
        let mut r = self;
        r.protocol = Some(protocol);
        r
    }

    /// The rule, for the direction `direction`.
    pub fn direction(self, direction: Direction) -> (r: FilterRule)
        ensures
            r == (FilterRule { direction, ..self }),
    {
        let mut r = self;
        r.direction = direction;
        r
    }

    /// The rule, with the action `action`.
    pub fn action(self, action: FilterAction) -> (r: FilterRule)
        ensures
            r == (FilterRule { action, ..self }),
    {
        let mut r = self;
        r.action = action;
        r
    }

    /// The rule, with the priority `priority`.
    pub fn priority(self, priority: u32) -> (r: FilterRule)
        ensures
            r == (FilterRule { priority, ..self }),
    {
        let mut r = self;
        r.priority = priority;
        r
    }

    /// The rule, described by `description`.
    pub fn description(self, description: &str) -> (r: FilterRule)
        ensures
            r.description matches Some(d) && d@ == description@,
            r == (FilterRule { description: r.description, ..self }),
    {
        let mut r = self;
        r.description = Some(description.to_owned());
        r
    }
}

} // verus!
