//! Publishing a remote machine's loopback service onto the tailnet.
//!
//! The machine declares the forward itself, as configuration of its Tailscale
//! daemon, so an endpoint outlives the command that made it and the machine's
//! reboots. That is why a publish is checked before it is written and confirmed
//! after, and why a withdrawal that cannot be confirmed is a failure.

use vstd::prelude::*;
use crate::failure::{full_of, plain, told, Failure};
use crate::json::{
    every, field, field_of, is_record, lookup, members, opt_tree, parse, parsed, record, tree, Json,
};
use crate::remote::transport::{
    asks, exit_label_of, goes_on, held, reply_at, Exchange, Reply, Talk, Transport,
};
use crate::text::{
    after_last, ascii_digit, dec, ends_with, has_text, last_part, lemma_after_last,
    lemma_after_last_split, lemma_goes_on, lemma_has_text, number, opt_view, push_number, same,
    trim, trimmed,
};

verus! {

/// Loopback address a published port forwards to.
pub const LOOPBACK: &'static str = "127.0.0.1";

// ---------------------------------------------------------------------------
// The serve configuration
// ---------------------------------------------------------------------------

/// A TCP handler: the port it is for, and where it forwards to, which an HTTP
/// handler does not say.
pub struct RawTcpHandler {
    pub port: String,
    pub tcp_forward: Option<String>,
}

/// The handlers of one foreground session or one service.
pub struct RawNestedConfig {
    pub tcp: Vec<RawTcpHandler>,
}

/// Whether a `host:port` may be reached from the public internet.
pub struct RawFunnel {
    pub host_port: String,
    pub allowed: bool,
}

/// `tailscale serve status --json`, as far as it is read. Every list stands in
/// ascending order of the name its entries had.
pub struct RawServeConfig {
    pub tcp: Vec<RawTcpHandler>,
    pub foreground: Vec<RawNestedConfig>,
    pub services: Vec<RawNestedConfig>,
    pub allow_funnel: Vec<RawFunnel>,
}

pub struct HandlerView {
    pub port: Seq<char>,
    pub tcp_forward: Option<Seq<char>>,
}

pub struct ConfigView {
    pub tcp: Seq<HandlerView>,
    pub foreground: Seq<Seq<HandlerView>>,
    pub services: Seq<Seq<HandlerView>>,
    pub allow_funnel: Seq<(Seq<char>, bool)>,
}

impl View for RawTcpHandler {
    type V = HandlerView;

    open spec fn view(&self) -> HandlerView {
        HandlerView { port: self.port@, tcp_forward: opt_view(self.tcp_forward) }
    }
}

pub open spec fn handler_views(s: Seq<RawTcpHandler>) -> Seq<HandlerView> {
    s.map_values(|h: RawTcpHandler| h@)
}

pub open spec fn nested_views(s: Seq<RawNestedConfig>) -> Seq<Seq<HandlerView>> {
    s.map_values(|n: RawNestedConfig| handler_views(n.tcp@))
}

pub open spec fn funnel_views(s: Seq<RawFunnel>) -> Seq<(Seq<char>, bool)> {
    s.map_values(|f: RawFunnel| (f.host_port@, f.allowed))
}

impl View for RawServeConfig {
    type V = ConfigView;

    open spec fn view(&self) -> ConfigView {
        ConfigView {
            tcp: handler_views(self.tcp@),
            foreground: nested_views(self.foreground@),
            services: nested_views(self.services@),
            allow_funnel: funnel_views(self.allow_funnel@),
        }
    }
}

/// A handler as a document says it: its target absent, null or a text.
pub open spec fn handler_of(member: (Seq<char>, Json)) -> Option<HandlerView> {
    if !record(member.1, 1) {
        None
    } else {
        match field(member.1, "TCPForward"@, 0) {
            None | Some(Json::Null) => Some(HandlerView { port: member.0, tcp_forward: None }),
            Some(Json::Str(to)) => Some(HandlerView { port: member.0, tcp_forward: Some(to) }),
            _ => None,
        }
    }
}

/// The handlers of a `TCP` field, which may be missing.
pub open spec fn handlers_of(j: Option<Json>) -> Option<Seq<HandlerView>> {
    match j {
        None => Some(seq![]),
        Some(Json::Obj(all)) => every(all.map_values(|m: (Seq<char>, Json)| handler_of(m))),
        _ => None,
    }
}

pub open spec fn nested_of(member: (Seq<char>, Json)) -> Option<Seq<HandlerView>> {
    if record(member.1, 1) {
        handlers_of(field(member.1, "TCP"@, 0))
    } else {
        None
    }
}

/// The handlers of each session or service.
pub open spec fn sections_of(j: Option<Json>) -> Option<Seq<Seq<HandlerView>>> {
    match j {
        None => Some(seq![]),
        Some(Json::Obj(all)) => every(all.map_values(|m: (Seq<char>, Json)| nested_of(m))),
        _ => None,
    }
}

pub open spec fn funnel_of(member: (Seq<char>, Json)) -> Option<(Seq<char>, bool)> {
    match member.1 {
        Json::Bool(b) => Some((member.0, b)),
        _ => None,
    }
}

pub open spec fn funnels_of(j: Option<Json>) -> Option<Seq<(Seq<char>, bool)>> {
    match j {
        None => Some(seq![]),
        Some(Json::Obj(all)) => every(all.map_values(|m: (Seq<char>, Json)| funnel_of(m))),
        _ => None,
    }
}

/// The configuration a document holds, where each field that is there has the
/// shape it must have.
pub open spec fn config_of(j: Json) -> Option<ConfigView> {
    let tcp = handlers_of(field(j, "TCP"@, 0));
    let foreground = sections_of(field(j, "Foreground"@, 1));
    let services = sections_of(field(j, "Services"@, 2));
    let funnels = funnels_of(field(j, "AllowFunnel"@, 3));
    if record(j, 4) && tcp is Some && foreground is Some && services is Some && funnels is Some {
        Some(
            ConfigView {
                tcp: tcp->0,
                foreground: foreground->0,
                services: services->0,
                allow_funnel: funnels->0,
            },
        )
    } else {
        None
    }
}

fn read_handler(name: &String, v: &serde_json::Value) -> (r: Option<RawTcpHandler>)
    ensures
        (match r {
            Some(h) => Some(h@),
            None => None,
        }) == handler_of((name@, tree(*v))),
{
    if !is_record(v, 1) {
        return None;
    }
    match field_of(v, "TCPForward", 0) {
        None => Some(RawTcpHandler { port: name.clone(), tcp_forward: None }),
        Some(to) => {
            if to.is_null() {
                Some(RawTcpHandler { port: name.clone(), tcp_forward: None })
            } else {
                match to.as_str() {
                    Some(s) => Some(
                        RawTcpHandler { port: name.clone(), tcp_forward: Some(s.to_owned()) },
                    ),
                    None => None,
                }
            }
        },
    }
}

fn read_handlers(v: Option<&serde_json::Value>) -> (r: Option<Vec<RawTcpHandler>>)
    ensures
        (match r {
            Some(list) => Some(handler_views(list@)),
            None => None,
        }) == handlers_of(opt_tree(v)),
{
    let mut out: Vec<RawTcpHandler> = Vec::new();
    let value = match v {
        None => {
            assert(handler_views(out@) =~= seq![]);
            return Some(out);
        },
        Some(value) => value,
    };
    let list = match members(value) {
        None => {
            return None;
        },
        Some(list) => list,
    };
    let ghost all = tree(*value)->Obj_0;
    let ghost read = all.map_values(|m: (Seq<char>, Json)| handler_of(m));
    let mut i: usize = 0;
    while i < list.len()
        invariant
            i <= list@.len(),
            list@.len() == all.len(),
            read == all.map_values(|m: (Seq<char>, Json)| handler_of(m)),
            opt_tree(v) == Some(Json::Obj(all)),
            forall|j: int|
                0 <= j < list@.len() ==> {
                    &&& (#[trigger] list@[j]).0@ == all[j].0
                    &&& tree(*list@[j].1) == all[j].1
                },
            out@.len() == i,
            forall|j: int| 0 <= j < i ==> #[trigger] read[j] == Some(out@[j]@),
        decreases list@.len() - i,
    {
        let entry = &list[i];
        assert(read[i as int] == handler_of((entry.0@, tree(*entry.1))));
        match read_handler(&entry.0, entry.1) {
            Some(h) => {
                out.push(h);
            },
            None => {
                assert(read[i as int] is None);
                return None;
            },
        }
        i += 1;
    }
    assert(handler_views(out@) =~= read.map_values(|o: Option<HandlerView>| o->0));
    Some(out)
}

fn read_nested(v: &serde_json::Value, Ghost(name): Ghost<Seq<char>>) -> (r: Option<RawNestedConfig>)
    ensures
        (match r {
            Some(n) => Some(handler_views(n.tcp@)),
            None => None,
        }) == nested_of((name, tree(*v))),
{
    if !is_record(v, 1) {
        return None;
    }
    match read_handlers(field_of(v, "TCP", 0)) {
        Some(tcp) => Some(RawNestedConfig { tcp }),
        None => None,
    }
}

fn read_sections(v: Option<&serde_json::Value>) -> (r: Option<Vec<RawNestedConfig>>)
    ensures
        (match r {
            Some(list) => Some(nested_views(list@)),
            None => None,
        }) == sections_of(opt_tree(v)),
{
    let mut out: Vec<RawNestedConfig> = Vec::new();
    let value = match v {
        None => {
            assert(nested_views(out@) =~= seq![]);
            return Some(out);
        },
        Some(value) => value,
    };
    let list = match members(value) {
        None => {
            return None;
        },
        Some(list) => list,
    };
    let ghost all = tree(*value)->Obj_0;
    let ghost read = all.map_values(|m: (Seq<char>, Json)| nested_of(m));
    let mut i: usize = 0;
    while i < list.len()
        invariant
            i <= list@.len(),
            list@.len() == all.len(),
            read == all.map_values(|m: (Seq<char>, Json)| nested_of(m)),
            opt_tree(v) == Some(Json::Obj(all)),
            forall|j: int|
                0 <= j < list@.len() ==> {
                    &&& (#[trigger] list@[j]).0@ == all[j].0
                    &&& tree(*list@[j].1) == all[j].1
                },
            out@.len() == i,
            forall|j: int| 0 <= j < i ==> #[trigger] read[j] == Some(handler_views(out@[j].tcp@)),
        decreases list@.len() - i,
    {
        let entry = &list[i];
        assert(read[i as int] == nested_of((entry.0@, tree(*entry.1))));
        match read_nested(entry.1, Ghost(entry.0@)) {
            Some(n) => {
                out.push(n);
            },
            None => {
                assert(read[i as int] is None);
                return None;
            },
        }
        i += 1;
    }
    assert(nested_views(out@) =~= read.map_values(|o: Option<Seq<HandlerView>>| o->0));
    Some(out)
}

fn read_funnels(v: Option<&serde_json::Value>) -> (r: Option<Vec<RawFunnel>>)
    ensures
        (match r {
            Some(list) => Some(funnel_views(list@)),
            None => None,
        }) == funnels_of(opt_tree(v)),
{
    let mut out: Vec<RawFunnel> = Vec::new();
    let value = match v {
        None => {
            assert(funnel_views(out@) =~= seq![]);
            return Some(out);
        },
        Some(value) => value,
    };
    let list = match members(value) {
        None => {
            return None;
        },
        Some(list) => list,
    };
    let ghost all = tree(*value)->Obj_0;
    let ghost read = all.map_values(|m: (Seq<char>, Json)| funnel_of(m));
    let mut i: usize = 0;
    while i < list.len()
        invariant
            i <= list@.len(),
            list@.len() == all.len(),
            read == all.map_values(|m: (Seq<char>, Json)| funnel_of(m)),
            opt_tree(v) == Some(Json::Obj(all)),
            forall|j: int|
                0 <= j < list@.len() ==> {
                    &&& (#[trigger] list@[j]).0@ == all[j].0
                    &&& tree(*list@[j].1) == all[j].1
                },
            out@.len() == i,
            forall|j: int|
                0 <= j < i ==> #[trigger] read[j] == Some((out@[j].host_port@, out@[j].allowed)),
        decreases list@.len() - i,
    {
        let entry = &list[i];
        assert(read[i as int] == funnel_of((entry.0@, tree(*entry.1))));
        match entry.1.as_bool() {
            Some(allowed) => {
                out.push(RawFunnel { host_port: entry.0.clone(), allowed });
            },
            None => {
                assert(read[i as int] is None);
                return None;
            },
        }
        i += 1;
    }
    assert(funnel_views(out@) =~= read.map_values(|o: Option<(Seq<char>, bool)>| o->0));
    Some(out)
}

/// Reads the configuration out of a document.
pub fn read_config(v: &serde_json::Value) -> (r: Option<RawServeConfig>)
    ensures
        (match r {
            Some(c) => Some(c@),
            None => None,
        }) == config_of(tree(*v)),
{
    if !is_record(v, 4) {
        return None;
    }
    let tcp = read_handlers(field_of(v, "TCP", 0));
    let foreground = read_sections(field_of(v, "Foreground", 1));
    let services = read_sections(field_of(v, "Services", 2));
    let funnels = read_funnels(field_of(v, "AllowFunnel", 3));
    match (tcp, foreground, services, funnels) {
        (Some(tcp), Some(foreground), Some(services), Some(allow_funnel)) => Some(
            RawServeConfig { tcp, foreground, services, allow_funnel },
        ),
        _ => None,
    }
}

// ---------------------------------------------------------------------------
// What the configuration says about one port
// ---------------------------------------------------------------------------

/// What the machine's Tailscale says about one port.
#[derive(Debug, PartialEq, Eq)]
pub enum PublishState {
    /// It forwards to the loopback address asked for.
    Published,
    /// It is not forwarded.
    Absent,
    /// It forwards somewhere else, and is not ours to withdraw.
    Foreign { forwards_to: String },
    /// It may be reached from the public internet, whatever forwards to it.
    FunnelAllowed,
    /// The machine's answer could not be read. Not the same as `Absent`: "there
    /// is no forward" confirms a withdrawal, "I could not tell" must not.
    Unreadable,
}

pub enum StateView {
    Published,
    Absent,
    Foreign(Seq<char>),
    FunnelAllowed,
    Unreadable,
}

impl View for PublishState {
    type V = StateView;

    open spec fn view(&self) -> StateView {
        match *self {
            PublishState::Published => StateView::Published,
            PublishState::Absent => StateView::Absent,
            PublishState::Foreign { forwards_to } => StateView::Foreign(forwards_to@),
            PublishState::FunnelAllowed => StateView::FunnelAllowed,
            PublishState::Unreadable => StateView::Unreadable,
        }
    }
}

/// Where a published port has to point.
pub open spec fn target_of(remote_port: u16) -> Seq<char> {
    LOOPBACK@ + ":"@ + dec(remote_port as nat)
}

pub fn forward_target(remote_port: u16) -> (r: String)
    ensures
        r@ == target_of(remote_port),
{
    let mut out = LOOPBACK.to_owned();
    out.push_str(":");
    push_number(&mut out, remote_port as u128);
    out
}

/// Whether some entry that is allowed ends in the port.
pub open spec fn funnelled(funnels: Seq<(Seq<char>, bool)>, port: u16) -> bool {
    exists|i: int|
        0 <= i < funnels.len() && (#[trigger] funnels[i]).1 && after_last(funnels[i].0, ':') == dec(
            port as nat,
        )
}

pub fn funnel_allowed_for_port(allow_funnel: &Vec<RawFunnel>, port: u16) -> (r: bool)
    ensures
        r == funnelled(funnel_views(allow_funnel@), port),
{
    let wanted = number(port as u128);
    let ghost all = funnel_views(allow_funnel@);
    let mut i: usize = 0;
    while i < allow_funnel.len()
        invariant
            i <= allow_funnel@.len(),
            wanted@ == dec(port as nat),
            all == funnel_views(allow_funnel@),
            forall|j: int|
                0 <= j < i ==> !((#[trigger] all[j]).1 && after_last(all[j].0, ':') == dec(
                    port as nat,
                )),
        decreases allow_funnel@.len() - i,
    {
        let entry = &allow_funnel[i];
        assert(all[i as int] == (entry.host_port@, entry.allowed));
        if entry.allowed && last_part(entry.host_port.as_str(), ':') == wanted {
            return true;
        }
        i += 1;
    }
    false
}

/// Where the first handler for a port that forwards it forwards it to. A handler
/// that does not forward says nothing of the port.
pub open spec fn forward_for(handlers: Seq<HandlerView>, port: Seq<char>) -> Option<Seq<char>>
    decreases handlers.len(),
{
    if handlers.len() == 0 {
        None
    } else if handlers[0].port == port && handlers[0].tcp_forward is Some {
        handlers[0].tcp_forward
    } else {
        forward_for(handlers.subrange(1, handlers.len() as int), port)
    }
}

/// The forward of a port in the first section that has one.
pub open spec fn section_forward(sections: Seq<Seq<HandlerView>>, port: Seq<char>) -> Option<
    Seq<char>,
>
    decreases sections.len(),
{
    if sections.len() == 0 {
        None
    } else {
        match forward_for(sections[0], port) {
            Some(to) => Some(to),
            None => section_forward(sections.subrange(1, sections.len() as int), port),
        }
    }
}

/// Where a port is forwarded to: by the machine itself, else by a foreground
/// session, else by a service.
pub open spec fn port_forward(config: ConfigView, port: Seq<char>) -> Option<Seq<char>> {
    match forward_for(config.tcp, port) {
        Some(to) => Some(to),
        None => match section_forward(config.foreground, port) {
            Some(to) => Some(to),
            None => section_forward(config.services, port),
        },
    }
}

/// What a configuration says about a port. Funnel comes first: it is a hazard
/// whatever forwards to the port.
pub open spec fn config_state(config: ConfigView, tailnet_port: u16, remote_port: u16) -> StateView {
    if funnelled(config.allow_funnel, tailnet_port) {
        StateView::FunnelAllowed
    } else {
        match port_forward(config, dec(tailnet_port as nat)) {
            Some(to) => if to == target_of(remote_port) {
                StateView::Published
            } else {
                StateView::Foreign(to)
            },
            None => StateView::Absent,
        }
    }
}

fn find_forward<'a>(handlers: &'a Vec<RawTcpHandler>, port: &String) -> (r: Option<&'a String>)
    ensures
        (match r {
            Some(to) => Some(to@),
            None => None,
        }) == forward_for(handler_views(handlers@), port@),
{
    let ghost all = handler_views(handlers@);
    let mut i: usize = 0;
    assert(all.subrange(0, all.len() as int) =~= all);
    while i < handlers.len()
        invariant
            i <= handlers@.len(),
            all == handler_views(handlers@),
            forward_for(all, port@) == forward_for(all.subrange(i as int, all.len() as int), port@),
        decreases handlers@.len() - i,
    {
        let ghost rest = all.subrange(i as int, all.len() as int);
        assert(rest[0] == handlers@[i as int]@);
        if handlers[i].port == *port {
            if let Some(to) = &handlers[i].tcp_forward {
                return Some(to);
            }
        }
        assert(rest.subrange(1, rest.len() as int) =~= all.subrange(i + 1, all.len() as int));
        i += 1;
    }
    None
}

fn find_section<'a>(sections: &'a Vec<RawNestedConfig>, port: &String) -> (r: Option<&'a String>)
    ensures
        (match r {
            Some(to) => Some(to@),
            None => None,
        }) == section_forward(nested_views(sections@), port@),
{
    let ghost all = nested_views(sections@);
    let mut i: usize = 0;
    assert(all.subrange(0, all.len() as int) =~= all);
    while i < sections.len()
        invariant
            i <= sections@.len(),
            all == nested_views(sections@),
            section_forward(all, port@) == section_forward(
                all.subrange(i as int, all.len() as int),
                port@,
            ),
        decreases sections@.len() - i,
    {
        let ghost rest = all.subrange(i as int, all.len() as int);
        assert(rest[0] == handler_views(sections@[i as int].tcp@));
        if let Some(to) = find_forward(&sections[i].tcp, port) {
            return Some(to);
        }
        assert(rest.subrange(1, rest.len() as int) =~= all.subrange(i + 1, all.len() as int));
        i += 1;
    }
    None
}

/// Decides what a configuration says about one port.
pub fn state_of(config: &RawServeConfig, tailnet_port: u16, remote_port: u16) -> (r: PublishState)
    ensures
        r@ == config_state(config@, tailnet_port, remote_port),
{
    if funnel_allowed_for_port(&config.allow_funnel, tailnet_port) {
        return PublishState::FunnelAllowed;
    }
    let port = number(tailnet_port as u128);
    let forward = match find_forward(&config.tcp, &port) {
        Some(to) => Some(to),
        None => match find_section(&config.foreground, &port) {
            Some(to) => Some(to),
            None => find_section(&config.services, &port),
        },
    };
    match forward {
        None => PublishState::Absent,
        Some(to) => if *to == forward_target(remote_port) {
            PublishState::Published
        } else {
            PublishState::Foreign { forwards_to: to.clone() }
        },
    }
}

/// The members a real configuration has. `Web` is never read; it only shows
/// that the document is a configuration.
pub open spec fn serve_config_key(name: Seq<char>) -> bool {
    name == "TCP"@ || name == "Web"@ || name == "Services"@ || name == "AllowFunnel"@ || name
        == "Foreground"@
}

fn is_serve_config_key(name: &str) -> (r: bool)
    ensures
        r == serve_config_key(name@),
{
    same(name, "TCP") || same(name, "Web") || same(name, "Services") || same(name, "AllowFunnel")
        || same(name, "Foreground")
}

/// Whether an object looks like a configuration: it is empty, or has a member a
/// real one has.
pub open spec fn looks_like_config(members: Seq<(Seq<char>, Json)>) -> bool {
    members.len() == 0 || exists|i: int|
        0 <= i < members.len() && serve_config_key(#[trigger] members[i].0)
}

/// What a document says about a port.
pub open spec fn document_state(j: Json, tailnet_port: u16, remote_port: u16) -> StateView {
    match j {
        Json::Obj(all) => if !looks_like_config(all) {
            StateView::Unreadable
        } else {
            match config_of(j) {
                None => StateView::Unreadable,
                Some(config) => config_state(config, tailnet_port, remote_port),
            }
        },
        _ => StateView::Unreadable,
    }
}

/// What a status text says about a port. A machine that publishes nothing
/// prints nothing, or `null`.
pub open spec fn classified(text: Seq<char>, tailnet_port: u16, remote_port: u16) -> StateView {
    let t = trimmed(text);
    if t.len() == 0 || t == "null"@ {
        StateView::Absent
    } else {
        match parsed(t) {
            Err(_) => StateView::Unreadable,
            Ok(j) => document_state(j, tailnet_port, remote_port),
        }
    }
}

fn has_config_key(document: &serde_json::Value) -> (r: Option<bool>)
    ensures
        r == (match tree(*document) {
            Json::Obj(all) => Some(looks_like_config(all)),
            _ => None,
        }),
{
    let list = match members(document) {
        None => {
            return None;
        },
        Some(list) => list,
    };
    let ghost all = tree(*document)->Obj_0;
    if list.len() == 0 {
        return Some(true);
    }
    let mut i: usize = 0;
    while i < list.len()
        invariant
            i <= list@.len(),
            list@.len() == all.len(),
            all.len() > 0,
            tree(*document) == Json::Obj(all),
            forall|j: int| 0 <= j < list@.len() ==> (#[trigger] list@[j]).0@ == all[j].0,
            forall|j: int| 0 <= j < i ==> !serve_config_key(#[trigger] all[j].0),
        decreases list@.len() - i,
    {
        assert(list@[i as int].0@ == all[i as int].0);
        if is_serve_config_key(list[i].0.as_str()) {
            return Some(true);
        }
        i += 1;
    }
    Some(false)
}

/// Decides what a document says about one port.
pub fn classify_document(
    document: &serde_json::Value,
    tailnet_port: u16,
    remote_port: u16,
) -> (r: PublishState)
    ensures
        r@ == document_state(tree(*document), tailnet_port, remote_port),
{
    match has_config_key(document) {
        Some(true) => match read_config(document) {
            None => PublishState::Unreadable,
            Some(config) => state_of(&config, tailnet_port, remote_port),
        },
        _ => PublishState::Unreadable,
    }
}

/// Decides what a serve-status text says about one port.
pub fn classify(status_json: &str, tailnet_port: u16, remote_port: u16) -> (r: PublishState)
    ensures
        r@ == classified(status_json@, tailnet_port, remote_port),
{
    let text = trim(status_json);
    if text.as_str().is_empty() || same(text.as_str(), "null") {
        return PublishState::Absent;
    }
    match parse(text.as_str()) {
        Err(_) => PublishState::Unreadable,
        Ok(document) => classify_document(&document, tailnet_port, remote_port),
    }
}

// ---------------------------------------------------------------------------
// Asking, publishing, withdrawing
// ---------------------------------------------------------------------------

pub open spec fn status_line() -> Seq<char> {
    "tailscale serve status --json"@
}

/// What a reply about the publishing state comes to.
pub open spec fn state_result(reply: Reply, tailnet_port: u16, remote_port: u16) -> Result<
    StateView,
    Seq<Seq<char>>,
> {
    match reply {
        Err(e) => Err(e),
        Ok(outcome) => if outcome.success {
            Ok(classified(outcome.stdout, tailnet_port, remote_port))
        } else {
            Err(
                plain(
                    "could not read the remote's tailnet publishing state (exit "@ + exit_label_of(
                        outcome.code,
                    ) + "): "@ + trimmed(outcome.stderr),
                ),
            )
        },
    }
}

pub open spec fn state_told(r: Result<PublishState, Failure>) -> Result<StateView, Seq<Seq<char>>> {
    match r {
        Ok(state) => Ok(state@),
        Err(e) => Err(e@),
    }
}

/// Asks the machine what one of its ports forwards to.
pub fn publish_state<T: Transport>(transport: &mut T, tailnet_port: u16, remote_port: u16) -> (r:
    Result<PublishState, Failure>)
    ensures
        goes_on(old(transport).history(), final(transport).history()),
        final(transport).history().len() == old(transport).history().len() + 1,
        asks(final(transport).history(), old(transport).history().len() as int, status_line()),
        state_told(r) == state_result(
            reply_at(final(transport).history(), old(transport).history().len() as int),
            tailnet_port,
            remote_port,
        ),
{
    match transport.exec("tailscale serve status --json") {
        Err(e) => Err(e),
        Ok(outcome) => {
            if outcome.success {
                Ok(classify(outcome.stdout.as_str(), tailnet_port, remote_port))
            } else {
                let mut message =
                    "could not read the remote's tailnet publishing state (exit ".to_owned();
                message.push_str(outcome.exit_label().as_str());
                message.push_str("): ");
                message.push_str(trim(outcome.stderr.as_str()).as_str());
                Err(Failure::new(message))
            }
        },
    }
}

/// What was learnt about a port, or why nothing was.
#[derive(Debug, PartialEq, Eq)]
pub enum PublishObservation {
    Known(PublishState),
    /// The machine answered that it could not say, and why.
    Failed(String),
    /// The machine could not be asked, and why.
    Unreachable(String),
}

pub enum ObservationView {
    Known(StateView),
    Failed(Seq<char>),
    Unreachable(Seq<char>),
}

impl View for PublishObservation {
    type V = ObservationView;

    open spec fn view(&self) -> ObservationView {
        match *self {
            PublishObservation::Known(state) => ObservationView::Known(state@),
            PublishObservation::Failed(why) => ObservationView::Failed(why@),
            PublishObservation::Unreachable(why) => ObservationView::Unreachable(why@),
        }
    }
}

/// What a reply about the publishing state shows: a machine that answered and
/// failed is kept apart from one that never answered.
pub open spec fn observed(reply: Reply, tailnet_port: u16, remote_port: u16) -> ObservationView {
    match reply {
        Err(e) => ObservationView::Unreachable(full_of(e)),
        Ok(_) => match state_result(reply, tailnet_port, remote_port) {
            Ok(state) => ObservationView::Known(state),
            Err(e) => ObservationView::Failed(full_of(e)),
        },
    }
}

pub fn observe<T: Transport>(transport: &mut T, tailnet_port: u16, remote_port: u16) -> (r:
    PublishObservation)
    ensures
        goes_on(old(transport).history(), final(transport).history()),
        final(transport).history().len() == old(transport).history().len() + 1,
        asks(final(transport).history(), old(transport).history().len() as int, status_line()),
        r@ == observed(
            reply_at(final(transport).history(), old(transport).history().len() as int),
            tailnet_port,
            remote_port,
        ),
{
    match transport.exec("tailscale serve status --json") {
        Err(e) => PublishObservation::Unreachable(e.full()),
        Ok(outcome) => {
            if outcome.success {
                PublishObservation::Known(
                    classify(outcome.stdout.as_str(), tailnet_port, remote_port),
                )
            } else {
                let mut message =
                    "could not read the remote's tailnet publishing state (exit ".to_owned();
                message.push_str(outcome.exit_label().as_str());
                message.push_str("): ");
                message.push_str(trim(outcome.stderr.as_str()).as_str());
                PublishObservation::Failed(Failure::new(message).full())
            }
        },
    }
}

/// The command that declares the forward. `--bg` is what lets it outlive the
/// connection it was sent over.
pub open spec fn publish_line(tailnet_port: u16, remote_port: u16) -> Seq<char> {
    "tailscale serve --bg --tcp="@ + dec(tailnet_port as nat) + " tcp://"@ + target_of(remote_port)
}

pub fn publish_command(tailnet_port: u16, remote_port: u16) -> (r: String)
    ensures
        r@ == publish_line(tailnet_port, remote_port),
{
    let mut out = "tailscale serve --bg --tcp=".to_owned();
    push_number(&mut out, tailnet_port as u128);
    out.push_str(" tcp://");
    out.push_str(forward_target(remote_port).as_str());
    out
}

/// The command that removes the forward.
pub open spec fn withdraw_line(tailnet_port: u16) -> Seq<char> {
    "tailscale serve --tcp="@ + dec(tailnet_port as nat) + " off"@
}

pub fn withdraw_command(tailnet_port: u16) -> (r: String)
    ensures
        r@ == withdraw_line(tailnet_port),
{
    let mut out = "tailscale serve --tcp=".to_owned();
    push_number(&mut out, tailnet_port as u128);
    out.push_str(" off");
    out
}

/// A message about a port, in two parts around its number.
fn about_port(before: &str, port: u16, after: &str) -> (r: String)
    ensures
        r@ == before@ + dec(port as nat) + after@,
{
    let mut out = before.to_owned();
    push_number(&mut out, port as u128);
    out.push_str(after);
    out
}

/// As `about_port`, with a text behind it.
fn about_port_and(before: &str, port: u16, after: &str, what: &str, end: &str) -> (r: String)
    ensures
        r@ == before@ + dec(port as nat) + after@ + what@ + end@,
{
    let mut out = about_port(before, port, after);
    out.push_str(what);
    out.push_str(end);
    out
}

/// As `about_port`, naming the port once more.
fn about_port_twice(before: &str, port: u16, after: &str, end: &str) -> (r: String)
    ensures
        r@ == before@ + dec(port as nat) + after@ + dec(port as nat) + end@,
{
    let mut out = about_port(before, port, after);
    push_number(&mut out, port as u128);
    out.push_str(end);
    out
}

/// Why a port in this state may not be published, if it may not: it is someone
/// else's, it is open to the internet, or nobody can tell.
pub open spec fn publish_bar(state: StateView, port: u16) -> Option<Seq<char>> {
    let p = dec(port as nat);
    match state {
        StateView::Absent | StateView::Published => None,
        StateView::Foreign(to) => Some(
            "port "@ + p + " on the remote already forwards to "@ + to
                + ".\nRefusing to take it over — publishing here would silently break whatever is using it. Choose another port with `--tailnet-port`."@,
        ),
        StateView::FunnelAllowed => Some(
            "port "@ + p
                + " on the remote has Tailscale Funnel allowed, which exposes it to the public internet rather than just the tailnet.\nRefusing to publish over it — turn Funnel off first: `tailscale funnel --tcp="@
                + p + " off`."@,
        ),
        StateView::Unreadable => Some(
            "port "@ + p
                + " could not be checked before publishing, so there is no way to tell whether something else is already using it.\nCheck it by hand: tailscale serve status"@,
        ),
    }
}

pub fn refuse_publish(state: &PublishState, port: u16) -> (r: Option<String>)
    ensures
        opt_view(r) == publish_bar(state@, port),
{
    match state {
        PublishState::Absent => None,
        PublishState::Published => None,
        PublishState::Foreign { forwards_to } => Some(
            about_port_and(
                "port ",
                port,
                " on the remote already forwards to ",
                forwards_to.as_str(),
                ".\nRefusing to take it over — publishing here would silently break whatever is using it. Choose another port with `--tailnet-port`.",
            ),
        ),
        PublishState::FunnelAllowed => Some(
            about_port_twice(
                "port ",
                port,
                " on the remote has Tailscale Funnel allowed, which exposes it to the public internet rather than just the tailnet.\nRefusing to publish over it — turn Funnel off first: `tailscale funnel --tcp=",
                " off`.",
            ),
        ),
        PublishState::Unreadable => Some(
            about_port(
                "port ",
                port,
                " could not be checked before publishing, so there is no way to tell whether something else is already using it.\nCheck it by hand: tailscale serve status",
            ),
        ),
    }
}

/// Why a port in this state does not confirm the publish, if it does not.
pub open spec fn publish_doubt(state: StateView, port: u16) -> Option<Seq<char>> {
    let p = dec(port as nat);
    match state {
        StateView::Published => None,
        StateView::Absent => Some(
            "the remote accepted the publish for port "@ + p
                + " but does not report it as active, so the endpoint would not answer"@,
        ),
        StateView::Foreign(to) => Some(
            "port "@ + p + " on the remote now forwards to "@ + to
                + " rather than to this model server; something else claimed it. Choose another port with `--tailnet-port`."@,
        ),
        StateView::FunnelAllowed => Some(
            "port "@ + p
                + " on the remote now has Tailscale Funnel allowed, exposing it to the public internet rather than just the tailnet.\nTurn Funnel off: `tailscale funnel --tcp="@
                + p + " off`, then try again."@,
        ),
        StateView::Unreadable => Some(
            "the remote accepted the publish for port "@ + p
                + " but its reply could not be read, so there is no way to confirm the endpoint answers.\nCheck it with `rocm remote status`."@,
        ),
    }
}

pub fn doubt_publish(state: &PublishState, port: u16) -> (r: Option<String>)
    ensures
        opt_view(r) == publish_doubt(state@, port),
{
    match state {
        PublishState::Published => None,
        PublishState::Absent => Some(
            about_port(
                "the remote accepted the publish for port ",
                port,
                " but does not report it as active, so the endpoint would not answer",
            ),
        ),
        PublishState::Foreign { forwards_to } => Some(
            about_port_and(
                "port ",
                port,
                " on the remote now forwards to ",
                forwards_to.as_str(),
                " rather than to this model server; something else claimed it. Choose another port with `--tailnet-port`.",
            ),
        ),
        PublishState::FunnelAllowed => Some(
            about_port_twice(
                "port ",
                port,
                " on the remote now has Tailscale Funnel allowed, exposing it to the public internet rather than just the tailnet.\nTurn Funnel off: `tailscale funnel --tcp=",
                " off`, then try again.",
            ),
        ),
        PublishState::Unreadable => Some(
            about_port(
                "the remote accepted the publish for port ",
                port,
                " but its reply could not be read, so there is no way to confirm the endpoint answers.\nCheck it with `rocm remote status`.",
            ),
        ),
    }
}

/// The conversation of a publish: look, write, look again. It stops at the
/// first answer that bars it.
pub open spec fn publish_talk(
    h: Seq<Exchange>,
    at: int,
    tailnet_port: u16,
    remote_port: u16,
) -> Talk<Result<(), Seq<Seq<char>>>> {
    let looked = asks(h, at, status_line());
    match state_result(reply_at(h, at), tailnet_port, remote_port) {
        Err(e) => Talk { fits: looked, end: at + 1, value: Err(e) },
        Ok(state) => match publish_bar(state, tailnet_port) {
            Some(why) => Talk { fits: looked, end: at + 1, value: Err(plain(why)) },
            None => {
                let wrote = looked && asks(h, at + 1, publish_line(tailnet_port, remote_port));
                match reply_at(h, at + 1) {
                    Err(e) => Talk { fits: wrote, end: at + 2, value: Err(e) },
                    Ok(outcome) => if !outcome.success {
                        Talk {
                            fits: wrote,
                            end: at + 2,
                            value: Err(
                                plain(
                                    "the remote refused to publish port "@ + dec(
                                        tailnet_port as nat,
                                    ) + " on the tailnet: "@ + trimmed(outcome.stderr)
                                        + "\nThis is usually the tailnet's own policy. Check that the machine is allowed to serve, then try again."@,
                                ),
                            ),
                        }
                    } else {
                        Talk {
                            fits: wrote && asks(h, at + 2, status_line()),
                            end: at + 3,
                            value: match state_result(
                                reply_at(h, at + 2),
                                tailnet_port,
                                remote_port,
                            ) {
                                Err(e) => Err(e),
                                Ok(after) => match publish_doubt(after, tailnet_port) {
                                    Some(why) => Err(plain(why)),
                                    None => Ok(()),
                                },
                            },
                        }
                    },
                }
            },
        },
    }
}

/// Claims the port, declares the forward, then confirms that the machine
/// agrees.
///
/// Declaring a forward overwrites whatever holds the port without complaint, so
/// whose it is has to be known before. And a declaration can be accepted while
/// the tailnet's policy keeps it from taking effect, so it is confirmed after.
pub fn publish<T: Transport>(transport: &mut T, tailnet_port: u16, remote_port: u16) -> (r: Result<
    (),
    Failure,
>)
    ensures
        held(
            old(transport).history(),
            final(transport).history(),
            publish_talk(
                final(transport).history(),
                old(transport).history().len() as int,
                tailnet_port,
                remote_port,
            ),
        ),
        told(r) == publish_talk(
            final(transport).history(),
            old(transport).history().len() as int,
            tailnet_port,
            remote_port,
        ).value,
{
    let state = match publish_state(transport, tailnet_port, remote_port) {
        Err(e) => {
            return Err(e);
        },
        Ok(state) => state,
    };
    if let Some(why) = refuse_publish(&state, tailnet_port) {
        return Err(Failure::new(why));
    }
    let outcome = match transport.exec(publish_command(tailnet_port, remote_port).as_str()) {
        Err(e) => {
            return Err(e);
        },
        Ok(outcome) => outcome,
    };
    if !outcome.success {
        return Err(
            Failure::new(
                about_port_and(
                    "the remote refused to publish port ",
                    tailnet_port,
                    " on the tailnet: ",
                    trim(outcome.stderr.as_str()).as_str(),
                    "\nThis is usually the tailnet's own policy. Check that the machine is allowed to serve, then try again.",
                ),
            ),
        );
    }
    match publish_state(transport, tailnet_port, remote_port) {
        Err(e) => Err(e),
        Ok(after) => match doubt_publish(&after, tailnet_port) {
            Some(why) => Err(Failure::new(why)),
            None => Ok(()),
        },
    }
}

/// What a port in this state means for turning it off: nothing bars it, nothing
/// is left to do, or it is barred.
pub open spec fn withdraw_bar(state: StateView, port: u16) -> Option<Result<(), Seq<char>>> {
    let p = dec(port as nat);
    match state {
        StateView::Published => None,
        StateView::Absent => Some(Ok(())),
        StateView::Foreign(to) => Some(
            Err(
                "port "@ + p + " on the remote now forwards to "@ + to
                    + ", not to this session's model server.\nRefusing to turn it off — it belongs to something else."@,
            ),
        ),
        StateView::FunnelAllowed => Some(
            Err(
                "port "@ + p
                    + " on the remote has Tailscale Funnel allowed. Withdrawing our forward would not close the public-internet exposure, so this needs a human decision, not a silent teardown.\nTurn Funnel off first: `tailscale funnel --tcp="@
                    + p + " off`."@,
            ),
        ),
        StateView::Unreadable => Some(
            Err(
                "port "@ + p
                    + " could not be checked before withdrawing it, so there is no way to tell whether it is still this session's endpoint.\nCheck it by hand: tailscale serve status"@,
            ),
        ),
    }
}

pub fn refuse_withdraw(state: &PublishState, port: u16) -> (r: Option<Result<(), String>>)
    ensures
        (match r {
            None => None,
            Some(Ok(_)) => Some(Ok::<(), Seq<char>>(())),
            Some(Err(why)) => Some(Err(why@)),
        }) == withdraw_bar(state@, port),
{
    match state {
        PublishState::Published => None,
        PublishState::Absent => Some(Ok(())),
        PublishState::Foreign { forwards_to } => Some(
            Err(
                about_port_and(
                    "port ",
                    port,
                    " on the remote now forwards to ",
                    forwards_to.as_str(),
                    ", not to this session's model server.\nRefusing to turn it off — it belongs to something else.",
                ),
            ),
        ),
        PublishState::FunnelAllowed => Some(
            Err(
                about_port_twice(
                    "port ",
                    port,
                    " on the remote has Tailscale Funnel allowed. Withdrawing our forward would not close the public-internet exposure, so this needs a human decision, not a silent teardown.\nTurn Funnel off first: `tailscale funnel --tcp=",
                    " off`.",
                ),
            ),
        ),
        PublishState::Unreadable => Some(
            Err(
                about_port(
                    "port ",
                    port,
                    " could not be checked before withdrawing it, so there is no way to tell whether it is still this session's endpoint.\nCheck it by hand: tailscale serve status",
                ),
            ),
        ),
    }
}

/// Why a port in this state does not confirm the withdrawal, if it does not.
pub open spec fn withdraw_doubt(state: StateView, port: u16) -> Option<Seq<char>> {
    let p = dec(port as nat);
    match state {
        StateView::Absent | StateView::Foreign(_) => None,
        StateView::Published => Some(
            "the remote still reports port "@ + p + " as published after withdrawing it"@,
        ),
        StateView::FunnelAllowed => Some(
            "port "@ + p
                + " was turned off, but Tailscale Funnel is still allowed for it, so it may still be reachable from the public internet.\nTurn it off: `tailscale funnel --tcp="@
                + p + " off`."@,
        ),
        StateView::Unreadable => Some(
            "port "@ + p
                + " was asked to stop publishing, but the remote's reply could not be read, so it cannot be confirmed withdrawn.\nCheck it by hand: tailscale serve status"@,
        ),
    }
}

pub fn doubt_withdraw(state: &PublishState, port: u16) -> (r: Option<String>)
    ensures
        opt_view(r) == withdraw_doubt(state@, port),
{
    match state {
        PublishState::Absent => None,
        PublishState::Foreign { .. } => None,
        PublishState::Published => Some(
            about_port(
                "the remote still reports port ",
                port,
                " as published after withdrawing it",
            ),
        ),
        PublishState::FunnelAllowed => Some(
            about_port_twice(
                "port ",
                port,
                " was turned off, but Tailscale Funnel is still allowed for it, so it may still be reachable from the public internet.\nTurn it off: `tailscale funnel --tcp=",
                " off`.",
            ),
        ),
        PublishState::Unreadable => Some(
            about_port(
                "port ",
                port,
                " was asked to stop publishing, but the remote's reply could not be read, so it cannot be confirmed withdrawn.\nCheck it by hand: tailscale serve status",
            ),
        ),
    }
}

/// The conversation of a withdrawal: look, turn off, look again.
pub open spec fn withdraw_talk(
    h: Seq<Exchange>,
    at: int,
    tailnet_port: u16,
    remote_port: u16,
) -> Talk<Result<(), Seq<Seq<char>>>> {
    let looked = asks(h, at, status_line());
    match state_result(reply_at(h, at), tailnet_port, remote_port) {
        Err(e) => Talk { fits: looked, end: at + 1, value: Err(e) },
        Ok(state) => match withdraw_bar(state, tailnet_port) {
            Some(Ok(_)) => Talk { fits: looked, end: at + 1, value: Ok(()) },
            Some(Err(why)) => Talk { fits: looked, end: at + 1, value: Err(plain(why)) },
            None => {
                let turned = looked && asks(h, at + 1, withdraw_line(tailnet_port));
                match reply_at(h, at + 1) {
                    Err(e) => Talk { fits: turned, end: at + 2, value: Err(e) },
                    Ok(outcome) => if !outcome.success {
                        Talk {
                            fits: turned,
                            end: at + 2,
                            value: Err(
                                plain(
                                    "failed to withdraw port "@ + dec(tailnet_port as nat)
                                        + " on the remote: "@ + trimmed(outcome.stderr),
                                ),
                            ),
                        }
                    } else {
                        Talk {
                            fits: turned && asks(h, at + 2, status_line()),
                            end: at + 3,
                            value: match state_result(
                                reply_at(h, at + 2),
                                tailnet_port,
                                remote_port,
                            ) {
                                Err(e) => Err(e),
                                Ok(after) => match withdraw_doubt(after, tailnet_port) {
                                    Some(why) => Err(plain(why)),
                                    None => Ok(()),
                                },
                            },
                        }
                    },
                }
            },
        },
    }
}

/// Removes the forward and confirms that it is gone.
///
/// Turning a port off takes down whatever is on it, so it has to be ours. A
/// reply that cannot be read confirms nothing.
pub fn withdraw<T: Transport>(transport: &mut T, tailnet_port: u16, remote_port: u16) -> (r: Result<
    (),
    Failure,
>)
    ensures
        held(
            old(transport).history(),
            final(transport).history(),
            withdraw_talk(
                final(transport).history(),
                old(transport).history().len() as int,
                tailnet_port,
                remote_port,
            ),
        ),
        told(r) == withdraw_talk(
            final(transport).history(),
            old(transport).history().len() as int,
            tailnet_port,
            remote_port,
        ).value,
{
    let state = match publish_state(transport, tailnet_port, remote_port) {
        Err(e) => {
            return Err(e);
        },
        Ok(state) => state,
    };
    match refuse_withdraw(&state, tailnet_port) {
        Some(Ok(_)) => {
            return Ok(());
        },
        Some(Err(why)) => {
            return Err(Failure::new(why));
        },
        None => {},
    }
    let outcome = match transport.exec(withdraw_command(tailnet_port).as_str()) {
        Err(e) => {
            return Err(e);
        },
        Ok(outcome) => outcome,
    };
    if !outcome.success {
        let mut message = about_port("failed to withdraw port ", tailnet_port, " on the remote: ");
        message.push_str(trim(outcome.stderr.as_str()).as_str());
        return Err(Failure::new(message));
    }
    match publish_state(transport, tailnet_port, remote_port) {
        Err(e) => Err(e),
        Ok(after) => match doubt_withdraw(&after, tailnet_port) {
            Some(why) => Err(Failure::new(why)),
            None => Ok(()),
        },
    }
}

// ---------------------------------------------------------------------------
// Laws
// ---------------------------------------------------------------------------

/// A publish declares its forward only on a port the machine has just reported
/// free or already ours.
pub proof fn law_publish_never_takes_a_port_over(
    h: Seq<Exchange>,
    at: int,
    tailnet_port: u16,
    remote_port: u16,
)
    ensures
        ({
            let talk = publish_talk(h, at, tailnet_port, remote_port);
            let seen = state_result(reply_at(h, at), tailnet_port, remote_port);
            talk.end > at + 1 ==> seen == Ok::<StateView, Seq<Seq<char>>>(StateView::Absent) || seen
                == Ok::<StateView, Seq<Seq<char>>>(StateView::Published)
        }),
{
}

/// A publish succeeds only where the machine, asked again after the write,
/// reports the port forwarded to the address asked for.
pub proof fn law_a_publish_is_confirmed(
    h: Seq<Exchange>,
    at: int,
    tailnet_port: u16,
    remote_port: u16,
)
    ensures
        ({
            let talk = publish_talk(h, at, tailnet_port, remote_port);
            talk.value is Ok ==> talk.end == at + 3 && state_result(
                reply_at(h, at + 2),
                tailnet_port,
                remote_port,
            ) == Ok::<StateView, Seq<Seq<char>>>(StateView::Published)
        }),
{
}

/// A port is turned off only where the machine has just reported it ours.
pub proof fn law_withdraw_turns_off_only_our_own(
    h: Seq<Exchange>,
    at: int,
    tailnet_port: u16,
    remote_port: u16,
)
    ensures
        withdraw_talk(h, at, tailnet_port, remote_port).end > at + 1 ==> state_result(
            reply_at(h, at),
            tailnet_port,
            remote_port,
        ) == Ok::<StateView, Seq<Seq<char>>>(StateView::Published),
{
}

/// A withdrawal succeeds only where the machine's last answer says that the
/// port does not forward to us: neither an unreadable answer nor an open funnel
/// confirms it.
pub proof fn law_a_withdrawal_is_confirmed(
    h: Seq<Exchange>,
    at: int,
    tailnet_port: u16,
    remote_port: u16,
)
    ensures
        ({
            let talk = withdraw_talk(h, at, tailnet_port, remote_port);
            talk.value is Ok ==> match state_result(
                reply_at(h, talk.end - 1),
                tailnet_port,
                remote_port,
            ) {
                Ok(StateView::Absent) | Ok(StateView::Foreign(_)) => true,
                _ => false,
            }
        }),
{
}

/// Nothing is reported absent but on a blank text, on `null` and on an object
/// that reads as a configuration: what cannot be read never passes for
/// "nothing is published".
pub proof fn law_unreadable_is_never_absent(text: Seq<char>, tailnet_port: u16, remote_port: u16)
    requires
        classified(text, tailnet_port, remote_port) is Absent,
    ensures
        trimmed(text).len() == 0 || trimmed(text) == "null"@ || (parsed(trimmed(text)) matches Ok(
            j,
        ) && j is Obj && looks_like_config(j->Obj_0) && config_of(j) is Some),
{
}

/// A port open to the internet is reported so whatever it forwards to, and no
/// port is reported so without an entry that allows it.
pub proof fn law_funnel_comes_first(config: ConfigView, tailnet_port: u16, remote_port: u16)
    ensures
        funnelled(config.allow_funnel, tailnet_port) <==> config_state(
            config,
            tailnet_port,
            remote_port,
        ) is FunnelAllowed,
{
}

/// Whether some handler of the list forwards the port.
pub open spec fn forwards(handlers: Seq<HandlerView>, port: Seq<char>) -> bool {
    exists|i: int|
        0 <= i < handlers.len() && (#[trigger] handlers[i]).port == port
            && handlers[i].tcp_forward is Some
}

/// Whether some handler anywhere in the configuration forwards the port.
pub open spec fn forwards_anywhere(config: ConfigView, port: Seq<char>) -> bool {
    ||| forwards(config.tcp, port)
    ||| exists|i: int|
        0 <= i < config.foreground.len() && forwards(#[trigger] config.foreground[i], port)
    ||| exists|i: int|
        0 <= i < config.services.len() && forwards(#[trigger] config.services[i], port)
}

proof fn lemma_forward_for(handlers: Seq<HandlerView>, port: Seq<char>)
    ensures
        forward_for(handlers, port) is Some <==> forwards(handlers, port),
    decreases handlers.len(),
{
    if handlers.len() > 0 {
        let rest = handlers.subrange(1, handlers.len() as int);
        lemma_forward_for(rest, port);
        if handlers[0].port == port && handlers[0].tcp_forward is Some {
        } else if forwards(rest, port) {
            let k = choose|k: int|
                0 <= k < rest.len() && (#[trigger] rest[k]).port == port && rest[k].tcp_forward is Some;
            assert(handlers[k + 1] == rest[k]);
        } else if forwards(handlers, port) {
            let k = choose|k: int|
                0 <= k < handlers.len() && (#[trigger] handlers[k]).port == port
                    && handlers[k].tcp_forward is Some;
            assert(rest[k - 1] == handlers[k]);
        }
    }
}

proof fn lemma_section_forward(sections: Seq<Seq<HandlerView>>, port: Seq<char>)
    ensures
        section_forward(sections, port) is Some <==> exists|i: int|
            0 <= i < sections.len() && forwards(#[trigger] sections[i], port),
    decreases sections.len(),
{
    if sections.len() > 0 {
        let rest = sections.subrange(1, sections.len() as int);
        lemma_forward_for(sections[0], port);
        lemma_section_forward(rest, port);
        if forwards(sections[0], port) {
        } else if exists|i: int| 0 <= i < rest.len() && forwards(#[trigger] rest[i], port) {
            let k = choose|k: int| 0 <= k < rest.len() && forwards(#[trigger] rest[k], port);
            assert(sections[k + 1] == rest[k]);
        } else if exists|i: int| 0 <= i < sections.len() && forwards(#[trigger] sections[i], port) {
            let k = choose|k: int| 0 <= k < sections.len() && forwards(#[trigger] sections[k], port);
            assert(rest[k - 1] == sections[k]);
        }
    }
}

/// A port is reported absent exactly where no funnel is open on it and nothing
/// forwards it: not the machine, no session, no service. A handler that does not
/// forward hides no forward behind it.
pub proof fn law_a_live_forward_is_never_absent(
    config: ConfigView,
    tailnet_port: u16,
    remote_port: u16,
)
    ensures
        config_state(config, tailnet_port, remote_port) is Absent <==> !funnelled(
            config.allow_funnel,
            tailnet_port,
        ) && !forwards_anywhere(config, dec(tailnet_port as nat)),
{
    let port = dec(tailnet_port as nat);
    lemma_forward_for(config.tcp, port);
    lemma_section_forward(config.foreground, port);
    lemma_section_forward(config.services, port);
}

proof fn lemma_digits(n: nat)
    ensures
        forall|i: int| 0 <= i < dec(n).len() ==> ascii_digit(#[trigger] dec(n)[i]),
    decreases n,
{
    if n >= 10 {
        lemma_digits(n / 10);
        assert forall|i: int| 0 <= i < dec(n).len() implies ascii_digit(#[trigger] dec(n)[i]) by {
            if i < dec(n / 10).len() {
                assert(dec(n)[i] == dec(n / 10)[i]);
            }
        }
    }
}

/// No two forwards share a publish command.
pub proof fn law_publish_commands_tell_forwards_apart(a: u16, p: u16, b: u16, q: u16)
    requires
        publish_line(a, p) == publish_line(b, q),
    ensures
        a == b,
        p == q,
{
    reveal_strlit(" tcp://");
    let pre = "tailscale serve --bg --tcp="@;
    let mid = " tcp://"@ + (LOOPBACK@ + ":"@);
    let x = dec(a as nat);
    let y = dec(b as nat);
    let u = dec(p as nat);
    let v = dec(q as nat);
    let one = publish_line(a, p);
    let two = publish_line(b, q);
    assert(one =~= pre + x + mid + u);
    assert(two =~= pre + y + mid + v);
    lemma_digits(a as nat);
    lemma_digits(b as nat);
    assert(mid[0] == ' ');
    if x.len() < y.len() {
        assert(one[(pre.len() + x.len()) as int] == ' ');
        assert(two[(pre.len() + x.len()) as int] == y[x.len() as int]);
        assert(false);
    }
    if y.len() < x.len() {
        assert(two[(pre.len() + y.len()) as int] == ' ');
        assert(one[(pre.len() + y.len()) as int] == x[y.len() as int]);
        assert(false);
    }
    let from = pre.len() as int;
    let to = (pre.len() + x.len()) as int;
    assert(one.subrange(from, to) =~= x);
    assert(two.subrange(from, to) =~= y);
    crate::text::lemma_dec_injective(a as nat, b as nat);
    let rest = (pre.len() + x.len() + mid.len()) as int;
    assert(one.subrange(rest, one.len() as int) =~= u);
    assert(two.subrange(rest, two.len() as int) =~= v);
    crate::text::lemma_dec_injective(p as nat, q as nat);
}

/// No two ports share a withdrawal command.
pub proof fn law_withdrawal_commands_tell_ports_apart(a: u16, b: u16)
    requires
        withdraw_line(a) == withdraw_line(b),
    ensures
        a == b,
{
    let pre = "tailscale serve --tcp="@;
    let post = " off"@;
    let x = dec(a as nat);
    let y = dec(b as nat);
    assert(withdraw_line(a).len() == pre.len() + x.len() + post.len());
    assert(withdraw_line(b).len() == pre.len() + y.len() + post.len());
    assert(withdraw_line(a).subrange(pre.len() as int, (pre.len() + x.len()) as int) =~= x);
    assert(withdraw_line(b).subrange(pre.len() as int, (pre.len() + y.len()) as int) =~= y);
    crate::text::lemma_dec_injective(a as nat, b as nat);
}

/// A publish is settled by what the machine answers. It succeeds exactly where the
/// machine first reports the port free or already ours, then takes the declaration,
/// and then reports the port ours. What it sends is the question, the declaration of
/// this forward, and the question again, as far as it gets.
pub proof fn law_a_publish_is_settled_by_the_answers(
    h: Seq<Exchange>,
    at: int,
    tailnet_port: u16,
    remote_port: u16,
)
    ensures
        ({
            let talk = publish_talk(h, at, tailnet_port, remote_port);
            let before = state_result(reply_at(h, at), tailnet_port, remote_port);
            let after = state_result(reply_at(h, at + 2), tailnet_port, remote_port);
            let free = before is Ok && (before->Ok_0 is Absent || before->Ok_0 is Published);
            let taken = reply_at(h, at + 1) is Ok && reply_at(h, at + 1)->Ok_0.success;
            &&& talk.value is Ok <==> free && taken && after is Ok && after->Ok_0 is Published
            &&& talk.end == if !free {
                at + 1
            } else if !taken {
                at + 2
            } else {
                at + 3
            }
            &&& talk.fits <==> asks(h, at, status_line()) && (free ==> asks(
                h,
                at + 1,
                publish_line(tailnet_port, remote_port),
            )) && (free && taken ==> asks(h, at + 2, status_line()))
        }),
{
}

/// A withdrawal is settled by what the machine answers. It succeeds exactly where the
/// machine reports that the port is not forwarded; or reports it ours, takes it down,
/// and then reports it not forwarded, or forwarded elsewhere.
pub proof fn law_a_withdrawal_is_settled_by_the_answers(
    h: Seq<Exchange>,
    at: int,
    tailnet_port: u16,
    remote_port: u16,
)
    ensures
        ({
            let talk = withdraw_talk(h, at, tailnet_port, remote_port);
            let before = state_result(reply_at(h, at), tailnet_port, remote_port);
            let after = state_result(reply_at(h, at + 2), tailnet_port, remote_port);
            let gone = before is Ok && before->Ok_0 is Absent;
            let ours = before is Ok && before->Ok_0 is Published;
            let down = reply_at(h, at + 1) is Ok && reply_at(h, at + 1)->Ok_0.success;
            &&& talk.value is Ok <==> gone || (ours && down && after is Ok && (after->Ok_0 is Absent
                || after->Ok_0 is Foreign))
            &&& talk.end == if !ours {
                at + 1
            } else if !down {
                at + 2
            } else {
                at + 3
            }
            &&& talk.fits <==> asks(h, at, status_line()) && (ours ==> asks(
                h,
                at + 1,
                withdraw_line(tailnet_port),
            )) && (ours && down ==> asks(h, at + 2, status_line()))
        }),
{
}

/// What is known of a port is what the machine said, where it was asked and
/// answered; and why not, apart for a machine that failed and one that was not reached.
pub proof fn law_an_answer_is_told_from_none(reply: Reply, tailnet_port: u16, remote_port: u16)
    ensures
        observed(reply, tailnet_port, remote_port) is Unreachable <==> reply is Err,
        observed(reply, tailnet_port, remote_port) is Failed <==> reply is Ok
            && !reply->Ok_0.success,
        reply is Ok && reply->Ok_0.success ==> observed(reply, tailnet_port, remote_port)
            == ObservationView::Known(
            classified(reply->Ok_0.stdout, tailnet_port, remote_port),
        ) && state_result(reply, tailnet_port, remote_port) == Ok::<StateView, Seq<Seq<char>>>(
            classified(reply->Ok_0.stdout, tailnet_port, remote_port),
        ),
        state_result(reply, tailnet_port, remote_port) is Ok <==> reply is Ok
            && reply->Ok_0.success,
{
}

/// Whether handler `i` is the first of a list that forwards the port.
pub open spec fn first_forward(handlers: Seq<HandlerView>, port: Seq<char>, i: int) -> bool {
    &&& 0 <= i < handlers.len()
    &&& handlers[i].port == port && handlers[i].tcp_forward is Some
    &&& forall|k: int|
        0 <= k < i ==> !((#[trigger] handlers[k]).port == port && handlers[k].tcp_forward is Some)
}

proof fn lemma_first_forward(handlers: Seq<HandlerView>, port: Seq<char>, i: int)
    requires
        first_forward(handlers, port, i),
    ensures
        forward_for(handlers, port) == handlers[i].tcp_forward,
    decreases i,
{
    if i > 0 {
        assert(!(handlers[0].port == port && handlers[0].tcp_forward is Some));
        let rest = handlers.subrange(1, handlers.len() as int);
        assert forall|k: int| 0 <= k < i - 1 implies !((#[trigger] rest[k]).port == port
            && rest[k].tcp_forward is Some) by {
            assert(rest[k] == handlers[k + 1]);
        }
        assert(rest[i - 1] == handlers[i]);
        lemma_first_forward(rest, port, i - 1);
    }
}

proof fn lemma_first_section(
    sections: Seq<Seq<HandlerView>>,
    port: Seq<char>,
    s: int,
    i: int,
)
    requires
        0 <= s < sections.len(),
        first_forward(sections[s], port, i),
        forall|k: int| 0 <= k < s ==> !forwards(#[trigger] sections[k], port),
    ensures
        section_forward(sections, port) == sections[s][i].tcp_forward,
    decreases s,
{
    lemma_forward_for(sections[0], port);
    if s == 0 {
        lemma_first_forward(sections[0], port, i);
    } else {
        assert(!forwards(sections[0], port));
        let rest = sections.subrange(1, sections.len() as int);
        assert forall|k: int| 0 <= k < s - 1 implies !forwards(#[trigger] rest[k], port) by {
            assert(rest[k] == sections[k + 1]);
        }
        assert(rest[s - 1] == sections[s]);
        lemma_first_section(rest, port, s - 1, i);
    }
}

/// What a port forwards to is decided by the first handler for it that forwards: of
/// the machine itself, else of a foreground session, else of a service. It is ours
/// exactly where that is the loopback address and the model's port, and otherwise
/// somebody else's, who is named.
pub proof fn law_the_first_forward_decides(
    config: ConfigView,
    tailnet_port: u16,
    remote_port: u16,
    s: int,
    i: int,
)
    requires
        config_state(config, tailnet_port, remote_port) !is FunnelAllowed,
    ensures
        ({
            let port = dec(tailnet_port as nat);
            let ours = "127.0.0.1:"@ + dec(remote_port as nat);
            let state = config_state(config, tailnet_port, remote_port);
            let none_own = !forwards(config.tcp, port);
            let none_shown = forall|k: int|
                0 <= k < config.foreground.len() ==> !forwards(#[trigger] config.foreground[k], port);
            let settled = |to: Option<Seq<char>>|
                if to == Some(ours) {
                    state is Published
                } else {
                    state == StateView::Foreign(to->0)
                };
            &&& first_forward(config.tcp, port, i) ==> settled(config.tcp[i].tcp_forward)
            &&& none_own && 0 <= s < config.foreground.len() && first_forward(
                config.foreground[s],
                port,
                i,
            ) && (forall|k: int| 0 <= k < s ==> !forwards(#[trigger] config.foreground[k], port))
                ==> settled(config.foreground[s][i].tcp_forward)
            &&& none_own && none_shown && 0 <= s < config.services.len() && first_forward(
                config.services[s],
                port,
                i,
            ) && (forall|k: int| 0 <= k < s ==> !forwards(#[trigger] config.services[k], port))
                ==> settled(config.services[s][i].tcp_forward)
        }),
{
    let port = dec(tailnet_port as nat);
    reveal_strlit("127.0.0.1");
    reveal_strlit("127.0.0.1:");
    reveal_strlit(":");
    assert(target_of(remote_port) =~= "127.0.0.1:"@ + dec(remote_port as nat));
    lemma_forward_for(config.tcp, port);
    lemma_section_forward(config.foreground, port);
    if first_forward(config.tcp, port, i) {
        lemma_first_forward(config.tcp, port, i);
    }
    if !forwards(config.tcp, port) {
        if 0 <= s < config.foreground.len() && first_forward(config.foreground[s], port, i) && (
        forall|k: int| 0 <= k < s ==> !forwards(#[trigger] config.foreground[k], port)) {
            lemma_first_section(config.foreground, port, s, i);
        }
        if 0 <= s < config.services.len() && first_forward(config.services[s], port, i) && (
        forall|k: int| 0 <= k < s ==> !forwards(#[trigger] config.services[k], port)) {
            lemma_first_section(config.services, port, s, i);
        }
    }
}

/// A port is open to the internet exactly where an entry that is allowed ends with a
/// colon and the port, or is the port alone.
pub proof fn law_an_allowed_funnel_opens_its_port(
    config: ConfigView,
    tailnet_port: u16,
    remote_port: u16,
    host: Seq<char>,
)
    ensures
        config.allow_funnel.contains((host + ":"@ + dec(tailnet_port as nat), true))
            ==> config_state(config, tailnet_port, remote_port) is FunnelAllowed,
        config_state(config, tailnet_port, remote_port) is FunnelAllowed ==> exists|i: int|
            0 <= i < config.allow_funnel.len() && (#[trigger] config.allow_funnel[i]).1 && (
            config.allow_funnel[i].0 == dec(tailnet_port as nat) || ends_with(
                config.allow_funnel[i].0,
                ":"@ + dec(tailnet_port as nat),
            )),
{
    let digits = dec(tailnet_port as nat);
    let entry = host + ":"@ + digits;
    reveal_strlit(":");
    lemma_digits(tailnet_port as nat);
    if config.allow_funnel.contains((entry, true)) {
        let i = choose|i: int|
            0 <= i < config.allow_funnel.len() && config.allow_funnel[i] == (entry, true);
        let k = host.len() as int + 1;
        lemma_after_last_split(entry, ':', k);
        assert(entry.subrange(k, entry.len() as int) =~= digits);
        assert(config.allow_funnel[i].1 && after_last(config.allow_funnel[i].0, ':') == digits);
    }
    if config_state(config, tailnet_port, remote_port) is FunnelAllowed {
        let i = choose|i: int|
            0 <= i < config.allow_funnel.len() && (#[trigger] config.allow_funnel[i]).1
                && after_last(config.allow_funnel[i].0, ':') == digits;
        let s = config.allow_funnel[i].0;
        let k = lemma_after_last(s, ':');
        assert(s.subrange(k, s.len() as int) == digits);
        if k == 0 {
            assert(s.subrange(0, s.len() as int) =~= s);
        } else {
            assert(s.subrange(k - 1, s.len() as int) =~= ":"@ + digits);
        }
    }
}

/// A configuration is read by the names of its members: the forwards of the machine
/// itself, of the sessions in the foreground and of the services, and what may be
/// reached from the internet, each with the port or address that it stands under.
pub proof fn law_a_configuration_is_read_by_its_names(all: Seq<(Seq<char>, Json)>, i: int)
    requires
        config_of(Json::Obj(all)) is Some,
    ensures
        ({
            let config = config_of(Json::Obj(all))->0;
            let tcp = lookup(all, "TCP"@);
            let funnels = lookup(all, "AllowFunnel"@);
            &&& tcp is None ==> config.tcp.len() == 0
            &&& tcp matches Some(Json::Obj(m)) ==> config.tcp.len() == m.len() && (0 <= i < m.len()
                ==> config.tcp[i].port == m[i].0 && (m[i].1 matches Json::Obj(inner)
                ==> config.tcp[i].tcp_forward == (match lookup(inner, "TCPForward"@) {
                Some(Json::Str(to)) => Some(to),
                _ => None,
            })))
            &&& funnels is None ==> config.allow_funnel.len() == 0
            &&& funnels matches Some(Json::Obj(m)) ==> config.allow_funnel.len() == m.len() && (0
                <= i < m.len() ==> config.allow_funnel[i].0 == m[i].0 && m[i].1 == Json::Bool(
                config.allow_funnel[i].1,
            ))
            &&& lookup(all, "Foreground"@) is None ==> config.foreground.len() == 0
            &&& lookup(all, "Foreground"@) matches Some(Json::Obj(m)) ==> config.foreground.len()
                == m.len()
            &&& lookup(all, "Services"@) is None ==> config.services.len() == 0
            &&& lookup(all, "Services"@) matches Some(Json::Obj(m)) ==> config.services.len()
                == m.len()
        }),
{
    if let Some(Json::Obj(m)) = lookup(all, "TCP"@) {
        let read = m.map_values(|x: (Seq<char>, Json)| handler_of(x));
        if 0 <= i < m.len() {
            assert(read[i] == handler_of(m[i]));
        }
    }
    if let Some(Json::Obj(m)) = lookup(all, "AllowFunnel"@) {
        let read = m.map_values(|x: (Seq<char>, Json)| funnel_of(x));
        if 0 <= i < m.len() {
            assert(read[i] == funnel_of(m[i]));
        }
    }
}

/// Nothing is published over a port that is in another's hands, or that may be, and the
/// refusal names the port and what it forwards to, or how to close it to the public.
pub proof fn law_a_port_that_is_not_free_is_named(state: StateView, port: u16, to: Seq<char>)
    ensures
        has_text(publish_bar(StateView::Foreign(to), port)->0, "port "@ + dec(port as nat) + " "@),
        has_text(publish_bar(StateView::Foreign(to), port)->0, "forwards to "@ + to + "."@),
        has_text(publish_bar(StateView::FunnelAllowed, port)->0, "port "@ + dec(port as nat) + " "@),
        has_text(
            publish_bar(StateView::FunnelAllowed, port)->0,
            "tailscale funnel --tcp="@ + dec(port as nat) + " off"@,
        ),
        has_text(publish_bar(StateView::Unreadable, port)->0, "port "@ + dec(port as nat) + " "@),
        publish_bar(state, port) is None <==> state is Absent || state is Published,
{
    assert(
        has_text(publish_bar(StateView::Foreign(to), port)->0, "port "@ + dec(port as nat) + " "@)
            && has_text(publish_bar(StateView::Foreign(to), port)->0, "forwards to "@ + to + "."@)
    ) by {
        let s0 = "port "@;
        let s1 = dec(port as nat);
        let s2 = " on the remote already forwards to "@;
        let s3 = to;
        let s4 =
            ".\nRefusing to take it over — publishing here would silently break whatever is using it. Choose another port with `--tailnet-port`."@;
        let x1 = s0 + s1;
        let x2 = x1 + s2;
        let x3 = x2 + s3;
        let x4 = x3 + s4;
        assert(publish_bar(StateView::Foreign(to), port)->0 == x4);
        let part = s0 + s1 + " "@;
        assert(has_text(x4, part)) by {
            let r = s2.subrange(1, s2.len() as int);
            assert(s2 =~= " "@ + r) by {
                reveal_strlit(" on the remote already forwards to ");
                reveal_strlit(" ");
            }
            assert(x2 =~= Seq::<char>::empty() + part + r);
            lemma_has_text(Seq::<char>::empty(), part, r);
            lemma_goes_on(x2, s3, part);
            lemma_goes_on(x3, s4, part);
        }
        let part = "forwards to "@ + s3 + "."@;
        assert(has_text(x4, part)) by {
            let h = s2.subrange(0, 23);
            assert(s2 =~= h + "forwards to "@) by {
                reveal_strlit(" on the remote already forwards to ");
                reveal_strlit("forwards to ");
            }
            let r = s4.subrange(1, s4.len() as int);
            assert(s4 =~= "."@ + r) by {
                reveal_strlit(
                    ".\nRefusing to take it over — publishing here would silently break whatever is using it. Choose another port with `--tailnet-port`.",
                );
                reveal_strlit(".");
            }
            assert(x4 =~= (x1 + h) + part + r);
            lemma_has_text(x1 + h, part, r);
        }
    }
    assert(
        has_text(publish_bar(StateView::FunnelAllowed, port)->0, "port "@ + dec(port as nat) + " "@)
            && has_text(
                publish_bar(StateView::FunnelAllowed, port)->0,
                "tailscale funnel --tcp="@ + dec(port as nat) + " off"@,
            )
    ) by {
        let s0 = "port "@;
        let s1 = dec(port as nat);
        let s2 =
            " on the remote has Tailscale Funnel allowed, which exposes it to the public internet rather than just the tailnet.\nRefusing to publish over it — turn Funnel off first: `tailscale funnel --tcp="@;
        let s3 = dec(port as nat);
        let s4 = " off`."@;
        let x1 = s0 + s1;
        let x2 = x1 + s2;
        let x3 = x2 + s3;
        let x4 = x3 + s4;
        assert(publish_bar(StateView::FunnelAllowed, port)->0 == x4);
        let part = s0 + s1 + " "@;
        assert(has_text(x4, part)) by {
            let r = s2.subrange(1, s2.len() as int);
            assert(s2 =~= " "@ + r) by {
                reveal_strlit(
                    " on the remote has Tailscale Funnel allowed, which exposes it to the public internet rather than just the tailnet.\nRefusing to publish over it — turn Funnel off first: `tailscale funnel --tcp=",
                );
                reveal_strlit(" ");
            }
            assert(x2 =~= Seq::<char>::empty() + part + r);
            lemma_has_text(Seq::<char>::empty(), part, r);
            lemma_goes_on(x2, s3, part);
            lemma_goes_on(x3, s4, part);
        }
        let part = "tailscale funnel --tcp="@ + s3 + " off"@;
        assert(has_text(x4, part)) by {
            let h = s2.subrange(0, 169);
            assert(s2 =~= h + "tailscale funnel --tcp="@) by {
                reveal_strlit(
                    " on the remote has Tailscale Funnel allowed, which exposes it to the public internet rather than just the tailnet.\nRefusing to publish over it — turn Funnel off first: `tailscale funnel --tcp=",
                );
                reveal_strlit("tailscale funnel --tcp=");
            }
            let r = s4.subrange(4, s4.len() as int);
            assert(s4 =~= " off"@ + r) by {
                reveal_strlit(" off`.");
                reveal_strlit(" off");
            }
            assert(x4 =~= (x1 + h) + part + r);
            lemma_has_text(x1 + h, part, r);
        }
    }
    assert(
        has_text(publish_bar(StateView::Unreadable, port)->0, "port "@ + dec(port as nat) + " "@)
    ) by {
        let s0 = "port "@;
        let s1 = dec(port as nat);
        let s2 =
            " could not be checked before publishing, so there is no way to tell whether something else is already using it.\nCheck it by hand: tailscale serve status"@;
        let x1 = s0 + s1;
        let x2 = x1 + s2;
        assert(publish_bar(StateView::Unreadable, port)->0 == x2);
        let part = s0 + s1 + " "@;
        assert(has_text(x2, part)) by {
            let r = s2.subrange(1, s2.len() as int);
            assert(s2 =~= " "@ + r) by {
                reveal_strlit(
                    " could not be checked before publishing, so there is no way to tell whether something else is already using it.\nCheck it by hand: tailscale serve status",
                );
                reveal_strlit(" ");
            }
            assert(x2 =~= Seq::<char>::empty() + part + r);
            lemma_has_text(Seq::<char>::empty(), part, r);
        }
    }
}

/// A publish counts only where the port was then seen to be published; any other answer is
/// told by the port, and by what holds it or how to close it to the public.
pub proof fn law_a_publish_in_doubt_is_told_by_its_port(state: StateView, port: u16, to: Seq<char>)
    ensures
        has_text(
            publish_doubt(StateView::Absent, port)->0,
            "port "@ + dec(port as nat) + " but does not"@,
        ),
        has_text(publish_doubt(StateView::Foreign(to), port)->0, "port "@ + dec(port as nat) + " "@),
        has_text(publish_doubt(StateView::Foreign(to), port)->0, "forwards to "@ + to + " rather"@),
        has_text(
            publish_doubt(StateView::FunnelAllowed, port)->0,
            "port "@ + dec(port as nat) + " "@,
        ),
        has_text(
            publish_doubt(StateView::FunnelAllowed, port)->0,
            "tailscale funnel --tcp="@ + dec(port as nat) + " off"@,
        ),
        has_text(
            publish_doubt(StateView::Unreadable, port)->0,
            "port "@ + dec(port as nat) + " but its reply"@,
        ),
        publish_doubt(state, port) is None <==> state is Published,
{
    assert(has_text(
        publish_doubt(StateView::Absent, port)->0,
        "port "@ + dec(port as nat) + " but does not"@,
    )) by {
        let s0 = "the remote accepted the publish for port "@;
        let s1 = dec(port as nat);
        let s2 = " but does not report it as active, so the endpoint would not answer"@;
        let x1 = s0 + s1;
        let x2 = x1 + s2;
        assert(publish_doubt(StateView::Absent, port)->0 == x2);
        let part = "port "@ + s1 + " but does not"@;
        assert(has_text(x2, part)) by {
            let h = s0.subrange(0, 36);
            assert(s0 =~= h + "port "@) by {
                reveal_strlit("the remote accepted the publish for port ");
                reveal_strlit("port ");
            }
            let r = s2.subrange(13, s2.len() as int);
            assert(s2 =~= " but does not"@ + r) by {
                reveal_strlit(" but does not report it as active, so the endpoint would not answer");
                reveal_strlit(" but does not");
            }
            assert(x2 =~= h + part + r);
            lemma_has_text(h, part, r);
        }
    }
    assert(
        has_text(publish_doubt(StateView::Foreign(to), port)->0, "port "@ + dec(port as nat) + " "@)
            && has_text(
                publish_doubt(StateView::Foreign(to), port)->0,
                "forwards to "@ + to + " rather"@,
            )
    ) by {
        let s0 = "port "@;
        let s1 = dec(port as nat);
        let s2 = " on the remote now forwards to "@;
        let s3 = to;
        let s4 =
            " rather than to this model server; something else claimed it. Choose another port with `--tailnet-port`."@;
        let x1 = s0 + s1;
        let x2 = x1 + s2;
        let x3 = x2 + s3;
        let x4 = x3 + s4;
        assert(publish_doubt(StateView::Foreign(to), port)->0 == x4);
        let part = s0 + s1 + " "@;
        assert(has_text(x4, part)) by {
            let r = s2.subrange(1, s2.len() as int);
            assert(s2 =~= " "@ + r) by {
                reveal_strlit(" on the remote now forwards to ");
                reveal_strlit(" ");
            }
            assert(x2 =~= Seq::<char>::empty() + part + r);
            lemma_has_text(Seq::<char>::empty(), part, r);
            lemma_goes_on(x2, s3, part);
            lemma_goes_on(x3, s4, part);
        }
        let part = "forwards to "@ + s3 + " rather"@;
        assert(has_text(x4, part)) by {
            let h = s2.subrange(0, 19);
            assert(s2 =~= h + "forwards to "@) by {
                reveal_strlit(" on the remote now forwards to ");
                reveal_strlit("forwards to ");
            }
            let r = s4.subrange(7, s4.len() as int);
            assert(s4 =~= " rather"@ + r) by {
                reveal_strlit(
                    " rather than to this model server; something else claimed it. Choose another port with `--tailnet-port`.",
                );
                reveal_strlit(" rather");
            }
            assert(x4 =~= (x1 + h) + part + r);
            lemma_has_text(x1 + h, part, r);
        }
    }
    assert(
        has_text(
            publish_doubt(StateView::FunnelAllowed, port)->0,
            "port "@ + dec(port as nat) + " "@,
        )
            && has_text(
                publish_doubt(StateView::FunnelAllowed, port)->0,
                "tailscale funnel --tcp="@ + dec(port as nat) + " off"@,
            )
    ) by {
        let s0 = "port "@;
        let s1 = dec(port as nat);
        let s2 =
            " on the remote now has Tailscale Funnel allowed, exposing it to the public internet rather than just the tailnet.\nTurn Funnel off: `tailscale funnel --tcp="@;
        let s3 = dec(port as nat);
        let s4 = " off`, then try again."@;
        let x1 = s0 + s1;
        let x2 = x1 + s2;
        let x3 = x2 + s3;
        let x4 = x3 + s4;
        assert(publish_doubt(StateView::FunnelAllowed, port)->0 == x4);
        let part = s0 + s1 + " "@;
        assert(has_text(x4, part)) by {
            let r = s2.subrange(1, s2.len() as int);
            assert(s2 =~= " "@ + r) by {
                reveal_strlit(
                    " on the remote now has Tailscale Funnel allowed, exposing it to the public internet rather than just the tailnet.\nTurn Funnel off: `tailscale funnel --tcp=",
                );
                reveal_strlit(" ");
            }
            assert(x2 =~= Seq::<char>::empty() + part + r);
            lemma_has_text(Seq::<char>::empty(), part, r);
            lemma_goes_on(x2, s3, part);
            lemma_goes_on(x3, s4, part);
        }
        let part = "tailscale funnel --tcp="@ + s3 + " off"@;
        assert(has_text(x4, part)) by {
            let h = s2.subrange(0, 132);
            assert(s2 =~= h + "tailscale funnel --tcp="@) by {
                reveal_strlit(
                    " on the remote now has Tailscale Funnel allowed, exposing it to the public internet rather than just the tailnet.\nTurn Funnel off: `tailscale funnel --tcp=",
                );
                reveal_strlit("tailscale funnel --tcp=");
            }
            let r = s4.subrange(4, s4.len() as int);
            assert(s4 =~= " off"@ + r) by {
                reveal_strlit(" off`, then try again.");
                reveal_strlit(" off");
            }
            assert(x4 =~= (x1 + h) + part + r);
            lemma_has_text(x1 + h, part, r);
        }
    }
    assert(has_text(
        publish_doubt(StateView::Unreadable, port)->0,
        "port "@ + dec(port as nat) + " but its reply"@,
    )) by {
        let s0 = "the remote accepted the publish for port "@;
        let s1 = dec(port as nat);
        let s2 =
            " but its reply could not be read, so there is no way to confirm the endpoint answers.\nCheck it with `rocm remote status`."@;
        let x1 = s0 + s1;
        let x2 = x1 + s2;
        assert(publish_doubt(StateView::Unreadable, port)->0 == x2);
        let part = "port "@ + s1 + " but its reply"@;
        assert(has_text(x2, part)) by {
            let h = s0.subrange(0, 36);
            assert(s0 =~= h + "port "@) by {
                reveal_strlit("the remote accepted the publish for port ");
                reveal_strlit("port ");
            }
            let r = s2.subrange(14, s2.len() as int);
            assert(s2 =~= " but its reply"@ + r) by {
                reveal_strlit(
                    " but its reply could not be read, so there is no way to confirm the endpoint answers.\nCheck it with `rocm remote status`.",
                );
                reveal_strlit(" but its reply");
            }
            assert(x2 =~= h + part + r);
            lemma_has_text(h, part, r);
        }
    }
}

/// Only a forward of one's own is turned off: one that is not there needs no turning off,
/// and any other is refused, by its port. It counts as off where it was then seen to be gone
/// or another's; any other answer is told by the port.
pub proof fn law_a_withdrawal_in_doubt_is_told_by_its_port(
    state: StateView,
    port: u16,
    to: Seq<char>,
)
    ensures
        has_text(
            withdraw_bar(StateView::Foreign(to), port)->0->Err_0,
            "port "@ + dec(port as nat) + " "@,
        ),
        has_text(withdraw_bar(StateView::Foreign(to), port)->0->Err_0, "forwards to "@ + to + ","@),
        has_text(
            withdraw_bar(StateView::FunnelAllowed, port)->0->Err_0,
            "port "@ + dec(port as nat) + " "@,
        ),
        has_text(
            withdraw_bar(StateView::FunnelAllowed, port)->0->Err_0,
            "tailscale funnel --tcp="@ + dec(port as nat) + " off"@,
        ),
        has_text(
            withdraw_bar(StateView::Unreadable, port)->0->Err_0,
            "port "@ + dec(port as nat) + " "@,
        ),
        has_text(
            withdraw_doubt(StateView::Published, port)->0,
            "port "@ + dec(port as nat) + " as published"@,
        ),
        has_text(
            withdraw_doubt(StateView::FunnelAllowed, port)->0,
            "port "@ + dec(port as nat) + " "@,
        ),
        has_text(
            withdraw_doubt(StateView::FunnelAllowed, port)->0,
            "tailscale funnel --tcp="@ + dec(port as nat) + " off"@,
        ),
        has_text(withdraw_doubt(StateView::Unreadable, port)->0, "port "@ + dec(port as nat) + " "@),
        withdraw_bar(state, port) is None <==> state is Published,
        withdraw_bar(state, port) == Some(Ok::<(), Seq<char>>(())) <==> state is Absent,
        withdraw_doubt(state, port) is None <==> state is Absent || state is Foreign,
{
    assert(has_text(
        withdraw_bar(StateView::Foreign(to), port)->0->Err_0,
        "port "@ + dec(port as nat) + " "@,
    )
        && has_text(
            withdraw_bar(StateView::Foreign(to), port)->0->Err_0,
            "forwards to "@ + to + ","@,
        )) by {
        let s0 = "port "@;
        let s1 = dec(port as nat);
        let s2 = " on the remote now forwards to "@;
        let s3 = to;
        let s4 =
            ", not to this session's model server.\nRefusing to turn it off — it belongs to something else."@;
        let x1 = s0 + s1;
        let x2 = x1 + s2;
        let x3 = x2 + s3;
        let x4 = x3 + s4;
        assert(withdraw_bar(StateView::Foreign(to), port)->0->Err_0 == x4);
        let part = s0 + s1 + " "@;
        assert(has_text(x4, part)) by {
            let r = s2.subrange(1, s2.len() as int);
            assert(s2 =~= " "@ + r) by {
                reveal_strlit(" on the remote now forwards to ");
                reveal_strlit(" ");
            }
            assert(x2 =~= Seq::<char>::empty() + part + r);
            lemma_has_text(Seq::<char>::empty(), part, r);
            lemma_goes_on(x2, s3, part);
            lemma_goes_on(x3, s4, part);
        }
        let part = "forwards to "@ + s3 + ","@;
        assert(has_text(x4, part)) by {
            let h = s2.subrange(0, 19);
            assert(s2 =~= h + "forwards to "@) by {
                reveal_strlit(" on the remote now forwards to ");
                reveal_strlit("forwards to ");
            }
            let r = s4.subrange(1, s4.len() as int);
            assert(s4 =~= ","@ + r) by {
                reveal_strlit(
                    ", not to this session's model server.\nRefusing to turn it off — it belongs to something else.",
                );
                reveal_strlit(",");
            }
            assert(x4 =~= (x1 + h) + part + r);
            lemma_has_text(x1 + h, part, r);
        }
    }
    assert(has_text(
        withdraw_bar(StateView::FunnelAllowed, port)->0->Err_0,
        "port "@ + dec(port as nat) + " "@,
    )
        && has_text(
            withdraw_bar(StateView::FunnelAllowed, port)->0->Err_0,
            "tailscale funnel --tcp="@ + dec(port as nat) + " off"@,
        )) by {
        let s0 = "port "@;
        let s1 = dec(port as nat);
        let s2 =
            " on the remote has Tailscale Funnel allowed. Withdrawing our forward would not close the public-internet exposure, so this needs a human decision, not a silent teardown.\nTurn Funnel off first: `tailscale funnel --tcp="@;
        let s3 = dec(port as nat);
        let s4 = " off`."@;
        let x1 = s0 + s1;
        let x2 = x1 + s2;
        let x3 = x2 + s3;
        let x4 = x3 + s4;
        assert(withdraw_bar(StateView::FunnelAllowed, port)->0->Err_0 == x4);
        let part = s0 + s1 + " "@;
        assert(has_text(x4, part)) by {
            let r = s2.subrange(1, s2.len() as int);
            assert(s2 =~= " "@ + r) by {
                reveal_strlit(
                    " on the remote has Tailscale Funnel allowed. Withdrawing our forward would not close the public-internet exposure, so this needs a human decision, not a silent teardown.\nTurn Funnel off first: `tailscale funnel --tcp=",
                );
                reveal_strlit(" ");
            }
            assert(x2 =~= Seq::<char>::empty() + part + r);
            lemma_has_text(Seq::<char>::empty(), part, r);
            lemma_goes_on(x2, s3, part);
            lemma_goes_on(x3, s4, part);
        }
        let part = "tailscale funnel --tcp="@ + s3 + " off"@;
        assert(has_text(x4, part)) by {
            let h = s2.subrange(0, 194);
            assert(s2 =~= h + "tailscale funnel --tcp="@) by {
                reveal_strlit(
                    " on the remote has Tailscale Funnel allowed. Withdrawing our forward would not close the public-internet exposure, so this needs a human decision, not a silent teardown.\nTurn Funnel off first: `tailscale funnel --tcp=",
                );
                reveal_strlit("tailscale funnel --tcp=");
            }
            let r = s4.subrange(4, s4.len() as int);
            assert(s4 =~= " off"@ + r) by {
                reveal_strlit(" off`.");
                reveal_strlit(" off");
            }
            assert(x4 =~= (x1 + h) + part + r);
            lemma_has_text(x1 + h, part, r);
        }
    }
    assert(has_text(
        withdraw_bar(StateView::Unreadable, port)->0->Err_0,
        "port "@ + dec(port as nat) + " "@,
    )) by {
        let s0 = "port "@;
        let s1 = dec(port as nat);
        let s2 =
            " could not be checked before withdrawing it, so there is no way to tell whether it is still this session's endpoint.\nCheck it by hand: tailscale serve status"@;
        let x1 = s0 + s1;
        let x2 = x1 + s2;
        assert(withdraw_bar(StateView::Unreadable, port)->0->Err_0 == x2);
        let part = s0 + s1 + " "@;
        assert(has_text(x2, part)) by {
            let r = s2.subrange(1, s2.len() as int);
            assert(s2 =~= " "@ + r) by {
                reveal_strlit(
                    " could not be checked before withdrawing it, so there is no way to tell whether it is still this session's endpoint.\nCheck it by hand: tailscale serve status",
                );
                reveal_strlit(" ");
            }
            assert(x2 =~= Seq::<char>::empty() + part + r);
            lemma_has_text(Seq::<char>::empty(), part, r);
        }
    }
    assert(has_text(
        withdraw_doubt(StateView::Published, port)->0,
        "port "@ + dec(port as nat) + " as published"@,
    )) by {
        let s0 = "the remote still reports port "@;
        let s1 = dec(port as nat);
        let s2 = " as published after withdrawing it"@;
        let x1 = s0 + s1;
        let x2 = x1 + s2;
        assert(withdraw_doubt(StateView::Published, port)->0 == x2);
        let part = "port "@ + s1 + " as published"@;
        assert(has_text(x2, part)) by {
            let h = s0.subrange(0, 25);
            assert(s0 =~= h + "port "@) by {
                reveal_strlit("the remote still reports port ");
                reveal_strlit("port ");
            }
            let r = s2.subrange(13, s2.len() as int);
            assert(s2 =~= " as published"@ + r) by {
                reveal_strlit(" as published after withdrawing it");
                reveal_strlit(" as published");
            }
            assert(x2 =~= h + part + r);
            lemma_has_text(h, part, r);
        }
    }
    assert(
        has_text(
            withdraw_doubt(StateView::FunnelAllowed, port)->0,
            "port "@ + dec(port as nat) + " "@,
        )
            && has_text(
                withdraw_doubt(StateView::FunnelAllowed, port)->0,
                "tailscale funnel --tcp="@ + dec(port as nat) + " off"@,
            )
    ) by {
        let s0 = "port "@;
        let s1 = dec(port as nat);
        let s2 =
            " was turned off, but Tailscale Funnel is still allowed for it, so it may still be reachable from the public internet.\nTurn it off: `tailscale funnel --tcp="@;
        let s3 = dec(port as nat);
        let s4 = " off`."@;
        let x1 = s0 + s1;
        let x2 = x1 + s2;
        let x3 = x2 + s3;
        let x4 = x3 + s4;
        assert(withdraw_doubt(StateView::FunnelAllowed, port)->0 == x4);
        let part = s0 + s1 + " "@;
        assert(has_text(x4, part)) by {
            let r = s2.subrange(1, s2.len() as int);
            assert(s2 =~= " "@ + r) by {
                reveal_strlit(
                    " was turned off, but Tailscale Funnel is still allowed for it, so it may still be reachable from the public internet.\nTurn it off: `tailscale funnel --tcp=",
                );
                reveal_strlit(" ");
            }
            assert(x2 =~= Seq::<char>::empty() + part + r);
            lemma_has_text(Seq::<char>::empty(), part, r);
            lemma_goes_on(x2, s3, part);
            lemma_goes_on(x3, s4, part);
        }
        let part = "tailscale funnel --tcp="@ + s3 + " off"@;
        assert(has_text(x4, part)) by {
            let h = s2.subrange(0, 132);
            assert(s2 =~= h + "tailscale funnel --tcp="@) by {
                reveal_strlit(
                    " was turned off, but Tailscale Funnel is still allowed for it, so it may still be reachable from the public internet.\nTurn it off: `tailscale funnel --tcp=",
                );
                reveal_strlit("tailscale funnel --tcp=");
            }
            let r = s4.subrange(4, s4.len() as int);
            assert(s4 =~= " off"@ + r) by {
                reveal_strlit(" off`.");
                reveal_strlit(" off");
            }
            assert(x4 =~= (x1 + h) + part + r);
            lemma_has_text(x1 + h, part, r);
        }
    }
    assert(
        has_text(withdraw_doubt(StateView::Unreadable, port)->0, "port "@ + dec(port as nat) + " "@)
    ) by {
        let s0 = "port "@;
        let s1 = dec(port as nat);
        let s2 =
            " was asked to stop publishing, but the remote's reply could not be read, so it cannot be confirmed withdrawn.\nCheck it by hand: tailscale serve status"@;
        let x1 = s0 + s1;
        let x2 = x1 + s2;
        assert(withdraw_doubt(StateView::Unreadable, port)->0 == x2);
        let part = s0 + s1 + " "@;
        assert(has_text(x2, part)) by {
            let r = s2.subrange(1, s2.len() as int);
            assert(s2 =~= " "@ + r) by {
                reveal_strlit(
                    " was asked to stop publishing, but the remote's reply could not be read, so it cannot be confirmed withdrawn.\nCheck it by hand: tailscale serve status",
                );
                reveal_strlit(" ");
            }
            assert(x2 =~= Seq::<char>::empty() + part + r);
            lemma_has_text(Seq::<char>::empty(), part, r);
        }
    }
}

/// A machine that refuses to publish or to withdraw is told by the port, with what it
/// complained of.
pub proof fn law_a_refusal_of_the_machine_is_told(
    h: Seq<Exchange>,
    at: int,
    tailnet_port: u16,
    remote_port: u16,
)
    requires
        reply_at(h, at + 1) is Ok,
        !reply_at(h, at + 1)->Ok_0.success,
    ensures
        ({
            let state = state_result(reply_at(h, at), tailnet_port, remote_port);
            let refused = publish_talk(h, at, tailnet_port, remote_port).value;
            let kept = withdraw_talk(h, at, tailnet_port, remote_port).value;
            &&& state is Ok && (state->Ok_0 is Absent || state->Ok_0 is Published) ==> {
                &&& refused is Err
                &&& has_text(refused->Err_0[0], "publish port "@ + dec(tailnet_port as nat) + " "@)
                &&& has_text(refused->Err_0[0], ": "@ + trimmed(reply_at(h, at + 1)->Ok_0.stderr) + "\n"@)
            }
            &&& state is Ok && state->Ok_0 is Published ==> {
                &&& kept is Err
                &&& has_text(kept->Err_0[0], "withdraw port "@ + dec(tailnet_port as nat) + " "@)
                &&& has_text(kept->Err_0[0], ": "@ + trimmed(reply_at(h, at + 1)->Ok_0.stderr))
            }
        }),
{
    let state = state_result(reply_at(h, at), tailnet_port, remote_port);
    let refused = publish_talk(h, at, tailnet_port, remote_port).value;
    let kept = withdraw_talk(h, at, tailnet_port, remote_port).value;
    if state is Ok && (state->Ok_0 is Absent || state->Ok_0 is Published) {
        assert(has_text(refused->Err_0[0], "publish port "@ + dec(tailnet_port as nat) + " "@)
            && has_text(
                refused->Err_0[0],
                ": "@ + trimmed(reply_at(h, at + 1)->Ok_0.stderr) + "\n"@,
            )) by {
            let s0 = "the remote refused to publish port "@;
            let s1 = dec(tailnet_port as nat);
            let s2 = " on the tailnet: "@;
            let s3 = trimmed(reply_at(h, at + 1)->Ok_0.stderr);
            let s4 =
            "\nThis is usually the tailnet's own policy. Check that the machine is allowed to serve, then try again."@;
            let x1 = s0 + s1;
            let x2 = x1 + s2;
            let x3 = x2 + s3;
            let x4 = x3 + s4;
            assert(refused->Err_0[0] == x4);
            let part = "publish port "@ + s1 + " "@;
            assert(has_text(x4, part)) by {
                let h = s0.subrange(0, 22);
                assert(s0 =~= h + "publish port "@) by {
                    reveal_strlit("the remote refused to publish port ");
                    reveal_strlit("publish port ");
                }
                let r = s2.subrange(1, s2.len() as int);
                assert(s2 =~= " "@ + r) by {
                    reveal_strlit(" on the tailnet: ");
                    reveal_strlit(" ");
                }
                assert(x2 =~= h + part + r);
                lemma_has_text(h, part, r);
                lemma_goes_on(x2, s3, part);
                lemma_goes_on(x3, s4, part);
            }
            let part = ": "@ + s3 + "\n"@;
            assert(has_text(x4, part)) by {
                let h = s2.subrange(0, 15);
                assert(s2 =~= h + ": "@) by {
                    reveal_strlit(" on the tailnet: ");
                    reveal_strlit(": ");
                }
                let r = s4.subrange(1, s4.len() as int);
                assert(s4 =~= "\n"@ + r) by {
                    reveal_strlit(
                        "\nThis is usually the tailnet's own policy. Check that the machine is allowed to serve, then try again.",
                    );
                    reveal_strlit("\n");
                }
                assert(x4 =~= (x1 + h) + part + r);
                lemma_has_text(x1 + h, part, r);
            }
        }
    }
    if state is Ok && state->Ok_0 is Published {
        assert(has_text(kept->Err_0[0], "withdraw port "@ + dec(tailnet_port as nat) + " "@)
            && has_text(kept->Err_0[0], ": "@ + trimmed(reply_at(h, at + 1)->Ok_0.stderr))) by {
            let s0 = "failed to withdraw port "@;
            let s1 = dec(tailnet_port as nat);
            let s2 = " on the remote: "@;
            let s3 = trimmed(reply_at(h, at + 1)->Ok_0.stderr);
            let x1 = s0 + s1;
            let x2 = x1 + s2;
            let x3 = x2 + s3;
            assert(kept->Err_0[0] == x3);
            let part = "withdraw port "@ + s1 + " "@;
            assert(has_text(x3, part)) by {
                let h = s0.subrange(0, 10);
                assert(s0 =~= h + "withdraw port "@) by {
                    reveal_strlit("failed to withdraw port ");
                    reveal_strlit("withdraw port ");
                }
                let r = s2.subrange(1, s2.len() as int);
                assert(s2 =~= " "@ + r) by {
                    reveal_strlit(" on the remote: ");
                    reveal_strlit(" ");
                }
                assert(x2 =~= h + part + r);
                lemma_has_text(h, part, r);
                lemma_goes_on(x2, s3, part);
            }
            let part = ": "@ + s3;
            assert(has_text(x3, part)) by {
                let h = s2.subrange(0, 14);
                assert(s2 =~= h + ": "@) by {
                    reveal_strlit(" on the remote: ");
                    reveal_strlit(": ");
                }
                assert(x3 =~= (x1 + h) + part + Seq::<char>::empty());
                lemma_has_text(x1 + h, part, Seq::<char>::empty());
            }
        }
    }
}

/// What a machine reports counts as its configuration where it holds nothing at all, or
/// something under one of the names that a configuration has; anything else cannot be
/// read, and nor can what is no record. No report, or an empty one, is a port that is not
/// there.
pub proof fn law_a_configuration_is_told_by_its_names(
    all: Seq<(Seq<char>, Json)>,
    j: Json,
    text: Seq<char>,
    tailnet_port: u16,
    remote_port: u16,
)
    ensures
        looks_like_config(all) <==> all.len() == 0 || exists|i: int|
            0 <= i < all.len() && ((#[trigger] all[i]).0 == "TCP"@ || all[i].0 == "Web"@
                || all[i].0 == "Services"@ || all[i].0 == "AllowFunnel"@ || all[i].0
                == "Foreground"@),
        !looks_like_config(all) ==> document_state(Json::Obj(all), tailnet_port, remote_port)
            is Unreadable,
        looks_like_config(all) && config_of(Json::Obj(all)) is Some ==> document_state(
            Json::Obj(all),
            tailnet_port,
            remote_port,
        ) == config_state(config_of(Json::Obj(all))->0, tailnet_port, remote_port),
        j !is Obj ==> document_state(j, tailnet_port, remote_port) is Unreadable,
        trimmed(text).len() == 0 || trimmed(text) == "null"@ ==> classified(
            text,
            tailnet_port,
            remote_port,
        ) is Absent,
        trimmed(text).len() > 0 && trimmed(text) != "null"@ ==> classified(
            text,
            tailnet_port,
            remote_port,
        ) == (match parsed(trimmed(text)) {
            Err(_) => StateView::Unreadable,
            Ok(document) => document_state(document, tailnet_port, remote_port),
        }),
{
    if exists|i: int|
        0 <= i < all.len() && ((#[trigger] all[i]).0 == "TCP"@ || all[i].0 == "Web"@ || all[i].0
            == "Services"@ || all[i].0 == "AllowFunnel"@ || all[i].0 == "Foreground"@) {
        let i = choose|i: int|
            0 <= i < all.len() && ((#[trigger] all[i]).0 == "TCP"@ || all[i].0 == "Web"@
                || all[i].0 == "Services"@ || all[i].0 == "AllowFunnel"@ || all[i].0
                == "Foreground"@);
        assert(serve_config_key(all[i].0));
    }
    if all.len() > 0 && looks_like_config(all) {
        let i = choose|i: int| 0 <= i < all.len() && serve_config_key(#[trigger] all[i].0);
        assert(all[i].0 == "TCP"@ || all[i].0 == "Web"@ || all[i].0 == "Services"@ || all[i].0
            == "AllowFunnel"@ || all[i].0 == "Foreground"@);
    }
}

} // verus!
