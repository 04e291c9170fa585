//! The local tailnet: which machines exist, and how to address one.
//!
//! Everything here comes from the local Tailscale daemon. Listing machines does
//! not take reaching them, and which of them may be reached is the tailnet's
//! own policy.

use vstd::prelude::*;
use crate::failure::{plain, told_text, within, Failure};
use crate::json::{
    as_flag, as_text, as_texts, every, field, field_of, is_record, lookup, members, opt_tree, parse,
    parsed, record,
    text_items, tree, Json,
};
use crate::order::{ranks, sort, sorted};
use crate::text::{
    after_last, comes_before, contains, dec, has_text, join, joined, last_part,
    lemma_after_last_split, lemma_goes_on, lemma_has_text, lemma_joined_hold, lemma_stands_within,
    lemma_trimmed_end_of, lower, occurs_at, opt_text, opt_view, push_number, same,
    same_ignoring_case, strip_prefix_or_all, text_before, texts, to_lower, trim, trim_end_of,
    trimmed, trimmed_end_of, whitespace, whole_lines, without_prefix, write_lines,
};

verus! {

/// What the daemon calls itself when it can be used.
pub const BACKEND_RUNNING: &'static str = "Running";

/// One machine on the tailnet.
#[derive(Debug, PartialEq, Eq)]
pub struct TailnetPeer {
    /// Short host name, not unique across a tailnet.
    pub host: String,
    /// Full name, without the dot at its end.
    pub dns_name: String,
    pub addresses: Vec<String>,
    pub os: String,
    pub tags: Vec<String>,
    pub online: bool,
}

pub struct PeerView {
    pub host: Seq<char>,
    pub dns_name: Seq<char>,
    pub addresses: Seq<Seq<char>>,
    pub os: Seq<char>,
    pub tags: Seq<Seq<char>>,
    pub online: bool,
}

impl View for TailnetPeer {
    type V = PeerView;

    open spec fn view(&self) -> PeerView {
        PeerView {
            host: self.host@,
            dns_name: self.dns_name@,
            addresses: texts(self.addresses@),
            os: self.os@,
            tags: texts(self.tags@),
            online: self.online,
        }
    }
}

pub open spec fn peer_views(s: Seq<TailnetPeer>) -> Seq<PeerView> {
    s.map_values(|p: TailnetPeer| p@)
}

pub open spec fn opt_peer(o: Option<TailnetPeer>) -> Option<PeerView> {
    match o {
        Some(p) => Some(p@),
        None => None,
    }
}

/// The tailnet as this machine sees it.
#[derive(Debug)]
pub struct TailnetStatus {
    pub this_machine: Option<TailnetPeer>,
    pub peers: Vec<TailnetPeer>,
    /// Tailscale runs without a network device, so traffic to a peer is relayed.
    pub userspace_networking: bool,
}

pub struct StatusView {
    pub this_machine: Option<PeerView>,
    pub peers: Seq<PeerView>,
    pub userspace_networking: bool,
}

impl View for TailnetStatus {
    type V = StatusView;

    open spec fn view(&self) -> StatusView {
        StatusView {
            this_machine: opt_peer(self.this_machine),
            peers: peer_views(self.peers@),
            userspace_networking: self.userspace_networking,
        }
    }
}

// ---------------------------------------------------------------------------
// One peer
// ---------------------------------------------------------------------------

/// The name to address a machine by: its full name, else its first address.
pub open spec fn endpoint_of(p: PeerView) -> Seq<char> {
    if p.dns_name.len() > 0 {
        p.dns_name
    } else if p.addresses.len() > 0 {
        p.addresses[0]
    } else {
        seq![]
    }
}

/// A tag without the prefix it has on the wire.
pub open spec fn bare_tag(tag: Seq<char>) -> Seq<char> {
    without_prefix(tag, "tag:"@)
}

pub open spec fn tagged(p: PeerView, tag: Seq<char>) -> bool {
    exists|i: int| 0 <= i < p.tags.len() && bare_tag(#[trigger] p.tags[i]) == bare_tag(tag)
}

/// Whether `needle` is this machine's name, full name or address.
pub open spec fn named_exactly(p: PeerView, needle: Seq<char>) -> bool {
    let n = trimmed_end_of(needle, '.');
    ||| lower(p.dns_name) == lower(n)
    ||| lower(p.host) == lower(n)
    ||| p.addresses.contains(n)
}

/// Whether `needle` stands in one of this machine's names.
pub open spec fn named_loosely(p: PeerView, needle: Seq<char>) -> bool {
    has_text(lower(p.host), lower(needle)) || has_text(lower(p.dns_name), lower(needle))
}

fn among(list: &Vec<String>, wanted: &String) -> (r: bool)
    ensures
        r == texts(list@).contains(wanted@),
{
    let ghost all = texts(list@);
    let mut i: usize = 0;
    while i < list.len()
        invariant
            i <= list@.len(),
            all == texts(list@),
            forall|j: int| 0 <= j < i ==> #[trigger] all[j] != wanted@,
        decreases list@.len() - i,
    {
        assert(all[i as int] == list@[i as int]@);
        if list[i] == *wanted {
            return true;
        }
        i += 1;
    }
    false
}

impl TailnetPeer {
    pub fn endpoint_host(&self) -> (r: &str)
        ensures
            r@ == endpoint_of(self@),
    {
        if !self.dns_name.as_str().is_empty() {
            self.dns_name.as_str()
        } else if self.addresses.len() > 0 {
            assert(self@.addresses[0] == self.addresses@[0]@);
            self.addresses[0].as_str()
        } else {
            proof {
                reveal_strlit("");
            }
            assert(""@ =~= seq![]);
            ""
        }
    }

    /// Whether the machine has the tag, with or without its `tag:`.
    pub fn has_tag(&self, tag: &str) -> (r: bool)
        ensures
            r == tagged(self@, tag@),
    {
        let wanted = strip_prefix_or_all(tag, "tag:");
        let ghost all = self@.tags;
        let mut i: usize = 0;
        while i < self.tags.len()
            invariant
                i <= self.tags@.len(),
                all == texts(self.tags@),
                wanted@ == bare_tag(tag@),
                forall|j: int| 0 <= j < i ==> bare_tag(#[trigger] all[j]) != bare_tag(tag@),
            decreases self.tags@.len() - i,
        {
            assert(all[i as int] == self.tags@[i as int]@);
            if strip_prefix_or_all(self.tags[i].as_str(), "tag:") == wanted {
                assert(bare_tag(self@.tags[i as int]) == bare_tag(tag@));
                return true;
            }
            i += 1;
        }
        false
    }

    pub fn matches_exactly(&self, needle: &str) -> (r: bool)
        ensures
            r == named_exactly(self@, needle@),
    {
        let name = trim_end_of(needle, '.');
        same_ignoring_case(self.dns_name.as_str(), name.as_str()) || same_ignoring_case(
            self.host.as_str(),
            name.as_str(),
        ) || among(&self.addresses, &name)
    }

    pub fn matches_loosely(&self, needle: &str) -> (r: bool)
        ensures
            r == named_loosely(self@, needle@),
    {
        let name = to_lower(needle);
        contains(to_lower(self.host.as_str()).as_str(), name.as_str()) || contains(
            to_lower(self.dns_name.as_str()).as_str(),
            name.as_str(),
        )
    }
}

// ---------------------------------------------------------------------------
// The status document
// ---------------------------------------------------------------------------

/// A machine as the daemon reports it.
pub struct RawPeer {
    pub host_name: String,
    pub dns_name: String,
    pub os: String,
    pub tailscale_ips: Vec<String>,
    pub tags: Vec<String>,
    pub online: bool,
}

/// `tailscale status --json`, as far as it is read.
pub struct RawStatus {
    pub backend_state: String,
    pub tun: bool,
    pub this_machine: Option<RawPeer>,
    pub peers: Vec<RawPeer>,
}

/// What a reported machine is shown as: its full name loses the dot at its end.
pub open spec fn shown_peer(raw: PeerView) -> PeerView {
    PeerView { dns_name: trimmed_end_of(raw.dns_name, '.'), ..raw }
}

impl View for RawPeer {
    type V = PeerView;

    open spec fn view(&self) -> PeerView {
        PeerView {
            host: self.host_name@,
            dns_name: self.dns_name@,
            addresses: texts(self.tailscale_ips@),
            os: self.os@,
            tags: texts(self.tags@),
            online: self.online,
        }
    }
}

impl RawPeer {
    pub fn into_peer(self) -> (r: TailnetPeer)
        ensures
            r@ == shown_peer(self@),
    {
        TailnetPeer {
            host: self.host_name,
            dns_name: trim_end_of(self.dns_name.as_str(), '.'),
            addresses: self.tailscale_ips,
            os: self.os,
            tags: self.tags,
            online: self.online,
        }
    }
}

pub open spec fn raw_peer_views(s: Seq<RawPeer>) -> Seq<PeerView> {
    s.map_values(|p: RawPeer| p@)
}

pub open spec fn opt_raw_peer(o: Option<RawPeer>) -> Option<PeerView> {
    match o {
        Some(p) => Some(p@),
        None => None,
    }
}

pub struct RawStatusView {
    pub backend_state: Seq<char>,
    pub tun: bool,
    pub this_machine: Option<PeerView>,
    pub peers: Seq<PeerView>,
}

impl View for RawStatus {
    type V = RawStatusView;

    open spec fn view(&self) -> RawStatusView {
        RawStatusView {
            backend_state: self.backend_state@,
            tun: self.tun,
            this_machine: opt_raw_peer(self.this_machine),
            peers: raw_peer_views(self.peers@),
        }
    }
}

/// A text field that may be missing.
pub open spec fn text_or_none(j: Option<Json>) -> Option<Seq<char>> {
    match j {
        None => Some(seq![]),
        Some(x) => as_text(x),
    }
}

pub open spec fn flag_or_false(j: Option<Json>) -> Option<bool> {
    match j {
        None => Some(false),
        Some(x) => as_flag(x),
    }
}

pub open spec fn texts_or_none(j: Option<Json>) -> Option<Seq<Seq<char>>> {
    match j {
        None => Some(seq![]),
        Some(x) => as_texts(x),
    }
}

/// A machine as a document says it. Any field may be missing; one that is there
/// has to have its shape.
pub open spec fn peer_of(j: Json) -> Option<PeerView> {
    let host = text_or_none(field(j, "HostName"@, 0));
    let dns_name = text_or_none(field(j, "DNSName"@, 1));
    let os = text_or_none(field(j, "OS"@, 2));
    let addresses = texts_or_none(field(j, "TailscaleIPs"@, 3));
    let tags = texts_or_none(field(j, "Tags"@, 4));
    let online = flag_or_false(field(j, "Online"@, 5));
    if record(j, 6) && host is Some && dns_name is Some && os is Some && addresses is Some
        && tags is Some && online is Some {
        Some(
            PeerView {
                host: host->0,
                dns_name: dns_name->0,
                addresses: addresses->0,
                os: os->0,
                tags: tags->0,
                online: online->0,
            },
        )
    } else {
        None
    }
}

/// This machine, which a document may leave out or give as null.
pub open spec fn self_of(j: Option<Json>) -> Option<Option<PeerView>> {
    match j {
        None | Some(Json::Null) => Some(None),
        Some(x) => match peer_of(x) {
            Some(p) => Some(Some(p)),
            None => None,
        },
    }
}

pub open spec fn peers_of(j: Option<Json>) -> Option<Seq<PeerView>> {
    match j {
        None => Some(seq![]),
        Some(Json::Obj(all)) => every(all.map_values(|m: (Seq<char>, Json)| peer_of(m.1))),
        _ => None,
    }
}

/// A status as a document says it. The backend state has to be there: without
/// it the document is no status at all.
pub open spec fn status_of(j: Json) -> Option<RawStatusView> {
    let backend = match field(j, "BackendState"@, 0) {
        Some(x) => as_text(x),
        None => None,
    };
    let tun = flag_or_false(field(j, "TUN"@, 1));
    let this_machine = self_of(field(j, "Self"@, 2));
    let peers = peers_of(field(j, "Peer"@, 3));
    let shaped = record(j, 4) && (j matches Json::Arr(items) ==> items.len() >= 3);
    if shaped && backend is Some && tun is Some && this_machine is Some && peers is Some {
        Some(
            RawStatusView {
                backend_state: backend->0,
                tun: tun->0,
                this_machine: this_machine->0,
                peers: peers->0,
            },
        )
    } else {
        None
    }
}

fn read_text(v: Option<&serde_json::Value>) -> (r: Option<String>)
    ensures
        opt_view(r) == text_or_none(opt_tree(v)),
{
    match v {
        None => Some(String::new()),
        Some(x) => match x.as_str() {
            Some(s) => Some(s.to_owned()),
            None => None,
        },
    }
}

fn read_texts(v: Option<&serde_json::Value>) -> (r: Option<Vec<String>>)
    ensures
        (match r {
            Some(list) => Some(texts(list@)),
            None => None,
        }) == texts_or_none(opt_tree(v)),
{
    match v {
        None => {
            let out: Vec<String> = Vec::new();
            assert(texts(out@) =~= seq![]);
            Some(out)
        },
        Some(x) => text_items(x),
    }
}

fn read_flag(v: Option<&serde_json::Value>) -> (r: Option<bool>)
    ensures
        r == flag_or_false(opt_tree(v)),
{
    match v {
        None => Some(false),
        Some(x) => x.as_bool(),
    }
}

fn read_peer(v: &serde_json::Value) -> (r: Option<RawPeer>)
    ensures
        opt_raw_peer(r) == peer_of(tree(*v)),
{
    if !is_record(v, 6) {
        return None;
    }
    let host_name = read_text(field_of(v, "HostName", 0));
    let dns_name = read_text(field_of(v, "DNSName", 1));
    let os = read_text(field_of(v, "OS", 2));
    let ips = read_texts(field_of(v, "TailscaleIPs", 3));
    let tags = read_texts(field_of(v, "Tags", 4));
    let online = read_flag(field_of(v, "Online", 5));
    match (host_name, dns_name, os, ips, tags, online) {
        (
            Some(host_name),
            Some(dns_name),
            Some(os),
            Some(tailscale_ips),
            Some(tags),
            Some(online),
        ) => Some(RawPeer { host_name, dns_name, os, tailscale_ips, tags, online }),
        _ => None,
    }
}

fn read_self(v: Option<&serde_json::Value>) -> (r: Option<Option<RawPeer>>)
    ensures
        (match r {
            Some(p) => Some(opt_raw_peer(p)),
            None => None,
        }) == self_of(opt_tree(v)),
{
    match v {
        None => Some(None),
        Some(x) => {
            if x.is_null() {
                Some(None)
            } else {
                match read_peer(x) {
                    Some(p) => Some(Some(p)),
                    None => None,
                }
            }
        },
    }
}

fn read_peers(v: Option<&serde_json::Value>) -> (r: Option<Vec<RawPeer>>)
    ensures
        (match r {
            Some(list) => Some(raw_peer_views(list@)),
            None => None,
        }) == peers_of(opt_tree(v)),
{
    let mut out: Vec<RawPeer> = Vec::new();
    let value = match v {
        None => {
            assert(raw_peer_views(out@) =~= seq![]);
            return Some(out);
        },
        Some(value) => value,
    };
    let list = match members(value) {
        None => {
            return None;
        },
        Some(list) => list,
    };
    let ghost all = tree(*value)->Obj_0;
    let ghost read = all.map_values(|m: (Seq<char>, Json)| peer_of(m.1));
    let mut i: usize = 0;
    while i < list.len()
        invariant
            i <= list@.len(),
            list@.len() == all.len(),
            read == all.map_values(|m: (Seq<char>, Json)| peer_of(m.1)),
            opt_tree(v) == Some(Json::Obj(all)),
            forall|j: int| 0 <= j < list@.len() ==> tree(*(#[trigger] list@[j]).1) == all[j].1,
            out@.len() == i,
            forall|j: int| 0 <= j < i ==> #[trigger] read[j] == Some(out@[j]@),
        decreases list@.len() - i,
    {
        let entry = &list[i];
        assert(read[i as int] == peer_of(tree(*entry.1)));
        match read_peer(entry.1) {
            Some(p) => {
                out.push(p);
            },
            None => {
                assert(read[i as int] is None);
                return None;
            },
        }
        i += 1;
    }
    assert(raw_peer_views(out@) =~= read.map_values(|o: Option<PeerView>| o->0));
    Some(out)
}

/// Reads a status out of a document.
pub fn read_status(v: &serde_json::Value) -> (r: Option<RawStatus>)
    ensures
        (match r {
            Some(s) => Some(s@),
            None => None,
        }) == status_of(tree(*v)),
{
    if !is_record(v, 4) {
        return None;
    }
    if let Some(items) = v.as_array() {
        if items.len() < 3 {
            return None;
        }
    }
    let backend = match field_of(v, "BackendState", 0) {
        None => None,
        Some(x) => match x.as_str() {
            Some(s) => Some(s.to_owned()),
            None => None,
        },
    };
    let tun = read_flag(field_of(v, "TUN", 1));
    let this_machine = read_self(field_of(v, "Self", 2));
    let peers = read_peers(field_of(v, "Peer", 3));
    match (backend, tun, this_machine, peers) {
        (Some(backend_state), Some(tun), Some(this_machine), Some(peers)) => Some(
            RawStatus { backend_state, tun, this_machine, peers },
        ),
        _ => None,
    }
}

/// Whether one machine is listed before another: by host name in small letters,
/// then by full name.
pub open spec fn listed_before(a: PeerView, b: PeerView) -> bool {
    ||| text_before(lower(a.host), lower(b.host))
    ||| lower(a.host) == lower(b.host) && text_before(a.dns_name, b.dns_name)
}

pub open spec fn listing_order() -> spec_fn(PeerView, PeerView) -> bool {
    |a: PeerView, b: PeerView| !listed_before(b, a)
}

/// The tailnet a reported status shows, its machines in listing order.
pub open spec fn shown_status(raw: RawStatusView) -> StatusView {
    StatusView {
        this_machine: match raw.this_machine {
            Some(p) => Some(shown_peer(p)),
            None => None,
        },
        peers: sorted(raw.peers.map_values(|p: PeerView| shown_peer(p)), listing_order()),
        userspace_networking: !raw.tun,
    }
}

/// Turns a reported status into the backend state and the tailnet.
pub fn status_from_raw(raw: RawStatus) -> (r: (String, TailnetStatus))
    ensures
        r.0@ == raw@.backend_state,
        r.1@ == shown_status(raw@),
{
    let ghost reported = raw@;
    let mut rest = raw.peers;
    let ghost all = raw.peers@;
    let n: usize = rest.len();
    let mut peers: Vec<TailnetPeer> = Vec::new();
    let mut i: usize = 0;
    assert(all.subrange(0, all.len() as int) =~= all);
    while i < n
        invariant
            i <= n,
            n == all.len(),
            rest@ == all.subrange(i as int, n as int),
            peers@.len() == i,
            forall|j: int| 0 <= j < i ==> (#[trigger] peers@[j])@ == shown_peer(all[j]@),
        decreases n - i,
    {
        let p = rest.remove(0);
        assert(rest@ =~= all.subrange(i + 1, n as int));
        peers.push(p.into_peer());
        i += 1;
    }
    assert(peer_views(peers@) =~= reported.peers.map_values(|p: PeerView| shown_peer(p)));
    let ghost le = |a: TailnetPeer, b: TailnetPeer| !listed_before(b@, a@);
    let ghost unsorted = peers@;
    let no_later = |a: &TailnetPeer, b: &TailnetPeer| -> (o: bool)
        ensures
            o == !listed_before(b@, a@),
    {
        let x = to_lower(b.host.as_str());
        let y = to_lower(a.host.as_str());
        !(comes_before(x.as_str(), y.as_str()) || (x == y && comes_before(
            b.dns_name.as_str(),
            a.dns_name.as_str(),
        )))
    };
    let peers = sort(peers, no_later, Ghost(le));
    proof {
        crate::order::lemma_sorted_map(unsorted, le, |p: TailnetPeer| p@, listing_order());
    }
    let this_machine = match raw.this_machine {
        Some(p) => Some(p.into_peer()),
        None => None,
    };
    (raw.backend_state, TailnetStatus { this_machine, peers, userspace_networking: !raw.tun })
}

pub open spec fn not_a_status() -> Seq<char> {
    "failed to parse `tailscale status --json`; the output was not a status document"@
}

/// The status a text holds, with its backend state.
pub open spec fn status_parsed(text: Seq<char>) -> Result<(Seq<char>, StatusView), Seq<Seq<char>>> {
    match parsed(text) {
        Err(message) => Err(within(not_a_status(), plain(message))),
        Ok(j) => match status_of(j) {
            None => Err(plain(not_a_status())),
            Some(raw) => Ok((raw.backend_state, shown_status(raw))),
        },
    }
}

/// Reads the text of `tailscale status --json`.
///
/// A member a document gives twice counts as its last occurrence says.
pub fn parse_status(json: &str) -> (r: Result<(String, TailnetStatus), Failure>)
    ensures
        (match r {
            Ok(s) => Ok((s.0@, s.1@)),
            Err(e) => Err(e@),
        }) == status_parsed(json@),
{
    let message = "failed to parse `tailscale status --json`; the output was not a status document";
    match parse(json) {
        Err(fault) => Err(Failure::new(fault).context(message.to_owned())),
        Ok(document) => match read_status(&document) {
            None => Err(Failure::new(message.to_owned())),
            Some(raw) => Ok(status_from_raw(raw)),
        },
    }
}

pub fn status_is_running(backend_state: &str) -> (r: bool)
    ensures
        r == (backend_state@ == BACKEND_RUNNING@),
{
    same(backend_state, BACKEND_RUNNING)
}

// ---------------------------------------------------------------------------
// Whether there is a tailnet at all
// ---------------------------------------------------------------------------

/// What came of running `tailscale status --json`.
pub enum StatusOutput {
    /// There is no such program.
    NotFound,
    /// It could not be run, and why.
    Unlaunched(String),
    Exited { success: bool, stdout: String, stderr: String },
}

/// What this machine's Tailscale looks like.
#[derive(Debug)]
pub enum TailnetAvailability {
    NotInstalled,
    /// Installed but not usable, most often because it was never connected.
    NotRunning { backend_state: String },
    Running(TailnetStatus),
}

pub enum AvailabilityView {
    NotInstalled,
    NotRunning(Seq<char>),
    Running(StatusView),
}

impl View for TailnetAvailability {
    type V = AvailabilityView;

    open spec fn view(&self) -> AvailabilityView {
        match *self {
            TailnetAvailability::NotInstalled => AvailabilityView::NotInstalled,
            TailnetAvailability::NotRunning { backend_state } => AvailabilityView::NotRunning(
                backend_state@,
            ),
            TailnetAvailability::Running(status) => AvailabilityView::Running(status@),
        }
    }
}

pub open spec fn availability_of(output: StatusOutput) -> Result<AvailabilityView, Seq<Seq<char>>> {
    match output {
        StatusOutput::NotFound => Ok(AvailabilityView::NotInstalled),
        StatusOutput::Unlaunched(why) => Err(
            within("failed to run `tailscale status --json`"@, plain(why@)),
        ),
        StatusOutput::Exited { success, stdout, stderr } => if !success {
            Err(plain("`tailscale status --json` failed: "@ + trimmed(stderr@)))
        } else {
            match status_parsed(stdout@) {
                Err(e) => Err(e),
                Ok((backend, status)) => if backend == BACKEND_RUNNING@ {
                    Ok(AvailabilityView::Running(status))
                } else {
                    Ok(AvailabilityView::NotRunning(backend))
                },
            }
        },
    }
}

/// What the local daemon's answer means.
pub fn local_status(output: &StatusOutput) -> (r: Result<TailnetAvailability, Failure>)
    ensures
        (match r {
            Ok(a) => Ok(a@),
            Err(e) => Err(e@),
        }) == availability_of(*output),
{
    match output {
        StatusOutput::NotFound => Ok(TailnetAvailability::NotInstalled),
        StatusOutput::Unlaunched(why) => Err(
            Failure::new(why.clone()).context("failed to run `tailscale status --json`".to_owned()),
        ),
        StatusOutput::Exited { success, stdout, stderr } => {
            if !*success {
                let mut message = "`tailscale status --json` failed: ".to_owned();
                message.push_str(trim(stderr.as_str()).as_str());
                return Err(Failure::new(message));
            }
            match parse_status(stdout.as_str()) {
                Err(e) => Err(e),
                Ok((backend_state, status)) => if status_is_running(backend_state.as_str()) {
                    Ok(TailnetAvailability::Running(status))
                } else {
                    Ok(TailnetAvailability::NotRunning { backend_state })
                },
            }
        },
    }
}

// ---------------------------------------------------------------------------
// Which machine was meant
// ---------------------------------------------------------------------------

/// The part of a destination the tailnet knows: what follows the last `@`.
pub open spec fn needle_of(destination: Seq<char>) -> Seq<char> {
    trimmed(after_last(destination, '@'))
}

/// The machines named exactly, in order.
pub open spec fn exact(peers: Seq<PeerView>, needle: Seq<char>) -> Seq<PeerView>
    decreases peers.len(),
{
    if peers.len() == 0 {
        seq![]
    } else if named_exactly(peers.last(), needle) {
        exact(peers.drop_last(), needle).push(peers.last())
    } else {
        exact(peers.drop_last(), needle)
    }
}

/// The machines named loosely, in order.
pub open spec fn loose(peers: Seq<PeerView>, needle: Seq<char>) -> Seq<PeerView>
    decreases peers.len(),
{
    if peers.len() == 0 {
        seq![]
    } else if named_loosely(peers.last(), needle) {
        loose(peers.drop_last(), needle).push(peers.last())
    } else {
        loose(peers.drop_last(), needle)
    }
}

pub open spec fn hosts(peers: Seq<PeerView>) -> Seq<Seq<char>> {
    peers.map_values(|p: PeerView| p.host)
}

/// What each machine is addressed by, which tells machines of one name apart.
pub open spec fn endpoints(peers: Seq<PeerView>) -> Seq<Seq<char>> {
    peers.map_values(|p: PeerView| endpoint_of(p))
}

pub open spec fn ambiguous(needle: Seq<char>, candidates: Seq<Seq<char>>) -> Seq<Seq<char>> {
    plain(
        "`"@ + needle + "` matches more than one machine on the tailnet: "@ + joined(
            candidates,
            ", "@,
        ) + "\nName one of them exactly."@,
    )
}

/// The machine a name means: the only one it names exactly, else, where it names
/// none so, the only one it names loosely. A name that fits several is refused
/// rather than guessed at.
pub open spec fn resolved(peers: Seq<PeerView>, destination: Seq<char>) -> Result<
    Option<PeerView>,
    Seq<Seq<char>>,
> {
    let needle = needle_of(destination);
    let named = exact(peers, needle);
    let several = loose(peers, needle);
    if needle.len() == 0 {
        Ok(None)
    } else if named.len() == 1 {
        Ok(Some(named[0]))
    } else if named.len() > 1 {
        Err(ambiguous(needle, endpoints(named)))
    } else if several.len() == 0 {
        Ok(None)
    } else if several.len() == 1 {
        Ok(Some(several[0]))
    } else {
        Err(ambiguous(needle, hosts(several)))
    }
}

fn refuse_ambiguous(needle: &str, candidates: &Vec<String>) -> (r: Failure)
    ensures
        r@ == ambiguous(needle@, texts(candidates@)),
{
    let mut message = "`".to_owned();
    message.push_str(needle);
    message.push_str("` matches more than one machine on the tailnet: ");
    message.push_str(join(candidates, ", ").as_str());
    message.push_str("\nName one of them exactly.");
    Failure::new(message)
}

/// Finds the machine meant by `destination`.
///
/// No machine of that name is an answer; a name that fits several is a failure.
pub fn resolve_peer<'a>(status: &'a TailnetStatus, destination: &str) -> (r: Result<
    Option<&'a TailnetPeer>,
    Failure,
>)
    ensures
        (match r {
            Ok(Some(p)) => Ok(Some(p@)),
            Ok(None) => Ok(None),
            Err(e) => Err(e@),
        }) == resolved(status@.peers, destination@),
{
    let needle = trim(last_part(destination, '@').as_str());
    if needle.as_str().is_empty() {
        return Ok(None);
    }
    let ghost all = status@.peers;
    let mut named: Vec<usize> = Vec::new();
    let mut addresses: Vec<String> = Vec::new();
    let mut found: Vec<usize> = Vec::new();
    let mut names: Vec<String> = Vec::new();
    let mut i: usize = 0;
    assert(all.subrange(0, 0) =~= seq![]);
    while i < status.peers.len()
        invariant
            i <= status.peers@.len(),
            all == peer_views(status.peers@),
            named@.len() == exact(all.subrange(0, i as int), needle@).len(),
            addresses@.len() == named@.len(),
            forall|j: int|
                0 <= j < named@.len() ==> {
                    &&& (#[trigger] named@[j]) < status.peers@.len()
                    &&& exact(all.subrange(0, i as int), needle@)[j]
                        == status.peers@[named@[j] as int]@
                    &&& addresses@[j]@ == endpoint_of(status.peers@[named@[j] as int]@)
                },
            found@.len() == loose(all.subrange(0, i as int), needle@).len(),
            names@.len() == found@.len(),
            forall|j: int|
                0 <= j < found@.len() ==> {
                    &&& (#[trigger] found@[j]) < status.peers@.len()
                    &&& loose(all.subrange(0, i as int), needle@)[j]
                        == status.peers@[found@[j] as int]@
                    &&& names@[j]@ == status.peers@[found@[j] as int]@.host
                },
        decreases status.peers@.len() - i,
    {
        assert(all.subrange(0, i + 1).drop_last() =~= all.subrange(0, i as int));
        assert(all.subrange(0, i + 1).last() == status.peers@[i as int]@);
        if status.peers[i].matches_exactly(needle.as_str()) {
            named.push(i);
            addresses.push(status.peers[i].endpoint_host().to_owned());
        }
        if status.peers[i].matches_loosely(needle.as_str()) {
            found.push(i);
            names.push(status.peers[i].host.clone());
        }
        i += 1;
    }
    assert(all.subrange(0, all.len() as int) =~= all);
    if named.len() == 1 {
        assert(named@[0] < status.peers@.len());
        return Ok(Some(&status.peers[named[0]]));
    }
    if named.len() > 1 {
        assert forall|j: int| 0 <= j < addresses@.len() implies texts(addresses@)[j] == endpoints(
            exact(all, needle@),
        )[j] by {
            assert(named@[j] < status.peers@.len());
        }
        assert(texts(addresses@) =~= endpoints(exact(all, needle@)));
        return Err(refuse_ambiguous(needle.as_str(), &addresses));
    }
    if found.len() == 0 {
        Ok(None)
    } else if found.len() == 1 {
        assert(found@[0] < status.peers@.len());
        Ok(Some(&status.peers[found[0]]))
    } else {
        assert forall|j: int| 0 <= j < names@.len() implies texts(names@)[j] == hosts(
            loose(all, needle@),
        )[j] by {
            assert(found@[j] < status.peers@.len());
        }
        assert(texts(names@) =~= hosts(loose(all, needle@)));
        Err(refuse_ambiguous(needle.as_str(), &names))
    }
}

/// What a target resolves to on the tailnet: the name of a machine that is
/// there and up, or why there is none.
pub open spec fn target_of(availability: AvailabilityView, target: Seq<char>) -> Result<
    Seq<char>,
    Seq<Seq<char>>,
> {
    match availability {
        AvailabilityView::NotInstalled => Err(
            plain(
                "Tailscale is not installed on this machine.\n`rocm remote serve` publishes the model onto your tailnet, so both machines need it. Install Tailscale and run `tailscale up`, then try again."@,
            ),
        ),
        AvailabilityView::NotRunning(state) => Err(
            plain(
                "Tailscale is installed but not connected (state: "@ + state
                    + ").\nRun `tailscale up` on this machine, then try again."@,
            ),
        ),
        AvailabilityView::Running(status) => match resolved(status.peers, target) {
            Err(e) => Err(e),
            Ok(None) => Err(
                plain(
                    "`"@ + target
                        + "` is not a machine on this tailnet.\nRun `rocm remote targets` to see what is."@,
                ),
            ),
            Ok(Some(peer)) => if !peer.online {
                Err(
                    plain(
                        "`"@ + target
                            + "` is on this tailnet but currently offline.\nStart it, or run `rocm remote targets` to pick another machine."@,
                    ),
                )
            } else {
                Ok(endpoint_of(peer))
            },
        },
    }
}

/// Resolves a target to the name its endpoint is built on.
pub fn resolve_target(availability: &TailnetAvailability, target: &str) -> (r: Result<
    String,
    Failure,
>)
    ensures
        told_text(r) == target_of(availability@, target@),
{
    match availability {
        TailnetAvailability::NotInstalled => Err(
            Failure::new(
                "Tailscale is not installed on this machine.\n`rocm remote serve` publishes the model onto your tailnet, so both machines need it. Install Tailscale and run `tailscale up`, then try again.".to_owned(),
            ),
        ),
        TailnetAvailability::NotRunning { backend_state } => {
            let mut message = "Tailscale is installed but not connected (state: ".to_owned();
            message.push_str(backend_state.as_str());
            message.push_str(").\nRun `tailscale up` on this machine, then try again.");
            Err(Failure::new(message))
        },
        TailnetAvailability::Running(status) => match resolve_peer(status, target) {
            Err(e) => Err(e),
            Ok(None) => {
                let mut message = "`".to_owned();
                message.push_str(target);
                message.push_str(
                    "` is not a machine on this tailnet.\nRun `rocm remote targets` to see what is.",
                );
                Err(Failure::new(message))
            },
            Ok(Some(peer)) => {
                if !peer.online {
                    let mut message = "`".to_owned();
                    message.push_str(target);
                    message.push_str(
                        "` is on this tailnet but currently offline.\nStart it, or run `rocm remote targets` to pick another machine.",
                    );
                    return Err(Failure::new(message));
                }
                Ok(peer.endpoint_host().to_owned())
            },
        },
    }
}

// ---------------------------------------------------------------------------
// Listing
// ---------------------------------------------------------------------------

/// Whether a machine is listed under a tag; every machine is under none.
pub open spec fn selected(p: PeerView, tag: Option<Seq<char>>) -> bool {
    match tag {
        Some(t) => tagged(p, t),
        None => true,
    }
}

/// The machines listed under a tag, in order.
pub open spec fn selection(peers: Seq<PeerView>, tag: Option<Seq<char>>) -> Seq<PeerView>
    decreases peers.len(),
{
    if peers.len() == 0 {
        seq![]
    } else if selected(peers.last(), tag) {
        selection(peers.drop_last(), tag).push(peers.last())
    } else {
        selection(peers.drop_last(), tag)
    }
}

/// How many of the machines are up.
pub open spec fn online_count(peers: Seq<PeerView>) -> nat
    decreases peers.len(),
{
    if peers.len() == 0 {
        0
    } else {
        online_count(peers.drop_last()) + (if peers.last().online {
            1nat
        } else {
            0nat
        })
    }
}

/// One machine's entry.
pub open spec fn entry_lines(p: PeerView) -> Seq<Seq<char>> {
    seq!["- "@ + p.host, "  address: "@ + endpoint_of(p)] + (if p.addresses.len() > 0 {
        seq!["  ip: "@ + joined(p.addresses, ", "@)]
    } else {
        seq![]
    }) + (if p.os.len() > 0 {
        seq!["  os: "@ + p.os]
    } else {
        seq![]
    }) + (if p.tags.len() > 0 {
        seq!["  tags: "@ + joined(p.tags, ", "@)]
    } else {
        seq![]
    }) + seq![
        "  online: "@ + (if p.online {
            "yes"@
        } else {
            "no"@
        }),
        "  check: rocm remote doctor "@ + p.host,
    ]
}

pub open spec fn all_entry_lines(peers: Seq<PeerView>) -> Seq<Seq<char>>
    decreases peers.len(),
{
    if peers.len() == 0 {
        seq![]
    } else {
        all_entry_lines(peers.drop_last()) + entry_lines(peers.last())
    }
}

/// How many of the listed machines are up and how many are not.
pub open spec fn status_line(listed: Seq<PeerView>) -> Seq<char> {
    "Status: "@ + dec(online_count(listed)) + " online, "@ + dec(
        (listed.len() - online_count(listed)) as nat,
    ) + " offline"@
}

/// The head of the listing: where it is seen from, and how many machines it has.
pub open spec fn head_lines(status: StatusView, listed: Seq<PeerView>) -> Seq<Seq<char>> {
    seq!["Remote Targets"@, Seq::empty()] + (match status.this_machine {
        Some(m) => seq!["This machine: "@ + m.host],
        None => seq![],
    }) + seq![status_line(listed), Seq::empty()]
}

/// What the foot says where traffic takes no direct path.
pub open spec fn relay_lines() -> Seq<Seq<char>> {
    seq![
        "Note: Tailscale is running here without a network device, so traffic to these"@,
        "machines is relayed rather than sent directly, which limits throughput."@,
        Seq::empty(),
    ]
}

/// The foot of the listing: that being listed is not being ready.
pub open spec fn foot_lines(userspace_networking: bool, tag: Option<Seq<char>>) -> Seq<Seq<char>> {
    seq![Seq::<char>::empty()] + (if userspace_networking {
        relay_lines()
    } else {
        seq![]
    }) + seq![
        "Listed machines are reachable on the tailnet. That does not mean they have a GPU,"@,
        "ROCm, or the ROCm CLI — run `rocm remote doctor <machine>` to find out."@,
    ] + (if tag is None {
        seq!["Narrow this list with `--tag <tag>` once your tailnet tags its GPU machines."@]
    } else {
        seq![]
    })
}

/// What is said where no machine is listed.
pub open spec fn none_listed(tag: Option<Seq<char>>) -> Seq<char> {
    match tag {
        Some(t) => "No tailnet machines are tagged `"@ + t + "`."@,
        None => "No other machines are on this tailnet."@,
    }
}

/// The listing of the machines under a tag, line by line.
pub open spec fn target_lines(status: StatusView, tag: Option<Seq<char>>) -> Seq<Seq<char>> {
    let listed = selection(status.peers, tag);
    if listed.len() == 0 {
        head_lines(status, listed).push(none_listed(tag))
    } else {
        head_lines(status, listed) + all_entry_lines(listed) + foot_lines(
            status.userspace_networking,
            tag,
        )
    }
}

pub open spec fn targets_text(status: StatusView, tag: Option<Seq<char>>) -> Seq<char> {
    whole_lines(target_lines(status, tag))
}

fn put_line(list: &mut Vec<String>, label: &str, value: &str)
    ensures
        texts(final(list)@) == texts(old(list)@).push(label@ + value@),
{
    let ghost before = texts(list@);
    let mut out = label.to_owned();
    out.push_str(value);
    list.push(out);
    assert(texts(list@) =~= before.push(label@ + value@));
}

fn put_text(list: &mut Vec<String>, text: &str)
    ensures
        texts(final(list)@) == texts(old(list)@).push(text@),
{
    let ghost before = texts(list@);
    list.push(text.to_owned());
    assert(texts(list@) =~= before.push(text@));
}

fn put_blank(list: &mut Vec<String>)
    ensures
        texts(final(list)@) == texts(old(list)@).push(Seq::empty()),
{
    let ghost before = texts(list@);
    list.push(String::new());
    assert(texts(list@) =~= before.push(Seq::empty()));
}

fn put_target(list: &mut Vec<String>, peer: &TailnetPeer)
    ensures
        texts(final(list)@) == texts(old(list)@) + entry_lines(peer@),
{
    let ghost before = texts(list@);
    put_line(list, "- ", peer.host.as_str());
    put_line(list, "  address: ", peer.endpoint_host());
    if peer.addresses.len() > 0 {
        put_line(list, "  ip: ", join(&peer.addresses, ", ").as_str());
    }
    if !peer.os.as_str().is_empty() {
        put_line(list, "  os: ", peer.os.as_str());
    }
    if peer.tags.len() > 0 {
        put_line(list, "  tags: ", join(&peer.tags, ", ").as_str());
    }
    put_line(
        list,
        "  online: ",
        if peer.online {
            "yes"
        } else {
            "no"
        },
    );
    put_line(list, "  check: rocm remote doctor ", peer.host.as_str());
    assert(texts(list@) =~= before + entry_lines(peer@));
}

fn put_foot(list: &mut Vec<String>, userspace_networking: bool, tag: Option<&str>)
    ensures
        texts(final(list)@) == texts(old(list)@) + foot_lines(userspace_networking, opt_text(tag)),
{
    let ghost before = texts(list@);
    put_blank(list);
    if userspace_networking {
        put_text(
            list,
            "Note: Tailscale is running here without a network device, so traffic to these",
        );
        put_text(list, "machines is relayed rather than sent directly, which limits throughput.");
        put_blank(list);
    }
    put_text(
        list,
        "Listed machines are reachable on the tailnet. That does not mean they have a GPU,",
    );
    put_text(list, "ROCm, or the ROCm CLI — run `rocm remote doctor <machine>` to find out.");
    if tag.is_none() {
        put_text(
            list,
            "Narrow this list with `--tag <tag>` once your tailnet tags its GPU machines.",
        );
    }
    assert(texts(list@) =~= before + foot_lines(userspace_networking, opt_text(tag)));
}

proof fn lemma_online_count(peers: Seq<PeerView>)
    ensures
        online_count(peers) <= peers.len(),
    decreases peers.len(),
{
    if peers.len() > 0 {
        lemma_online_count(peers.drop_last());
    }
}

/// Lists the machines under a tag.
pub fn render_targets(status: &TailnetStatus, tag: Option<&str>) -> (r: String)
    ensures
        r@ == targets_text(status@, opt_text(tag)),
{
    let ghost all = status@.peers;
    let ghost wanted = opt_text(tag);
    let ghost listed = selection(all, wanted);
    let mut found: Vec<usize> = Vec::new();
    let mut online: usize = 0;
    let mut i: usize = 0;
    assert(all.subrange(0, 0) =~= seq![]);
    while i < status.peers.len()
        invariant
            i <= status.peers@.len(),
            all == peer_views(status.peers@),
            wanted == opt_text(tag),
            found@.len() == selection(all.subrange(0, i as int), wanted).len(),
            online == online_count(selection(all.subrange(0, i as int), wanted)),
            found@.len() <= i,
            online <= i,
            forall|j: int|
                0 <= j < found@.len() ==> {
                    &&& (#[trigger] found@[j]) < status.peers@.len()
                    &&& selection(all.subrange(0, i as int), wanted)[j]
                        == status.peers@[found@[j] as int]@
                },
        decreases status.peers@.len() - i,
    {
        let ghost before = selection(all.subrange(0, i as int), wanted);
        assert(all.subrange(0, i + 1).drop_last() =~= all.subrange(0, i as int));
        assert(all.subrange(0, i + 1).last() == status.peers@[i as int]@);
        let keep = match tag {
            Some(t) => status.peers[i].has_tag(t),
            None => true,
        };
        if keep {
            found.push(i);
            if status.peers[i].online {
                online += 1;
            }
            assert(before.push(status.peers@[i as int]@).drop_last() =~= before);
        }
        i += 1;
    }
    assert(all.subrange(0, all.len() as int) =~= all);
    proof {
        lemma_online_count(listed);
    }
    let mut list: Vec<String> = Vec::new();
    assert(texts(list@) =~= seq![]);
    put_text(&mut list, "Remote Targets");
    put_blank(&mut list);
    if let Some(this_machine) = &status.this_machine {
        put_line(&mut list, "This machine: ", this_machine.host.as_str());
    }
    let mut counts = "Status: ".to_owned();
    push_number(&mut counts, online as u128);
    counts.push_str(" online, ");
    push_number(&mut counts, (found.len() - online) as u128);
    counts.push_str(" offline");
    put_text(&mut list, counts.as_str());
    put_blank(&mut list);
    let ghost head = head_lines(status@, listed);
    assert(texts(list@) =~= head);
    if found.len() == 0 {
        match tag {
            Some(t) => {
                let mut none = "No tailnet machines are tagged `".to_owned();
                none.push_str(t);
                none.push_str("`.");
                put_text(&mut list, none.as_str());
            },
            None => {
                put_text(&mut list, "No other machines are on this tailnet.");
            },
        }
        return write_lines(&list);
    }
    let mut i: usize = 0;
    assert(listed.subrange(0, 0) =~= seq![]);
    assert(head + all_entry_lines(listed.subrange(0, 0)) =~= head);
    while i < found.len()
        invariant
            i <= found@.len(),
            found@.len() == listed.len(),
            forall|j: int|
                0 <= j < found@.len() ==> {
                    &&& (#[trigger] found@[j]) < status.peers@.len()
                    &&& listed[j] == status.peers@[found@[j] as int]@
                },
            texts(list@) == head + all_entry_lines(listed.subrange(0, i as int)),
        decreases found@.len() - i,
    {
        assert(found@[i as int] < status.peers@.len());
        put_target(&mut list, &status.peers[found[i]]);
        assert(listed.subrange(0, i + 1).drop_last() =~= listed.subrange(0, i as int));
        assert(texts(list@) =~= head + all_entry_lines(listed.subrange(0, i + 1)));
        i += 1;
    }
    assert(listed.subrange(0, listed.len() as int) =~= listed);
    put_foot(&mut list, status.userspace_networking, tag);
    write_lines(&list)
}

/// What `rocm remote targets` prints. A missing or idle Tailscale is an answer
/// about the user's setup, not a failure.
pub open spec fn availability_text(availability: AvailabilityView, tag: Option<Seq<char>>) -> Seq<
    char,
> {
    match availability {
        AvailabilityView::NotInstalled =>
            "Tailscale is not installed on this machine, so there are no targets to list.\n\n`rocm remote` reaches GPU machines over a tailnet. Install Tailscale and run\n`tailscale up` on this machine and on the GPU machine, then try again.\n"@,
        AvailabilityView::NotRunning(state) => "Tailscale is installed but not connected (state: "@
            + state + ").\n\nRun `tailscale up` on this machine, then try again.\n"@,
        AvailabilityView::Running(status) => targets_text(status, tag),
    }
}

pub fn targets(availability: &TailnetAvailability, tag: Option<&str>) -> (r: String)
    ensures
        r@ == availability_text(availability@, opt_text(tag)),
{
    match availability {
        TailnetAvailability::NotInstalled =>
            "Tailscale is not installed on this machine, so there are no targets to list.\n\n`rocm remote` reaches GPU machines over a tailnet. Install Tailscale and run\n`tailscale up` on this machine and on the GPU machine, then try again.\n".to_owned(),
        TailnetAvailability::NotRunning { backend_state } => {
            let mut out = "Tailscale is installed but not connected (state: ".to_owned();
            out.push_str(backend_state.as_str());
            out.push_str(").\n\nRun `tailscale up` on this machine, then try again.\n");
            out
        },
        TailnetAvailability::Running(status) => render_targets(status, tag),
    }
}

// ---------------------------------------------------------------------------
// Laws
// ---------------------------------------------------------------------------

proof fn lemma_listing_order_ranks()
    ensures
        ranks(listing_order()),
{
    let le = listing_order();
    assert forall|a: PeerView, b: PeerView| #[trigger] le(a, b) || le(b, a) by {
        crate::text::lemma_text_order(lower(a.host), lower(b.host));
        crate::text::lemma_text_order(a.dns_name, b.dns_name);
    }
    assert forall|a: PeerView, b: PeerView, c: PeerView| #[trigger]
        le(a, b) && #[trigger] le(b, c) implies le(a, c) by {
        let le1 = crate::order::text_le();
        crate::order::lemma_text_le_ranks();
        crate::text::lemma_text_order(lower(a.host), lower(b.host));
        crate::text::lemma_text_order(lower(b.host), lower(c.host));
        crate::text::lemma_text_order(lower(a.host), lower(c.host));
        assert(le1(lower(a.host), lower(b.host)));
        assert(le1(lower(b.host), lower(c.host)));
        assert(le1(lower(a.host), lower(c.host)));
        if lower(a.host) == lower(c.host) {
            assert(le1(lower(c.host), lower(a.host)));
            assert(le1(lower(b.host), lower(a.host)));
            assert(le1(a.dns_name, b.dns_name));
            assert(le1(b.dns_name, c.dns_name));
            assert(le1(a.dns_name, c.dns_name));
        }
    }
}

/// However the daemon orders its machines, they come out in listing order, each
/// of them as often as it was reported.
pub proof fn law_peers_are_listed_in_order(raw: RawStatusView)
    ensures
        crate::order::ascending(shown_status(raw).peers, listing_order()),
        shown_status(raw).peers.to_multiset() == raw.peers.map_values(
            |p: PeerView| shown_peer(p),
        ).to_multiset(),
{
    lemma_listing_order_ranks();
    crate::order::lemma_sorted(
        raw.peers.map_values(|p: PeerView| shown_peer(p)),
        listing_order(),
    );
}

proof fn lemma_exact(peers: Seq<PeerView>, needle: Seq<char>)
    ensures
        forall|i: int|
            0 <= i < exact(peers, needle).len() ==> peers.contains(
                #[trigger] exact(peers, needle)[i],
            ) && named_exactly(exact(peers, needle)[i], needle),
    decreases peers.len(),
{
    if peers.len() > 0 {
        let front = peers.drop_last();
        lemma_exact(front, needle);
        let all = exact(peers, needle);
        assert forall|i: int| 0 <= i < all.len() implies peers.contains(#[trigger] all[i])
            && named_exactly(all[i], needle) by {
            if i < exact(front, needle).len() {
                assert(all[i] == exact(front, needle)[i]);
                let k = choose|k: int| 0 <= k < front.len() && front[k] == all[i];
                assert(peers[k] == all[i]);
            } else {
                assert(peers[peers.len() - 1] == all[i]);
            }
        }
    }
}

proof fn lemma_exact_holds_two(peers: Seq<PeerView>, needle: Seq<char>, i: int, j: int)
    requires
        0 <= i < j < peers.len(),
        named_exactly(peers[i], needle),
        named_exactly(peers[j], needle),
    ensures
        exact(peers, needle).len() >= 2,
    decreases peers.len(),
{
    if j == peers.len() - 1 {
        lemma_exact_holds_one(peers.drop_last(), needle, i);
    } else {
        lemma_exact_holds_two(peers.drop_last(), needle, i, j);
    }
}

proof fn lemma_exact_holds_one(peers: Seq<PeerView>, needle: Seq<char>, i: int)
    requires
        0 <= i < peers.len(),
        named_exactly(peers[i], needle),
    ensures
        exact(peers, needle).len() >= 1,
    decreases peers.len(),
{
    if i < peers.len() - 1 {
        lemma_exact_holds_one(peers.drop_last(), needle, i);
    }
}

proof fn lemma_loose(peers: Seq<PeerView>, needle: Seq<char>)
    ensures
        forall|i: int|
            0 <= i < loose(peers, needle).len() ==> peers.contains(
                #[trigger] loose(peers, needle)[i],
            ) && named_loosely(loose(peers, needle)[i], needle),
    decreases peers.len(),
{
    if peers.len() > 0 {
        let front = peers.drop_last();
        lemma_loose(front, needle);
        let all = loose(peers, needle);
        assert forall|i: int| 0 <= i < all.len() implies peers.contains(#[trigger] all[i])
            && named_loosely(all[i], needle) by {
            if i < loose(front, needle).len() {
                assert(all[i] == loose(front, needle)[i]);
                let k = choose|k: int| 0 <= k < front.len() && front[k] == all[i];
                assert(peers[k] == all[i]);
            } else {
                assert(peers[peers.len() - 1] == all[i]);
            }
        }
    }
}

/// A name means a machine of the tailnet that it names: the only one it names
/// exactly, or, where it names none so, the only one it names loosely.
pub proof fn law_a_resolved_machine_was_named(peers: Seq<PeerView>, destination: Seq<char>)
    requires
        resolved(peers, destination) matches Ok(Some(_)),
    ensures
        ({
            let needle = needle_of(destination);
            let p = resolved(peers, destination)->Ok_0->0;
            &&& peers.contains(p)
            &&& (named_exactly(p, needle) && exact(peers, needle).len() == 1) || (named_loosely(
                p,
                needle,
            ) && loose(peers, needle).len() == 1 && exact(peers, needle).len() == 0)
        }),
{
    let needle = needle_of(destination);
    lemma_exact(peers, needle);
    lemma_loose(peers, needle);
    if exact(peers, needle).len() == 1 {
        assert(peers.contains(exact(peers, needle)[0]));
    } else {
        assert(peers.contains(loose(peers, needle)[0]));
    }
}

/// A name that two machines bear is never resolved to either of them.
pub proof fn law_a_shared_name_is_refused(
    peers: Seq<PeerView>,
    destination: Seq<char>,
    i: int,
    j: int,
)
    requires
        0 <= i < j < peers.len(),
        needle_of(destination).len() > 0,
        named_exactly(peers[i], needle_of(destination)),
        named_exactly(peers[j], needle_of(destination)),
    ensures
        resolved(peers, destination) is Err,
{
    lemma_exact_holds_two(peers, needle_of(destination), i, j);
}

/// A machine that is off is never resolved to.
pub proof fn law_a_target_is_online(status: StatusView, target: Seq<char>)
    requires
        target_of(AvailabilityView::Running(status), target) is Ok,
    ensures
        exists|p: PeerView|
            #![trigger endpoint_of(p)]
            status.peers.contains(p) && p.online && target_of(
                AvailabilityView::Running(status),
                target,
            ) == Ok::<Seq<char>, Seq<Seq<char>>>(endpoint_of(p)),
{
    law_a_resolved_machine_was_named(status.peers, target);
    let p = resolved(status.peers, target)->Ok_0->0;
    assert(status.peers.contains(p) && p.online);
    assert(target_of(AvailabilityView::Running(status), target) == Ok::<Seq<char>, Seq<Seq<char>>>(
        endpoint_of(p),
    ));
}

/// Whether a name is a machine's host name, full name or one of its addresses.
pub open spec fn bears(p: PeerView, name: Seq<char>) -> bool {
    ||| lower(p.host) == lower(name)
    ||| lower(p.dns_name) == lower(name)
    ||| exists|k: int| 0 <= k < p.addresses.len() && #[trigger] p.addresses[k] == name
}

/// Whether a name stands in a machine's host name or full name, in any case of the
/// letters.
pub open spec fn holds(p: PeerView, name: Seq<char>) -> bool {
    has_text(lower(p.host), lower(name)) || has_text(lower(p.dns_name), lower(name))
}

/// Whether a text can be a machine's name as it is given: it is not empty, has no
/// white space at either end, no `@` and no dot at its end.
pub open spec fn plain_name(name: Seq<char>) -> bool {
    &&& name.len() > 0
    &&& !whitespace(name[0]) && !whitespace(name.last()) && name.last() != '.'
    &&& forall|i: int| 0 <= i < name.len() ==> name[i] != '@'
}

proof fn lemma_needle(user: Seq<char>, name: Seq<char>)
    requires
        plain_name(name),
        user.len() > 0 ==> user.last() == '@',
    ensures
        needle_of(user + name) == name,
        forall|p: PeerView| #[trigger] named_exactly(p, name) == bears(p, name),
        forall|p: PeerView| #[trigger] named_loosely(p, name) == holds(p, name),
{
    let s = user + name;
    lemma_after_last_split(s, '@', user.len() as int);
    assert(s.subrange(user.len() as int, s.len() as int) =~= name);
    assert(trimmed_end_of(name, '.') == name);
    assert forall|p: PeerView| #[trigger] named_exactly(p, name) == bears(p, name) by {
        if p.addresses.contains(name) {
            let k = choose|k: int| 0 <= k < p.addresses.len() && p.addresses[k] == name;
            assert(p.addresses[k] == name);
        }
    }
}

proof fn lemma_exact_none(peers: Seq<PeerView>, needle: Seq<char>)
    requires
        forall|j: int| 0 <= j < peers.len() ==> !named_exactly(#[trigger] peers[j], needle),
    ensures
        exact(peers, needle).len() == 0,
    decreases peers.len(),
{
    if peers.len() > 0 {
        assert(!named_exactly(peers[peers.len() - 1], needle));
        lemma_exact_none(peers.drop_last(), needle);
    }
}

proof fn lemma_loose_none(peers: Seq<PeerView>, needle: Seq<char>)
    requires
        forall|j: int| 0 <= j < peers.len() ==> !named_loosely(#[trigger] peers[j], needle),
    ensures
        loose(peers, needle).len() == 0,
    decreases peers.len(),
{
    if peers.len() > 0 {
        assert(!named_loosely(peers[peers.len() - 1], needle));
        lemma_loose_none(peers.drop_last(), needle);
    }
}

proof fn lemma_exact_only(peers: Seq<PeerView>, needle: Seq<char>, i: int)
    requires
        0 <= i < peers.len(),
        named_exactly(peers[i], needle),
        forall|j: int|
            0 <= j < peers.len() && j != i ==> !named_exactly(#[trigger] peers[j], needle),
    ensures
        exact(peers, needle) == seq![peers[i]],
    decreases peers.len(),
{
    let front = peers.drop_last();
    if i == peers.len() - 1 {
        lemma_exact_none(front, needle);
        assert(exact(peers, needle) =~= seq![peers[i]]);
    } else {
        assert(!named_exactly(peers[peers.len() - 1], needle));
        lemma_exact_only(front, needle, i);
    }
}

proof fn lemma_loose_only(peers: Seq<PeerView>, needle: Seq<char>, i: int)
    requires
        0 <= i < peers.len(),
        named_loosely(peers[i], needle),
        forall|j: int|
            0 <= j < peers.len() && j != i ==> !named_loosely(#[trigger] peers[j], needle),
    ensures
        loose(peers, needle) == seq![peers[i]],
    decreases peers.len(),
{
    let front = peers.drop_last();
    if i == peers.len() - 1 {
        lemma_loose_none(front, needle);
        assert(loose(peers, needle) =~= seq![peers[i]]);
    } else {
        assert(!named_loosely(peers[peers.len() - 1], needle));
        lemma_loose_only(front, needle, i);
    }
}

proof fn lemma_loose_holds(peers: Seq<PeerView>, needle: Seq<char>, i: int)
    requires
        0 <= i < peers.len(),
        named_loosely(peers[i], needle),
    ensures
        loose(peers, needle).len() >= 1,
    decreases peers.len(),
{
    if i < peers.len() - 1 {
        lemma_loose_holds(peers.drop_last(), needle, i);
    }
}

proof fn lemma_loose_holds_two(peers: Seq<PeerView>, needle: Seq<char>, i: int, j: int)
    requires
        0 <= i < j < peers.len(),
        named_loosely(peers[i], needle),
        named_loosely(peers[j], needle),
    ensures
        loose(peers, needle).len() >= 2,
    decreases peers.len(),
{
    if j == peers.len() - 1 {
        lemma_loose_holds(peers.drop_last(), needle, i);
    } else {
        lemma_loose_holds_two(peers.drop_last(), needle, i, j);
    }
}

/// A name finds its machine. The only machine that bears it is found; where none
/// bears it, the only one whose names hold it is; where none does, none is; and where
/// several do, it is refused. Who is logged in as, before an `@`, makes no difference.
pub proof fn law_a_name_finds_its_machine(
    peers: Seq<PeerView>,
    user: Seq<char>,
    name: Seq<char>,
    i: int,
    j: int,
)
    requires
        plain_name(name),
        user.len() > 0 ==> user.last() == '@',
        0 <= i < peers.len(),
        0 <= j < peers.len(),
    ensures
        ({
            let found = resolved(peers, user + name);
            let none_bears = forall|k: int|
                0 <= k < peers.len() ==> !bears(#[trigger] peers[k], name);
            &&& bears(peers[i], name) && (forall|k: int|
                0 <= k < peers.len() && k != i ==> !bears(#[trigger] peers[k], name)) ==> found
                == Ok::<_, Seq<Seq<char>>>(Some(peers[i]))
            &&& i != j && bears(peers[i], name) && bears(peers[j], name) ==> found is Err
            &&& none_bears && holds(peers[i], name) && (forall|k: int|
                0 <= k < peers.len() && k != i ==> !holds(#[trigger] peers[k], name)) ==> found
                == Ok::<_, Seq<Seq<char>>>(Some(peers[i]))
            &&& none_bears && i != j && holds(peers[i], name) && holds(peers[j], name) ==> found
                is Err
            &&& none_bears && (forall|k: int|
                0 <= k < peers.len() ==> !holds(#[trigger] peers[k], name)) ==> found
                == Ok::<Option<PeerView>, Seq<Seq<char>>>(None)
            &&& found == resolved(peers, name)
        }),
{
    lemma_needle(user, name);
    lemma_needle(seq![], name);
    assert(Seq::<char>::empty() + name =~= name);
    if bears(peers[i], name) && (forall|k: int|
        0 <= k < peers.len() && k != i ==> !bears(#[trigger] peers[k], name)) {
        lemma_exact_only(peers, name, i);
    }
    if i != j && bears(peers[i], name) && bears(peers[j], name) {
        if i < j {
            lemma_exact_holds_two(peers, name, i, j);
        } else {
            lemma_exact_holds_two(peers, name, j, i);
        }
    }
    if forall|k: int| 0 <= k < peers.len() ==> !bears(#[trigger] peers[k], name) {
        lemma_exact_none(peers, name);
        if holds(peers[i], name) && (forall|k: int|
            0 <= k < peers.len() && k != i ==> !holds(#[trigger] peers[k], name)) {
            lemma_loose_only(peers, name, i);
        }
        if i != j && holds(peers[i], name) && holds(peers[j], name) {
            if i < j {
                lemma_loose_holds_two(peers, name, i, j);
            } else {
                lemma_loose_holds_two(peers, name, j, i);
            }
        }
        if forall|k: int| 0 <= k < peers.len() ==> !holds(#[trigger] peers[k], name) {
            lemma_loose_none(peers, name);
        }
    }
}

/// A dot at the end of a name that a machine bears makes no difference, and no name
/// at all means no machine.
pub proof fn law_a_dot_at_the_end_makes_no_difference(
    peers: Seq<PeerView>,
    name: Seq<char>,
    i: int,
)
    requires
        plain_name(name),
        0 <= i < peers.len(),
        bears(peers[i], name),
        forall|k: int| 0 <= k < peers.len() && k != i ==> !bears(#[trigger] peers[k], name),
    ensures
        resolved(peers, name.push('.')) == Ok::<_, Seq<Seq<char>>>(Some(peers[i])),
        resolved(peers, seq![]) == Ok::<Option<PeerView>, Seq<Seq<char>>>(None),
{
    let dotted = name.push('.');
    lemma_needle(seq![], name);
    lemma_after_last_split(dotted, '@', 0);
    assert(dotted.subrange(0, dotted.len() as int) =~= dotted);
    assert(needle_of(dotted) == dotted);
    assert(dotted.drop_last() =~= name);
    assert(trimmed_end_of(name, '.') == name);
    assert(trimmed_end_of(dotted, '.') == trimmed_end_of(dotted.drop_last(), '.'));
    assert forall|p: PeerView| #[trigger] named_exactly(p, dotted) == named_exactly(p, name) by {}
    assert forall|k: int| 0 <= k < peers.len() && k != i implies !named_exactly(
        #[trigger] peers[k],
        dotted,
    ) by {
        assert(!bears(peers[k], name));
        assert(named_exactly(peers[k], name) == bears(peers[k], name));
    }
    assert(named_exactly(peers[i], name) == bears(peers[i], name));
    lemma_exact_only(peers, dotted, i);
}

/// A target that is one machine of the tailnet and up is addressed by its full name,
/// or by its first address where it has none; one that is down is refused, and so is
/// one that is no machine, and every target where there is no tailnet.
pub proof fn law_a_target_is_addressed_by_its_full_name(
    status: StatusView,
    target: Seq<char>,
    state: Seq<char>,
)
    ensures
        ({
            let found = resolved(status.peers, target);
            let told = target_of(AvailabilityView::Running(status), target);
            &&& told is Ok <==> (found matches Ok(Some(p)) && p.online)
            &&& told matches Ok(name) ==> ({
                let p = found->Ok_0->0;
                &&& p.dns_name.len() > 0 ==> name == p.dns_name
                &&& p.dns_name.len() == 0 && p.addresses.len() > 0 ==> name == p.addresses[0]
            })
            &&& target_of(AvailabilityView::NotInstalled, target) is Err
            &&& target_of(AvailabilityView::NotRunning(state), target) is Err
        }),
{
}

/// A machine is shown under the names, addresses, system, tags and state that were
/// reported of it; its full name alone loses the dots at its end. Traffic is relayed
/// exactly where there is no network device.
pub proof fn law_a_machine_is_shown_as_reported(raw: RawStatusView, p: PeerView)
    ensures
        ({
            let s = shown_peer(p);
            &&& s.host == p.host && s.addresses == p.addresses && s.os == p.os && s.tags == p.tags
                && s.online == p.online
            &&& s.dns_name.len() > 0 ==> s.dns_name.last() != '.'
            &&& occurs_at(p.dns_name, s.dns_name, 0)
            &&& forall|k: int| s.dns_name.len() <= k < p.dns_name.len() ==> p.dns_name[k] == '.'
        }),
        shown_status(raw).userspace_networking <==> !raw.tun,
        shown_status(raw).this_machine is Some <==> raw.this_machine is Some,
        raw.this_machine matches Some(m) ==> shown_status(raw).this_machine->0.host == m.host
            && shown_status(raw).this_machine->0.addresses == m.addresses,
{
    lemma_trimmed_end_of(p.dns_name, '.');
}

/// There is a tailnet exactly where the daemon ran, ended well and says that it is
/// running; where it says anything else, that is passed on.
pub proof fn law_a_tailnet_is_there_only_where_it_runs(output: StatusOutput)
    ensures
        availability_of(output) matches Ok(AvailabilityView::Running(_)) <==> (
        output matches StatusOutput::Exited { success, stdout, .. } && success && (status_parsed(
            stdout@,
        ) matches Ok(found) && found.0 == "Running"@)),
        availability_of(output) matches Ok(AvailabilityView::NotInstalled) <==> output is NotFound,
        availability_of(output) is Err <==> (output is Unlaunched || (
        output matches StatusOutput::Exited { success, stdout, .. } && (!success || status_parsed(
            stdout@,
        ) is Err))),
{
}

/// A machine has a tag exactly if one of its tags is that, with or without the
/// prefix on either.
pub proof fn law_a_tag_is_the_same_with_its_prefix(p: PeerView, tag: Seq<char>)
    requires
        !occurs_at(tag, "tag:"@, 0),
    ensures
        tagged(p, tag) <==> p.tags.contains(tag) || p.tags.contains("tag:"@ + tag),
        tagged(p, "tag:"@ + tag) <==> tagged(p, tag),
{
    let full = "tag:"@ + tag;
    reveal_strlit("tag:");
    assert(full.subrange(0, 4) =~= "tag:"@);
    assert(full.subrange(4, full.len() as int) =~= tag);
    assert(bare_tag(full) == tag);
    assert(bare_tag(tag) == tag);
    if tagged(p, tag) {
        let k = choose|k: int| 0 <= k < p.tags.len() && bare_tag(#[trigger] p.tags[k]) == tag;
        let t = p.tags[k];
        if occurs_at(t, "tag:"@, 0) {
            assert(t =~= t.subrange(0, 4) + t.subrange(4, t.len() as int));
            assert(t == full);
        }
    }
    if p.tags.contains(tag) {
        let k = choose|k: int| 0 <= k < p.tags.len() && p.tags[k] == tag;
        assert(bare_tag(p.tags[k]) == tag);
    }
    if p.tags.contains(full) {
        let k = choose|k: int| 0 <= k < p.tags.len() && p.tags[k] == full;
        assert(bare_tag(p.tags[k]) == tag);
    }
}

/// A machine is read by the names of its members, and what a document leaves out is
/// empty, or off.
pub proof fn law_a_machine_is_read_by_its_names(all: Seq<(Seq<char>, Json)>)
    requires
        peer_of(Json::Obj(all)) is Some,
    ensures
        ({
            let p = peer_of(Json::Obj(all))->0;
            &&& lookup(all, "HostName"@) == Some(Json::Str(p.host)) || (lookup(all, "HostName"@)
                is None && p.host.len() == 0)
            &&& lookup(all, "DNSName"@) == Some(Json::Str(p.dns_name)) || (lookup(all, "DNSName"@)
                is None && p.dns_name.len() == 0)
            &&& lookup(all, "OS"@) == Some(Json::Str(p.os)) || (lookup(all, "OS"@) is None
                && p.os.len() == 0)
            &&& lookup(all, "Online"@) == Some(Json::Bool(p.online)) || (lookup(all, "Online"@)
                is None && !p.online)
            &&& lookup(all, "TailscaleIPs"@) is None ==> p.addresses.len() == 0
            &&& lookup(all, "TailscaleIPs"@) matches Some(Json::Arr(items)) ==> p.addresses.len()
                == items.len() && forall|i: int|
                0 <= i < items.len() ==> #[trigger] items[i] == Json::Str(p.addresses[i])
            &&& lookup(all, "Tags"@) is None ==> p.tags.len() == 0
            &&& lookup(all, "Tags"@) matches Some(Json::Arr(items)) ==> p.tags.len() == items.len()
                && forall|i: int|
                0 <= i < items.len() ==> #[trigger] items[i] == Json::Str(p.tags[i])
        }),
{
    let p = peer_of(Json::Obj(all))->0;
    if let Some(Json::Arr(items)) = lookup(all, "TailscaleIPs"@) {
        let read = items.map_values(|i: Json| as_text(i));
        assert forall|i: int| 0 <= i < items.len() implies #[trigger] items[i] == Json::Str(
            p.addresses[i],
        ) by {
            assert(read[i] is Some);
        }
    }
    if let Some(Json::Arr(items)) = lookup(all, "Tags"@) {
        let read = items.map_values(|i: Json| as_text(i));
        assert forall|i: int| 0 <= i < items.len() implies #[trigger] items[i] == Json::Str(
            p.tags[i],
        ) by {
            assert(read[i] is Some);
        }
    }
}

/// A status is read by the names of its members. It says what state the daemon is in,
/// or it is no status; the machines are those it lists, each read for itself.
pub proof fn law_a_status_is_read_by_its_names(all: Seq<(Seq<char>, Json)>)
    ensures
        ({
            let read = status_of(Json::Obj(all));
            &&& read is Some ==> {
                &&& lookup(all, "BackendState"@) == Some(Json::Str(read->0.backend_state))
                &&& lookup(all, "TUN"@) == Some(Json::Bool(read->0.tun)) || (lookup(all, "TUN"@)
                    is None && !read->0.tun)
                &&& lookup(all, "Self"@) is None ==> read->0.this_machine is None
                &&& lookup(all, "Self"@) matches Some(Json::Obj(m)) ==> read->0.this_machine
                    == peer_of(Json::Obj(m))
                &&& lookup(all, "Peer"@) is None ==> read->0.peers.len() == 0
                &&& lookup(all, "Peer"@) matches Some(Json::Obj(m)) ==> read->0.peers.len()
                    == m.len() && forall|i: int|
                    0 <= i < m.len() ==> peer_of((#[trigger] m[i]).1) == Some(read->0.peers[i])
            }
            &&& lookup(all, "BackendState"@) is None ==> read is None
        }),
{
    let read = status_of(Json::Obj(all));
    if read is Some {
        if let Some(Json::Obj(m)) = lookup(all, "Peer"@) {
            let each = m.map_values(|x: (Seq<char>, Json)| peer_of(x.1));
            assert forall|i: int| 0 <= i < m.len() implies peer_of((#[trigger] m[i]).1) == Some(
                read->0.peers[i],
            ) by {
                assert(each[i] is Some);
            }
        }
    }
}

/// A listing under a tag has the machines of that tag, and one under none has all,
/// in the order they came.
pub proof fn law_a_selection_is_the_machines_of_the_tag(
    peers: Seq<PeerView>,
    tag: Option<Seq<char>>,
)
    ensures
        tag is None ==> selection(peers, tag) == peers,
        tag matches Some(t) ==> selection(peers, tag) == peers.filter(
            |p: PeerView| tagged(p, t),
        ),
        online_count(peers) == peers.filter(|p: PeerView| p.online).len(),
    decreases peers.len(),
{
    reveal(Seq::filter);
    if peers.len() > 0 {
        law_a_selection_is_the_machines_of_the_tag(peers.drop_last(), tag);
        assert(peers.drop_last().push(peers.last()) =~= peers);
    } else {
        assert(selection(peers, tag) =~= peers);
    }
}

/// Machines are listed by host name, whatever the case of its letters, and by full
/// name where those are alike.
pub proof fn law_a_machine_is_listed_by_its_names(raw: RawStatusView, i: int, j: int)
    requires
        0 <= i < j < shown_status(raw).peers.len(),
    ensures
        ({
            let (a, b) = (shown_status(raw).peers[i], shown_status(raw).peers[j]);
            &&& !text_before(lower(b.host), lower(a.host))
            &&& lower(a.host) == lower(b.host) ==> !text_before(b.dns_name, a.dns_name)
        }),
{
    law_peers_are_listed_in_order(raw);
    let s = shown_status(raw).peers;
    let le = listing_order();
    assert(le(s[i], s[j]));
}

/// A name that fits several machines is repeated, and every one of them is named.
pub proof fn law_an_ambiguous_name_is_told_with_all_it_fits(
    needle: Seq<char>,
    candidates: Seq<Seq<char>>,
    k: int,
)
    ensures
        has_text(ambiguous(needle, candidates)[0], "`"@ + needle + "`"@),
        has_text(ambiguous(needle, candidates)[0], ": "@ + joined(candidates, ", "@) + "\n"@),
        ambiguous(needle, candidates).len() == 1,
        0 <= k < candidates.len() ==> has_text(ambiguous(needle, candidates)[0], candidates[k]),
{
    let s0 = "`"@;
    let s1 = needle;
    let s2 = "` matches more than one machine on the tailnet: "@;
    let s3 = joined(candidates, ", "@);
    let s4 = "\nName one of them exactly."@;
    let x1 = s0 + s1;
    let x2 = x1 + s2;
    let x3 = x2 + s3;
    let x4 = x3 + s4;
    assert(ambiguous(needle, candidates)[0] == x4);
    let part = s0 + s1 + "`"@;
    assert(has_text(x4, part)) by {
        let r = s2.subrange(1, s2.len() as int);
        assert(s2 =~= "`"@ + r) by {
            reveal_strlit("` matches more than one machine on the tailnet: ");
            reveal_strlit("`");
        }
        assert(x2 =~= Seq::<char>::empty() + part + r);
        lemma_has_text(Seq::<char>::empty(), part, r);
        lemma_goes_on(x2, s3, part);
        lemma_goes_on(x3, s4, part);
    }
    let part = ": "@ + s3 + "\n"@;
    assert(has_text(x4, part)) by {
        let h = s2.subrange(0, 46);
        assert(s2 =~= h + ": "@) by {
            reveal_strlit("` matches more than one machine on the tailnet: ");
            reveal_strlit(": ");
        }
        let r = s4.subrange(1, s4.len() as int);
        assert(s4 =~= "\n"@ + r) by {
            reveal_strlit("\nName one of them exactly.");
            reveal_strlit("\n");
        }
        assert(x4 =~= (x1 + h) + part + r);
        lemma_has_text(x1 + h, part, r);
    }
    if 0 <= k < candidates.len() {
        let list = joined(candidates, ", "@);
        lemma_joined_hold(candidates, ", "@, k);
        let a = "`"@ + needle + "` matches more than one machine on the tailnet: "@;
        lemma_stands_within(a, list, "\nName one of them exactly."@, candidates[k]);
    }
}

/// A tailnet that is not connected is told with the state it is in; one that is, by its
/// machines; and where there is none, that is said.
pub proof fn law_no_tailnet_is_told_as_such(
    state: Seq<char>,
    status: StatusView,
    tag: Option<Seq<char>>,
)
    ensures
        has_text(
            availability_text(AvailabilityView::NotRunning(state), tag),
            "(state: "@ + state + ")"@,
        ),
        availability_text(AvailabilityView::Running(status), tag) == targets_text(status, tag),
        occurs_at(
            availability_text(AvailabilityView::NotInstalled, tag),
            "Tailscale is not installed on this machine"@,
            0,
        ),
{
    let s0 = "Tailscale is installed but not connected (state: "@;
    let s1 = state;
    let s2 = ").\n\nRun `tailscale up` on this machine, then try again.\n"@;
    let x1 = s0 + s1;
    let x2 = x1 + s2;
    assert(availability_text(AvailabilityView::NotRunning(state), tag) == x2);
    let part = "(state: "@ + s1 + ")"@;
    assert(has_text(x2, part)) by {
        let h = s0.subrange(0, 41);
        assert(s0 =~= h + "(state: "@) by {
            reveal_strlit("Tailscale is installed but not connected (state: ");
            reveal_strlit("(state: ");
        }
        let r = s2.subrange(1, s2.len() as int);
        assert(s2 =~= ")"@ + r) by {
            reveal_strlit(").\n\nRun `tailscale up` on this machine, then try again.\n");
            reveal_strlit(")");
        }
        assert(x2 =~= h + part + r);
        lemma_has_text(h, part, r);
    }
    reveal_strlit(
        "Tailscale is not installed on this machine, so there are no targets to list.\n\n`rocm remote` reaches GPU machines over a tailnet. Install Tailscale and run\n`tailscale up` on this machine and on the GPU machine, then try again.\n",
    );
    reveal_strlit("Tailscale is not installed on this machine");
    assert(availability_text(AvailabilityView::NotInstalled, tag).subrange(0, 42)
        =~= "Tailscale is not installed on this machine"@);
}

} // verus!
