//! The services a machine says it manages.

use vstd::prelude::*;
use crate::failure::{plain, told_text, within, Failure};
use crate::json::{every, lookup, members, parse, parsed, tree, trees, Json};
use crate::remote::transport::{
    asks, goes_on, held, reply_at, run_result, Exchange, Talk, Transport,
};
use crate::text::{dec, opt_view, push_number};

verus! {

/// One entry of a machine's service registry, as far as it is read.
#[derive(Debug, PartialEq, Eq)]
pub struct ServiceEntry {
    pub service_id: String,
    pub port: u16,
    pub created_at_unix_ms: u128,
    pub status: String,
}

pub struct EntryView {
    pub service_id: Seq<char>,
    pub port: u16,
    pub created_at_unix_ms: u128,
    pub status: Seq<char>,
}

impl View for ServiceEntry {
    type V = EntryView;

    open spec fn view(&self) -> EntryView {
        EntryView {
            service_id: self.service_id@,
            port: self.port,
            created_at_unix_ms: self.created_at_unix_ms,
            status: self.status@,
        }
    }
}

pub open spec fn entry_views(s: Seq<ServiceEntry>) -> Seq<EntryView> {
    s.map_values(|e: ServiceEntry| e@)
}

/// An entry as a document says it; every field has to be there.
pub open spec fn entry_of(j: Json) -> Option<EntryView> {
    match j {
        Json::Obj(all) => match (
            lookup(all, "service_id"@),
            lookup(all, "port"@),
            lookup(all, "created_at_unix_ms"@),
            lookup(all, "status"@),
        ) {
            (
                Some(Json::Str(service_id)),
                Some(Json::Number(Some(port))),
                Some(Json::Number(Some(created))),
                Some(Json::Str(status)),
            ) => if port <= u16::MAX {
                Some(
                    EntryView {
                        service_id,
                        port: port as u16,
                        created_at_unix_ms: created as u128,
                        status,
                    },
                )
            } else {
                None
            },
            _ => None,
        },
        _ => None,
    }
}

pub open spec fn entries_of(j: Json) -> Option<Seq<EntryView>> {
    match j {
        Json::Arr(items) => every(items.map_values(|i: Json| entry_of(i))),
        _ => None,
    }
}

pub open spec fn misread() -> Seq<char> {
    "could not understand the remote's service registry; the remote CLI may be a different version than this one"@
}

/// The registry a text holds.
pub open spec fn registry(text: Seq<char>) -> Result<Seq<EntryView>, Seq<Seq<char>>> {
    match parsed(text) {
        Err(fault) => Err(within(misread(), plain(fault))),
        Ok(j) => match entries_of(j) {
            Some(entries) => Ok(entries),
            None => Err(plain(misread())),
        },
    }
}

fn read_entry(v: &serde_json::Value) -> (r: Option<ServiceEntry>)
    ensures
        (match r {
            Some(e) => Some(e@),
            None => None,
        }) == entry_of(tree(*v)),
{
    if members(v).is_none() {
        return None;
    }
    let id = crate::json::field_of(v, "service_id", 0);
    let port = crate::json::field_of(v, "port", 0);
    let created = crate::json::field_of(v, "created_at_unix_ms", 0);
    let status = crate::json::field_of(v, "status", 0);
    match (id, port, created, status) {
        (Some(id), Some(port), Some(created), Some(status)) => {
            match (id.as_str(), port.as_u64(), created.as_u64(), status.as_str()) {
                (Some(id), Some(port), Some(created), Some(status)) => {
                    if port > 65535 {
                        return None;
                    }
                    Some(
                        ServiceEntry {
                            service_id: id.to_owned(),
                            port: port as u16,
                            created_at_unix_ms: created as u128,
                            status: status.to_owned(),
                        },
                    )
                },
                _ => None,
            }
        },
        _ => None,
    }
}

fn read_entries(v: &serde_json::Value) -> (r: Option<Vec<ServiceEntry>>)
    ensures
        (match r {
            Some(list) => Some(entry_views(list@)),
            None => None,
        }) == entries_of(tree(*v)),
{
    match v.as_array() {
        None => None,
        Some(items) => {
            let ghost read = trees(items@).map_values(|i: Json| entry_of(i));
            let mut out: Vec<ServiceEntry> = Vec::new();
            let mut i: usize = 0;
            while i < items.len()
                invariant
                    i <= items@.len(),
                    read == trees(items@).map_values(|i: Json| entry_of(i)),
                    out@.len() == i,
                    tree(*v) == Json::Arr(trees(items@)),
                    forall|j: int| 0 <= j < i ==> #[trigger] read[j] == Some(out@[j]@),
                decreases items@.len() - i,
            {
                assert(read[i as int] == entry_of(tree(items@[i as int])));
                match read_entry(&items[i]) {
                    Some(e) => {
                        out.push(e);
                    },
                    None => {
                        assert(read[i as int] is None);
                        return None;
                    },
                }
                i += 1;
            }
            assert(entry_views(out@) =~= read.map_values(|o: Option<EntryView>| o->0));
            Some(out)
        },
    }
}

/// Reads the text of `rocm services list --json`.
pub fn parse_services(listing: &str) -> (r: Result<Vec<ServiceEntry>, Failure>)
    ensures
        (match r {
            Ok(list) => Ok(entry_views(list@)),
            Err(e) => Err(e@),
        }) == registry(listing@),
{
    let message =
        "could not understand the remote's service registry; the remote CLI may be a different version than this one";
    match parse(listing) {
        Err(fault) => Err(Failure::new(fault).context(message.to_owned())),
        Ok(document) => match read_entries(&document) {
            Some(list) => Ok(list),
            None => Err(Failure::new(message.to_owned())),
        },
    }
}

/// The newest service on a port; of equally old ones the last listed.
pub open spec fn newest(entries: Seq<EntryView>, port: u16) -> Option<EntryView>
    decreases entries.len(),
{
    if entries.len() == 0 {
        None
    } else {
        let earlier = newest(entries.drop_last(), port);
        let here = entries.last();
        if here.port != port {
            earlier
        } else {
            match earlier {
                Some(e) if here.created_at_unix_ms < e.created_at_unix_ms => earlier,
                _ => Some(here),
            }
        }
    }
}

/// The id of the newest service on the port.
pub fn newest_on_port(entries: &Vec<ServiceEntry>, port: u16) -> (r: Option<String>)
    ensures
        opt_view(r) == (match newest(entry_views(entries@), port) {
            Some(e) => Some(e.service_id),
            None => None,
        }),
{
    let ghost all = entry_views(entries@);
    let mut best: Option<usize> = None;
    let mut i: usize = 0;
    assert(all.subrange(0, 0) =~= seq![]);
    while i < entries.len()
        invariant
            i <= entries@.len(),
            all == entry_views(entries@),
            match best {
                Some(b) => b < i && newest(all.subrange(0, i as int), port) == Some(
                    entries@[b as int]@,
                ),
                None => newest(all.subrange(0, i as int), port) is None,
            },
        decreases entries@.len() - i,
    {
        assert(all.subrange(0, i + 1).drop_last() =~= all.subrange(0, i as int));
        assert(all.subrange(0, i + 1).last() == entries@[i as int]@);
        if entries[i].port == port {
            let older = match best {
                Some(b) => entries[i].created_at_unix_ms < entries[b].created_at_unix_ms,
                None => false,
            };
            if !older {
                best = Some(i);
            }
        }
        i += 1;
    }
    assert(all.subrange(0, all.len() as int) =~= all);
    match best {
        Some(b) => Some(entries[b].service_id.clone()),
        None => None,
    }
}

pub open spec fn list_line(remote_cli: Seq<char>) -> Seq<char> {
    remote_cli + " services list --json --all"@
}

pub fn list_command(remote_cli: &str) -> (r: String)
    ensures
        r@ == list_line(remote_cli@),
{
    let mut out = remote_cli.to_owned();
    out.push_str(" services list --json --all");
    out
}

/// Finding the service just started, by the port it was asked to bind.
pub open spec fn discover_talk(
    h: Seq<Exchange>,
    at: int,
    remote_cli: Seq<char>,
    remote_port: u16,
) -> Talk<Result<Seq<char>, Seq<Seq<char>>>> {
    Talk {
        fits: asks(h, at, list_line(remote_cli)),
        end: at + 1,
        value: match run_result(list_line(remote_cli), reply_at(h, at)) {
            Err(e) => Err(
                within(
                    "could not read the remote's service registry after starting the model"@,
                    e,
                ),
            ),
            Ok(listing) => match registry(listing) {
                Err(e) => Err(e),
                Ok(entries) => match newest(entries, remote_port) {
                    Some(e) => Ok(e.service_id),
                    None => Err(
                        plain(
                            "the remote started no service on port "@ + dec(remote_port as nat)
                                + "; nothing to publish"@,
                        ),
                    ),
                },
            },
        },
    }
}

pub fn discover_started_service<T: Transport>(
    transport: &mut T,
    remote_cli: &str,
    remote_port: u16,
) -> (r: Result<String, Failure>)
    ensures
        held(
            old(transport).history(),
            final(transport).history(),
            discover_talk(
                final(transport).history(),
                old(transport).history().len() as int,
                remote_cli@,
                remote_port,
            ),
        ),
        told_text(r) == discover_talk(
            final(transport).history(),
            old(transport).history().len() as int,
            remote_cli@,
            remote_port,
        ).value,
{
    let ghost before = transport.history();
    let listing = transport.run(list_command(remote_cli).as_str());
    assert(goes_on(before, transport.history())) by {
        assert forall|i: int| 0 <= i < before.len() implies transport.history()[i] == before[i] by {
            assert(transport.history().drop_last()[i] == before[i]);
        }
    }
    let listing = match listing {
        Err(e) => {
            return Err(
                e.context(
                    "could not read the remote's service registry after starting the model".to_owned(),
                ),
            );
        },
        Ok(listing) => listing,
    };
    let entries = match parse_services(listing.as_str()) {
        Err(e) => {
            return Err(e);
        },
        Ok(entries) => entries,
    };
    match newest_on_port(&entries, remote_port) {
        Some(id) => Ok(id),
        None => {
            let mut message = "the remote started no service on port ".to_owned();
            push_number(&mut message, remote_port as u128);
            message.push_str("; nothing to publish");
            Err(Failure::new(message))
        },
    }
}

/// The service found is on the port asked for, is listed, and no other on that
/// port is newer.
pub proof fn law_the_newest_service_is_found(entries: Seq<EntryView>, port: u16)
    ensures
        match newest(entries, port) {
            Some(e) => entries.contains(e) && e.port == port && forall|i: int|
                0 <= i < entries.len() && (#[trigger] entries[i]).port == port
                    ==> entries[i].created_at_unix_ms <= e.created_at_unix_ms,
            None => forall|i: int| 0 <= i < entries.len() ==> (#[trigger] entries[i]).port != port,
        },
    decreases entries.len(),
{
    if entries.len() > 0 {
        let front = entries.drop_last();
        law_the_newest_service_is_found(front, port);
        assert forall|i: int| 0 <= i < front.len() implies entries[i] == front[i] by {}
        match newest(entries, port) {
            Some(e) => {
                if e == entries.last() {
                    assert(entries[entries.len() - 1] == e);
                } else {
                    let k = choose|k: int| 0 <= k < front.len() && front[k] == e;
                    assert(entries[k] == e);
                }
                assert forall|i: int|
                    0 <= i < entries.len() && (#[trigger] entries[i]).port
                        == port implies entries[i].created_at_unix_ms <= e.created_at_unix_ms by {
                    if i < front.len() {
                        assert(front[i].port == port);
                    }
                }
            },
            None => {
                assert forall|i: int| 0 <= i < entries.len() implies (#[trigger] entries[i]).port
                    != port by {
                    if i < front.len() {
                        assert(front[i].port != port);
                    }
                }
            },
        }
    }
}

/// A service is found by the port that it was asked to bind, among those that the
/// machine lists: the command lists them, and what is found is the id of a listed
/// service on that port such that none on it is newer. It is found exactly where the
/// machine listed them and has one on the port.
pub proof fn law_a_started_service_is_found_by_its_port(
    h: Seq<Exchange>,
    at: int,
    remote_cli: Seq<char>,
    remote_port: u16,
)
    ensures
        ({
            let found = discover_talk(h, at, remote_cli, remote_port);
            let listed = registry(reply_at(h, at)->Ok_0.stdout);
            let answered = reply_at(h, at) is Ok && reply_at(h, at)->Ok_0.success;
            &&& found.end == at + 1
            &&& found.fits ==> asks(h, at, list_line(remote_cli))
            &&& found.value matches Ok(id) ==> answered && listed is Ok && exists|i: int|
                0 <= i < listed->Ok_0.len() && (#[trigger] listed->Ok_0[i]).service_id == id
                    && listed->Ok_0[i].port == remote_port && forall|k: int|
                    0 <= k < listed->Ok_0.len() && (#[trigger] listed->Ok_0[k]).port == remote_port
                        ==> listed->Ok_0[k].created_at_unix_ms
                        <= listed->Ok_0[i].created_at_unix_ms
            &&& answered && listed is Ok && (exists|i: int|
                0 <= i < listed->Ok_0.len() && (#[trigger] listed->Ok_0[i]).port == remote_port)
                ==> found.value is Ok
        }),
{
    let answered = reply_at(h, at) is Ok && reply_at(h, at)->Ok_0.success;
    let listed = registry(reply_at(h, at)->Ok_0.stdout);
    if answered && listed is Ok {
        law_the_newest_service_is_found(listed->Ok_0, remote_port);
        if let Some(e) = newest(listed->Ok_0, remote_port) {
            let i = choose|i: int| 0 <= i < listed->Ok_0.len() && listed->Ok_0[i] == e;
            assert(listed->Ok_0[i].service_id == e.service_id);
        }
    }
}

/// An entry of the registry is read by the names of its members, and one that lacks
/// any of them, or whose port is no port, cannot be read.
pub proof fn law_an_entry_is_read_by_its_names(all: Seq<(Seq<char>, Json)>)
    ensures
        ({
            let read = entry_of(Json::Obj(all));
            &&& read matches Some(e) ==> {
                &&& lookup(all, "service_id"@) == Some(Json::Str(e.service_id))
                &&& lookup(all, "status"@) == Some(Json::Str(e.status))
                &&& lookup(all, "port"@) == Some(Json::Number(Some(e.port as u64)))
                &&& lookup(all, "created_at_unix_ms"@) matches Some(Json::Number(Some(n)))
                    && e.created_at_unix_ms == n
            }
            &&& read is Some <==> lookup(all, "service_id"@) is Some && lookup(
                all,
                "service_id"@,
            )->0 is Str && lookup(all, "status"@) is Some && lookup(all, "status"@)->0 is Str && (
            lookup(all, "port"@) matches Some(Json::Number(Some(n))) && n <= 65535) && (lookup(
                all,
                "created_at_unix_ms"@,
            ) matches Some(Json::Number(Some(_))))
        }),
{
}

} // verus!
