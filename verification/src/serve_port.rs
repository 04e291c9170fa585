//! Which port a local server gets.
//!
//! `--port` is a request: a port, or any that is free. Automatic choice is made
//! on the default loopback host only, where a free port can be proved free; on
//! any other host the engine owns the bind and a port is passed through.

use vstd::prelude::*;
use crate::failure::{plain, told, Failure};
use crate::text::{
    ascii_digit, chars_of, dec, has_text, law_a_number_reads_as_written, lemma_has_text, number_read,
    push_number, same, trim, trimmed,
};

verus! {

/// The first automatic candidate, which is also the port users know.
pub const AUTO_PORT_FIRST: u16 = 11435;

/// How many candidates follow the first.
pub const AUTO_PORT_SPAN: u16 = 100;

/// The last automatic candidate.
pub const AUTO_PORT_LAST: u16 = 11535;

pub const DEFAULT_LOCAL_HOST: &'static str = "127.0.0.1";

/// How a port is described before it is known.
pub const AUTOMATIC_PORT_DISCLOSURE: &'static str = "Port: automatic; endpoint shown after launch";

/// What was asked for.
#[derive(Clone, Copy, Debug, PartialEq, Eq, Structural)]
pub enum PortRequest {
    /// Any free port.
    Auto,
    /// Exactly this one.
    Explicit(u16),
}

impl PortRequest {
    #[must_use]
    pub fn from_flag(port: Option<u16>) -> (r: PortRequest)
        ensures
            r == match port {
                Some(p) => PortRequest::Explicit(p),
                None => PortRequest::Auto,
            },
    {
        match port {
            Some(port) => PortRequest::Explicit(port),
            None => PortRequest::Auto,
        }
    }

    #[must_use]
    pub fn is_auto(self) -> (r: bool)
        ensures
            r == (self is Auto),
    {
        match self {
            PortRequest::Auto => true,
            PortRequest::Explicit(_) => false,
        }
    }

    /// The port, where one was named.
    #[must_use]
    pub fn explicit(self) -> (r: Option<u16>)
        ensures
            r == match self {
                PortRequest::Auto => None,
                PortRequest::Explicit(p) => Some(p),
            },
    {
        match self {
            PortRequest::Auto => None,
            PortRequest::Explicit(port) => Some(port),
        }
    }
}

/// A port that a live managed service owns.
#[derive(Debug, PartialEq, Eq)]
pub struct ReservedPort {
    pub port: u16,
    pub service_id: String,
    pub status: String,
}

pub struct ReservedView {
    pub port: u16,
    pub service_id: Seq<char>,
    pub status: Seq<char>,
}

impl View for ReservedPort {
    type V = ReservedView;

    open spec fn view(&self) -> ReservedView {
        ReservedView { port: self.port, service_id: self.service_id@, status: self.status@ }
    }
}

pub open spec fn reserved_views(s: Seq<ReservedPort>) -> Seq<ReservedView> {
    s.map_values(|r: ReservedPort| r@)
}

// ---------------------------------------------------------------------------
// Reading the flag
// ---------------------------------------------------------------------------

pub open spec fn all_digits(s: Seq<char>) -> bool {
    forall|i: int| 0 <= i < s.len() ==> ascii_digit(#[trigger] s[i])
}

/// The number that a row of digits stands for.
pub open spec fn decimal(s: Seq<char>) -> nat
    decreases s.len(),
{
    if s.len() == 0 {
        0
    } else {
        10 * decimal(s.drop_last()) + (s.last() as nat - '0' as nat) as nat
    }
}

/// The digits of a number that may have a plus sign before it.
pub open spec fn unsigned(s: Seq<char>) -> Seq<char> {
    if s.len() > 0 && s[0] == '+' {
        s.subrange(1, s.len() as int)
    } else {
        s
    }
}

/// The port that a text names, if it names one.
pub open spec fn port_named(value: Seq<char>) -> Option<u16> {
    let digits = unsigned(trimmed(value));
    if digits.len() > 0 && all_digits(digits) && 1 <= decimal(digits) <= 65535 {
        Some(decimal(digits) as u16)
    } else {
        None
    }
}

pub open spec fn port_refusal(value: Seq<char>) -> Seq<char> {
    "port must be a number between 1 and 65535, got '"@ + value + "'"@
}

fn read_port(value: &str) -> (r: Option<u16>)
    ensures
        r == port_named(value@),
{
    let trimmed_value = trim(value);
    let chars = chars_of(trimmed_value.as_str());
    let ghost digits = unsigned(chars@);
    let start: usize = if chars.len() > 0 && chars[0] == '+' {
        1
    } else {
        0
    };
    assert(digits =~= chars@.subrange(start as int, chars@.len() as int));
    if start == chars.len() {
        return None;
    }
    let mut n: u32 = 0;
    let mut over = false;
    let mut i: usize = start;
    assert(digits.subrange(0, 0) =~= seq![]);
    while i < chars.len()
        invariant
            start <= i <= chars@.len(),
            digits == unsigned(trimmed(value@)),
            digits == chars@.subrange(start as int, chars@.len() as int),
            forall|j: int| 0 <= j < i - start ==> ascii_digit(#[trigger] digits[j]),
            over == (decimal(digits.subrange(0, i - start)) > 65535),
            !over ==> n == decimal(digits.subrange(0, i - start)),
            n <= 65535,
        decreases chars@.len() - i,
    {
        let c = chars[i];
        assert(digits[i - start] == c);
        if !('0' <= c && c <= '9') {
            return None;
        }
        assert(digits.subrange(0, i + 1 - start).drop_last() =~= digits.subrange(0, i - start));
        if !over {
            let next: u32 = n * 10 + (c as u32 - '0' as u32);
            if next > 65535 {
                over = true;
            } else {
                n = next;
            }
        }
        i += 1;
    }
    assert(digits.subrange(0, digits.len() as int) =~= digits);
    if over || n == 0 {
        return None;
    }
    Some(n as u16)
}

/// Reads a `--port`. Zero is refused: it would come to mean any port at all.
pub fn parse_serve_port(value: &str) -> (r: Result<u16, String>)
    ensures
        match r {
            Ok(port) => port_named(value@) == Some(port),
            Err(message) => port_named(value@) is None && message@ == port_refusal(value@),
        },
{
    match read_port(value) {
        Some(port) => Ok(port),
        None => {
            let mut message = "port must be a number between 1 and 65535, got '".to_owned();
            message.push_str(value);
            message.push_str("'");
            Err(message)
        },
    }
}

// ---------------------------------------------------------------------------
// Refusing what cannot be checked
// ---------------------------------------------------------------------------

pub open spec fn host_refusal(host: Seq<char>) -> Seq<Seq<char>> {
    plain(
        "`rocm serve --host "@ + host
            + "` needs an explicit `--port <1-65535>`. Automatic port selection is supported only on the default host "@
            + DEFAULT_LOCAL_HOST@
            + ", where ROCm can prove a port is free before launching; on any other address the engine owns the bind."@,
    )
}

fn refuse_host(host: &str) -> (r: Failure)
    ensures
        r@ == host_refusal(host@),
{
    let mut message = "`rocm serve --host ".to_owned();
    message.push_str(host);
    message.push_str(
        "` needs an explicit `--port <1-65535>`. Automatic port selection is supported only on the default host ",
    );
    message.push_str(DEFAULT_LOCAL_HOST);
    message.push_str(
        ", where ROCm can prove a port is free before launching; on any other address the engine owns the bind.",
    );
    Failure::new(message)
}

/// Refuses to choose a port on a host where none can be proved free.
pub fn validate_port_request(host: &str, request: PortRequest) -> (r: Result<(), Failure>)
    ensures
        told(r) == if request is Auto && host@ != DEFAULT_LOCAL_HOST@ {
            Err::<(), _>(host_refusal(host@))
        } else {
            Ok(())
        },
{
    if request.is_auto() && !same(host, DEFAULT_LOCAL_HOST) {
        return Err(refuse_host(host));
    }
    Ok(())
}

// ---------------------------------------------------------------------------
// Choosing
// ---------------------------------------------------------------------------

/// Why a port could not be bound.
#[derive(Debug)]
pub struct BindError {
    /// Something else has the port. Any other reason says nothing of the next
    /// port.
    pub in_use: bool,
    pub message: String,
}

/// A port to serve on: leased, or left to the engine to bind.
#[derive(Debug, PartialEq, Eq)]
pub enum ServePort<L> {
    EngineOwned(u16),
    Leased(L),
}

/// Something that binds a port on the loopback host when it is asked to.
pub trait Probe<L>: Sized {
    /// Whether it can be asked of a port: of any, unless a probe says otherwise.
    open spec fn takes(&self, port: u16) -> bool {
        true
    }

    /// Whether asking it of `port` can give `answer` and leave it as `after`. A probe
    /// that says nothing of this promises nothing.
    open spec fn step(before: Self, port: u16, answer: Result<L, BindError>, after: Self) -> bool {
        true
    }

    fn bind(&mut self, port: u16) -> (r: Result<L, BindError>)
        requires
            old(self).takes(port),
        ensures
            Self::step(*old(self), port, r, *final(self)),
            forall|p: u16| old(self).takes(p) ==> #[trigger] final(self).takes(p),
    ;
}

/// A probe that asks a function of the port.
pub struct FnProbe<F> {
    pub answer: F,
}

impl<L, F: Fn(u16) -> Result<L, BindError>> Probe<L> for FnProbe<F> {
    /// Where the function can be called.
    open spec fn takes(&self, port: u16) -> bool {
        call_requires(self.answer, (port,))
    }

    /// What the function can return. It stays as it is.
    open spec fn step(
        before: FnProbe<F>,
        port: u16,
        answer: Result<L, BindError>,
        after: FnProbe<F>,
    ) -> bool {
        after == before && call_ensures(before.answer, (port,), answer)
    }

    fn bind(&mut self, port: u16) -> (r: Result<L, BindError>) {
        (self.answer)(port)
    }
}

/// Makes a probe of a function of the port.
pub fn probing<L, F: Fn(u16) -> Result<L, BindError>>(answer: F) -> (r: FnProbe<F>)
    ensures
        r.answer == answer,
        forall|p: u16| call_requires(answer, (p,)) ==> #[trigger] r.takes(p),
{
    FnProbe { answer }
}

pub open spec fn taken(reserved: Seq<ReservedView>, port: int) -> bool {
    exists|i: int| 0 <= i < reserved.len() && (#[trigger] reserved[i]).port == port
}

/// The first service from `from` on that owns the port.
pub open spec fn owner_of(reserved: Seq<ReservedView>, port: u16, from: int) -> Option<ReservedView>
    decreases reserved.len() - from,
{
    if from >= reserved.len() {
        None
    } else if reserved[from].port == port {
        Some(reserved[from])
    } else {
        owner_of(reserved, port, from + 1)
    }
}

/// `127.0.0.1` and the port.
pub open spec fn local_address(port: nat) -> Seq<char> {
    DEFAULT_LOCAL_HOST@ + ":"@ + dec(port)
}

pub open spec fn reserved_refusal(owner: ReservedView) -> Seq<Seq<char>> {
    plain(
        local_address(owner.port as nat) + " is already reserved by managed service "@
            + owner.service_id + " ("@ + owner.status + "). Stop it with `rocm services stop "@
            + owner.service_id + " --yes`, or pass a different `--port`."@,
    )
}

pub open spec fn bind_refusal(port: nat, error: BindError) -> Seq<Seq<char>> {
    if error.in_use {
        plain(
            local_address(port)
                + " is already in use by another process. Choose a free `--port`, stop the process holding it, or omit `--port` to let ROCm pick an available port starting at "@
                + dec(AUTO_PORT_FIRST as nat) + "."@,
        )
    } else {
        plain("failed to reserve "@ + local_address(port) + ": "@ + error.message@)
    }
}

pub open spec fn scan_refusal(port: nat, error: BindError) -> Seq<Seq<char>> {
    plain(
        "failed to reserve "@ + local_address(port) + " while choosing an automatic port: "@
            + error.message@,
    )
}

pub open spec fn exhausted() -> Seq<Seq<char>> {
    plain(
        "no free TCP port for "@ + DEFAULT_LOCAL_HOST@ + " in "@ + dec(AUTO_PORT_FIRST as nat)
            + "–"@ + dec(AUTO_PORT_LAST as nat)
            + "; every candidate is reserved by a live managed service or already in use. Stop an unused server with `rocm services stop <service-id> --yes`, or pass an explicit `--port`."@,
    )
}

/// The automatic choice from `port` on, where `seen` is what binding each port
/// that was tried came to. A port that a service owns is passed over, and so is
/// one that is in use; any other failure ends the search. There is no answer where
/// a port that has to be tried was not.
pub open spec fn scan<L>(
    reserved: Seq<ReservedView>,
    seen: Map<u16, Result<L, BindError>>,
    port: int,
) -> Option<Result<ServePort<L>, Seq<Seq<char>>>>
    decreases AUTO_PORT_LAST + 1 - port,
{
    if port > AUTO_PORT_LAST {
        Some(Err(exhausted()))
    } else if taken(reserved, port) {
        scan(reserved, seen, port + 1)
    } else if !seen.contains_key(port as u16) {
        None
    } else {
        match seen[port as u16] {
            Ok(lease) => Some(Ok(ServePort::Leased(lease))),
            Err(error) => if error.in_use {
                scan(reserved, seen, port + 1)
            } else {
                Some(Err(scan_refusal(port as nat, error)))
            },
        }
    }
}

/// Whether a port was tried and something else has it.
pub open spec fn occupied<L>(seen: Map<u16, Result<L, BindError>>, port: u16) -> bool {
    seen.contains_key(port) && (seen[port] matches Err(e) && e.in_use)
}

/// What a request comes to, where `seen` is what binding each port that was tried
/// came to. There is no answer where a port that has to be tried was not.
pub open spec fn resolved<L>(
    host: Seq<char>,
    request: PortRequest,
    reserved: Seq<ReservedView>,
    seen: Map<u16, Result<L, BindError>>,
) -> Option<Result<ServePort<L>, Seq<Seq<char>>>> {
    if host != DEFAULT_LOCAL_HOST@ {
        match request {
            PortRequest::Explicit(port) => Some(Ok(ServePort::EngineOwned(port))),
            PortRequest::Auto => Some(Err(host_refusal(host))),
        }
    } else {
        match request {
            PortRequest::Explicit(port) => match owner_of(reserved, port, 0) {
                Some(owner) => Some(Err(reserved_refusal(owner))),
                None => if !seen.contains_key(port) {
                    None
                } else {
                    match seen[port] {
                        Ok(lease) => Some(Ok(ServePort::Leased(lease))),
                        Err(error) => Some(Err(bind_refusal(port as nat, error))),
                    }
                },
            },
            PortRequest::Auto => scan(reserved, seen, AUTO_PORT_FIRST as int),
        }
    }
}

/// Whether a port may be tried at all: on the loopback host, where no service owns
/// it, it is the one that was named, or a candidate.
pub open spec fn eligible(
    host: Seq<char>,
    request: PortRequest,
    reserved: Seq<ReservedView>,
    port: u16,
) -> bool {
    &&& host == DEFAULT_LOCAL_HOST@
    &&& !taken(reserved, port as int)
    &&& match request {
        PortRequest::Explicit(named) => port == named,
        PortRequest::Auto => AUTO_PORT_FIRST <= port <= AUTO_PORT_LAST,
    }
}

/// Whether a port has to be tried: it may be, and every candidate before it was in
/// use.
pub open spec fn due<L>(
    host: Seq<char>,
    request: PortRequest,
    reserved: Seq<ReservedView>,
    seen: Map<u16, Result<L, BindError>>,
    port: u16,
) -> bool {
    &&& eligible(host, request, reserved, port)
    &&& request is Auto ==> forall|p: u16|
        AUTO_PORT_FIRST <= p < port && !taken(reserved, p as int) ==> #[trigger] occupied(seen, p)
}

/// Whether a table holds the ports that have to be tried, and no others.
pub open spec fn tried<L>(
    host: Seq<char>,
    request: PortRequest,
    reserved: Seq<ReservedView>,
    seen: Map<u16, Result<L, BindError>>,
) -> bool {
    forall|p: u16| #[trigger]
        seen.contains_key(p) <==> due(host, request, reserved, seen, p)
}

/// Whether a probe went through `states` as it was asked of the ports of `log`, one
/// after the other, and answered as `log` says.
pub open spec fn went_through<L, P: Probe<L>>(
    states: Seq<P>,
    log: Seq<(u16, Result<L, BindError>)>,
) -> bool {
    &&& states.len() == log.len() + 1
    &&& forall|i: int|
        0 <= i < log.len() ==> P::step(
            states[i],
            (#[trigger] log[i]).0,
            log[i].1,
            states[i + 1],
        )
}

/// Whether `log` is what a table holds, each port once, in ascending order.
pub open spec fn tabled<L>(
    log: Seq<(u16, Result<L, BindError>)>,
    seen: Map<u16, Result<L, BindError>>,
) -> bool {
    &&& forall|i: int, j: int|
        0 <= i < j < log.len() ==> (#[trigger] log[i]).0 < (#[trigger] log[j]).0
    &&& forall|i: int|
        0 <= i < log.len() ==> seen.contains_key((#[trigger] log[i]).0) && seen[log[i].0]
            == log[i].1
    &&& forall|p: u16| #[trigger]
        seen.contains_key(p) ==> exists|i: int| 0 <= i < log.len() && (#[trigger] log[i]).0 == p
}

/// Whether a request was settled by asking a probe, that was `before` and then is
/// `after`, of exactly the ports that have to be tried, each once, in ascending
/// order.
pub open spec fn settled<L, P: Probe<L>>(
    before: P,
    after: P,
    states: Seq<P>,
    log: Seq<(u16, Result<L, BindError>)>,
    seen: Map<u16, Result<L, BindError>>,
    host: Seq<char>,
    request: PortRequest,
    reserved: Seq<ReservedView>,
    answer: Result<ServePort<L>, Seq<Seq<char>>>,
) -> bool {
    &&& went_through(states, log)
    &&& states.first() == before
    &&& states.last() == after
    &&& tabled(log, seen)
    &&& tried(host, request, reserved, seen)
    &&& resolved(host, request, reserved, seen) == Some(answer)
}

fn push_address(out: &mut String, port: u16)
    ensures
        final(out)@ == old(out)@ + local_address(port as nat),
{
    let mut address = DEFAULT_LOCAL_HOST.to_owned();
    address.push_str(":");
    push_number(&mut address, port as u128);
    out.push_str(address.as_str());
}

fn address_of(port: u16) -> (r: String)
    ensures
        r@ == local_address(port as nat),
{
    let mut address = DEFAULT_LOCAL_HOST.to_owned();
    address.push_str(":");
    push_number(&mut address, port as u128);
    address
}

proof fn lemma_owner(reserved: Seq<ReservedView>, port: u16, from: int)
    requires
        0 <= from,
        forall|j: int| 0 <= j < from && j < reserved.len() ==> (#[trigger] reserved[j]).port != port,
    ensures
        owner_of(reserved, port, from) is Some <==> taken(reserved, port as int),
    decreases reserved.len() - from,
{
    if from < reserved.len() && reserved[from].port != port {
        lemma_owner(reserved, port, from + 1);
    }
}

fn find_owner(reserved: &Vec<ReservedPort>, port: u16) -> (r: Option<usize>)
    ensures
        match r {
            Some(i) => i < reserved@.len() && owner_of(reserved_views(reserved@), port, 0) == Some(
                reserved@[i as int]@,
            ) && reserved@[i as int].port == port,
            None => owner_of(reserved_views(reserved@), port, 0) is None,
        },
        r is Some == taken(reserved_views(reserved@), port as int),
{
    let ghost all = reserved_views(reserved@);
    proof {
        lemma_owner(all, port, 0);
    }
    let mut i: usize = 0;
    while i < reserved.len()
        invariant
            i <= reserved@.len(),
            all == reserved_views(reserved@),
            owner_of(all, port, 0) == owner_of(all, port, i as int),
            owner_of(all, port, 0) is Some <==> taken(all, port as int),
        decreases reserved@.len() - i,
    {
        assert(all[i as int] == reserved@[i as int]@);
        if reserved[i].port == port {
            return Some(i);
        }
        i += 1;
    }
    None
}

fn refuse_reserved(owner: &ReservedPort) -> (r: Failure)
    ensures
        r@ == reserved_refusal(owner@),
{
    let mut message = address_of(owner.port);
    message.push_str(" is already reserved by managed service ");
    message.push_str(owner.service_id.as_str());
    message.push_str(" (");
    message.push_str(owner.status.as_str());
    message.push_str("). Stop it with `rocm services stop ");
    message.push_str(owner.service_id.as_str());
    message.push_str(" --yes`, or pass a different `--port`.");
    Failure::new(message)
}

/// Why the port that was named cannot be had.
pub fn explicit_bind_error(port: u16, error: &BindError) -> (r: Failure)
    ensures
        r@ == bind_refusal(port as nat, *error),
{
    if error.in_use {
        let mut message = address_of(port);
        message.push_str(
            " is already in use by another process. Choose a free `--port`, stop the process holding it, or omit `--port` to let ROCm pick an available port starting at ",
        );
        push_number(&mut message, AUTO_PORT_FIRST as u128);
        message.push_str(".");
        return Failure::new(message);
    }
    let mut message = "failed to reserve ".to_owned();
    push_address(&mut message, port);
    message.push_str(": ");
    message.push_str(error.message.as_str());
    Failure::new(message)
}

fn refuse_scan(port: u16, error: &BindError) -> (r: Failure)
    ensures
        r@ == scan_refusal(port as nat, *error),
{
    let mut message = "failed to reserve ".to_owned();
    push_address(&mut message, port);
    message.push_str(" while choosing an automatic port: ");
    message.push_str(error.message.as_str());
    Failure::new(message)
}

fn refuse_exhausted() -> (r: Failure)
    ensures
        r@ == exhausted(),
{
    let mut message = "no free TCP port for ".to_owned();
    message.push_str(DEFAULT_LOCAL_HOST);
    message.push_str(" in ");
    push_number(&mut message, AUTO_PORT_FIRST as u128);
    message.push_str("–");
    push_number(&mut message, AUTO_PORT_LAST as u128);
    message.push_str(
        "; every candidate is reserved by a live managed service or already in use. Stop an unused server with `rocm services stop <service-id> --yes`, or pass an explicit `--port`.",
    );
    Failure::new(message)
}

/// While every candidate is owned or in use, the search goes on.
proof fn lemma_scan_reaches<L>(
    reserved: Seq<ReservedView>,
    seen: Map<u16, Result<L, BindError>>,
    from: int,
    to: int,
)
    requires
        AUTO_PORT_FIRST <= from <= to <= AUTO_PORT_LAST + 1,
        forall|p: u16|
            AUTO_PORT_FIRST <= p < to && !taken(reserved, p as int) ==> #[trigger] occupied(
                seen,
                p,
            ),
    ensures
        scan(reserved, seen, from) == scan(reserved, seen, to),
    decreases to - from,
{
    if from < to {
        if !taken(reserved, from) {
            assert(occupied(seen, from as u16));
        }
        lemma_scan_reaches(reserved, seen, from + 1, to);
    }
}

/// A table that was filled in order, up to an answer that ends the search or to
/// the last candidate, holds the ports that have to be tried.
proof fn lemma_tried_in_order<L>(
    reserved: Seq<ReservedView>,
    seen: Map<u16, Result<L, BindError>>,
    end: int,
)
    requires
        AUTO_PORT_FIRST <= end <= AUTO_PORT_LAST + 1,
        forall|p: u16| #[trigger]
            seen.contains_key(p) ==> AUTO_PORT_FIRST <= p <= end && p <= AUTO_PORT_LAST && !taken(
                reserved,
                p as int,
            ),
        forall|p: u16|
            AUTO_PORT_FIRST <= p < end && !taken(reserved, p as int) ==> #[trigger] occupied(
                seen,
                p,
            ),
        end <= AUTO_PORT_LAST ==> seen.contains_key(end as u16) && !occupied(seen, end as u16),
    ensures
        tried(DEFAULT_LOCAL_HOST@, PortRequest::Auto, reserved, seen),
{
    assert forall|p: u16| #[trigger] seen.contains_key(p) <==> due(
        DEFAULT_LOCAL_HOST@,
        PortRequest::Auto,
        reserved,
        seen,
        p,
    ) by {
        if due(DEFAULT_LOCAL_HOST@, PortRequest::Auto, reserved, seen, p) {
            if p > end {
                assert(!occupied(seen, end as u16));
            } else if p < end {
                assert(occupied(seen, p));
            }
        }
    }
}

/// One more port, behind all before it.
proof fn lemma_one_more<L, P: Probe<L>>(
    states: Seq<P>,
    log: Seq<(u16, Result<L, BindError>)>,
    seen: Map<u16, Result<L, BindError>>,
    port: u16,
    answer: Result<L, BindError>,
    after: P,
)
    requires
        went_through(states, log),
        tabled(log, seen),
        forall|p: u16| #[trigger] seen.contains_key(p) ==> p < port,
        P::step(states.last(), port, answer, after),
    ensures
        went_through(states.push(after), log.push((port, answer))),
        tabled(log.push((port, answer)), seen.insert(port, answer)),
{
    let more = log.push((port, answer));
    let table = seen.insert(port, answer);
    assert forall|i: int, j: int| 0 <= i < j < more.len() implies (#[trigger] more[i]).0 < (
    #[trigger] more[j]).0 by {
        assert(more[i] == log[i]);
        assert(seen.contains_key(log[i].0));
        if j < log.len() {
            assert(more[j] == log[j]);
        }
    }
    assert forall|i: int| 0 <= i < more.len() implies table.contains_key((#[trigger] more[i]).0)
        && table[more[i].0] == more[i].1 by {
        if i < log.len() {
            assert(more[i] == log[i]);
            assert(seen.contains_key(log[i].0));
        }
    }
    assert forall|p: u16| #[trigger] table.contains_key(p) implies exists|i: int|
        0 <= i < more.len() && (#[trigger] more[i]).0 == p by {
        if p == port {
            assert(more[log.len() as int].0 == p);
        } else {
            assert(seen.contains_key(p));
            let i = choose|i: int| 0 <= i < log.len() && (#[trigger] log[i]).0 == p;
            assert(more[i] == log[i]);
        }
    }
    let trail = states.push(after);
    assert forall|i: int| 0 <= i < more.len() implies P::step(
        trail[i],
        (#[trigger] more[i]).0,
        more[i].1,
        trail[i + 1],
    ) by {
        if i < log.len() {
            assert(more[i] == log[i]);
        }
    }
}

fn choose_automatic<L, P: Probe<L>>(reserved: &Vec<ReservedPort>, probe: &mut P) -> (r: Result<
    ServePort<L>,
    Failure,
>)
    requires
        forall|p: u16|
            eligible(DEFAULT_LOCAL_HOST@, PortRequest::Auto, reserved_views(reserved@), p)
                ==> #[trigger] old(probe).takes(p),
    ensures
        exists|
            states: Seq<P>,
            log: Seq<(u16, Result<L, BindError>)>,
            seen: Map<u16, Result<L, BindError>>,
        | #[trigger]
            settled(
                *old(probe),
                *final(probe),
                states,
                log,
                seen,
                DEFAULT_LOCAL_HOST@,
                PortRequest::Auto,
                reserved_views(reserved@),
                told(r),
            ),
{
    let ghost all = reserved_views(reserved@);
    let ghost start = *probe;
    let ghost mut seen: Map<u16, Result<L, BindError>> = Map::empty();
    let ghost mut log: Seq<(u16, Result<L, BindError>)> = Seq::empty();
    let ghost mut states: Seq<P> = seq![start];
    let mut port: u16 = AUTO_PORT_FIRST;
    while port <= AUTO_PORT_LAST
        invariant
            AUTO_PORT_FIRST <= port <= AUTO_PORT_LAST + 1,
            forall|p: u16|
                eligible(DEFAULT_LOCAL_HOST@, PortRequest::Auto, all, p) ==> #[trigger] probe.takes(
                    p,
                ),
            all == reserved_views(reserved@),
            start == *old(probe),
            went_through(states, log),
            states.first() == start,
            states.last() == *probe,
            tabled(log, seen),
            forall|p: u16| #[trigger]
                seen.contains_key(p) ==> AUTO_PORT_FIRST <= p < port && !taken(all, p as int),
            forall|p: u16|
                AUTO_PORT_FIRST <= p < port && !taken(all, p as int) ==> #[trigger] occupied(
                seen,
                p,
            ),
        decreases AUTO_PORT_LAST + 1 - port,
    {
        if find_owner(reserved, port).is_none() {
            assert(eligible(DEFAULT_LOCAL_HOST@, PortRequest::Auto, all, port));
            let answer = probe.bind(port);
            let ghost before = seen;
            proof {
                lemma_one_more(states, log, seen, port, answer, *probe);
                states = states.push(*probe);
                log = log.push((port, answer));
                seen = seen.insert(port, answer);
                assert forall|p: u16| #[trigger] seen.contains_key(p) implies !taken(all, p as int)
                    && AUTO_PORT_FIRST <= p <= port by {
                    if p != port {
                        assert(before.contains_key(p));
                    }
                }
                assert forall|p: u16|
                    AUTO_PORT_FIRST <= p < port && !taken(all, p as int) implies #[trigger] occupied(
                    seen,
                    p,
                ) by {
                    assert(occupied(before, p));
                }
                assert(seen.contains_key(port));
            }
            match answer {
                Ok(lease) => {
                    proof {
                        lemma_scan_reaches(all, seen, AUTO_PORT_FIRST as int, port as int);
                        lemma_tried_in_order(all, seen, port as int);
                        assert(settled(
                            start,
                            *probe,
                            states,
                            log,
                            seen,
                            DEFAULT_LOCAL_HOST@,
                            PortRequest::Auto,
                            all,
                            Ok(ServePort::Leased(lease)),
                        ));
                    }
                    return Ok(ServePort::Leased(lease));
                },
                Err(error) => {
                    if !error.in_use {
                        let refusal = refuse_scan(port, &error);
                        proof {
                            lemma_scan_reaches(all, seen, AUTO_PORT_FIRST as int, port as int);
                            lemma_tried_in_order(all, seen, port as int);
                            assert(settled(
                                start,
                                *probe,
                                states,
                                log,
                                seen,
                                DEFAULT_LOCAL_HOST@,
                                PortRequest::Auto,
                                all,
                                Err(refusal@),
                            ));
                        }
                        return Err(refusal);
                    }
                },
            }
        }
        port += 1;
    }
    let refusal = refuse_exhausted();
    proof {
        lemma_scan_reaches(all, seen, AUTO_PORT_FIRST as int, port as int);
        lemma_tried_in_order(all, seen, port as int);
        assert(settled(
            start,
            *probe,
            states,
            log,
            seen,
            DEFAULT_LOCAL_HOST@,
            PortRequest::Auto,
            all,
            Err(refusal@),
        ));
    }
    Err(refusal)
}

/// Turns a request into one port. `probe` binds a port on the loopback host. It is
/// asked of exactly the ports that have to be tried, each once, in ascending order:
/// of none that a service owns, of none on another host, and of no candidate behind
/// the one that ends the search.
pub fn resolve_serve_port<L, P: Probe<L>>(
    host: &str,
    request: PortRequest,
    reserved: &Vec<ReservedPort>,
    probe: &mut P,
) -> (r: Result<ServePort<L>, Failure>)
    requires
        forall|p: u16|
            eligible(host@, request, reserved_views(reserved@), p) ==> #[trigger] old(probe).takes(
                p,
            ),
    ensures
        exists|
            states: Seq<P>,
            log: Seq<(u16, Result<L, BindError>)>,
            seen: Map<u16, Result<L, BindError>>,
        | #[trigger]
            settled(
                *old(probe),
                *final(probe),
                states,
                log,
                seen,
                host@,
                request,
                reserved_views(reserved@),
                told(r),
            ),
{
    let ghost all = reserved_views(reserved@);
    let ghost start = *probe;
    let ghost none: Seq<(u16, Result<L, BindError>)> = Seq::empty();
    let ghost nothing: Map<u16, Result<L, BindError>> = Map::empty();
    assert(went_through(seq![start], none));
    assert(tabled(none, nothing));
    if !same(host, DEFAULT_LOCAL_HOST) {
        let r = match request {
            PortRequest::Explicit(port) => Ok(ServePort::EngineOwned(port)),
            PortRequest::Auto => Err(refuse_host(host)),
        };
        assert(tried(host@, request, all, nothing));
        assert(settled(start, *probe, seq![start], none, nothing, host@, request, all, told(r)));
        return r;
    }
    match request {
        PortRequest::Explicit(port) => {
            if let Some(i) = find_owner(reserved, port) {
                let r = Err(refuse_reserved(&reserved[i]));
                assert(tried(host@, request, all, nothing));
                assert(settled(
                    start,
                    *probe,
                    seq![start],
                    none,
                    nothing,
                    host@,
                    request,
                    all,
                    told(r),
                ));
                return r;
            }
            assert(eligible(host@, request, all, port));
            let answer = probe.bind(port);
            let ghost seen = nothing.insert(port, answer);
            let ghost log = none.push((port, answer));
            let ghost states = seq![start].push(*probe);
            proof {
                lemma_one_more(seq![start], none, nothing, port, answer, *probe);
            }
            assert(seen.contains_key(port) && seen[port] == answer);
            assert(tried(host@, request, all, seen));
            let r = match answer {
                Ok(lease) => Ok(ServePort::Leased(lease)),
                Err(error) => Err(explicit_bind_error(port, &error)),
            };
            assert(settled(start, *probe, states, log, seen, host@, request, all, told(r)));
            r
        },
        PortRequest::Auto => choose_automatic(reserved, probe),
    }
}

// ---------------------------------------------------------------------------
// Laws
// ---------------------------------------------------------------------------

/// A function that is asked stays as it is, and every answer is its own.
proof fn lemma_function_answers<L, F: Fn(u16) -> Result<L, BindError>>(
    states: Seq<FnProbe<F>>,
    log: Seq<(u16, Result<L, BindError>)>,
)
    requires
        went_through(states, log),
    ensures
        states.last() == states.first(),
        forall|i: int|
            0 <= i < log.len() ==> call_ensures(
                states.first().answer,
                ((#[trigger] log[i]).0,),
                log[i].1,
            ),
    decreases log.len(),
{
    if log.len() > 0 {
        let front = log.drop_last();
        let before = states.drop_last();
        let last = log.len() - 1;
        assert forall|i: int| 0 <= i < front.len() implies <FnProbe<F> as Probe<L>>::step(
            before[i],
            (#[trigger] front[i]).0,
            front[i].1,
            before[i + 1],
        ) by {
            assert(front[i] == log[i]);
        }
        lemma_function_answers(before, front);
        assert(<FnProbe<F> as Probe<L>>::step(
            states[last],
            log[last].0,
            log[last].1,
            states[last + 1],
        ));
        assert(before.last() == states[last]);
        assert forall|i: int| 0 <= i < log.len() implies call_ensures(
            states.first().answer,
            ((#[trigger] log[i]).0,),
            log[i].1,
        ) by {
            if i < last {
                assert(front[i] == log[i]);
            }
        }
    }
}

/// Where a function is asked, what a request comes to follows from nothing but what
/// the function returns for the ports that have to be tried.
pub proof fn law_a_function_decides_by_what_it_returns<L, F: Fn(u16) -> Result<L, BindError>>(
    before: FnProbe<F>,
    after: FnProbe<F>,
    host: Seq<char>,
    request: PortRequest,
    reserved: Seq<ReservedView>,
    answer: Result<ServePort<L>, Seq<Seq<char>>>,
)
    requires
        exists|
            states: Seq<FnProbe<F>>,
            log: Seq<(u16, Result<L, BindError>)>,
            seen: Map<u16, Result<L, BindError>>,
        | #[trigger]
            settled(before, after, states, log, seen, host, request, reserved, answer),
    ensures
        after == before,
        exists|seen: Map<u16, Result<L, BindError>>|
            {
                &&& forall|p: u16| #[trigger]
                    seen.contains_key(p) ==> call_ensures(before.answer, (p,), seen[p])
                &&& #[trigger] tried(host, request, reserved, seen)
                &&& resolved(host, request, reserved, seen) == Some(answer)
            },
{
    let (states, log, seen) = choose|
        states: Seq<FnProbe<F>>,
        log: Seq<(u16, Result<L, BindError>)>,
        seen: Map<u16, Result<L, BindError>>,
    | #[trigger]
        settled(before, after, states, log, seen, host, request, reserved, answer);
    lemma_function_answers(states, log);
    assert forall|p: u16| #[trigger] seen.contains_key(p) implies call_ensures(
        before.answer,
        (p,),
        seen[p],
    ) by {
        let i = choose|i: int| 0 <= i < log.len() && (#[trigger] log[i]).0 == p;
        assert(seen[log[i].0] == log[i].1);
    }
    assert(tried(host, request, reserved, seen));
}

/// Whether `port` is the first candidate from `from` on that no service owns and
/// nothing else has.
pub open spec fn first_free<L>(
    reserved: Seq<ReservedView>,
    seen: Map<u16, Result<L, BindError>>,
    from: int,
    port: u16,
    lease: L,
) -> bool {
    &&& from <= port <= AUTO_PORT_LAST
    &&& !taken(reserved, port as int)
    &&& seen.contains_key(port)
    &&& seen[port] == Ok::<L, BindError>(lease)
    &&& forall|p: u16|
        from <= p < port ==> #[trigger] taken(reserved, p as int) || occupied(seen, p)
}

proof fn lemma_scan_finds<L>(
    reserved: Seq<ReservedView>,
    seen: Map<u16, Result<L, BindError>>,
    from: int,
    lease: L,
) -> (port: u16)
    requires
        0 <= from,
        scan(reserved, seen, from) == Some(
            Ok::<ServePort<L>, Seq<Seq<char>>>(ServePort::Leased(lease)),
        ),
    ensures
        first_free(reserved, seen, from, port, lease),
    decreases AUTO_PORT_LAST + 1 - from,
{
    if taken(reserved, from) || seen[from as u16] is Err {
        let port = lemma_scan_finds(reserved, seen, from + 1, lease);
        assert forall|p: u16| from <= p < port implies #[trigger] taken(reserved, p as int)
            || occupied(seen, p) by {
            if p != from {
                assert(from + 1 <= p);
            }
        }
        port
    } else {
        from as u16
    }
}

/// An automatic port is one of the candidates, the first that no live service
/// owns and nothing else has.
pub proof fn law_an_automatic_port_is_the_first_free_one<L>(
    reserved: Seq<ReservedView>,
    seen: Map<u16, Result<L, BindError>>,
    lease: L,
)
    requires
        resolved(DEFAULT_LOCAL_HOST@, PortRequest::Auto, reserved, seen) == Some(
            Ok::<ServePort<L>, Seq<Seq<char>>>(ServePort::Leased(lease)),
        ),
    ensures
        exists|port: u16|
            #[trigger] first_free(reserved, seen, AUTO_PORT_FIRST as int, port, lease),
{
    let port = lemma_scan_finds(reserved, seen, AUTO_PORT_FIRST as int, lease);
    assert(first_free(reserved, seen, AUTO_PORT_FIRST as int, port, lease));
}

/// A candidate that is free, with none before it that is, is the one chosen.
pub proof fn law_the_first_free_port_is_chosen<L>(
    reserved: Seq<ReservedView>,
    seen: Map<u16, Result<L, BindError>>,
    port: u16,
    lease: L,
)
    requires
        first_free(reserved, seen, AUTO_PORT_FIRST as int, port, lease),
    ensures
        resolved(DEFAULT_LOCAL_HOST@, PortRequest::Auto, reserved, seen) == Some(
            Ok::<ServePort<L>, Seq<Seq<char>>>(ServePort::Leased(lease)),
        ),
{
    assert forall|p: u16| AUTO_PORT_FIRST <= p < port && !taken(reserved, p as int) implies #[trigger] occupied(
        seen,
        p,
    ) by {
        assert(taken(reserved, p as int) || occupied(seen, p));
    }
    lemma_scan_reaches(reserved, seen, AUTO_PORT_FIRST as int, port as int);
}

/// Where the ports that have to be tried were tried there is an answer.
pub proof fn law_trying_settles_the_request<L>(
    host: Seq<char>,
    request: PortRequest,
    reserved: Seq<ReservedView>,
    seen: Map<u16, Result<L, BindError>>,
)
    requires
        tried(host, request, reserved, seen),
    ensures
        resolved(host, request, reserved, seen) is Some,
{
    if host == DEFAULT_LOCAL_HOST@ {
        match request {
            PortRequest::Explicit(port) => {
                lemma_owner(reserved, port, 0);
                assert(seen.contains_key(port) <==> due(host, request, reserved, seen, port));
            },
            PortRequest::Auto => {
                lemma_scan_settles(reserved, seen, AUTO_PORT_FIRST as int);
            },
        }
    }
}

proof fn lemma_scan_settles<L>(
    reserved: Seq<ReservedView>,
    seen: Map<u16, Result<L, BindError>>,
    from: int,
)
    requires
        AUTO_PORT_FIRST <= from <= AUTO_PORT_LAST + 1,
        tried(DEFAULT_LOCAL_HOST@, PortRequest::Auto, reserved, seen),
        forall|p: u16|
            AUTO_PORT_FIRST <= p < from && !taken(reserved, p as int) ==> #[trigger] occupied(
                seen,
                p,
            ),
    ensures
        scan(reserved, seen, from) is Some,
    decreases AUTO_PORT_LAST + 1 - from,
{
    if from <= AUTO_PORT_LAST {
        if !taken(reserved, from) {
            assert(seen.contains_key(from as u16) <==> due(
                DEFAULT_LOCAL_HOST@,
                PortRequest::Auto,
                reserved,
                seen,
                from as u16,
            ));
        }
        if taken(reserved, from) || occupied(seen, from as u16) {
            assert forall|p: u16| AUTO_PORT_FIRST <= p < from + 1 && !taken(
                reserved,
                p as int,
            ) implies #[trigger] occupied(seen, p) by {
                if p == from {
                    assert(p == from as u16);
                }
            }
            lemma_scan_settles(reserved, seen, from + 1);
        }
    }
}

/// A port that a live service owns is never handed out on the loopback host, not
/// even to one who names it.
pub proof fn law_an_owned_port_is_refused<L>(
    reserved: Seq<ReservedView>,
    seen: Map<u16, Result<L, BindError>>,
    port: u16,
)
    requires
        taken(reserved, port as int),
    ensures
        resolved(DEFAULT_LOCAL_HOST@, PortRequest::Explicit(port), reserved, seen) matches Some(
            Err(_),
        ),
{
    lemma_owner(reserved, port, 0);
}

/// On another host a named port is passed through whatever is owned or in use,
/// and an automatic one is refused.
pub proof fn law_another_host_is_left_to_the_engine<L>(
    host: Seq<char>,
    request: PortRequest,
    reserved: Seq<ReservedView>,
    seen: Map<u16, Result<L, BindError>>,
)
    requires
        host != DEFAULT_LOCAL_HOST@,
    ensures
        resolved(host, request, reserved, seen) == Some(
            match request {
                PortRequest::Explicit(port) => Ok::<ServePort<L>, Seq<Seq<char>>>(
                    ServePort::EngineOwned(port),
                ),
                PortRequest::Auto => Err(host_refusal(host)),
            },
        ),
{
}

/// Only a port that is in use is passed over: any other failure to bind ends the
/// search.
pub proof fn law_only_a_collision_is_passed_over<L>(
    reserved: Seq<ReservedView>,
    seen: Map<u16, Result<L, BindError>>,
    port: u16,
)
    requires
        AUTO_PORT_FIRST <= port <= AUTO_PORT_LAST,
        !taken(reserved, port as int),
        seen.contains_key(port),
        seen[port] matches Err(e) && !e.in_use,
        forall|p: u16|
            AUTO_PORT_FIRST <= p < port && !taken(reserved, p as int) ==> #[trigger] occupied(
                seen,
                p,
            ),
    ensures
        resolved(DEFAULT_LOCAL_HOST@, PortRequest::Auto, reserved, seen) == Some(
            Err::<ServePort<L>, _>(scan_refusal(port as nat, seen[port]->Err_0)),
        ),
{
    lemma_scan_reaches(reserved, seen, AUTO_PORT_FIRST as int, port as int);
}

/// What a flag is read as can be bound: neither zero nor beyond the last port.
pub proof fn law_a_port_is_between_1_and_65535(value: Seq<char>)
    ensures
        port_named(value) matches Some(port) ==> 1 <= port <= 65535,
{
}

proof fn lemma_decimal_reads(s: Seq<char>)
    requires
        all_digits(s),
    ensures
        decimal(s) == number_read(s),
    decreases s.len(),
{
    if s.len() > 0 {
        let front = s.drop_last();
        assert forall|i: int| 0 <= i < front.len() implies ascii_digit(#[trigger] front[i]) by {
            assert(ascii_digit(s[i]));
        }
        lemma_decimal_reads(front);
        assert(ascii_digit(s[s.len() - 1]));
    }
}

/// A port that is written down is read as it was written, with or without a plus sign,
/// whatever white space is around it; a number that is no port, and anything that is no
/// number, is refused, and the refusal repeats it.
pub proof fn law_a_port_is_read_as_written(value: Seq<char>, n: nat, i: int)
    ensures
        trimmed(value) == dec(n) || trimmed(value) == "+"@ + dec(n) ==> port_named(value) == (if 1
            <= n <= 65535 {
            Some(n as u16)
        } else {
            None
        }),
        trimmed(value).len() == 0 ==> port_named(value) is None,
        0 <= i < trimmed(value).len() && !('0' <= trimmed(value)[i] <= '9') && !(i == 0
            && trimmed(value)[i] == '+') ==> port_named(value) is None,
        has_text(port_refusal(value), "'"@ + value + "'"@),
{
    let t = trimmed(value);
    let digits = unsigned(t);
    law_a_number_reads_as_written(n);
    reveal_strlit("+");
    if t == dec(n) || t == "+"@ + dec(n) {
        if t == dec(n) {
            assert('0' <= dec(n)[0] <= '9');
        } else {
            assert(t[0] == '+');
        }
        assert(digits =~= dec(n));
        lemma_decimal_reads(dec(n));
    }
    if 0 <= i < t.len() && !('0' <= t[i] <= '9') && !(i == 0 && t[i] == '+') {
        let k = i - (t.len() - digits.len());
        assert(digits[k] == t[i]);
        assert(!ascii_digit(digits[k]));
    }
    reveal_strlit("port must be a number between 1 and 65535, got '");
    reveal_strlit("'");
    let lead = "port must be a number between 1 and 65535, got '"@;
    let front = lead.subrange(0, lead.len() - 1);
    let none: Seq<char> = seq![];
    assert(lead =~= front + "'"@);
    assert(port_refusal(value) =~= front + ("'"@ + value + "'"@) + none);
    lemma_has_text(front, "'"@ + value + "'"@, none);
}

/// Without a port, the lowest one from 11435 to 11535 is taken that no service owns and
/// that can be bound; below it every port is owned or in use. Where every one of them is,
/// there is none to be had.
pub proof fn law_the_lowest_port_to_be_had_is_taken<L>(
    reserved: Seq<ReservedView>,
    seen: Map<u16, Result<L, BindError>>,
    port: u16,
    lease: L,
)
    requires
        11435 <= port <= 11536,
        forall|p: u16|
            11435 <= p < port ==> (exists|i: int|
                0 <= i < reserved.len() && (#[trigger] reserved[i]).port == p) || (
            #[trigger] seen.contains_key(p) && seen[p] is Err && seen[p]->Err_0.in_use),
        port <= 11535 ==> forall|i: int|
            0 <= i < reserved.len() ==> (#[trigger] reserved[i]).port != port,
        port <= 11535 ==> seen.contains_key(port) && seen[port] == Ok::<L, BindError>(lease),
    ensures
        port <= 11535 ==> resolved("127.0.0.1"@, PortRequest::Auto, reserved, seen) == Some(
            Ok::<ServePort<L>, Seq<Seq<char>>>(ServePort::Leased(lease)),
        ),
        port == 11536 ==> resolved("127.0.0.1"@, PortRequest::Auto, reserved, seen) matches Some(
            Err(_),
        ),
{
    assert forall|p: u16| AUTO_PORT_FIRST <= p < port && !taken(reserved, p as int) implies #[trigger] occupied(
        seen,
        p,
    ) by {
        assert(seen.contains_key(p) || exists|i: int|
            0 <= i < reserved.len() && (#[trigger] reserved[i]).port == p);
    }
    lemma_scan_reaches(reserved, seen, AUTO_PORT_FIRST as int, port as int);
}

/// A port that is asked for by number is the one that is bound, or nothing is: it is had
/// where no service owns it and it can be bound. A service that owns it is named, by the
/// first that does, with how to stop it.
pub proof fn law_a_port_asked_for_is_had_or_refused<L>(
    reserved: Seq<ReservedView>,
    seen: Map<u16, Result<L, BindError>>,
    port: u16,
    k: int,
)
    requires
        0 <= k <= reserved.len(),
        forall|i: int| 0 <= i < k ==> (#[trigger] reserved[i]).port != port,
        k < reserved.len() ==> reserved[k].port == port,
    ensures
        ({
            let answer = resolved("127.0.0.1"@, PortRequest::Explicit(port), reserved, seen);
            let address = "127.0.0.1:"@ + dec(port as nat);
            &&& k == reserved.len() && seen.contains_key(port) && seen[port] is Ok ==> answer
                == Some(
                Ok::<ServePort<L>, Seq<Seq<char>>>(ServePort::Leased(seen[port]->Ok_0)),
            )
            &&& k == reserved.len() && seen.contains_key(port) && seen[port] is Err ==> (
            answer matches Some(Err(e)) && e.len() == 1 && has_text(e[0], address) && (
            !seen[port]->Err_0.in_use ==> has_text(e[0], seen[port]->Err_0.message@)))
            &&& k < reserved.len() ==> (answer matches Some(Err(e)) && e.len() == 1 && has_text(
                e[0],
                address,
            ) && has_text(e[0], "rocm services stop "@ + reserved[k].service_id + " --yes"@)
                && has_text(e[0], reserved[k].status))
        }),
{
    lemma_first_owner(reserved, port, 0, k);
    reveal_strlit("127.0.0.1:");
    reveal_strlit("127.0.0.1");
    reveal_strlit(":");
    let address = "127.0.0.1:"@ + dec(port as nat);
    let none: Seq<char> = seq![];
    assert(local_address(port as nat) =~= address);
    if k < reserved.len() {
        let owner = reserved[k];
        let b = " is already reserved by managed service "@;
        let d = "). Stop it with `rocm services stop "@;
        let e = " --yes`, or pass a different `--port`."@;
        let all = reserved_refusal(owner)[0];
        let rest = b + owner.service_id + " ("@ + owner.status + d + owner.service_id + e;
        assert(all =~= none + address + rest);
        lemma_has_text(none, address, rest);
        let before = address + b + owner.service_id + " ("@;
        let behind = d + owner.service_id + e;
        assert(all =~= before + owner.status + behind);
        lemma_has_text(before, owner.status, behind);
        reveal_strlit("). Stop it with `rocm services stop ");
        reveal_strlit(" --yes`, or pass a different `--port`.");
        reveal_strlit("rocm services stop ");
        reveal_strlit(" --yes");
        let d0 = d.subrange(0, d.len() - 19);
        assert(d =~= d0 + "rocm services stop "@);
        let e1 = e.subrange(6, e.len() as int);
        assert(e =~= " --yes"@ + e1);
        let command = "rocm services stop "@ + owner.service_id + " --yes"@;
        let lead = before + owner.status + d0;
        assert(all =~= lead + command + e1);
        lemma_has_text(lead, command, e1);
    } else if seen.contains_key(port) && seen[port] is Err {
        let error = seen[port]->Err_0;
        let all = bind_refusal(port as nat, error)[0];
        if error.in_use {
            let b =
                " is already in use by another process. Choose a free `--port`, stop the process holding it, or omit `--port` to let ROCm pick an available port starting at "@;
            let rest = b + dec(AUTO_PORT_FIRST as nat) + "."@;
            assert(all =~= none + address + rest);
            lemma_has_text(none, address, rest);
        } else {
            let a = "failed to reserve "@;
            assert(all =~= a + address + (": "@ + error.message@));
            lemma_has_text(a, address, ": "@ + error.message@);
            assert(all =~= (a + address + ": "@) + error.message@ + none);
            lemma_has_text(a + address + ": "@, error.message@, none);
        }
    }
}

proof fn lemma_first_owner(reserved: Seq<ReservedView>, port: u16, from: int, k: int)
    requires
        0 <= from <= k <= reserved.len(),
        forall|i: int| from <= i < k ==> (#[trigger] reserved[i]).port != port,
        k < reserved.len() ==> reserved[k].port == port,
    ensures
        owner_of(reserved, port, from) == (if k < reserved.len() {
            Some(reserved[k])
        } else {
            None
        }),
    decreases k - from,
{
    if from < k {
        assert(reserved[from].port != port);
        lemma_first_owner(reserved, port, from + 1, k);
    }
}

/// Only ports that are free to be asked for are ever tried: on the default host, owned by
/// no service, and either the one asked for or one of the automatic candidates, behind
/// others that were all owned or in use.
pub proof fn law_no_port_is_tried_without_need<L>(
    host: Seq<char>,
    request: PortRequest,
    reserved: Seq<ReservedView>,
    seen: Map<u16, Result<L, BindError>>,
    port: u16,
)
    requires
        tried(host, request, reserved, seen),
        seen.contains_key(port),
    ensures
        host == "127.0.0.1"@,
        forall|i: int| 0 <= i < reserved.len() ==> (#[trigger] reserved[i]).port != port,
        request matches PortRequest::Explicit(named) ==> port == named,
        request is Auto ==> 11435 <= port <= 11535,
        request is Auto ==> forall|p: u16|
            11435 <= p < port ==> (exists|i: int|
                0 <= i < reserved.len() && (#[trigger] reserved[i]).port == p) || (
            #[trigger] seen.contains_key(p) && seen[p] is Err && seen[p]->Err_0.in_use),
{
    assert(due(host, request, reserved, seen, port));
    if exists|i: int| 0 <= i < reserved.len() && (#[trigger] reserved[i]).port == port {
        assert(taken(reserved, port as int));
    }
    if request is Auto {
        assert forall|p: u16| 11435 <= p < port implies (exists|i: int|
            0 <= i < reserved.len() && (#[trigger] reserved[i]).port == p) || (
        #[trigger] seen.contains_key(p) && seen[p] is Err && seen[p]->Err_0.in_use) by {
            assert(taken(reserved, p as int) || occupied(seen, p));
        }
    }
}

/// A refusal names what it is about: the host that takes no automatic port and the one
/// that does, and the port that could not be bound with the reason.
pub proof fn law_a_refused_port_is_named(host: Seq<char>, port: u16, error: BindError)
    ensures
        host_refusal(host).len() == 1 && has_text(host_refusal(host)[0], "--host "@ + host)
            && has_text(host_refusal(host)[0], "127.0.0.1"@),
        scan_refusal(port as nat, error).len() == 1 && has_text(
            scan_refusal(port as nat, error)[0],
            "127.0.0.1:"@ + dec(port as nat),
        ) && has_text(scan_refusal(port as nat, error)[0], error.message@),
        exhausted().len() == 1 && has_text(exhausted()[0], dec(11435)) && has_text(
            exhausted()[0],
            dec(11535),
        ),
{
    let none: Seq<char> = seq![];
    reveal_strlit("`rocm serve --host ");
    reveal_strlit("--host ");
    let a = "`rocm serve --host "@;
    let a0 = a.subrange(0, a.len() - 7);
    assert(a =~= a0 + "--host "@);
    let c =
        "` needs an explicit `--port <1-65535>`. Automatic port selection is supported only on the default host "@;
    let e =
        ", where ROCm can prove a port is free before launching; on any other address the engine owns the bind."@;
    let local = DEFAULT_LOCAL_HOST@;
    let all = host_refusal(host)[0];
    assert(all =~= a0 + ("--host "@ + host) + (c + local + e));
    lemma_has_text(a0, "--host "@ + host, c + local + e);
    lemma_has_text(a + host + c, local, e);
    reveal_strlit("127.0.0.1:");
    reveal_strlit("127.0.0.1");
    reveal_strlit(":");
    let address = "127.0.0.1:"@ + dec(port as nat);
    assert(local_address(port as nat) =~= address);
    let f = "failed to reserve "@;
    let g = " while choosing an automatic port: "@;
    let scan = scan_refusal(port as nat, error)[0];
    assert(scan =~= f + address + (g + error.message@));
    lemma_has_text(f, address, g + error.message@);
    assert(scan =~= (f + address + g) + error.message@ + none);
    lemma_has_text(f + address + g, error.message@, none);
    let x = "no free TCP port for "@ + local + " in "@;
    let dash = "–"@;
    let z =
        "; every candidate is reserved by a live managed service or already in use. Stop an unused server with `rocm services stop <service-id> --yes`, or pass an explicit `--port`."@;
    let last = dec(11535);
    let first = dec(11435);
    assert(exhausted()[0] =~= x + first + (dash + last + z));
    lemma_has_text(x, first, dash + last + z);
    lemma_has_text(x + first + dash, last, z);
}

} // verus!
