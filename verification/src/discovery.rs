//! The discovery orchestrator.
//!
//! One discovery run walks a fixed path: resolve addresses, bind, send the
//! search request, collect replies until the wait window closes, and fetch
//! each usable reply's description document.  The library holds the run as
//! a state machine over plain values; the caller performs the socket work
//! and reports each outcome as an event.  Setup failures are fatal;
//! failures of one reply or one document are isolated to that item.

use vstd::prelude::*;
use vstd::utf8::encode_utf8;

use crate::addr::{parse_addr, parse_address, Address};
use crate::config::Config;
use crate::description::{device_field, extract_manufacturer, extract_model_name};
use crate::description::{manufacturer_name, model_name_tag};
use crate::errors::{Error, ErrorType};
use crate::request::{search_request_bytes, search_servers_request};
use crate::response::{
    parse_discovery_response, reply_spec, reply_usn, resolved_location, DiscoveryResponse,
    RawDiscoveryResponse, ReplySpec, ResponseView,
};
use crate::text::ascii_chars;

verus! {

/// A resolved device record: what the description document said, and the
/// reply it came from.
#[derive(Debug, Clone)]
pub struct SatIpServer {
    pub manufacturer: Option<String>,
    pub model_name: Option<String>,
    pub response: DiscoveryResponse,
}

/// What a `SatIpServer` stands for.
pub struct ServerView {
    pub manufacturer: Option<Seq<char>>,
    pub model_name: Option<Seq<char>>,
    pub response: ResponseView,
}

impl View for SatIpServer {
    type V = ServerView;

    open spec fn view(&self) -> ServerView {
        ServerView {
            manufacturer: match self.manufacturer {
                Some(s) => Some(s@),
                None => None,
            },
            model_name: match self.model_name {
                Some(s) => Some(s@),
                None => None,
            },
            response: self.response@,
        }
    }
}

/// The record a description document and its originating reply resolve
/// to: each field is the element's ASCII text, or absent.
pub open spec fn server_spec(doc: Seq<u8>, resp: ResponseView) -> ServerView {
    ServerView {
        manufacturer: match device_field(doc, manufacturer_name()) {
            Some(b) => Some(ascii_chars(b)),
            None => None,
        },
        model_name: match device_field(doc, model_name_tag()) {
            Some(b) => Some(ascii_chars(b)),
            None => None,
        },
        response: resp,
    }
}

/// Resolve a fetched description document against its reply.  A document
/// in which the device, manufacturer or model cannot be found yields the
/// missing fields absent rather than an error.
pub fn parse_device_description(raw_response: &Vec<u8>, response: DiscoveryResponse) -> (r:
    SatIpServer)
    ensures
        r@ == server_spec(raw_response@, response@),
{
    let manufacturer = extract_manufacturer(raw_response);
    let model_name = extract_model_name(raw_response);
    SatIpServer { manufacturer, model_name, response }
}

/// How the bounded wait for one datagram ended, reported by the caller
/// as a plain value.
pub enum WaitOutcome<T> {
    /// A datagram arrived in time.
    Value(T),
    /// The deadline elapsed with no further input.
    Elapsed,
    /// The transport itself failed while waiting.
    Inner(Error),
    /// The timer machinery failed.
    TimerFault,
    /// The wait ended in a way the caller could not classify.
    Unknown,
}

/// The fatal error reported when the timer machinery itself fails.
pub fn get_timer_error_message() -> (e: Error)
    ensures
        e.error_type == ErrorType::ServerDiscoveryTimeoutError,
{
    Error::new(
        ErrorType::ServerDiscoveryTimeoutError,
        "Timer related error while waiting for discovery replies",
    )
}

/// Classify how the bounded wait ended: a datagram and an elapsed
/// deadline are both success — elapsing distinguishes "no more replies"
/// from a transport fault, which is fatal.
pub fn translate_timeout_error<T>(result: WaitOutcome<T>) -> (r: Result<Option<T>, Error>)
    ensures
        match result {
            WaitOutcome::Value(v) => r matches Ok(o) && o == Some(v),
            WaitOutcome::Elapsed => r matches Ok(o) && o is None,
            WaitOutcome::Inner(e) => r matches Err(e2) && e2 == e,
            WaitOutcome::TimerFault => r matches Err(e2) && e2.error_type
                == ErrorType::ServerDiscoveryTimeoutError,
            WaitOutcome::Unknown => r matches Err(e2) && e2.error_type
                == ErrorType::ServerDiscoveryUnknownTimeoutError,
        },
{
    match result {
        WaitOutcome::Value(v) => Ok(Some(v)),
        WaitOutcome::Elapsed => Ok(None),
        WaitOutcome::Inner(e) => Err(e),
        WaitOutcome::TimerFault => Err(get_timer_error_message()),
        WaitOutcome::Unknown => Err(
            Error::new(
                ErrorType::ServerDiscoveryUnknownTimeoutError,
                "Unknown error while waiting for discovery replies",
            ),
        ),
    }
}

/// Where a discovery run stands.
#[derive(Debug, Clone, Copy, PartialEq, Eq, Structural)]
pub enum RunPhase {
    Idle,
    Bound,
    RequestSent,
    Collecting,
    Completed,
    Failed,
}

/// One discovery run: its settings, resolved addresses, phase, findings,
/// and — once failed — why.
#[derive(Debug)]
pub struct DiscoveryRun {
    pub config: Config,
    pub bind_address: Address,
    pub broadcast_address: Address,
    pub phase: RunPhase,
    pub servers: Vec<SatIpServer>,
    pub failure: Option<Error>,
}

impl DiscoveryRun {
    /// A failure is recorded exactly in the failed phase.
    pub open spec fn wf(&self) -> bool {
        (self.phase == RunPhase::Failed) <==> (self.failure is Some)
    }

    /// The records found so far.
    pub open spec fn servers_view(&self) -> Seq<ServerView> {
        self.servers@.map_values(|s: SatIpServer| s@)
    }

    /// The settings and addresses of `other`, unchanged.
    pub open spec fn same_setup(&self, other: &DiscoveryRun) -> bool {
        &&& self.config == other.config
        &&& self.bind_address == other.bind_address
        &&& self.broadcast_address == other.broadcast_address
    }

    /// Begin a run: resolve the multicast target and the local endpoint.
    /// Success is owed exactly when both are literal `host:port` texts.
    pub fn new(config: Config) -> (r: Result<DiscoveryRun, Error>)
        ensures
            match r {
                Ok(run) => {
                    &&& parse_addr(encode_utf8(config.discovery_broadcast_address@)) == Some(
                        run.broadcast_address,
                    )
                    &&& parse_addr(encode_utf8(config.bind_address@)) == Some(run.bind_address)
                    &&& run.config == config
                    &&& run.phase == RunPhase::Idle
                    &&& run.servers_view() =~= Seq::<ServerView>::empty()
                    &&& run.failure is None
                    &&& run.wf()
                },
                Err(e) => (parse_addr(encode_utf8(config.discovery_broadcast_address@)) is None
                    || parse_addr(encode_utf8(config.bind_address@)) is None) && e.error_type
                    == ErrorType::InvalidIpFormat,
            },
    {
        let broadcast_address = match parse_address(config.discovery_broadcast_address.as_str()) {
            Ok(a) => a,
            Err(e) => {
                return Err(e);
            },
        };
        let bind_address = match parse_address(config.bind_address.as_str()) {
            Ok(a) => a,
            Err(e) => {
                return Err(e);
            },
        };
        Ok(
            DiscoveryRun {
                config,
                bind_address,
                broadcast_address,
                phase: RunPhase::Idle,
                servers: Vec::new(),
                failure: None,
            },
        )
    }

    /// The search request this run sends to its multicast target.
    pub fn request_bytes(&self) -> (r: Vec<u8>)
        ensures
            r@ == search_request_bytes(self.broadcast_address, self.config.user_agent@),
    {
        search_servers_request(&self.broadcast_address, self.config.user_agent.as_str())
    }

    /// Record how binding the local endpoint went.  A bind failure is
    /// fatal: it points at configuration, not at a transient condition.
    pub fn on_bind(&mut self, ok: bool)
        requires
            old(self).phase == RunPhase::Idle,
            old(self).wf(),
        ensures
            final(self).wf(),
            final(self).same_setup(old(self)),
            final(self).servers == old(self).servers,
            ok ==> final(self).phase == RunPhase::Bound && final(self).failure is None,
            !ok ==> final(self).phase == RunPhase::Failed && (final(self).failure matches Some(e)
                && e.error_type == ErrorType::CouldNotBindUdpSocket),
    {
        if ok {
            self.phase = RunPhase::Bound;
        } else {
            self.phase = RunPhase::Failed;
            self.failure = Some(
                Error::new(ErrorType::CouldNotBindUdpSocket, "Unable to bind to UDP socket"),
            );
        }
    }

    /// Record how sending the search request went.  A send failure aborts
    /// the run.
    pub fn on_send(&mut self, ok: bool)
        requires
            old(self).phase == RunPhase::Bound,
            old(self).wf(),
        ensures
            final(self).wf(),
            final(self).same_setup(old(self)),
            final(self).servers == old(self).servers,
            ok ==> final(self).phase == RunPhase::RequestSent && final(self).failure is None,
            !ok ==> final(self).phase == RunPhase::Failed && (final(self).failure matches Some(e)
                && e.error_type == ErrorType::SendUdpRequestError),
    {
        if ok {
            self.phase = RunPhase::RequestSent;
        } else {
            self.phase = RunPhase::Failed;
            self.failure = Some(
                Error::new(ErrorType::SendUdpRequestError, "Error sending discovery request"),
            );
        }
    }

    /// Enter the collection window.
    pub fn start_collecting(&mut self)
        requires
            old(self).phase == RunPhase::RequestSent,
            old(self).wf(),
        ensures
            final(self).wf(),
            final(self).same_setup(old(self)),
            final(self).servers == old(self).servers,
            final(self).failure is None,
            final(self).phase == RunPhase::Collecting,
    {
        self.phase = RunPhase::Collecting;
    }

    /// Take one received datagram.  A usable reply is handed back for the
    /// caller to fetch its description; anything else is discarded and
    /// never aborts the window.
    pub fn on_datagram(&mut self, raw: &RawDiscoveryResponse) -> (r: Option<DiscoveryResponse>)
        requires
            old(self).phase == RunPhase::Collecting,
            old(self).wf(),
        ensures
            *final(self) == *old(self),
            final(self).wf(),
            ({
                let usable = raw.wf() && reply_spec(raw.payload()) is Reply;
                match r {
                    Some(resp) => usable && resp.usn@ == ascii_chars(
                        reply_usn(reply_spec(raw.payload())),
                    ) && resp.description_location@ == resolved_location(
                        old(self).config.prefer_source_addr,
                        raw.payload(),
                        raw.sender_addr,
                    ),
                    None => !usable,
                }
            }),
    {
        if raw.size > raw.buffer.len() {
            return None;
        }
        match parse_discovery_response(self.config.prefer_source_addr, raw) {
            Ok(resp) => Some(resp),
            Err(_) => None,
        }
    }

    /// Take the fetched description document of a reply — or record that
    /// its fetch failed, which drops that device and nothing else.
    pub fn on_description(&mut self, response: DiscoveryResponse, document: Option<&Vec<u8>>)
        requires
            old(self).phase == RunPhase::Collecting,
            old(self).wf(),
        ensures
            final(self).wf(),
            final(self).same_setup(old(self)),
            final(self).phase == RunPhase::Collecting,
            final(self).failure is None,
            match document {
                Some(doc) => final(self).servers_view() =~= old(self).servers_view() + seq![
                    server_spec(doc@, response@),
                ],
                None => final(self).servers == old(self).servers,
            },
    {
        match document {
            Some(doc) => {
                let server = parse_device_description(doc, response);
                self.servers.push(server);
            },
            None => {},
        }
    }

    /// The wait window elapsed: the run is complete, with however many
    /// records it has — none is not an error.
    pub fn on_window_elapsed(&mut self)
        requires
            old(self).phase == RunPhase::Collecting,
            old(self).wf(),
        ensures
            final(self).wf(),
            final(self).same_setup(old(self)),
            final(self).servers == old(self).servers,
            final(self).failure is None,
            final(self).phase == RunPhase::Completed,
    {
        self.phase = RunPhase::Completed;
    }

    /// The transport failed while waiting: fatal, unlike an elapsed
    /// deadline.
    pub fn on_transport_error(&mut self)
        requires
            old(self).phase == RunPhase::Collecting,
            old(self).wf(),
        ensures
            final(self).wf(),
            final(self).same_setup(old(self)),
            final(self).servers == old(self).servers,
            final(self).phase == RunPhase::Failed,
            final(self).failure matches Some(e) && e.error_type
                == ErrorType::ReceivingDiscoveryMessageError,
    {
        self.phase = RunPhase::Failed;
        self.failure = Some(
            Error::new(
                ErrorType::ReceivingDiscoveryMessageError,
                "Error receiving discovery response",
            ),
        );
    }

    /// The timer machinery failed while waiting: fatal.
    pub fn on_timer_error(&mut self)
        requires
            old(self).phase == RunPhase::Collecting,
            old(self).wf(),
        ensures
            final(self).wf(),
            final(self).same_setup(old(self)),
            final(self).servers == old(self).servers,
            final(self).phase == RunPhase::Failed,
            final(self).failure matches Some(e) && e.error_type
                == ErrorType::ServerDiscoveryTimeoutError,
    {
        self.phase = RunPhase::Failed;
        self.failure = Some(get_timer_error_message());
    }

    /// The run's result: its records when it completed, its failure when
    /// it failed.
    pub fn into_result(self) -> (r: Result<Vec<SatIpServer>, Error>)
        requires
            self.phase == RunPhase::Completed || self.phase == RunPhase::Failed,
            self.wf(),
        ensures
            self.phase == RunPhase::Completed ==> (r matches Ok(v) && v == self.servers),
            self.phase == RunPhase::Failed ==> (r matches Err(e) && Some(e) == self.failure),
    {
        match self.failure {
            Some(e) => Err(e),
            None => Ok(self.servers),
        }
    }
}

/// One thing the environment reports while the run collects replies.
#[derive(Debug)]
pub enum DiscoveryEvent {
    /// A datagram arrived — and with it the description document its
    /// reply led to, where fetching and framing that document succeeded.
    Datagram(RawDiscoveryResponse, Option<Vec<u8>>),
    /// The wait window elapsed with no further input.
    WindowElapsed,
    /// The transport failed while waiting.
    TransportFailed,
    /// The timer machinery failed while waiting.
    TimerFailed,
}

/// What a `DiscoveryEvent` stands for.
pub enum EventView {
    Datagram { buffer: Seq<u8>, size: int, sender: Address, document: Option<Seq<u8>> },
    WindowElapsed,
    TransportFailed,
    TimerFailed,
}

impl View for DiscoveryEvent {
    type V = EventView;

    open spec fn view(&self) -> EventView {
        match self {
            DiscoveryEvent::Datagram(raw, doc) => EventView::Datagram {
                buffer: raw.buffer@,
                size: raw.size as int,
                sender: raw.sender_addr,
                document: match doc {
                    Some(d) => Some(d@),
                    None => None,
                },
            },
            DiscoveryEvent::WindowElapsed => EventView::WindowElapsed,
            DiscoveryEvent::TransportFailed => EventView::TransportFailed,
            DiscoveryEvent::TimerFailed => EventView::TimerFailed,
        }
    }
}

/// What the events of a run stand for.
pub open spec fn events_view(v: Seq<DiscoveryEvent>) -> Seq<EventView> {
    v.map_values(|e: DiscoveryEvent| e@)
}

/// How a whole run can end: its records, or a fatal failure of the given
/// kind.
pub enum OutcomeSpec {
    Servers(Seq<ServerView>),
    Fatal(ErrorType),
}

/// The record one datagram contributes: none when its reply is unusable
/// or its description document never arrived, one otherwise.
pub open spec fn datagram_servers(
    prefer: bool,
    buffer: Seq<u8>,
    size: int,
    sender: Address,
    document: Option<Seq<u8>>,
) -> Seq<ServerView> {
    if !(0 <= size <= buffer.len()) {
        seq![]
    } else {
        let payload = buffer.subrange(0, size);
        if reply_spec(payload) is Reply {
            match document {
                Some(doc) => seq![
                    server_spec(
                        doc,
                        ResponseView {
                            description_location: resolved_location(prefer, payload, sender),
                            usn: ascii_chars(reply_usn(reply_spec(payload))),
                        },
                    ),
                ],
                None => seq![],
            }
        } else {
            seq![]
        }
    }
}

/// What the collection window yields from the events it sees, given the
/// records gathered so far.
pub open spec fn collect_outcome(
    prefer: bool,
    events: Seq<EventView>,
    acc: Seq<ServerView>,
) -> OutcomeSpec
    decreases events.len(),
{
    if events.len() == 0 {
        OutcomeSpec::Servers(acc)
    } else {
        match events[0] {
            EventView::Datagram { buffer, size, sender, document } => collect_outcome(
                prefer,
                events.drop_first(),
                acc + datagram_servers(prefer, buffer, size, sender, document),
            ),
            EventView::WindowElapsed => OutcomeSpec::Servers(acc),
            EventView::TransportFailed => OutcomeSpec::Fatal(
                ErrorType::ReceivingDiscoveryMessageError,
            ),
            EventView::TimerFailed => OutcomeSpec::Fatal(ErrorType::ServerDiscoveryTimeoutError),
        }
    }
}

/// What a whole run yields from its setup outcomes and events.
pub open spec fn discovery_outcome(
    config: Config,
    bind_ok: bool,
    send_ok: bool,
    events: Seq<EventView>,
) -> OutcomeSpec {
    if parse_addr(encode_utf8(config.discovery_broadcast_address@)) is None || parse_addr(
        encode_utf8(config.bind_address@),
    ) is None {
        OutcomeSpec::Fatal(ErrorType::InvalidIpFormat)
    } else if !bind_ok {
        OutcomeSpec::Fatal(ErrorType::CouldNotBindUdpSocket)
    } else if !send_ok {
        OutcomeSpec::Fatal(ErrorType::SendUdpRequestError)
    } else {
        collect_outcome(config.prefer_source_addr, events, seq![])
    }
}

/// Drive one whole run from recorded outcomes: what discovery yields when
/// the environment behaves as the arguments say.  The wait window always
/// ends, so a script without an explicit end is read as having elapsed.
pub fn run_discovery(
    config: Config,
    bind_ok: bool,
    send_ok: bool,
    events: &Vec<DiscoveryEvent>,
) -> (r: Result<Vec<SatIpServer>, Error>)
    ensures
        match r {
            Ok(servers) => discovery_outcome(config, bind_ok, send_ok, events_view(events@))
                == OutcomeSpec::Servers(servers@.map_values(|s: SatIpServer| s@)),
            Err(e) => discovery_outcome(config, bind_ok, send_ok, events_view(events@))
                == OutcomeSpec::Fatal(e.error_type),
        },
{
    let mut run = match DiscoveryRun::new(config) {
        Ok(r) => r,
        Err(e) => {
            return Err(e);
        },
    };
    run.on_bind(bind_ok);
    if !bind_ok {
        return run.into_result();
    }
    run.on_send(send_ok);
    if !send_ok {
        return run.into_result();
    }
    run.start_collecting();
    let ghost evs = events_view(events@);
    let ghost prefer = run.config.prefer_source_addr;
    proof {
        assert(evs.skip(0) =~= evs);
        assert(run.servers_view() =~= Seq::<ServerView>::empty());
        assert(run.servers_view() == Seq::<ServerView>::empty());
    }
    let mut i: usize = 0;
    while i < events.len()
        invariant
            i <= events@.len(),
            evs == events_view(events@),
            run.phase == RunPhase::Collecting,
            run.wf(),
            run.config.prefer_source_addr == prefer,
            discovery_outcome(config, bind_ok, send_ok, events_view(events@)) == collect_outcome(
                prefer,
                evs,
                seq![],
            ),
            collect_outcome(prefer, evs, seq![]) == collect_outcome(
                prefer,
                evs.skip(i as int),
                run.servers_view(),
            ),
        decreases events@.len() - i,
    {
        let ghost rest = evs.skip(i as int);
        proof {
            assert(rest[0] == events@[i as int]@);
            assert(rest.drop_first() =~= evs.skip(i + 1));
        }
        match &events[i] {
            DiscoveryEvent::Datagram(raw, doc) => {
                let ghost before = run.servers_view();
                let ghost gain = datagram_servers(
                    prefer,
                    raw.buffer@,
                    raw.size as int,
                    raw.sender_addr,
                    match doc {
                        Some(d) => Some(d@),
                        None => None,
                    },
                );
                let parsed = run.on_datagram(raw);
                match parsed {
                    Some(response) => {
                        match doc {
                            Some(d) => {
                                run.on_description(response, Some(d));
                                proof {
                                    assert(gain =~= seq![server_spec(d@, response@)]);
                                }
                            },
                            None => {
                                run.on_description(response, None);
                                proof {
                                    assert(gain =~= Seq::<ServerView>::empty());
                                }
                            },
                        }
                    },
                    None => {
                        proof {
                            assert(gain =~= Seq::<ServerView>::empty());
                        }
                    },
                }
                proof {
                    assert(run.servers_view() =~= before + gain);
                    assert(collect_outcome(prefer, rest, before) == collect_outcome(
                        prefer,
                        rest.drop_first(),
                        before + gain,
                    ));
                }
            },
            DiscoveryEvent::WindowElapsed => {
                run.on_window_elapsed();
                return run.into_result();
            },
            DiscoveryEvent::TransportFailed => {
                run.on_transport_error();
                return run.into_result();
            },
            DiscoveryEvent::TimerFailed => {
                run.on_timer_error();
                return run.into_result();
            },
        }
        i += 1;
    }
    proof {
        assert(evs.skip(events@.len() as int) =~= Seq::<EventView>::empty());
    }
    run.on_window_elapsed();
    run.into_result()
}

/// The records a script's datagrams contribute before the window closes.
pub open spec fn script_gains(prefer: bool, events: Seq<EventView>) -> Seq<ServerView>
    decreases events.len(),
{
    if events.len() == 0 {
        seq![]
    } else {
        match events[0] {
            EventView::Datagram { buffer, size, sender, document } => datagram_servers(
                prefer,
                buffer,
                size,
                sender,
                document,
            ) + script_gains(prefer, events.drop_first()),
            _ => seq![],
        }
    }
}

/// While neither the transport nor the timer fails, closing the window is
/// never an error, and every datagram contributes its own record
/// independently of the others: one unusable reply costs exactly its own
/// entry and nothing else.
pub proof fn lemma_collect_outcome_gains(
    prefer: bool,
    events: Seq<EventView>,
    acc: Seq<ServerView>,
)
    requires
        forall|k: int|
            0 <= k < events.len() ==> !((#[trigger] events[k]) is TransportFailed) && !(events[k]
                is TimerFailed),
    ensures
        collect_outcome(prefer, events, acc) == OutcomeSpec::Servers(
            acc + script_gains(prefer, events),
        ),
    decreases events.len(),
{
    if events.len() == 0 {
        assert(acc + script_gains(prefer, events) =~= acc);
    } else {
        match events[0] {
            EventView::Datagram { buffer, size, sender, document } => {
                let gain = datagram_servers(prefer, buffer, size, sender, document);
                let rest = events.drop_first();
                assert forall|k: int|
                    0 <= k < rest.len() implies !((#[trigger] rest[k]) is TransportFailed) && !(
                rest[k] is TimerFailed) by {
                    assert(rest[k] == events[k + 1]);
                }
                lemma_collect_outcome_gains(prefer, rest, acc + gain);
                assert((acc + gain) + script_gains(prefer, rest) =~= acc + (gain + script_gains(
                    prefer,
                    rest,
                )));
            },
            EventView::WindowElapsed => {
                assert(acc + script_gains(prefer, events) =~= acc);
            },
            EventView::TransportFailed => {
                assert(false);
            },
            EventView::TimerFailed => {
                assert(false);
            },
        }
    }
}

/// A run whose setup succeeds and whose window sees no transport or
/// timer fault always completes, and yields exactly the independent
/// contributions of its datagrams — an empty list when none contributed,
/// never an error.
pub proof fn lemma_discovery_outcome_gains(
    config: Config,
    bind_ok: bool,
    send_ok: bool,
    events: Seq<EventView>,
)
    requires
        parse_addr(encode_utf8(config.discovery_broadcast_address@)) is Some,
        parse_addr(encode_utf8(config.bind_address@)) is Some,
        bind_ok,
        send_ok,
        forall|k: int|
            0 <= k < events.len() ==> !((#[trigger] events[k]) is TransportFailed) && !(events[k]
                is TimerFailed),
    ensures
        discovery_outcome(config, bind_ok, send_ok, events) == OutcomeSpec::Servers(
            script_gains(config.prefer_source_addr, events),
        ),
{
    lemma_collect_outcome_gains(config.prefer_source_addr, events, seq![]);
    assert(seq![] + script_gains(config.prefer_source_addr, events) =~= script_gains(
        config.prefer_source_addr,
        events,
    ));
}

/// Every record a window's datagrams contribute carries a well-formed
/// description location: whatever the source-preference flag did to it,
/// the URI handed to the caller is structurally complete.
pub proof fn lemma_gains_locations_wf(prefer: bool, events: Seq<EventView>)
    ensures
        forall|k: int|
            0 <= k < script_gains(prefer, events).len() ==> crate::uri::uri_wf(
                (#[trigger] script_gains(prefer, events)[k]).response.description_location,
            ),
    decreases events.len(),
{
    if events.len() > 0 {
        match events[0] {
            EventView::Datagram { buffer, size, sender, document } => {
                let gain = datagram_servers(prefer, buffer, size, sender, document);
                let rest = script_gains(prefer, events.drop_first());
                lemma_gains_locations_wf(prefer, events.drop_first());
                if gain.len() > 0 {
                    crate::response::lemma_resolved_location_wf(
                        prefer,
                        buffer.subrange(0, size),
                        sender,
                    );
                }
                assert forall|k: int|
                    0 <= k < script_gains(prefer, events).len() implies crate::uri::uri_wf(
                    (#[trigger] script_gains(prefer, events)[k]).response.description_location,
                ) by {
                    if k < gain.len() {
                        assert(script_gains(prefer, events)[k] == gain[k]);
                    } else {
                        assert(script_gains(prefer, events)[k] == rest[k - gain.len()]);
                    }
                }
            },
            _ => {},
        }
    }
}

/// A window that sees no datagram yields the records already gathered —
/// for a fresh run, the empty list — and never an error.
pub proof fn lemma_no_replies(prefer: bool, events: Seq<EventView>, acc: Seq<ServerView>)
    requires
        forall|k: int| 0 <= k < events.len() ==> (#[trigger] events[k]) is WindowElapsed,
    ensures
        collect_outcome(prefer, events, acc) == OutcomeSpec::Servers(acc),
{
    if events.len() == 0 {
        assert(collect_outcome(prefer, events, acc) == OutcomeSpec::Servers(acc));
    } else {
        assert(events[0] is WindowElapsed);
        assert(collect_outcome(prefer, events, acc) == OutcomeSpec::Servers(acc));
    }
}

} // verus!
