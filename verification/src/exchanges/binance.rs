//! The Binance connector: the addresses it talks to, the rules by which a
//! depth snapshot and the stream of depth updates are folded into a book, and
//! what it does with each message of the stream.

use crate::exchanges::connector::{Connector, ConnectorError};
use crate::exchanges::levels::{apply_book_levels, reports_parse, update_levels, LevelText};
use crate::order_book::OrderBookOperations;
use vstd::prelude::*;
use vstd::string::*;
use vstd::utf8::encode_utf8;

verus! {

/// A depth update from the stream: the ids of its first and last update and
/// the bid and ask levels that changed.
pub struct DepthUpdateEvent {
    pub event_type: String,
    pub event_time: u64,
    pub symbol: String,
    pub first_update_id: u64,
    pub final_update_id: u64,
    pub b: Vec<LevelText>,
    pub a: Vec<LevelText>,
}

/// A snapshot of the whole book, taken after the update with `last_update_id`.
pub struct OrderBookSnapshot {
    pub last_update_id: u64,
    pub bids: Vec<LevelText>,
    pub asks: Vec<LevelText>,
}

/// What the stream hands on: an update, or the error that ended the stream.
pub enum ConnectorEvent {
    Data(DepthUpdateEvent),
    Error(ConnectorError),
}

/// What `str::to_uppercase` makes of a text.
pub uninterp spec fn uppercase(text: Seq<char>) -> Seq<char>;

/// What `str::to_lowercase` makes of a text.
pub uninterp spec fn lowercase(text: Seq<char>) -> Seq<char>;

/// Whether `url::Url::parse` accepts a text, and if not, the text of its error.
pub uninterp spec fn url_parse_outcome(text: Seq<char>) -> Result<(), Seq<char>>;

/// The REST address of the depth snapshot of a symbol (upper-cased), with up
/// to 1000 levels a side.
pub open spec fn snapshot_url_spec(rest_endpoint: Seq<char>, symbol: Seq<char>) -> Seq<char> {
    rest_endpoint + "/api/v3/depth?symbol="@ + uppercase(symbol) + "&limit=1000"@
}

/// The stream address of the depth updates of a symbol (lower-cased), sent
/// every 100 ms.
pub open spec fn stream_url_spec(ws_endpoint: Seq<char>, symbol: Seq<char>) -> Seq<char> {
    ws_endpoint + "/ws/"@ + lowercase(symbol) + "@depth@100ms"@
}

/// The book's two sides and its last update id are as they were.
pub open spec fn book_unchanged<O: OrderBookOperations>(before: O, after: O) -> bool {
    &&& after.bids_view() == before.bids_view()
    &&& after.asks_view() == before.asks_view()
    &&& after.last_update_id_view() == before.last_update_id_view()
}

/// How an update with ids `first..=last` meets a book whose last update id is
/// `book_last`.
#[derive(Clone, Copy, Debug, PartialEq, Eq)]
pub enum SyncDecision {
    /// The book already holds it: ignored.
    Stale,
    /// Applied to the book.
    Apply,
    /// It starts after the book's next id: updates in between were lost, and
    /// the book must be synchronised again.
    Gap,
}

/// The rule by which depth updates are matched to the book: an update that
/// ends at or before the book is stale and ignored; every later update is
/// processed: the first one applied must span the book's next id and every
/// one after it must start right at that id, or the stream has a gap.
pub open spec fn sync_decision(processed_first: bool, book_last: u64, first: u64, last: u64) -> SyncDecision {
    if last <= book_last {
        SyncDecision::Stale
    } else if !processed_first {
        if first <= book_last + 1 && last >= book_last {
            SyncDecision::Apply
        } else {
            SyncDecision::Gap
        }
    } else if first != book_last + 1 {
        SyncDecision::Gap
    } else {
        SyncDecision::Apply
    }
}

/// Updates are applied in order and never twice, and none after the
/// snapshot is skipped: an update that ends at or before the book is ignored;
/// every other update is either applied or reported as a gap. An applied
/// update ends after the book's last update and begins no later than the one
/// after it (exactly at it once an update has been applied); an update that
/// begins later is a gap.
pub proof fn lemma_sync_applies_in_order(processed_first: bool, book_last: u64, first: u64, last: u64)
    ensures
        last <= book_last <==> sync_decision(processed_first, book_last, first, last) == SyncDecision::Stale,
        sync_decision(processed_first, book_last, first, last) == SyncDecision::Apply ==> {
            &&& book_last < last
            &&& first <= book_last + 1
            &&& processed_first ==> first == book_last + 1
        },
        book_last < last && book_last + 1 < first ==> sync_decision(processed_first, book_last, first, last)
            == SyncDecision::Gap,
{
}

/// The whole rule in terms of the ids: an update that ends at or before the
/// book is stale. Otherwise, once an update has been applied, it is applied
/// exactly when it starts right after the book (however many ids it spans)
/// and is a gap otherwise; before that, it is applied exactly when it starts
/// no later than the book's next id and is a gap otherwise.
pub proof fn lemma_sync_rule(processed_first: bool, book_last: u64, first: u64, last: u64)
    ensures
        (sync_decision(processed_first, book_last, first, last) == SyncDecision::Stale) <==> last <= book_last,
        processed_first ==> ((sync_decision(processed_first, book_last, first, last) == SyncDecision::Apply)
            <==> (book_last < last && first == book_last + 1)),
        processed_first ==> ((sync_decision(processed_first, book_last, first, last) == SyncDecision::Gap)
            <==> (book_last < last && first != book_last + 1)),
        !processed_first ==> ((sync_decision(processed_first, book_last, first, last) == SyncDecision::Apply)
            <==> (book_last < last && first <= book_last + 1)),
        !processed_first ==> ((sync_decision(processed_first, book_last, first, last) == SyncDecision::Gap)
            <==> (book_last < last && book_last + 1 < first)),
{
}

/// The state that the processing of a depth stream carries from one update to
/// the next: whether an update has been applied yet.
pub struct EventSync {
    pub processed_first: bool,
}

impl EventSync {
    /// The state before any update has been seen.
    pub fn new() -> (sync: Self)
        ensures
            !sync.processed_first,
    {
        EventSync { processed_first: false }
    }
}

/// A message read from the depth stream, or the error that reading met.
pub enum StreamMessage {
    Text(String),
    Binary(Vec<u8>),
    Other,
    Failed(String),
}

/// What the reader of the stream does with a message.
pub enum StreamAction {
    /// Reads on.
    Skip,
    /// Decodes these bytes as a depth update.
    Decode(Vec<u8>),
    /// Hands on this error and stops reading.
    Stop(ConnectorError),
}

/// The reader's rule for one message: text and binary messages are decoded
/// (unless a dropped connection is being simulated), other messages are
/// skipped, and a read error stops the reader.
pub fn on_stream_message(message: StreamMessage, simulate_drop: bool) -> (action: StreamAction)
    ensures
        match message {
            StreamMessage::Failed(e) => action matches StreamAction::Stop(
                ConnectorError::WebSocketError(text),
            ) && text@ == e@,
            StreamMessage::Other => action is Skip,
            StreamMessage::Text(t) => if simulate_drop {
                action matches StreamAction::Stop(ConnectorError::SimulatedDrop)
            } else {
                action matches StreamAction::Decode(bytes) && bytes@ == encode_utf8(t@)
            },
            StreamMessage::Binary(b) => if simulate_drop {
                action matches StreamAction::Stop(ConnectorError::SimulatedDrop)
            } else {
                action matches StreamAction::Decode(bytes) && bytes@ == b@
            },
        },
{
    let bytes = match message {
        StreamMessage::Text(text) => vstd::slice::slice_to_vec(text.as_str().as_bytes()),
        StreamMessage::Binary(bin) => bin,
        StreamMessage::Other => {
            return StreamAction::Skip;
        },
        StreamMessage::Failed(e) => {
            return StreamAction::Stop(ConnectorError::WebSocketError(e));
        },
    };
    if simulate_drop {
        return StreamAction::Stop(ConnectorError::SimulatedDrop);
    }
    StreamAction::Decode(bytes)
}

/// The reader's rule for a decoded message: an update is handed on and
/// reading goes on; a decoding error is handed on and reading stops. The flag
/// says whether to read on.
pub fn on_decoded(decoded: Result<DepthUpdateEvent, String>) -> (out: (ConnectorEvent, bool))
    ensures
        match decoded {
            Ok(event) => out.0 == ConnectorEvent::Data(event) && out.1,
            Err(e) => out.0 matches ConnectorEvent::Error(ConnectorError::DeserializationError(text))
                && text@ == e@ && !out.1,
        },
{
    match decoded {
        Ok(event) => (ConnectorEvent::Data(event), true),
        Err(e) => (ConnectorEvent::Error(ConnectorError::DeserializationError(e)), false),
    }
}

/// The REST address of the depth snapshot, from the endpoint and the symbol
/// as it is to be sent (upper case).
pub fn depth_snapshot_address(rest_endpoint: &str, upper_symbol: &str) -> (url: String)
    ensures
        url@ == rest_endpoint@ + "/api/v3/depth?symbol="@ + upper_symbol@ + "&limit=1000"@,
{
    let mut url = rest_endpoint.to_owned();
    url.append("/api/v3/depth?symbol=");
    url.append(upper_symbol);
    url.append("&limit=1000");
    url
}

/// The address of the depth stream, from the endpoint and the symbol as it is
/// to be sent (lower case).
pub fn depth_stream_address(ws_endpoint: &str, lower_symbol: &str) -> (url: String)
    ensures
        url@ == ws_endpoint@ + "/ws/"@ + lower_symbol@ + "@depth@100ms"@,
{
    let mut url = ws_endpoint.to_owned();
    url.append("/ws/");
    url.append(lower_symbol);
    url.append("@depth@100ms");
    url
}

/// What the reader hands on for one message.
#[derive(Clone, Copy, Debug, PartialEq, Eq)]
pub enum Sent {
    Nothing,
    Update,
    Failure,
}

/// The kind of what the reader hands on.
pub open spec fn sent_kind(out: Option<ConnectorEvent>) -> Sent {
    match out {
        None => Sent::Nothing,
        Some(ConnectorEvent::Data(_)) => Sent::Update,
        Some(ConnectorEvent::Error(_)) => Sent::Failure,
    }
}

/// The reader's rule for one message, as whether it has stopped afterwards and
/// what kind of event it hands on; `decodes` says whether the message's bytes
/// decode as a depth update. A stopped reader hands on nothing; a read error,
/// a simulated drop or a decoding error is handed on and stops the reader.
pub open spec fn reader_step(stopped: bool, message: StreamMessage, simulate_drop: bool, decodes: bool) -> (
    bool,
    Sent,
) {
    if stopped {
        (true, Sent::Nothing)
    } else {
        match message {
            StreamMessage::Failed(_) => (true, Sent::Failure),
            StreamMessage::Other => (false, Sent::Nothing),
            _ => if simulate_drop {
                (true, Sent::Failure)
            } else if decodes {
                (false, Sent::Update)
            } else {
                (true, Sent::Failure)
            },
        }
    }
}

/// What the reader hands on over a run of messages, each with its drop draw
/// and whether it decodes.
pub open spec fn reader_run(stopped: bool, inputs: Seq<(StreamMessage, bool, bool)>) -> Seq<Sent>
    decreases inputs.len(),
{
    if inputs.len() == 0 {
        Seq::empty()
    } else {
        let step = reader_step(stopped, inputs[0].0, inputs[0].1, inputs[0].2);
        seq![step.1] + reader_run(step.0, inputs.drop_first())
    }
}

/// Over any run of the reader: one kind of event per message; a stopped
/// reader hands on nothing; at most one error is handed on and nothing after
/// it; and an update is handed on only for a text or binary message that was
/// not dropped and decoded.
pub proof fn lemma_reader_run(stopped: bool, inputs: Seq<(StreamMessage, bool, bool)>)
    ensures
        reader_run(stopped, inputs).len() == inputs.len(),
        stopped ==> forall|i: int| 0 <= i < inputs.len() ==> #[trigger] reader_run(stopped, inputs)[i] == Sent::Nothing,
        forall|i: int, j: int|
            0 <= i < j < inputs.len() && #[trigger] reader_run(stopped, inputs)[i] == Sent::Failure
                ==> #[trigger] reader_run(stopped, inputs)[j] == Sent::Nothing,
        forall|i: int|
            0 <= i < inputs.len() && #[trigger] reader_run(stopped, inputs)[i] == Sent::Update ==> {
                &&& (inputs[i].0 is Text || inputs[i].0 is Binary)
                &&& !inputs[i].1
                &&& inputs[i].2
            },
    decreases inputs.len(),
{
    if inputs.len() > 0 {
        let step = reader_step(stopped, inputs[0].0, inputs[0].1, inputs[0].2);
        let rest = inputs.drop_first();
        lemma_reader_run(step.0, rest);
        let run = reader_run(stopped, inputs);
        let tail = reader_run(step.0, rest);
        assert(run =~= seq![step.1] + tail);
        assert forall|i: int| 0 < i < inputs.len() implies run[i] == tail[i - 1] && inputs[i] == rest[i - 1] by {}
        if stopped {
            assert forall|i: int| 0 <= i < inputs.len() implies #[trigger] run[i] == Sent::Nothing by {
                if i > 0 {
                    assert(run[i] == tail[i - 1]);
                }
            }
        }
        assert forall|i: int, j: int|
            0 <= i < j < inputs.len() && #[trigger] run[i] == Sent::Failure implies #[trigger] run[j]
            == Sent::Nothing by {
            assert(run[j] == tail[j - 1]);
            if i > 0 {
                assert(run[i] == tail[i - 1]);
            } else {
                assert(step.0);
            }
        }
        assert forall|i: int| 0 <= i < inputs.len() && #[trigger] run[i] == Sent::Update implies {
            &&& (inputs[i].0 is Text || inputs[i].0 is Binary)
            &&& !inputs[i].1
            &&& inputs[i].2
        } by {
            if i > 0 {
                assert(run[i] == tail[i - 1]);
                assert(inputs[i] == rest[i - 1]);
            }
        }
    }
}

/// The event that a decoding outcome is handed on as.
pub open spec fn decoded_as(decoded: Result<DepthUpdateEvent, String>, out: Option<ConnectorEvent>) -> bool {
    match decoded {
        Ok(event) => out == Some(ConnectorEvent::Data(event)),
        Err(e) => out matches Some(ConnectorEvent::Error(ConnectorError::DeserializationError(text))) && text@
            == e@,
    }
}

/// The reader of the depth stream: whether it has stopped.
pub struct StreamReader {
    pub stopped: bool,
}

impl StreamReader {
    /// A reader that has not stopped.
    pub fn new() -> (reader: Self)
        ensures
            !reader.stopped,
    {
        StreamReader { stopped: false }
    }

    /// Reads one message: what to hand on, if anything. Text and binary
    /// messages are decoded by `decode` (unless a dropped connection is being
    /// simulated); once the reader has handed on an error it hands on nothing.
    pub fn read<F: Fn(Vec<u8>) -> Result<DepthUpdateEvent, String>>(
        &mut self,
        message: StreamMessage,
        simulate_drop: bool,
        decode: &F,
    ) -> (out: Option<ConnectorEvent>)
        requires
            forall|bytes: Vec<u8>| decode.requires((bytes,)),
        ensures
            (final(self).stopped, sent_kind(out)) == reader_step(
                old(self).stopped,
                message,
                simulate_drop,
                sent_kind(out) == Sent::Update,
            ),
            old(self).stopped ==> out is None,
            !old(self).stopped ==> match message {
                StreamMessage::Failed(e) => out matches Some(
                    ConnectorEvent::Error(ConnectorError::WebSocketError(text)),
                ) && text@ == e@,
                StreamMessage::Other => out is None,
                StreamMessage::Text(t) => if simulate_drop {
                    out matches Some(ConnectorEvent::Error(ConnectorError::SimulatedDrop))
                } else {
                    exists|bytes: Vec<u8>, decoded: Result<DepthUpdateEvent, String>|
                        bytes@ == encode_utf8(t@) && decode.ensures((bytes,), decoded) && decoded_as(
                            decoded,
                            out,
                        )
                },
                StreamMessage::Binary(b) => if simulate_drop {
                    out matches Some(ConnectorEvent::Error(ConnectorError::SimulatedDrop))
                } else {
                    exists|bytes: Vec<u8>, decoded: Result<DepthUpdateEvent, String>|
                        bytes@ == b@ && decode.ensures((bytes,), decoded) && decoded_as(decoded, out)
                },
            },
    {
        if self.stopped {
            return None;
        }
        match on_stream_message(message, simulate_drop) {
            StreamAction::Skip => None,
            StreamAction::Stop(error) => {
                self.stopped = true;
                Some(ConnectorEvent::Error(error))
            },
            StreamAction::Decode(bytes) => {
                let ghost b = bytes;
                let decoded = decode(bytes);
                proof {
                    assert(decode.ensures((b,), decoded));
                }
                let (event, read_on) = on_decoded(decoded);
                self.stopped = !read_on;
                Some(event)
            },
        }
    }
}

/// The connector to Binance: its stream and REST endpoints.
pub struct BinanceConnector {
    ws_endpoint: String,
    rest_endpoint: String,
}

impl Connector for BinanceConnector {
    fn get_name(&self) -> (name: &str)
        ensures
            name@ == "Binance"@,
    {
        "Binance"
    }
}

impl BinanceConnector {
    /// The stream endpoint.
    pub closed spec fn ws_endpoint_view(&self) -> Seq<char> {
        self.ws_endpoint@
    }

    /// The REST endpoint.
    pub closed spec fn rest_endpoint_view(&self) -> Seq<char> {
        self.rest_endpoint@
    }

    /// A connector to the given endpoints.
    pub fn new(ws_endpoint: String, rest_endpoint: String) -> (connector: Self)
        ensures
            connector.ws_endpoint_view() == ws_endpoint@,
            connector.rest_endpoint_view() == rest_endpoint@,
    {
        Self { ws_endpoint, rest_endpoint }
    }

    /// The address of the depth snapshot of `symbol`.
    pub fn snapshot_url(&self, symbol: &str) -> (url: String)
        ensures
            url@ == snapshot_url_spec(self.rest_endpoint_view(), symbol@),
    {
        let upper = to_uppercase(symbol);
        depth_snapshot_address(self.rest_endpoint.as_str(), upper.as_str())
    }

    /// The address of the depth stream of `symbol`, once `url` accepts it as a
    /// URL; a parse error otherwise.
    pub fn stream_url(&self, symbol: &str) -> (r: Result<String, ConnectorError>)
        ensures
            match url_parse_outcome(stream_url_spec(self.ws_endpoint_view(), symbol@)) {
                Ok(_) => r matches Ok(url) && url@ == stream_url_spec(self.ws_endpoint_view(), symbol@),
                Err(msg) => r matches Err(ConnectorError::ParseError(text)) && text@ == msg,
            },
    {
        let lower = to_lowercase(symbol);
        let url = depth_stream_address(self.ws_endpoint.as_str(), lower.as_str());
        match parse_url(url.as_str()) {
            Ok(()) => Ok(url),
            Err(msg) => Err(ConnectorError::ParseError(msg)),
        }
    }

    /// Folds the snapshot into the book: its last update id first, then its
    /// bids, then its asks, stopping at the first level that does not parse.
    /// The book is not cleared first: levels that the snapshot does not name
    /// keep their volumes.
    pub fn initialize_book_from_snapshot<O: OrderBookOperations>(
        &self,
        snapshot: &OrderBookSnapshot,
        book: &mut O,
    ) -> (r: Result<(), ConnectorError>)
        ensures
            ({
                let (bids, asks, error) = apply_book_levels(
                    old(book).bids_view(),
                    old(book).asks_view(),
                    snapshot.bids@,
                    snapshot.asks@,
                );
                &&& final(book).bids_view() == bids
                &&& final(book).asks_view() == asks
                &&& reports_parse(r, error)
            }),
            final(book).last_update_id_view() == snapshot.last_update_id,
    {
        book.set_last_update_id(snapshot.last_update_id);
        match update_levels(book, &snapshot.bids, true) {
            Ok(()) => {},
            Err(e) => {
                return Err(e);
            },
        }
        update_levels(book, &snapshot.asks, false)
    }

    /// Folds a depth update's bids, then its asks, into the book, stopping at
    /// the first level that does not parse. The last update id is left alone.
    pub fn update_order_book_from_event<O: OrderBookOperations>(
        &self,
        event: &DepthUpdateEvent,
        book: &mut O,
    ) -> (r: Result<(), ConnectorError>)
        ensures
            ({
                let (bids, asks, error) = apply_book_levels(
                    old(book).bids_view(),
                    old(book).asks_view(),
                    event.b@,
                    event.a@,
                );
                &&& final(book).bids_view() == bids
                &&& final(book).asks_view() == asks
                &&& reports_parse(r, error)
            }),
            final(book).last_update_id_view() == old(book).last_update_id_view(),
    {
        match update_levels(book, &event.b, true) {
            Ok(()) => {},
            Err(e) => {
                return Err(e);
            },
        }
        update_levels(book, &event.a, false)
    }

    /// One step of processing the depth stream: `None` when the stream has
    /// closed. `Ok` means: read on. An applied update moves the book's last
    /// update id to the update's last id.
    pub fn process_event<O: OrderBookOperations>(
        &self,
        sync: &mut EventSync,
        event: Option<ConnectorEvent>,
        book: &mut O,
    ) -> (r: Result<(), ConnectorError>)
        ensures
            match event {
                None => {
                    &&& r matches Err(ConnectorError::ChannelClosed)
                    &&& book_unchanged(*old(book), *final(book))
                    &&& final(sync).processed_first == old(sync).processed_first
                },
                Some(ConnectorEvent::Error(e)) => {
                    &&& r == Err::<(), ConnectorError>(e)
                    &&& book_unchanged(*old(book), *final(book))
                    &&& final(sync).processed_first == old(sync).processed_first
                },
                Some(ConnectorEvent::Data(update)) => match sync_decision(
                    old(sync).processed_first,
                    old(book).last_update_id_view(),
                    update.first_update_id,
                    update.final_update_id,
                ) {
                    SyncDecision::Stale => {
                        &&& r is Ok
                        &&& book_unchanged(*old(book), *final(book))
                        &&& final(sync).processed_first == old(sync).processed_first
                    },
                    SyncDecision::Gap => {
                        &&& r matches Err(ConnectorError::InconsistentSequence)
                        &&& book_unchanged(*old(book), *final(book))
                        &&& final(sync).processed_first == old(sync).processed_first
                    },
                    SyncDecision::Apply => {
                        let (bids, asks, error) = apply_book_levels(
                            old(book).bids_view(),
                            old(book).asks_view(),
                            update.b@,
                            update.a@,
                        );
                        &&& final(sync).processed_first
                        &&& final(book).bids_view() == bids
                        &&& final(book).asks_view() == asks
                        &&& reports_parse(r, error)
                        &&& final(book).last_update_id_view() == (if error is None {
                            update.final_update_id
                        } else {
                            old(book).last_update_id_view()
                        })
                    },
                },
            },
    {
        let update = match event {
            None => {
                return Err(ConnectorError::ChannelClosed);
            },
            Some(ConnectorEvent::Error(e)) => {
                return Err(e);
            },
            Some(ConnectorEvent::Data(update)) => update,
        };
        let last_update_id = book.get_last_update_id();
        if update.final_update_id <= last_update_id {
            return Ok(());
        }
        if !sync.processed_first {
            if update.first_update_id <= last_update_id + 1 && update.final_update_id >= last_update_id {
                sync.processed_first = true;
            } else {
                return Err(ConnectorError::InconsistentSequence);
            }
        } else if update.first_update_id != last_update_id + 1 {
            return Err(ConnectorError::InconsistentSequence);
        }
        match self.update_order_book_from_event(&update, book) {
            Ok(()) => {},
            Err(e) => {
                return Err(e);
            },
        }
        book.set_last_update_id(update.final_update_id);
        Ok(())
    }
}

/// Calls `str::to_uppercase`; the result is named `uppercase`.
#[verifier::external_body]
fn to_uppercase(text: &str) -> (s: String)
    ensures
        s@ == uppercase(text@),
{
    text.to_uppercase()
}

/// Calls `str::to_lowercase`; the result is named `lowercase`.
#[verifier::external_body]
fn to_lowercase(text: &str) -> (s: String)
    ensures
        s@ == lowercase(text@),
{
    text.to_lowercase()
}

/// Calls `url::Url::parse` and keeps whether it succeeded, or the text of its
/// error; the outcome is named `url_parse_outcome`. The parsed URL itself is
/// dropped.
#[verifier::external_body]
fn parse_url(text: &str) -> (r: Result<(), String>)
    ensures
        match r {
            Ok(_) => url_parse_outcome(text@) == Ok::<(), Seq<char>>(()),
            Err(msg) => url_parse_outcome(text@) == Err::<(), Seq<char>>(msg@),
        },
{
    match url::Url::parse(text) {
        Ok(_) => Ok(()),
        Err(e) => Err(e.to_string()),
    }
}

} // verus!
