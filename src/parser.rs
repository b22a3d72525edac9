//! `LogMessageParser` turns log messages into events.

use std::collections::HashMap;

use vstd::prelude::*;

use crate::delimited::{delimited, delimited_chars};
use crate::event::{event_opt_view, Event, EventView};
use crate::ids::{scan_step, Id, IdSequenceParser};
use crate::text::{
    chars_of, is_whitespace, last_occurrence, occurs_at, rfind, slice, string_of, trim, trimmed,
    unicode_whitespace,
};

verus! {

broadcast use vstd::std_specs::hash::group_hash_axioms;

/// What `char::is_numeric` says of a character (Unicode general categories
/// `Nd`, `Nl` and `No`).
pub uninterp spec fn unicode_numeric(c: char) -> bool;

/// Relies on `char::is_numeric`: whether `c` is in one of the Unicode
/// numeric categories (`Nd`, `Nl`, `No`); ASCII digits are (`Nd`), ASCII
/// letters (`Lu`, `Ll`) are not.
#[verifier::external_body]
fn is_numeric(c: char) -> (r: bool)
    ensures
        r == unicode_numeric(c),
        '0' <= c <= '9' ==> r,
        ('a' <= c <= 'z') || ('A' <= c <= 'Z') ==> !r,
{
    c.is_numeric()
}

/// A character that may be part of the timestamp at the start of a line.
pub open spec fn timestamp_char(c: char) -> bool {
    unicode_whitespace(c) || unicode_numeric(c) || c == ':'
}

/// Length of the run of timestamp characters at the start of `s`.
pub open spec fn timestamp_len(s: Seq<char>) -> nat
    decreases s.len(),
{
    if s.len() > 0 && timestamp_char(s[0]) {
        1 + timestamp_len(s.drop_first())
    } else {
        0
    }
}

/// `line` without the longest run of timestamp characters at its start:
/// empty when the line holds nothing else.
pub open spec fn without_timestamp(line: Seq<char>) -> Seq<char> {
    line.skip(timestamp_len(line) as int)
}

/// The kinds of message the parser reads, each told by the tag at the start
/// of its payload.
#[derive(Debug, Clone, Copy, PartialEq, Eq, Structural)]
pub enum MessageKind {
    ClientBegin,
    ClientConnect,
    ClientDisconnect,
    ClientUserinfoChanged,
    Kill,
    InitGame,
}

/// The tag of each kind of message.
pub open spec fn tag(k: MessageKind) -> Seq<char> {
    match k {
        MessageKind::ClientBegin => "ClientBegin:"@,
        MessageKind::ClientConnect => "ClientConnect:"@,
        MessageKind::ClientDisconnect => "ClientDisconnect:"@,
        MessageKind::ClientUserinfoChanged => "ClientUserinfoChanged:"@,
        MessageKind::Kill => "Kill:"@,
        MessageKind::InitGame => "InitGame:"@,
    }
}

impl MessageKind {
    /// The tag that starts a message of this kind.
    pub fn tag(&self) -> (r: &'static str)
        ensures
            r@ == tag(*self),
    {
        match self {
            MessageKind::ClientBegin => "ClientBegin:",
            MessageKind::ClientConnect => "ClientConnect:",
            MessageKind::ClientDisconnect => "ClientDisconnect:",
            MessageKind::ClientUserinfoChanged => "ClientUserinfoChanged:",
            MessageKind::Kill => "Kill:",
            MessageKind::InitGame => "InitGame:",
        }
    }
}

/// The kind of a payload: the first kind, in declared order, whose tag
/// starts it.
pub open spec fn classify(s: Seq<char>) -> Option<MessageKind> {
    if occurs_at(s, tag(MessageKind::ClientBegin), 0) {
        Some(MessageKind::ClientBegin)
    } else if occurs_at(s, tag(MessageKind::ClientConnect), 0) {
        Some(MessageKind::ClientConnect)
    } else if occurs_at(s, tag(MessageKind::ClientDisconnect), 0) {
        Some(MessageKind::ClientDisconnect)
    } else if occurs_at(s, tag(MessageKind::ClientUserinfoChanged), 0) {
        Some(MessageKind::ClientUserinfoChanged)
    } else if occurs_at(s, tag(MessageKind::Kill), 0) {
        Some(MessageKind::Kill)
    } else if occurs_at(s, tag(MessageKind::InitGame), 0) {
        Some(MessageKind::InitGame)
    } else {
        None
    }
}

fn starts_with_tag(payload: &Vec<char>, k: MessageKind) -> (r: bool)
    ensures
        r == occurs_at(payload@, tag(k), 0),
{
    let t = chars_of(k.tag());
    crate::text::starts_with(payload, &t)
}

/// The kind of `payload`, by its tag.
fn classify_chars(payload: &Vec<char>) -> (r: Option<MessageKind>)
    ensures
        r == classify(payload@),
{
    if starts_with_tag(payload, MessageKind::ClientBegin) {
        Some(MessageKind::ClientBegin)
    } else if starts_with_tag(payload, MessageKind::ClientConnect) {
        Some(MessageKind::ClientConnect)
    } else if starts_with_tag(payload, MessageKind::ClientDisconnect) {
        Some(MessageKind::ClientDisconnect)
    } else if starts_with_tag(payload, MessageKind::ClientUserinfoChanged) {
        Some(MessageKind::ClientUserinfoChanged)
    } else if starts_with_tag(payload, MessageKind::Kill) {
        Some(MessageKind::Kill)
    } else if starts_with_tag(payload, MessageKind::InitGame) {
        Some(MessageKind::InitGame)
    } else {
        None
    }
}

/// Why a message could not be read.
#[derive(Debug, Clone, Copy, PartialEq, Eq, Structural)]
pub enum ParseFailure {
    /// The message has no client id where one is expected.
    MissingId,
    /// A kill message lacks its killer or victim id.
    MissingKillIds,
    /// A kill message has no death cause.
    MissingDeathCause,
    /// A userinfo message has no name framed by `n\` and `\t`.
    MissingName,
    /// A client began without having been named while connecting.
    JoinedWithoutName(Id),
}

/// A message that could not be read: its kind, its contents (the payload
/// after the tag, trimmed) and the reason.
#[derive(Debug, Clone, PartialEq, Eq)]
pub struct ParseError {
    pub kind: MessageKind,
    pub contents: String,
    pub failure: ParseFailure,
}

/// The parser's knowledge of connections: clients that are connecting, with
/// the name they have given so far, and clients that have joined, with
/// their names.
pub struct ConnectionView {
    pub connecting: Map<Id, Option<Seq<char>>>,
    pub joined: Map<Id, Seq<char>>,
}

/// What reading one payload does: the connection state afterwards, and the
/// event (or failure) it gives.
pub struct Step {
    pub state: ConnectionView,
    pub out: Result<Option<EventView>, ParseFailure>,
}

/// The marker that starts the death cause of a kill message.
pub open spec fn cause_marker() -> Seq<char> {
    "MOD_"@
}

pub open spec fn kill_step(st: ConnectionView, body: Seq<char>) -> Step {
    match last_occurrence(body, cause_marker()) {
        None => Step { state: st, out: Err(ParseFailure::MissingDeathCause) },
        Some(p) => {
            let first = scan_step(body);
            let second = scan_step(first.0);
            if first.1 is None || second.1 is None {
                Step { state: st, out: Err(ParseFailure::MissingKillIds) }
            } else {
                Step {
                    state: st,
                    out: Ok(
                        Some(
                            EventView::Kill {
                                killer: first.1->0,
                                victim: second.1->0,
                                death_cause: body.skip(p),
                            },
                        ),
                    ),
                }
            }
        },
    }
}

pub open spec fn reset_step(st: ConnectionView) -> Step {
    Step {
        state: ConnectionView { connecting: Map::empty(), joined: Map::empty() },
        out: Ok(Some(EventView::ResetMatch)),
    }
}

/// A connect puts the client in the connecting map with no name yet. A
/// client already connecting is left as it is (a repeated message, or an
/// earlier connection that did not finish); a client that had joined
/// reconnects, and is connecting again rather than joined.
pub open spec fn connect_step(st: ConnectionView, body: Seq<char>) -> Step {
    match scan_step(body).1 {
        None => Step { state: st, out: Err(ParseFailure::MissingId) },
        Some(id) => if st.connecting.contains_key(id) {
            Step { state: st, out: Ok(None) }
        } else {
            Step {
                state: ConnectionView {
                    connecting: st.connecting.insert(id, None),
                    joined: st.joined.remove(id),
                },
                out: Ok(None),
            }
        },
    }
}

pub open spec fn disconnect_step(st: ConnectionView, body: Seq<char>) -> Step {
    match scan_step(body).1 {
        None => Step { state: st, out: Err(ParseFailure::MissingId) },
        Some(id) => Step {
            state: ConnectionView {
                connecting: st.connecting.remove(id),
                joined: st.joined.remove(id),
            },
            out: Ok(Some(EventView::PlayerLeft { id })),
        },
    }
}

/// A begin joins a client that is connecting and has a name. For a client
/// that has joined already it is a repeat, and changes nothing; for any
/// other client it fails, and changes nothing either.
pub open spec fn begin_step(st: ConnectionView, body: Seq<char>) -> Step {
    match scan_step(body).1 {
        None => Step { state: st, out: Err(ParseFailure::MissingId) },
        Some(id) => if st.connecting.contains_key(id) && st.connecting[id] is Some {
            let name = st.connecting[id]->0;
            Step {
                state: ConnectionView {
                    connecting: st.connecting.remove(id),
                    joined: st.joined.insert(id, name),
                },
                out: Ok(Some(EventView::PlayerJoined { id, name })),
            }
        } else if st.joined.contains_key(id) {
            Step { state: st, out: Ok(None) }
        } else {
            Step { state: st, out: Err(ParseFailure::JoinedWithoutName(id)) }
        },
    }
}

/// The markers that frame a player's name in a userinfo message.
pub open spec fn name_open() -> Seq<char> {
    "n\\"@
}

pub open spec fn name_close() -> Seq<char> {
    "\\t"@
}

pub open spec fn userinfo_step(st: ConnectionView, body: Seq<char>) -> Step {
    match scan_step(body).1 {
        None => Step { state: st, out: Err(ParseFailure::MissingId) },
        Some(id) => match delimited(body, name_open(), name_close()) {
            None => Step { state: st, out: Err(ParseFailure::MissingName) },
            Some(name) => if st.connecting.contains_key(id) {
                Step {
                    state: ConnectionView {
                        connecting: st.connecting.insert(id, Some(name)),
                        ..st
                    },
                    out: Ok(None),
                }
            } else {
                Step { state: st, out: Ok(Some(EventView::PlayerNameUpdate { id, new_name: name })) }
            },
        },
    }
}

/// What the handler of kind `k` does with payload contents `body`.
pub open spec fn handle(k: MessageKind, st: ConnectionView, body: Seq<char>) -> Step {
    match k {
        MessageKind::ClientBegin => begin_step(st, body),
        MessageKind::ClientConnect => connect_step(st, body),
        MessageKind::ClientDisconnect => disconnect_step(st, body),
        MessageKind::ClientUserinfoChanged => userinfo_step(st, body),
        MessageKind::Kill => kill_step(st, body),
        MessageKind::InitGame => reset_step(st),
    }
}

/// The contents of a payload of kind `k`: what follows its tag, trimmed.
pub open spec fn contents_of(k: MessageKind, payload: Seq<char>) -> Seq<char> {
    trimmed(payload.skip(tag(k).len() as int))
}

/// No client is both connecting and joined.
pub open spec fn disjoint(st: ConnectionView) -> bool {
    forall|id: Id| !(#[trigger] st.connecting.contains_key(id) && st.joined.contains_key(id))
}

/// What reading one whole line does.
pub open spec fn line_step(st: ConnectionView, line: Seq<char>) -> Step {
    let payload = without_timestamp(line);
    match classify(payload) {
        None => Step { state: st, out: Ok(None) },
        Some(k) => handle(k, st, contents_of(k, payload)),
    }
}

pub open spec fn pending_view(o: Option<String>) -> Option<Seq<char>> {
    match o {
        None => None,
        Some(s) => Some(s@),
    }
}

/// Connection tracking, cleared at every match boundary.
struct LogState {
    connected_players: HashMap<Id, String>,
    connecting_players: HashMap<Id, Option<String>>,
}

impl View for LogState {
    type V = ConnectionView;

    closed spec fn view(&self) -> ConnectionView {
        ConnectionView {
            connecting: self.connecting_players@.map_values(|o: Option<String>| pending_view(o)),
            joined: self.connected_players@.map_values(|s: String| s@),
        }
    }
}

impl LogState {
    fn new() -> (r: Self)
        ensures
            r@.connecting == Map::<Id, Option<Seq<char>>>::empty(),
            r@.joined == Map::<Id, Seq<char>>::empty(),
    {
        let r = LogState { connected_players: HashMap::new(), connecting_players: HashMap::new() };
        assert(r@.connecting =~= Map::<Id, Option<Seq<char>>>::empty());
        assert(r@.joined =~= Map::<Id, Seq<char>>::empty());
        r
    }

    fn clear(&mut self)
        ensures
            final(self)@.connecting == Map::<Id, Option<Seq<char>>>::empty(),
            final(self)@.joined == Map::<Id, Seq<char>>::empty(),
    {
        self.connected_players.clear();
        self.connecting_players.clear();
        assert(self@.connecting =~= Map::<Id, Option<Seq<char>>>::empty());
        assert(self@.joined =~= Map::<Id, Seq<char>>::empty());
    }
}

/// Parses log messages into [`Event`]s.
///
/// The parser is stateful: it follows clients through connecting, naming
/// and joining. Lines it does not recognise give no event.
pub struct LogMessageParser {
    state: LogState,
}

impl View for LogMessageParser {
    type V = ConnectionView;

    closed spec fn view(&self) -> ConnectionView {
        self.state@
    }
}

/// The first `n` characters of `v` are all timestamp characters.
spec fn timestamp_prefix(v: Seq<char>, n: int) -> bool {
    forall|i: int| 0 <= i < n ==> timestamp_char(#[trigger] v[i])
}

proof fn lemma_timestamp_len(s: Seq<char>, n: int)
    requires
        0 <= n <= s.len(),
        forall|i: int| 0 <= i < n ==> timestamp_char(#[trigger] s[i]),
        n == s.len() || !timestamp_char(s[n]),
    ensures
        timestamp_len(s) == n,
    decreases n,
{
    if n > 0 {
        let t = s.drop_first();
        assert forall|i: int| 0 <= i < n - 1 implies timestamp_char(#[trigger] t[i]) by {
            assert(t[i] == s[i + 1]);
        }
        if n < s.len() {
            assert(t[n - 1] == s[n]);
        }
        lemma_timestamp_len(t, n - 1);
    }
}

/// The view of a handler's result.
pub open spec fn outcome_view(r: Result<Option<Event>, ParseFailure>) -> Result<
    Option<EventView>,
    ParseFailure,
> {
    match r {
        Ok(e) => Ok(event_opt_view(e)),
        Err(f) => Err(f),
    }
}

fn first_id(body: &Vec<char>) -> (r: Option<Id>)
    ensures
        r == scan_step(body@).1,
{
    IdSequenceParser::from_chars(body).next()
}

impl LogMessageParser {
    pub fn new() -> (r: Self)
        ensures
            r@.connecting == Map::<Id, Option<Seq<char>>>::empty(),
            r@.joined == Map::<Id, Seq<char>>::empty(),
    {
        LogMessageParser { state: LogState::new() }
    }

    /// Cuts the timestamp off a log line: everything from its first
    /// character that is neither whitespace, numeric nor a colon, and
    /// nothing when there is no such character.
    pub fn trim_timestamp(line: &str) -> (r: String)
        ensures
            r@ == without_timestamp(line@),
    {
        let v = chars_of(line);
        string_of(&Self::trim_timestamp_chars(&v))
    }

    fn trim_timestamp_chars(v: &Vec<char>) -> (r: Vec<char>)
        ensures
            r@ == without_timestamp(v@),
    {
        let mut i: usize = 0;
        while i < v.len() && (is_whitespace(v[i]) || is_numeric(v[i]) || v[i] == ':')
            invariant
                i <= v@.len(),
                timestamp_prefix(v@, i as int),
            decreases v@.len() - i,
        {
            i = i + 1;
        }
        proof {
            lemma_timestamp_len(v@, i as int);
        }
        slice(v, i, v.len())
    }
}

impl LogMessageParser {
    fn parse_kill(&mut self, kill_details: &Vec<char>) -> (r: Result<Option<Event>, ParseFailure>)
        ensures
            final(self)@ == kill_step(old(self)@, kill_details@).state,
            outcome_view(r) == kill_step(old(self)@, kill_details@).out,
    {
        let marker = chars_of("MOD_");
        let position = match rfind(kill_details, &marker) {
            None => return Err(ParseFailure::MissingDeathCause),
            Some(p) => p,
        };
        let death_cause = string_of(&slice(kill_details, position, kill_details.len()));
        assert(death_cause@ =~= kill_details@.skip(position as int));
        let mut ids = IdSequenceParser::from_chars(kill_details);
        let killer = match ids.next() {
            None => return Err(ParseFailure::MissingKillIds),
            Some(k) => k,
        };
        let victim = match ids.next() {
            None => return Err(ParseFailure::MissingKillIds),
            Some(v) => v,
        };
        Ok(Some(Event::Kill { killer, victim, death_cause }))
    }

    fn reset_match(&mut self) -> (r: Result<Option<Event>, ParseFailure>)
        ensures
            final(self)@ == reset_step(old(self)@).state,
            outcome_view(r) == reset_step(old(self)@).out,
    {
        self.state.clear();
        Ok(Some(Event::ResetMatch))
    }

    fn parse_client_connect(&mut self, id: &Vec<char>) -> (r: Result<Option<Event>, ParseFailure>)
        ensures
            final(self)@ == connect_step(old(self)@, id@).state,
            outcome_view(r) == connect_step(old(self)@, id@).out,
    {
        let id = match first_id(id) {
            None => return Err(ParseFailure::MissingId),
            Some(id) => id,
        };
        // A connect for a client that is already connecting comes from a
        // duplicated message or an unfinished earlier connection: either way
        // the entry is kept as it is.
        if !self.state.connecting_players.contains_key(&id) {
            let ghost before = self.state@;
            self.state.connecting_players.insert(id, None);
            self.state.connected_players.remove(&id);
            assert(self.state@.connecting =~= before.connecting.insert(id, None));
            assert(self.state@.joined =~= before.joined.remove(id));
        }
        Ok(None)
    }

    fn parse_client_disconnect(&mut self, id: &Vec<char>) -> (r: Result<
        Option<Event>,
        ParseFailure,
    >)
        ensures
            final(self)@ == disconnect_step(old(self)@, id@).state,
            outcome_view(r) == disconnect_step(old(self)@, id@).out,
    {
        let id = match first_id(id) {
            None => return Err(ParseFailure::MissingId),
            Some(id) => id,
        };
        let ghost before = self.state@;
        self.state.connecting_players.remove(&id);
        self.state.connected_players.remove(&id);
        assert(self.state@.connecting =~= before.connecting.remove(id));
        assert(self.state@.joined =~= before.joined.remove(id));
        Ok(Some(Event::PlayerLeft { id }))
    }

    fn parse_client_begin(&mut self, id: &Vec<char>) -> (r: Result<Option<Event>, ParseFailure>)
        ensures
            final(self)@ == begin_step(old(self)@, id@).state,
            outcome_view(r) == begin_step(old(self)@, id@).out,
    {
        let id = match first_id(id) {
            None => return Err(ParseFailure::MissingId),
            Some(id) => id,
        };
        let pending_name = match self.state.connecting_players.get(&id) {
            Some(Some(name)) => Some(name.clone()),
            _ => None,
        };
        match pending_name {
            Some(name) => {
                let ghost before = self.state@;
                self.state.connecting_players.remove(&id);
                self.state.connected_players.insert(id, name.clone());
                assert(self.state@.connecting =~= before.connecting.remove(id));
                assert(self.state@.joined =~= before.joined.insert(id, name@));
                Ok(Some(Event::PlayerJoined { id, name }))
            },
            None => {
                if self.state.connected_players.contains_key(&id) {
                    // A repeated begin for a client that has joined.
                    Ok(None)
                } else {
                    Err(ParseFailure::JoinedWithoutName(id))
                }
            },
        }
    }

    fn parse_client_info_changed(&mut self, update_info: &Vec<char>) -> (r: Result<
        Option<Event>,
        ParseFailure,
    >)
        ensures
            final(self)@ == userinfo_step(old(self)@, update_info@).state,
            outcome_view(r) == userinfo_step(old(self)@, update_info@).out,
    {
        let id = match first_id(update_info) {
            None => return Err(ParseFailure::MissingId),
            Some(id) => id,
        };
        let open = chars_of("n\\");
        let close = chars_of("\\t");
        let name = match delimited_chars(update_info, &open, &close) {
            None => return Err(ParseFailure::MissingName),
            Some(v) => string_of(&v),
        };
        // The message either names a client that is connecting, or renames
        // one that has joined.
        if self.state.connecting_players.contains_key(&id) {
            let ghost before = self.state@;
            self.state.connecting_players.insert(id, Some(name));
            assert(self.state@.connecting =~= before.connecting.insert(id, Some(name@)));
            Ok(None)
        } else {
            Ok(Some(Event::PlayerNameUpdate { id, new_name: name }))
        }
    }
}

impl LogMessageParser {
    /// Reads one log line.
    ///
    /// Gives `Ok(None)` for lines of no known kind and for messages that
    /// only change what the parser knows of connections, `Ok(Some(..))` for
    /// a message that makes an event, and `Err` for a message of a known
    /// kind that cannot be read; the error holds the kind and the contents.
    pub fn parse_line(&mut self, line: &str) -> (r: Result<Option<Event>, ParseError>)
        ensures
            final(self)@ == line_step(old(self)@, line@).state,
            r is Err ==> final(self)@ == old(self)@,
            disjoint(old(self)@) ==> disjoint(final(self)@),
            match r {
                Ok(e) => line_step(old(self)@, line@).out == Ok::<_, ParseFailure>(event_opt_view(e)),
                Err(err) => {
                    &&& line_step(old(self)@, line@).out == Err::<Option<EventView>, _>(err.failure)
                    &&& classify(without_timestamp(line@)) == Some(err.kind)
                    &&& err.contents@ == contents_of(err.kind, without_timestamp(line@))
                },
            },
    {
        proof {
            failed_line_changes_nothing(self@, line@);
            if disjoint(self@) {
                line_keeps_maps_disjoint(self@, line@);
            }
        }
        let v = chars_of(line);
        let payload = Self::trim_timestamp_chars(&v);
        let kind = match classify_chars(&payload) {
            None => return Ok(None),
            Some(k) => k,
        };
        let t = chars_of(kind.tag());
        assert(occurs_at(payload@, tag(kind), 0));
        let contents = trim(&slice(&payload, t.len(), payload.len()));
        assert(payload@.subrange(t@.len() as int, payload@.len() as int) =~= payload@.skip(
            tag(kind).len() as int,
        ));
        let outcome = match kind {
            MessageKind::ClientBegin => self.parse_client_begin(&contents),
            MessageKind::ClientConnect => self.parse_client_connect(&contents),
            MessageKind::ClientDisconnect => self.parse_client_disconnect(&contents),
            MessageKind::ClientUserinfoChanged => self.parse_client_info_changed(&contents),
            MessageKind::Kill => self.parse_kill(&contents),
            MessageKind::InitGame => self.reset_match(),
        };
        match outcome {
            Ok(e) => Ok(e),
            Err(failure) => Err(ParseError { kind, contents: string_of(&contents), failure }),
        }
    }
}

/// A line that cannot be read leaves the connection state as it was.
pub proof fn failed_line_changes_nothing(st: ConnectionView, line: Seq<char>)
    ensures
        line_step(st, line).out is Err ==> line_step(st, line).state == st,
{
}

/// No line puts a client in both the connecting and the joined map.
pub proof fn line_keeps_maps_disjoint(st: ConnectionView, line: Seq<char>)
    requires
        disjoint(st),
    ensures
        disjoint(line_step(st, line).state),
{
    let after = line_step(st, line).state;
    assert forall|id: Id| !(#[trigger] after.connecting.contains_key(id) && after.joined.contains_key(
        id,
    )) by {
        assert(st.connecting.contains_key(id) ==> !st.joined.contains_key(id));
    }
}

/// A repeated connect changes nothing: connecting a client twice leaves
/// the parser as connecting it once did, with the same outcome, so whatever
/// follows behaves the same.
pub proof fn connect_is_idempotent(st: ConnectionView, body: Seq<char>)
    ensures
        connect_step(connect_step(st, body).state, body) == connect_step(st, body),
{
}

/// Joining takes three messages: a client that connects, is named and
/// begins joins under that name, and only the last message gives an event.
pub proof fn join_sequence(
    st: ConnectionView,
    connect_body: Seq<char>,
    info_body: Seq<char>,
    begin_body: Seq<char>,
    id: Id,
    name: Seq<char>,
)
    requires
        scan_step(connect_body).1 == Some(id),
        scan_step(info_body).1 == Some(id),
        delimited(info_body, name_open(), name_close()) == Some(name),
        scan_step(begin_body).1 == Some(id),
    ensures
        ({
            let first = connect_step(st, connect_body);
            let second = userinfo_step(first.state, info_body);
            let third = begin_step(second.state, begin_body);
            &&& first.out == Ok::<_, ParseFailure>(None::<EventView>)
            &&& second.out == Ok::<_, ParseFailure>(None::<EventView>)
            &&& third.out == Ok::<_, ParseFailure>(Some(EventView::PlayerJoined { id, name }))
            &&& third.state.joined.contains_key(id)
            &&& third.state.joined[id] == name
            &&& !third.state.connecting.contains_key(id)
        }),
{
}

/// A begin for a client that was not named while connecting, and has not
/// joined, fails and changes nothing: a later name and begin still join.
pub proof fn begin_without_name_fails(st: ConnectionView, body: Seq<char>, id: Id)
    requires
        scan_step(body).1 == Some(id),
        !st.joined.contains_key(id),
        !(st.connecting.contains_key(id) && st.connecting[id] is Some),
    ensures
        begin_step(st, body).out == Err::<Option<EventView>, _>(ParseFailure::JoinedWithoutName(id)),
        begin_step(st, body).state == st,
{
}

} // verus!
