//! The client's side of one connection, without the connection itself.
//!
//! A `Client` holds what the reader of a connection has to remember: the
//! state of the connection and the bytes received that do not yet make a
//! line. It performs no input or output. Its owner opens the connection,
//! hands in what was read, and carries out the actions that come back:
//!
//! ```text
//! connect()          the lines of the handshake, to be written
//! handshake_sent()   the handshake is on the wire; reading may begin
//! receive(chunk)     one read; an empty one ends the connection
//! poll()             the action for the next complete line, if any
//! drain()            the actions for all complete lines
//! close()            a read or a write failed
//! ```
//!
//! A line ends with a line feed. Carriage returns before it are dropped.
//! A ping is answered and not delivered; every other message is delivered.

use vstd::prelude::*;
use vstd::utf8::{decode_utf8, encode_utf8, encode_utf8_decode_utf8, valid_utf8};
use crate::parse::{parse_line, spec_parse};
use crate::protocol::{
    Command, CommandView, Message, MessageView, ParseError, ParseErrorView,
};
use crate::serialize::spec_serialize;
use crate::text::{chars_of, find, lemma_find, lemma_find_is};

verus! {

/// Where the chat service listens: host and port.
pub const ENDPOINT: &'static str = "irc.twitch.tv:6667";

/// The line ending of the wire.
pub open spec fn crlf() -> Seq<char> {
    seq!['\r', '\n']
}

/// What stands in place of a secret wherever it would be shown.
pub open spec fn redaction() -> Seq<char> {
    "*****"@
}

/// A value that must not be shown: its only rendering is the redaction.
struct Secret {
    value: String,
}

impl Secret {
    /// The text shown in place of the value, whatever the value.
    fn redacted(&self) -> (text: String)
        ensures
            text@ == redaction(),
    {
        String::from_str("*****")
    }
}

/// Where a connection stands.
#[derive(Debug, Clone, Copy, PartialEq, Eq, Structural)]
pub enum ConnectionState {
    /// The connection is not open yet.
    Connecting,
    /// The connection is open and the handshake is being sent.
    Handshaking,
    /// Lines are read and decoded.
    Streaming,
    /// The connection has ended. Nothing follows.
    Closed,
}

/// What the owner of the connection is to do about one received line.
#[derive(Debug)]
pub enum Action {
    /// Write this text on the connection: the answer to a ping, with its
    /// line ending.
    Reply(String),
    /// Hand this message to the consumer.
    Deliver(Message),
    /// The line is no valid text. It is dropped; these are its bytes.
    Undecodable(Vec<u8>),
    /// The line is no message. It is dropped; this is the line.
    Malformed(ParseError, String),
}

/// What an `Action` is in specifications.
pub enum ActionView {
    Reply(Seq<char>),
    Deliver(MessageView),
    Undecodable(Seq<u8>),
    Malformed(ParseErrorView, Seq<char>),
}

impl View for Action {
    type V = ActionView;

    open spec fn view(&self) -> ActionView {
        match self {
            Action::Reply(text) => ActionView::Reply(text@),
            Action::Deliver(message) => ActionView::Deliver(message@),
            Action::Undecodable(bytes) => ActionView::Undecodable(bytes@),
            Action::Malformed(error, line) => ActionView::Malformed(error@, line@),
        }
    }
}

/// The view of an optional action.
pub open spec fn action_view(action: Option<Action>) -> Option<ActionView> {
    match action {
        Some(a) => Some(a@),
        None => None,
    }
}

/// The client's side of one connection.
pub struct Client {
    token: Secret,
    nickname: String,
    state: ConnectionState,
    buffer: Vec<u8>,
}

/// What a `Client` is in specifications.
pub struct ClientView {
    /// The token that authenticates the user.
    pub token: Seq<char>,
    pub nickname: Seq<char>,
    pub state: ConnectionState,
    /// The bytes received that no action has been taken for yet.
    pub buffer: Seq<u8>,
}

impl View for Client {
    type V = ClientView;

    closed spec fn view(&self) -> ClientView {
        ClientView {
            token: self.token.value@,
            nickname: self.nickname@,
            state: self.state,
            buffer: self.buffer@,
        }
    }
}

/// `line` with the line ending of the wire.
pub open spec fn wire_line(line: Seq<char>) -> Seq<char> {
    line + crlf()
}

/// The lines that open a session, in the order in which they are sent:
/// the request for capabilities, the token, the nickname.
pub open spec fn handshake_lines(token: Seq<char>, nickname: Seq<char>) -> Seq<Seq<char>> {
    seq![
        wire_line("CAP REQ :twitch.tv/membership twitch.tv/tags twitch.tv/commands"@),
        wire_line("PASS "@ + token),
        wire_line("NICK "@ + nickname),
    ]
}

/// The first line of `buffer`, without its line feed, and the bytes after
/// it; none when `buffer` holds no line feed.
pub open spec fn first_line(buffer: Seq<u8>) -> Option<(Seq<u8>, Seq<u8>)> {
    let at = find(buffer, 10u8);
    if 0 <= at < buffer.len() {
        Some((buffer.take(at), buffer.skip(at + 1)))
    } else {
        None
    }
}

/// `line` without the carriage returns and line feeds at its end.
pub open spec fn trimmed(line: Seq<char>) -> Seq<char>
    decreases line.len(),
{
    if line.len() > 0 && (line.last() == '\r' || line.last() == '\n') {
        trimmed(line.drop_last())
    } else {
        line
    }
}

/// What is to be done about a decoded message: a ping is answered with the
/// same message as a pong, in the form of the wire; any other message is
/// delivered.
pub open spec fn reaction(message: MessageView) -> ActionView {
    if message.command is Ping {
        ActionView::Reply(wire_line(spec_serialize(message.with_command(CommandView::Pong))))
    } else {
        ActionView::Deliver(message)
    }
}

/// What is to be done about one line of bytes, taken without its line
/// feed.
pub open spec fn outcome(line: Seq<u8>) -> ActionView {
    if !valid_utf8(line) {
        ActionView::Undecodable(line)
    } else {
        let text = trimmed(decode_utf8(line));
        match spec_parse(text) {
            Ok(message) => reaction(message),
            Err(error) => ActionView::Malformed(error, text),
        }
    }
}

/// The actions for all complete lines of `buffer`, first to last.
pub open spec fn outcomes(buffer: Seq<u8>) -> Seq<ActionView>
    decreases buffer.len(),
{
    match first_line(buffer) {
        Some((line, rest)) => seq![outcome(line)] + outcomes(rest),
        None => Seq::empty(),
    }
}

/// What is left of `buffer` behind its last complete line.
pub open spec fn remainder(buffer: Seq<u8>) -> Seq<u8>
    decreases buffer.len(),
{
    match first_line(buffer) {
        Some((line, rest)) => remainder(rest),
        None => buffer,
    }
}

impl ClientView {
    /// A client that has not connected yet.
    pub open spec fn new(token: Seq<char>, nickname: Seq<char>) -> ClientView {
        ClientView { token, nickname, state: ConnectionState::Connecting, buffer: Seq::empty() }
    }

    /// The connection has been opened: the handshake begins, with the lines
    /// to send. In any other state nothing happens.
    pub open spec fn connect(self) -> (ClientView, Seq<Seq<char>>) {
        if self.state == ConnectionState::Connecting {
            (
                ClientView { state: ConnectionState::Handshaking, ..self },
                handshake_lines(self.token, self.nickname),
            )
        } else {
            (self, Seq::empty())
        }
    }

    /// The handshake has been written: reading begins. In any other state
    /// nothing happens.
    pub open spec fn handshake_sent(self) -> ClientView {
        if self.state == ConnectionState::Handshaking {
            ClientView { state: ConnectionState::Streaming, ..self }
        } else {
            self
        }
    }

    /// One read has returned `chunk`. While streaming, an empty chunk ends
    /// the connection and any other is added to the bytes held. In any
    /// other state nothing happens.
    pub open spec fn receive(self, chunk: Seq<u8>) -> ClientView {
        if self.state != ConnectionState::Streaming {
            self
        } else if chunk.len() == 0 {
            ClientView { state: ConnectionState::Closed, ..self }
        } else {
            ClientView { buffer: self.buffer + chunk, ..self }
        }
    }

    /// The connection has failed.
    pub open spec fn close(self) -> ClientView {
        ClientView { state: ConnectionState::Closed, ..self }
    }

    /// The action for the next complete line, which then leaves the bytes
    /// held. There is none unless the client is streaming and holds a
    /// complete line.
    pub open spec fn poll(self) -> (ClientView, Option<ActionView>) {
        if self.state == ConnectionState::Streaming {
            match first_line(self.buffer) {
                Some((line, rest)) => (ClientView { buffer: rest, ..self }, Some(outcome(line))),
                None => (self, None),
            }
        } else {
            (self, None)
        }
    }

    /// The actions that polling gives until it gives none, and the client
    /// after that.
    pub open spec fn drain(self) -> (ClientView, Seq<ActionView>) {
        if self.state == ConnectionState::Streaming {
            (ClientView { buffer: remainder(self.buffer), ..self }, outcomes(self.buffer))
        } else {
            (self, Seq::empty())
        }
    }

    /// What `send_line` hands out for `line`: the line in the form of the
    /// wire, once the connection has been opened.
    pub open spec fn send_line(self, line: Seq<char>) -> Option<Seq<char>> {
        if self.state == ConnectionState::Connecting {
            None
        } else {
            Some(wire_line(line))
        }
    }

    /// The client as shown in diagnostics. The token does not occur in it.
    pub open spec fn describe(self) -> Seq<char> {
        "Client { token: "@ + redaction() + ", nickname: "@ + self.nickname + ", state: "@
            + state_name(self.state) + " }"@
    }
}

/// The name of a state.
pub open spec fn state_name(state: ConnectionState) -> Seq<char> {
    match state {
        ConnectionState::Connecting => "Connecting"@,
        ConnectionState::Handshaking => "Handshaking"@,
        ConnectionState::Streaming => "Streaming"@,
        ConnectionState::Closed => "Closed"@,
    }
}

/// The views of a list of actions.
pub open spec fn action_views(actions: Seq<Action>) -> Seq<ActionView> {
    actions.map_values(|action: Action| action@)
}

/// The bytes of some reads, one read after another.
pub open spec fn joined(reads: Seq<Seq<u8>>) -> Seq<u8>
    decreases reads.len(),
{
    if reads.len() == 0 {
        Seq::empty()
    } else {
        reads[0] + joined(reads.drop_first())
    }
}

/// Taking one read after another, and after each read every action that
/// polling gives: the client at the end and all the actions in order.
pub open spec fn feed_all(client: ClientView, reads: Seq<Seq<u8>>) -> (
    ClientView,
    Seq<ActionView>,
)
    decreases reads.len(),
{
    if reads.len() == 0 {
        (client, Seq::empty())
    } else {
        let (next, actions) = client.receive(reads[0]).drain();
        let (last, more) = feed_all(next, reads.drop_first());
        (last, actions + more)
    }
}

/// The first line of some bytes is still the first line when more bytes
/// follow.
pub proof fn lemma_first_line_add(a: Seq<u8>, b: Seq<u8>)
    ensures
        match first_line(a) {
            Some((line, rest)) => first_line(a + b) == Some((line, rest + b)),
            None => true,
        },
{
    lemma_find(a, 10u8);
    let at = find(a, 10u8);
    if at < a.len() {
        let whole = a + b;
        assert forall|j: int| 0 <= j < at implies whole[j] != 10u8 by {
            assert(whole[j] == a[j]);
        }
        assert(whole[at] == a[at]);
        lemma_find_is(whole, 10u8, at);
        assert(whole.take(at) =~= a.take(at));
        assert(whole.skip(at + 1) =~= a.skip(at + 1) + b);
    }
}

/// The actions for bytes that arrive in two parts are the actions for the
/// first part, then the actions for what the first part left over with
/// the second part behind it; and what is left over at the end is the
/// same.
pub proof fn lemma_outcomes_add(a: Seq<u8>, b: Seq<u8>)
    ensures
        outcomes(a + b) == outcomes(a) + outcomes(remainder(a) + b),
        remainder(a + b) == remainder(remainder(a) + b),
    decreases a.len(),
{
    lemma_first_line_add(a, b);
    match first_line(a) {
        Some((line, rest)) => {
            lemma_find(a, 10u8);
            lemma_outcomes_add(rest, b);
            assert(outcomes(a + b) =~= outcomes(a) + outcomes(remainder(a) + b));
        },
        None => {
            assert(outcomes(a) + outcomes(a + b) =~= outcomes(a + b));
        },
    }
}

/// What is left over behind the last complete line holds no line.
pub proof fn lemma_remainder(buffer: Seq<u8>)
    ensures
        first_line(remainder(buffer)) is None,
        outcomes(remainder(buffer)) == Seq::<ActionView>::empty(),
        remainder(remainder(buffer)) == remainder(buffer),
    decreases buffer.len(),
{
    match first_line(buffer) {
        Some((line, rest)) => {
            lemma_find(buffer, 10u8);
            lemma_remainder(rest);
        },
        None => {},
    }
}

/// Draining is polling again and again: where polling gives an action, the
/// actions of draining are that action and then those of draining what
/// is left; where polling gives none, draining gives none and changes
/// nothing.
pub proof fn lemma_drain_polls(client: ClientView)
    ensures
        client.drain() == match client.poll() {
            (next, Some(action)) => (next.drain().0, seq![action] + next.drain().1),
            (next, None) => (client, Seq::<ActionView>::empty()),
        },
{
    if client.state == ConnectionState::Streaming && first_line(client.buffer) is None {
        assert(remainder(client.buffer) == client.buffer);
    }
}

/// Once every action has been taken, polling gives nothing until more
/// bytes arrive.
pub proof fn lemma_drained(client: ClientView)
    ensures
        ({
            let (after, actions) = client.drain();
            &&& after.poll() == (after, None::<ActionView>)
            &&& after.drain() == (after, Seq::<ActionView>::empty())
        }),
{
    lemma_remainder(client.buffer);
}

/// Framing does not depend on where one read ends and the next begins: two
/// reads give the same actions, and leave the same client, as one read of
/// the bytes of both.
pub proof fn lemma_reads_join(client: ClientView, first: Seq<u8>, second: Seq<u8>)
    requires
        first.len() > 0,
        second.len() > 0,
    ensures
        ({
            let (between, early) = client.receive(first).drain();
            let (last, late) = between.receive(second).drain();
            client.receive(first + second).drain() == (last, early + late)
        }),
{
    if client.state == ConnectionState::Streaming {
        lemma_outcomes_add(client.buffer + first, second);
        assert(client.buffer + (first + second) =~= client.buffer + first + second);
    } else {
        assert(Seq::<ActionView>::empty() + Seq::<ActionView>::empty() =~= Seq::<
            ActionView,
        >::empty());
    }
}

/// Framing does not depend on how a stream is cut into reads: any number
/// of reads give the same actions, and leave the same client, as one read
/// of all their bytes.
pub proof fn lemma_framing(client: ClientView, reads: Seq<Seq<u8>>)
    requires
        reads.len() > 0,
        forall|i: int| 0 <= i < reads.len() ==> (#[trigger] reads[i]).len() > 0,
    ensures
        feed_all(client, reads) == client.receive(joined(reads)).drain(),
    decreases reads.len(),
{
    let rest = reads.drop_first();
    let (next, actions) = client.receive(reads[0]).drain();
    if rest.len() == 0 {
        assert(joined(rest) =~= Seq::<u8>::empty());
        assert(joined(reads) =~= reads[0]);
        assert(feed_all(next, rest) == (next, Seq::<ActionView>::empty()));
        assert(actions + Seq::<ActionView>::empty() =~= actions);
    } else {
        assert forall|i: int| 0 <= i < rest.len() implies (#[trigger] rest[i]).len() > 0 by {
            assert(rest[i] == reads[i + 1]);
        }
        lemma_framing(next, rest);
        assert(joined(rest).len() > 0) by {
            assert(joined(rest).len() >= rest[0].len());
        }
        lemma_reads_join(client, reads[0], joined(rest));
    }
}

/// The end of the stream closes the connection whatever bytes are still
/// held: no action follows it.
pub proof fn lemma_end_of_stream(client: ClientView)
    requires
        client.state == ConnectionState::Streaming,
    ensures
        ({
            let ended = client.receive(Seq::empty());
            &&& ended.state == ConnectionState::Closed
            &&& ended.poll() == (ended, None::<ActionView>)
            &&& ended.drain() == (ended, Seq::<ActionView>::empty())
        }),
{
}

/// A failure closes the connection whatever its state and whatever bytes
/// are still held: no action follows it.
pub proof fn lemma_failure_closes(client: ClientView)
    ensures
        ({
            let ended = client.close();
            &&& ended.state == ConnectionState::Closed
            &&& ended.poll() == (ended, None::<ActionView>)
            &&& ended.drain() == (ended, Seq::<ActionView>::empty())
        }),
{
}

/// A closed connection stays closed: nothing that is handed to the client
/// changes it or brings forth an action.
pub proof fn lemma_closed_is_final(client: ClientView, chunk: Seq<u8>)
    requires
        client.state == ConnectionState::Closed,
    ensures
        client.connect() == (client, Seq::<Seq<char>>::empty()),
        client.handshake_sent() == client,
        client.receive(chunk) == client,
        client.close() == client,
        client.poll() == (client, None::<ActionView>),
        client.drain() == (client, Seq::<ActionView>::empty()),
{
}

/// `str::from_utf8` of the standard library: the text whose encoding in
/// UTF-8 the bytes are, and none exactly when they are no such encoding.
#[verifier::external_body]
fn text_of(bytes: &[u8]) -> (text: Option<&str>)
    ensures
        match text {
            Some(t) => valid_utf8(bytes@) && encode_utf8(t@) == bytes@,
            None => !valid_utf8(bytes@),
        },
{
    std::str::from_utf8(bytes).ok()
}

/// `line` with the line ending of the wire.
pub fn to_wire(line: &str) -> (wire: String)
    ensures
        wire@ == wire_line(line@),
{
    let mut wire = String::from_str(line);
    wire.append("\r\n");
    proof {
        reveal_strlit("\r\n");
        assert("\r\n"@ =~= crlf());
    }
    wire
}

/// `line` without the carriage returns and line feeds at its end.
pub fn trim_line_end(line: &str) -> (text: &str)
    ensures
        text@ == trimmed(line@),
{
    let chars = chars_of(line);
    let mut end: usize = chars.len();
    proof {
        assert(line@.take(chars.len() as int) == line@);
    }
    while end > 0 && (chars[end - 1] == '\r' || chars[end - 1] == '\n')
        invariant
            end <= chars.len(),
            chars@ == line@,
            trimmed(line@) == trimmed(line@.take(end as int)),
        decreases end,
    {
        proof {
            assert(line@.take(end as int).drop_last() == line@.take(end - 1));
        }
        end -= 1;
    }
    line.substring_char(0, end)
}

/// Decides what is to be done about a decoded message: a ping is answered
/// with one reply, the same message as a pong, and is not delivered; any
/// other message is delivered and not answered.
pub fn react(message: Message) -> (action: Action)
    ensures
        action@ == reaction(message@),
        message@.command is Ping <==> action is Reply,
        !(message@.command is Ping) <==> action is Deliver,
{
    match message.command {
        Command::Ping => {
            let pong = message.with_command(Command::Pong);
            let line = pong.to_string();
            Action::Reply(to_wire(line.as_str()))
        },
        _ => Action::Deliver(message),
    }
}

/// Decides what is to be done about one line of bytes, taken without its
/// line feed.
pub fn handle_line(line: Vec<u8>) -> (action: Action)
    ensures
        action@ == outcome(line@),
{
    let result = match text_of(line.as_slice()) {
        Some(text) => {
            proof {
                encode_utf8_decode_utf8(text@);
            }
            let trimmed_text = trim_line_end(text);
            match parse_line(trimmed_text) {
                Ok(message) => Ok(message),
                Err(error) => Err(Some((error, String::from_str(trimmed_text)))),
            }
        },
        None => Err(None),
    };
    match result {
        Ok(message) => react(message),
        Err(Some((error, text))) => Action::Malformed(error, text),
        Err(None) => Action::Undecodable(line),
    }
}

impl Client {
    /// A client for the user `nickname`, who authenticates with `token`.
    /// It has not connected yet.
    pub fn new(token: &str, nickname: &str) -> (client: Client)
        ensures
            client@ == ClientView::new(token@, nickname@),
    {
        Client {
            token: Secret { value: String::from_str(token) },
            nickname: String::from_str(nickname),
            state: ConnectionState::Connecting,
            buffer: Vec::new(),
        }
    }

    /// Where the connection stands.
    pub fn state(&self) -> (state: ConnectionState)
        ensures
            state == self@.state,
    {
        self.state
    }

    /// To be called once the connection has been opened: begins the
    /// handshake and returns its lines, each with its line ending, in the
    /// order in which they are to be written. Returns nothing, and changes
    /// nothing, unless the client was about to connect.
    pub fn connect(&mut self) -> (lines: Vec<String>)
        ensures
            (final(self)@, lines.deep_view()) == old(self)@.connect(),
    {
        let mut lines: Vec<String> = Vec::new();
        match self.state {
            ConnectionState::Connecting => {
                let mut pass = String::from_str("PASS ");
                pass.append(self.token.value.as_str());
                let mut nick = String::from_str("NICK ");
                nick.append(self.nickname.as_str());
                lines.push(
                    to_wire("CAP REQ :twitch.tv/membership twitch.tv/tags twitch.tv/commands"),
                );
                lines.push(to_wire(pass.as_str()));
                lines.push(to_wire(nick.as_str()));
                self.state = ConnectionState::Handshaking;
                assert(lines.deep_view() =~= handshake_lines(
                    old(self)@.token,
                    old(self)@.nickname,
                ));
            },
            _ => {
                assert(lines.deep_view() =~= Seq::<Seq<char>>::empty());
            },
        }
        lines
    }

    /// To be called once the handshake has been written: from now on the
    /// client takes what is read.
    pub fn handshake_sent(&mut self)
        ensures
            final(self)@ == old(self)@.handshake_sent(),
    {
        match self.state {
            ConnectionState::Handshaking => {
                self.state = ConnectionState::Streaming;
            },
            _ => {},
        }
    }

    /// Takes what one read has returned. While the client is streaming, an
    /// empty chunk ends the connection, whatever bytes are still held, and
    /// any other chunk is added to them.
    pub fn receive(&mut self, chunk: &[u8])
        ensures
            final(self)@ == old(self)@.receive(chunk@),
    {
        match self.state {
            ConnectionState::Streaming => {
                if chunk.len() == 0 {
                    self.state = ConnectionState::Closed;
                } else {
                    self.buffer.extend_from_slice(chunk);
                    assert(self.buffer@ =~= old(self).buffer@ + chunk@);
                }
            },
            _ => {},
        }
    }

    /// To be called when a read or a write has failed: ends the connection.
    pub fn close(&mut self)
        ensures
            final(self)@ == old(self)@.close(),
    {
        self.state = ConnectionState::Closed;
    }

    /// Takes the next complete line out of the bytes held and returns what
    /// is to be done about it. Returns nothing, and changes nothing, when
    /// the client is not streaming or holds no complete line.
    pub fn poll(&mut self) -> (action: Option<Action>)
        ensures
            (final(self)@, action_view(action)) == old(self)@.poll(),
    {
        match self.state {
            ConnectionState::Streaming => {},
            _ => { return None; },
        }
        let n = self.buffer.len();
        let mut at: usize = 0;
        while at < n && self.buffer[at] != 10u8
            invariant
                at <= n == self.buffer.len(),
                *self == *old(self),
                forall|j: int| 0 <= j < at ==> self.buffer[j] != 10u8,
            decreases n - at,
        {
            at += 1;
        }
        proof {
            lemma_find_is(self.buffer@, 10u8, at as int);
        }
        if at == n {
            return None;
        }
        let mut line: Vec<u8> = Vec::new();
        std::mem::swap(&mut line, &mut self.buffer);
        let rest = line.split_off(at + 1);
        line.pop();
        self.buffer = rest;
        proof {
            assert(line@ =~= old(self)@.buffer.take(at as int));
            assert(self.buffer@ =~= old(self)@.buffer.skip(at + 1));
        }
        Some(handle_line(line))
    }

    /// Polls until there is nothing left to do: the actions for all
    /// complete lines that the client holds, first to last.
    pub fn drain(&mut self) -> (actions: Vec<Action>)
        ensures
            (final(self)@, action_views(actions@)) == old(self)@.drain(),
    {
        let mut actions: Vec<Action> = Vec::new();
        proof {
            assert(action_views(actions@) =~= Seq::<ActionView>::empty());
            assert(action_views(actions@) + outcomes(self@.buffer) =~= outcomes(self@.buffer));
        }
        loop
            invariant_except_break
                self@.state == old(self)@.state,
                self@.token == old(self)@.token,
                self@.nickname == old(self)@.nickname,
                self@.state == ConnectionState::Streaming ==> remainder(self@.buffer) == remainder(
                    old(self)@.buffer,
                ) && action_views(actions@) + outcomes(self@.buffer) == outcomes(
                    old(self)@.buffer,
                ),
                self@.state != ConnectionState::Streaming ==> self@ == old(self)@
                    && actions@.len() == 0,
            ensures
                (self@, action_views(actions@)) == old(self)@.drain(),
            decreases self@.buffer.len(),
        {
            let ghost before = self@;
            let ghost done = action_views(actions@);
            match self.poll() {
                Some(action) => {
                    proof {
                        lemma_find(before.buffer, 10u8);
                    }
                    actions.push(action);
                    proof {
                        let (line, rest) = first_line(before.buffer).unwrap();
                        assert(action_views(actions@) =~= done + seq![outcome(line)]);
                        assert(action_views(actions@) + outcomes(rest) =~= done + (seq![
                            outcome(line),
                        ] + outcomes(rest)));
                    }
                },
                None => {
                    proof {
                        if before.state == ConnectionState::Streaming {
                            assert(outcomes(before.buffer) =~= Seq::<ActionView>::empty());
                            assert(done + outcomes(before.buffer) =~= done);
                        } else {
                            assert(action_views(actions@) =~= Seq::<ActionView>::empty());
                        }
                    }
                    break ;
                },
            }
        }
        actions
    }

    /// The text to write on the connection to send `line`: the line with
    /// its line ending. There is nothing to write before the connection
    /// has been opened.
    pub fn send_line(&self, line: &str) -> (wire: Option<String>)
        ensures
            wire.deep_view() == self@.send_line(line@),
    {
        match self.state {
            ConnectionState::Connecting => None,
            _ => Some(to_wire(line)),
        }
    }

    /// The client as shown in diagnostics: the nickname and the state, and
    /// the redaction in place of the token.
    pub fn describe(&self) -> (text: String)
        ensures
            text@ == self@.describe(),
    {
        let mut text = String::from_str("Client { token: ");
        text.append(self.token.redacted().as_str());
        text.append(", nickname: ");
        text.append(self.nickname.as_str());
        text.append(", state: ");
        text.append(
            match self.state {
                ConnectionState::Connecting => "Connecting",
                ConnectionState::Handshaking => "Handshaking",
                ConnectionState::Streaming => "Streaming",
                ConnectionState::Closed => "Closed",
            },
        );
        text.append(" }");
        assert(text@ =~= self@.describe());
        text
    }
}

} // verus!
