//! The APRS-IS line protocol: login, what to make of a line from the server, and
//! what to send.

use crate::aprs::packet::{AprsPacket, PacketView};
use crate::aprs::parser::{parse_line, parse_packet_at, ParseError};
use crate::config::AprsIsConfig;
use crate::router::{PacketSource, RoutedPacket};
use crate::text::{
    append_str, chars_of, contains, find, first_index, has_substring_str, parse_i32,
    push_signed_decimal, read_i32, signed_decimal, slice, string_of, to_uppercase, trim, trimmed,
    uppercase,
};
use vstd::prelude::*;

verus! {

/// Seconds to wait for the connection to the server.
pub const CONNECT_TIMEOUT_SECS: u64 = 30;

/// Seconds between keepalive lines.
pub const KEEPALIVE_SECS: u64 = 20;

/// Seconds to wait before connecting again.
pub const RECONNECT_SECS: u64 = 30;

/// The passcode hash after the first `n` characters of a call: it starts at
/// `0x73E2`; a character at an even position is shifted left by eight bits and
/// combined by exclusive or, one at an odd position is combined as it is.
pub open spec fn passcode_hash(call: Seq<char>, n: int) -> u32
    decreases n,
{
    if n <= 0 {
        0x73e2u32
    } else if (n - 1) % 2 == 0 {
        passcode_hash(call, n - 1) ^ ((call[n - 1] as u32) << 8u32)
    } else {
        passcode_hash(call, n - 1) ^ (call[n - 1] as u32)
    }
}

/// The APRS-IS passcode of a callsign: the hash of its base call in upper case,
/// reduced to fifteen bits.
pub open spec fn passcode_of(callsign: Seq<char>) -> i32 {
    let base = uppercase(callsign.subrange(0, first_index(callsign, '-')));
    (passcode_hash(base, base.len() as int) & 0x7fffu32) as i32
}

/// The passcode that is sent: the configured one where it is a number, else the one
/// computed from the callsign.
pub open spec fn login_passcode_of(passcode: Seq<char>, callsign: Seq<char>) -> i32 {
    match parse_i32(passcode) {
        Some(n) => n,
        None => passcode_of(callsign),
    }
}

/// The login line: `user CALL pass PASS vers aprstx 0.1.0`, then ` filter FILTER`
/// where one is configured, then CR LF.
pub open spec fn login_line_of(config: AprsIsConfig) -> Seq<char> {
    "user "@ + config.callsign@ + " pass "@ + signed_decimal(
        login_passcode_of(config.passcode@, config.callsign@) as int,
    ) + " vers aprstx 0.1.0"@ + (match config.filter {
        Some(f) => " filter "@ + f@,
        None => Seq::empty(),
    }) + "\r\n"@
}

/// Whether the server's answer to the login accepts it: it holds `verified`, which
/// `unverified` does too.
pub open spec fn login_accepts(line: Seq<char>) -> bool {
    contains(line, "verified"@)
}

/// The APRS-IS passcode of a callsign.
pub fn calculate_passcode(callsign: &str) -> (r: i32)
    ensures
        r == passcode_of(callsign@),
{
    let all = chars_of(callsign);
    let dash = find(&all, '-');
    let base = slice(&all, 0, dash);
    let base = string_of(&base);
    let upper = chars_of(to_uppercase(base.as_str()).as_str());
    let mut hash: u32 = 0x73e2;
    let mut i: usize = 0;
    while i < upper.len()
        invariant
            i <= upper.len(),
            hash == passcode_hash(upper@, i as int),
        decreases upper.len() - i,
    {
        let ch: u32 = upper[i] as u32;
        if i % 2 == 0 {
            hash = hash ^ (ch << 8);
        } else {
            hash = hash ^ ch;
        }
        i += 1;
    }
    let low: u32 = hash & 0x7fff;
    assert(low <= 0x7fff) by (bit_vector)
        requires
            low == hash & 0x7fffu32,
    ;
    low as i32
}

/// The passcode to log in with.
pub fn login_passcode(passcode: &str, callsign: &str) -> (r: i32)
    ensures
        r == login_passcode_of(passcode@, callsign@),
{
    let given = chars_of(passcode);
    match read_i32(&given) {
        Some(n) => n,
        None => calculate_passcode(callsign),
    }
}

/// The login line for the server.
pub fn login_line(config: &AprsIsConfig) -> (r: String)
    ensures
        r@ == login_line_of(*config),
{
    let mut out: Vec<char> = Vec::new();
    append_str(&mut out, "user ");
    append_str(&mut out, config.callsign.as_str());
    append_str(&mut out, " pass ");
    push_signed_decimal(
        &mut out,
        login_passcode(config.passcode.as_str(), config.callsign.as_str()) as i64,
    );
    append_str(&mut out, " vers aprstx 0.1.0");
    match &config.filter {
        Some(f) => {
            append_str(&mut out, " filter ");
            append_str(&mut out, f.as_str());
        },
        None => {},
    }
    append_str(&mut out, "\r\n");
    assert(out@ =~= login_line_of(*config));
    string_of(&out)
}

/// Whether the server's answer accepts the login.
pub fn login_accepted(line: &str) -> (r: bool)
    ensures
        r == login_accepts(line@),
{
    let l = chars_of(line);
    has_substring_str(&l, "verified")
}

/// The line that keeps the connection alive.
pub fn keepalive_line() -> (r: String)
    ensures
        r@ == "# keepalive\r\n"@,
{
    "# keepalive\r\n".to_owned()
}

/// A packet as a line for the server: its textual form and CR LF.
pub fn packet_line(packet: &AprsPacket) -> (r: String)
    ensures
        r@ == packet@.text() + "\r\n"@,
{
    let mut out = packet.text();
    append_str(&mut out, "\r\n");
    string_of(&out)
}

/// What a line from the server is.
#[derive(Debug)]
pub enum ServerLine {
    /// Nothing but white space.
    Blank,
    /// A comment of the server: it starts with `#`.
    Comment,
    /// A packet.
    Packet(AprsPacket),
    /// Neither a comment nor a packet.
    Garbage(ParseError),
}

/// Reads one line from the server, white space around it dropped: a line that
/// starts with `#` is a comment, any other is read as a packet, stamped `now`.
pub fn read_server_line(line: &str, now: i64) -> (r: ServerLine)
    ensures
        ({
            let t = trim(line@);
            match r {
                ServerLine::Blank => t.len() == 0,
                ServerLine::Comment => t.len() > 0 && t[0] == '#',
                ServerLine::Packet(p) => t.len() > 0 && t[0] != '#' && parse_line(t, now) == Ok::<
                    PacketView,
                    ParseError,
                >(p@),
                ServerLine::Garbage(e) => t.len() > 0 && t[0] != '#' && parse_line(t, now) == Err::<
                    PacketView,
                    ParseError,
                >(e),
            }
        }),
{
    let all = chars_of(line);
    let t = trimmed(&all);
    if t.len() == 0 {
        return ServerLine::Blank;
    }
    if t[0] == '#' {
        return ServerLine::Comment;
    }
    let text = string_of(&t);
    match parse_packet_at(text.as_str(), now) {
        Ok(p) => ServerLine::Packet(p),
        Err(e) => ServerLine::Garbage(e),
    }
}

/// Where the session with the server stands.
#[derive(Debug, Clone, Copy, PartialEq, Eq, Structural)]
pub enum SessionPhase {
    /// Connected; the server's banner has not come.
    AwaitBanner,
    /// The login is sent; the server's answer has not come.
    AwaitLogin,
    /// Logged in.
    Running,
    /// Over: the login was refused or the connection ended.
    Closed,
}

/// What happens to the session.
#[derive(Debug)]
pub enum SessionEvent {
    /// A line came from the server.
    Line(String),
    /// The connection ended or failed.
    EndOfStream,
    /// A packet is to go to the server.
    Outgoing(AprsPacket),
    /// The keepalive timer ran out.
    KeepaliveDue,
}

/// What the client is to do.
#[derive(Debug)]
pub enum SessionAction {
    /// Nothing.
    Nothing,
    /// Write this line to the server.
    Send(String),
    /// Hand this packet to the router.
    Deliver(RoutedPacket),
    /// Give up the connection: the login was refused.
    LoginFailed,
    /// Give up the connection: it ended.
    Disconnect,
}

/// One session with the server.
#[derive(Debug)]
pub struct AprsIsSession {
    pub config: AprsIsConfig,
    pub phase: SessionPhase,
}

impl AprsIsSession {
    /// A session on a connection that was just made.
    pub fn new(config: AprsIsConfig) -> (r: Self)
        ensures
            r.config == config,
            r.phase == SessionPhase::AwaitBanner,
    {
        AprsIsSession { config, phase: SessionPhase::AwaitBanner }
    }

    /// Handles one event at second `now`.
    ///
    /// The banner is answered with the login line. The answer to the login opens
    /// the session if it accepts, and closes it otherwise. In an open session, a
    /// packet from the server is delivered if receiving is enabled, a packet for
    /// the server is sent if transmitting is enabled, and a keepalive is sent when
    /// due. The end of the stream closes the session. A closed session does nothing.
    pub fn on_event(&mut self, event: SessionEvent, now: i64) -> (action: SessionAction)
        ensures
            final(self).config == old(self).config,
            old(self).phase == SessionPhase::Closed ==> action is Nothing && final(self).phase
                == SessionPhase::Closed,
            old(self).phase != SessionPhase::Closed && event is EndOfStream ==> action is Disconnect
                && final(self).phase == SessionPhase::Closed,
            old(self).phase == SessionPhase::AwaitBanner ==> match event {
                SessionEvent::Line(_) => final(self).phase == SessionPhase::AwaitLogin
                    && action is Send && action->Send_0@ == login_line_of(old(self).config),
                SessionEvent::EndOfStream => true,
                _ => action is Nothing && final(self).phase == SessionPhase::AwaitBanner,
            },
            old(self).phase == SessionPhase::AwaitLogin ==> match event {
                SessionEvent::Line(line) => if login_accepts(line@) {
                    action is Nothing && final(self).phase == SessionPhase::Running
                } else {
                    action is LoginFailed && final(self).phase == SessionPhase::Closed
                },
                SessionEvent::EndOfStream => true,
                _ => action is Nothing && final(self).phase == SessionPhase::AwaitLogin,
            },
            old(self).phase == SessionPhase::Running ==> match event {
                SessionEvent::Line(line) => final(self).phase == SessionPhase::Running && ({
                    let t = trim(line@);
                    if old(self).config.rx_enable && t.len() > 0 && t[0] != '#' && parse_line(
                        t,
                        now,
                    ) is Ok {
                        action is Deliver && action->Deliver_0.source == PacketSource::AprsIs
                            && parse_line(t, now) == Ok::<PacketView, ParseError>(
                            action->Deliver_0.packet@,
                        )
                    } else {
                        action is Nothing
                    }
                }),
                SessionEvent::EndOfStream => true,
                SessionEvent::Outgoing(packet) => final(self).phase == SessionPhase::Running && (
                if old(self).config.tx_enable {
                    action is Send && action->Send_0@ == packet@.text() + "\r\n"@
                } else {
                    action is Nothing
                }),
                SessionEvent::KeepaliveDue => final(self).phase == SessionPhase::Running
                    && action is Send && action->Send_0@ == "# keepalive\r\n"@,
            },
    {
        match self.phase {
            SessionPhase::Closed => SessionAction::Nothing,
            SessionPhase::AwaitBanner => match event {
                SessionEvent::Line(_) => {
                    self.phase = SessionPhase::AwaitLogin;
                    SessionAction::Send(login_line(&self.config))
                },
                SessionEvent::EndOfStream => {
                    self.phase = SessionPhase::Closed;
                    SessionAction::Disconnect
                },
                _ => SessionAction::Nothing,
            },
            SessionPhase::AwaitLogin => match event {
                SessionEvent::Line(line) => {
                    if login_accepted(line.as_str()) {
                        self.phase = SessionPhase::Running;
                        SessionAction::Nothing
                    } else {
                        self.phase = SessionPhase::Closed;
                        SessionAction::LoginFailed
                    }
                },
                SessionEvent::EndOfStream => {
                    self.phase = SessionPhase::Closed;
                    SessionAction::Disconnect
                },
                _ => SessionAction::Nothing,
            },
            SessionPhase::Running => match event {
                SessionEvent::Line(line) => {
                    match read_server_line(line.as_str(), now) {
                        ServerLine::Packet(packet) => {
                            if self.config.rx_enable {
                                SessionAction::Deliver(
                                    RoutedPacket { packet, source: PacketSource::AprsIs },
                                )
                            } else {
                                SessionAction::Nothing
                            }
                        },
                        _ => SessionAction::Nothing,
                    }
                },
                SessionEvent::EndOfStream => {
                    self.phase = SessionPhase::Closed;
                    SessionAction::Disconnect
                },
                SessionEvent::Outgoing(packet) => {
                    if self.config.tx_enable {
                        SessionAction::Send(packet_line(&packet))
                    } else {
                        SessionAction::Nothing
                    }
                },
                SessionEvent::KeepaliveDue => SessionAction::Send(keepalive_line()),
            },
        }
    }
}

} // verus!
