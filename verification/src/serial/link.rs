//! What comes in from a TNC and what goes out to it, for both kinds of link.

use crate::aprs::packet::{AprsPacket, PacketView};
use crate::aprs::parser::{
    law_parse_format_roundtrip, lemma_callsign_text, lemma_hops_text_chars, parse_line,
    parse_packet_at,
};
use crate::config::SerialPortConfig;
use crate::router::{PacketSource, RoutedPacket};
use crate::serial::ax25::{
    aprs_to_ax25, ax25_frame, ax25_text, ax25_to_aprs, bytes_text, law_ax25_roundtrip,
    lemma_frame_layout, text_of_bytes,
};
use crate::serial::kiss::{
    contents, frame, idle, law_kiss_roundtrip, run, step, KissCodec, KissState,
};
use crate::text::{
    append, append_str, chars_of, find, first_index, lemma_first_index_is, slice, string_of,
};
use bytes::BytesMut;
use vstd::prelude::*;

verus! {

/// The packet in a KISS data frame, stamped `now`: the frame's AX.25 content as
/// text, read by the text parser. None where either fails.
pub open spec fn frame_packet(data: Seq<u8>, now: i64) -> Option<PacketView> {
    match ax25_text(data) {
        Some(text) => match parse_line(text, now) {
            Ok(p) => Some(p),
            Err(_) => None,
        },
        None => None,
    }
}

/// The packets in the data frames of `input`, read by a decoder in state `s`.
pub open spec fn kiss_packets(s: KissState, input: Seq<u8>, now: i64) -> Seq<PacketView>
    decreases input.len(),
{
    let r = run(s, input);
    if r.2 is Some && r.1.len() < input.len() {
        (match frame_packet(r.2->0, now) {
            Some(p) => seq![p],
            None => Seq::empty(),
        }) + kiss_packets(r.0, r.1, now)
    } else {
        Seq::empty()
    }
}

/// The decoder's state after it has read all of `input`.
pub open spec fn kiss_state_after(s: KissState, input: Seq<u8>) -> KissState
    decreases input.len(),
{
    let r = run(s, input);
    if r.2 is Some && r.1.len() < input.len() {
        kiss_state_after(r.0, r.1)
    } else {
        r.0
    }
}

/// Reading up to a frame takes at least one byte; reading without finding a frame
/// takes all.
pub proof fn lemma_run_consumes(s: KissState, input: Seq<u8>)
    ensures
        run(s, input).2 is Some ==> run(s, input).1.len() < input.len(),
        run(s, input).2 is None ==> run(s, input).1.len() == 0,
    decreases input.len(),
{
    if input.len() > 0 {
        let next = step(s, input[0]);
        if next.1 is None {
            lemma_run_consumes(next.0, input.drop_first());
        }
    }
}

/// A line without the carriage returns at its end.
pub open spec fn strip_returns(line: Seq<char>) -> Seq<char>
    decreases line.len(),
{
    if line.len() > 0 && line.last() == '\r' {
        strip_returns(line.drop_last())
    } else {
        line
    }
}

/// The packets in the complete lines of `buffer`, each stamped `now`. A line ends
/// with a line feed; carriage returns before it are dropped; an empty line and a
/// line that is no packet give nothing.
pub open spec fn tnc2_packets(buffer: Seq<char>, now: i64) -> Seq<PacketView>
    decreases buffer.len(),
{
    let nl = first_index(buffer, '\n');
    if 0 <= nl < buffer.len() {
        let line = strip_returns(buffer.subrange(0, nl));
        (if line.len() > 0 && parse_line(line, now) is Ok {
            seq![parse_line(line, now)->Ok_0]
        } else {
            Seq::empty()
        }) + tnc2_packets(buffer.subrange(nl + 1, buffer.len() as int), now)
    } else {
        Seq::empty()
    }
}

/// What is left of `buffer` behind its last line feed: the start of a line that is
/// not complete.
pub open spec fn tnc2_rest(buffer: Seq<char>) -> Seq<char>
    decreases buffer.len(),
{
    let nl = first_index(buffer, '\n');
    if 0 <= nl < buffer.len() {
        tnc2_rest(buffer.subrange(nl + 1, buffer.len() as int))
    } else {
        buffer
    }
}

/// The speeds that a serial line can be set to, in bits per second.
pub open spec fn standard_baud(rate: u32) -> bool {
    rate == 50 || rate == 75 || rate == 110 || rate == 134 || rate == 150 || rate == 200 || rate
        == 300 || rate == 600 || rate == 1200 || rate == 1800 || rate == 2400 || rate == 4800
        || rate == 9600 || rate == 19200 || rate == 38400 || rate == 57600 || rate == 115200
        || rate == 230400
}

/// Whether a serial line can be set to this speed.
pub fn is_standard_baud(rate: u32) -> (r: bool)
    ensures
        r == standard_baud(rate),
{
    rate == 50 || rate == 75 || rate == 110 || rate == 134 || rate == 150 || rate == 200 || rate
        == 300 || rate == 600 || rate == 1200 || rate == 1800 || rate == 2400 || rate == 4800
        || rate == 9600 || rate == 19200 || rate == 38400 || rate == 57600 || rate == 115200
        || rate == 230400
}

/// The contents of a list of routed packets.
pub open spec fn routed_view(list: Seq<RoutedPacket>) -> Seq<PacketView> {
    Seq::new(list.len(), |i: int| list[i].packet@)
}

/// Every packet of the list came from the serial port of this name.
pub open spec fn all_from_port(list: Seq<RoutedPacket>, name: Seq<char>) -> bool {
    forall|i: int|
        0 <= i < list.len() ==> (#[trigger] list[i]).source is SerialPort
            && list[i].source->SerialPort_0@ == name
}

/// The port that a packet from this TNC is tagged with.
fn port_source(config: &SerialPortConfig) -> (r: PacketSource)
    ensures
        r is SerialPort,
        r->SerialPort_0@ == config.name@,
{
    PacketSource::SerialPort(config.name.clone())
}

/// Reads the packets from the KISS frames in `read_buf`, at second `now`.
///
/// All of `read_buf` is read. The packets are returned in their order, tagged with
/// the port's name, if receiving is enabled; none otherwise.
pub fn receive_kiss(
    codec: &mut KissCodec,
    read_buf: &mut BytesMut,
    config: &SerialPortConfig,
    now: i64,
) -> (packets: Vec<RoutedPacket>)
    ensures
        final(codec)@ == kiss_state_after(old(codec)@, contents(*old(read_buf))),
        contents(*final(read_buf)).len() == 0,
        all_from_port(packets@, config.name@),
        config.rx_enable ==> routed_view(packets@) == kiss_packets(
            old(codec)@,
            contents(*old(read_buf)),
            now,
        ),
        !config.rx_enable ==> packets@.len() == 0,
{
    let mut packets: Vec<RoutedPacket> = Vec::new();
    let mut done = false;
    assert(routed_view(packets@) =~= Seq::empty());
    while !done
        invariant
            all_from_port(packets@, config.name@),
            !config.rx_enable ==> packets@.len() == 0,
            !done ==> kiss_state_after(codec@, contents(*read_buf)) == kiss_state_after(
                old(codec)@,
                contents(*old(read_buf)),
            ),
            done ==> codec@ == kiss_state_after(old(codec)@, contents(*old(read_buf)))
                && contents(*read_buf).len() == 0,
            config.rx_enable && !done ==> routed_view(packets@) + kiss_packets(
                codec@,
                contents(*read_buf),
                now,
            ) == kiss_packets(old(codec)@, contents(*old(read_buf)), now),
            config.rx_enable && done ==> routed_view(packets@) == kiss_packets(
                old(codec)@,
                contents(*old(read_buf)),
                now,
            ),
        decreases contents(*read_buf).len() + (if done { 0int } else { 1int }),
    {
        let ghost state = codec@;
        let ghost input = contents(*read_buf);
        let ghost before = routed_view(packets@);
        proof {
            lemma_run_consumes(state, input);
        }
        match codec.decode(read_buf) {
            Ok(Some(data)) => {
                match ax25_to_aprs(data.as_slice()) {
                    Ok(text) => match parse_packet_at(text.as_str(), now) {
                        Ok(packet) => {
                            if config.rx_enable {
                                packets.push(RoutedPacket { packet, source: port_source(config) });
                                assert(routed_view(packets@) =~= before.push(packet@));
                            }
                        },
                        Err(_) => {},
                    },
                    Err(_) => {},
                }
                assert(config.rx_enable ==> routed_view(packets@) + kiss_packets(
                    codec@,
                    contents(*read_buf),
                    now,
                ) =~= before + kiss_packets(state, input, now));
            },
            _ => {
                done = true;
                assert(routed_view(packets@) + kiss_packets(state, input, now) =~= routed_view(
                    packets@,
                ));
            },
        }
    }
    packets
}

/// The KISS frame that carries a packet to the TNC, if transmitting is enabled.
pub fn transmit_kiss(codec: &KissCodec, config: &SerialPortConfig, packet: &AprsPacket) -> (r:
    Option<Vec<u8>>)
    ensures
        match r {
            Some(bytes) => config.tx_enable && bytes@ == frame(ax25_frame(packet@), 0),
            None => !config.tx_enable,
        },
{
    if !config.tx_enable {
        return None;
    }
    match aprs_to_ax25(packet) {
        Ok(ax25) => Some(codec.encode(ax25.as_slice(), 0)),
        Err(_) => None,
    }
}

/// A TNC2 text link: the line that is not complete yet.
#[derive(Debug)]
pub struct Tnc2Link {
    pub line_buffer: String,
}

/// The characters of `v` without the carriage returns at the end.
fn without_returns(v: &Vec<char>) -> (r: Vec<char>)
    ensures
        r@ == strip_returns(v@),
{
    let mut n: usize = v.len();
    assert(v@.subrange(0, n as int) =~= v@);
    while n > 0 && v[n - 1] == '\r'
        invariant
            n <= v.len(),
            strip_returns(v@.subrange(0, n as int)) == strip_returns(v@),
        decreases n,
    {
        assert(v@.subrange(0, n as int).drop_last() =~= v@.subrange(0, n - 1));
        n -= 1;
    }
    slice(v, 0, n)
}

impl Tnc2Link {
    /// A link on which nothing has come in.
    pub fn new() -> (r: Self)
        ensures
            r.line_buffer@ == Seq::<char>::empty(),
    {
        Tnc2Link { line_buffer: String::new() }
    }

    /// Takes in bytes from the TNC at second `now` and returns the packets of the
    /// lines that they complete, tagged with the port's name, if receiving is
    /// enabled. The bytes are read as text, what is no UTF-8 replaced.
    pub fn receive(&mut self, bytes: &[u8], config: &SerialPortConfig, now: i64) -> (packets: Vec<
        RoutedPacket,
    >)
        ensures
            final(self).line_buffer@ == tnc2_rest(old(self).line_buffer@ + bytes_text(bytes@)),
            all_from_port(packets@, config.name@),
            config.rx_enable ==> routed_view(packets@) == tnc2_packets(
                old(self).line_buffer@ + bytes_text(bytes@),
                now,
            ),
            !config.rx_enable ==> packets@.len() == 0,
    {
        let mut buffer = chars_of(self.line_buffer.as_str());
        let text = chars_of(text_of_bytes(bytes).as_str());
        append(&mut buffer, &text);
        let ghost whole = buffer@;
        let mut packets: Vec<RoutedPacket> = Vec::new();
        let mut done = false;
        assert(routed_view(packets@) =~= Seq::empty());
        while !done
            invariant
                all_from_port(packets@, config.name@),
                !config.rx_enable ==> packets@.len() == 0,
                tnc2_rest(buffer@) == tnc2_rest(whole),
                done ==> buffer@ == tnc2_rest(whole),
                config.rx_enable && !done ==> routed_view(packets@) + tnc2_packets(buffer@, now)
                    == tnc2_packets(whole, now),
                config.rx_enable && done ==> routed_view(packets@) == tnc2_packets(whole, now),
            decreases buffer.len() + (if done { 0int } else { 1int }),
        {
            let ghost before = routed_view(packets@);
            let ghost current = buffer@;
            let nl = find(&buffer, '\n');
            if nl >= buffer.len() {
                done = true;
                assert(routed_view(packets@) + tnc2_packets(current, now) =~= routed_view(
                    packets@,
                ));
            } else {
                let line = without_returns(&slice(&buffer, 0, nl));
                if line.len() > 0 {
                    match parse_packet_at(string_of(&line).as_str(), now) {
                        Ok(packet) => {
                            if config.rx_enable {
                                packets.push(RoutedPacket { packet, source: port_source(config) });
                                assert(routed_view(packets@) =~= before.push(packet@));
                            }
                        },
                        Err(_) => {},
                    }
                }
                buffer = slice(&buffer, nl + 1, buffer.len());
                assert(config.rx_enable ==> routed_view(packets@) + tnc2_packets(buffer@, now)
                    =~= before + tnc2_packets(current, now));
            }
        }
        self.line_buffer = string_of(&buffer);
        packets
    }

    /// The line that carries a packet to the TNC, if transmitting is enabled: its
    /// textual form and CR LF.
    pub fn transmit(config: &SerialPortConfig, packet: &AprsPacket) -> (r: Option<String>)
        ensures
            match r {
                Some(line) => config.tx_enable && line@ == packet@.text() + "\r\n"@,
                None => !config.tx_enable,
            },
    {
        if !config.tx_enable {
            return None;
        }
        let mut out = packet.text();
        append_str(&mut out, "\r\n");
        Some(string_of(&out))
    }
}

// ---------------------------------------------------------------------------
// Laws
// ---------------------------------------------------------------------------
/// What goes out over a KISS link comes in as the same packet: a decoder that has
/// read nothing reads from the frame of a packet with legal callsigns without
/// used-marker that packet, raw bytes aside, and nothing else.
pub proof fn law_kiss_link_roundtrip(p: PacketView, now: i64)
    requires
        p.well_formed(),
        !p.source.digipeated,
        !p.destination.digipeated,
        forall|i: int| 0 <= i < p.path.len() ==> !(#[trigger] p.path[i]).digipeated,
    ensures
        kiss_packets(idle(), frame(ax25_frame(p), 0), now) == seq![
            PacketView { raw: None, timestamp: now, ..p },
        ],
        kiss_state_after(idle(), frame(ax25_frame(p), 0)) == idle(),
{
    let data = ax25_frame(p);
    let q = PacketView { timestamp: now, ..p };
    lemma_frame_layout(p);
    law_kiss_roundtrip(data);
    law_ax25_roundtrip(q);
    assert(ax25_frame(q) == data) by {
        reveal(ax25_frame);
    }
    let input = frame(data, 0);
    assert(input.len() > 0);
    let r = run(idle(), input);
    assert(r == (idle(), Seq::<u8>::empty(), Some(data)));
    assert(frame_packet(data, now) == Some(PacketView { raw: None, ..q }));
    assert(kiss_packets(idle(), Seq::<u8>::empty(), now) =~= Seq::<PacketView>::empty());
    assert(kiss_packets(idle(), input, now) =~= seq![PacketView { raw: None, ..q }]);
    assert(run(idle(), Seq::<u8>::empty()) == (idle(), Seq::<u8>::empty(), None::<Seq<u8>>));
    assert(kiss_state_after(idle(), Seq::<u8>::empty()) == idle());
}

/// What goes out over a TNC2 link comes in as the same packet: the line of a packet
/// with legal callsigns, whose information holds no line feed and does not end with
/// a carriage return, is read as that packet, raw bytes aside, and nothing is left.
pub proof fn law_tnc2_link_roundtrip(p: PacketView, now: i64)
    requires
        p.well_formed(),
        forall|i: int| 0 <= i < p.information.len() ==> p.information[i] != '\n',
        p.information.len() > 0 ==> p.information.last() != '\r',
    ensures
        tnc2_packets(p.text() + seq!['\r', '\n'], now) == seq![
            PacketView { raw: None, timestamp: now, ..p },
        ],
        tnc2_rest(p.text() + seq!['\r', '\n']) == Seq::<char>::empty(),
{
    let q = PacketView { timestamp: now, ..p };
    let text = p.text();
    let header = p.header();
    let buffer = text + seq!['\r', '\n'];
    law_parse_format_roundtrip(q);
    assert(q.text() == text);
    // no line feed in the text
    lemma_callsign_text(p.source);
    lemma_callsign_text(p.destination);
    lemma_hops_text_chars(p.path);
    let src = p.source.text();
    let dst = p.destination.text();
    let hops = crate::aprs::packet::hops_text(p.path);
    assert(header =~= src + seq!['>'] + dst + hops);
    assert forall|j: int| 0 <= j < header.len() implies header[j] != '\n' by {
        if j < src.len() {
            assert(header[j] == src[j]);
            assert(crate::aprs::parser::is_address_char(src[j]));
        } else if j == src.len() {
        } else if j < src.len() + 1 + dst.len() {
            assert(header[j] == dst[j - src.len() - 1]);
            assert(crate::aprs::parser::is_address_char(dst[j - src.len() - 1]));
        } else {
            assert(header[j] == hops[j - src.len() - 1 - dst.len()]);
        }
    }
    assert(text =~= header + seq![':'] + p.information);
    assert forall|j: int| 0 <= j < text.len() implies text[j] != '\n' by {
        if j < header.len() {
            assert(text[j] == header[j]);
        } else if j > header.len() {
            assert(text[j] == p.information[j - header.len() - 1]);
        }
    }
    let nl: int = text.len() as int + 1;
    assert forall|j: int| 0 <= j < nl implies buffer[j] != '\n' by {
        if j < text.len() {
            assert(buffer[j] == text[j]);
        }
    }
    assert(buffer[nl] == '\n');
    lemma_first_index_is(buffer, '\n', nl);
    let raw = buffer.subrange(0, nl);
    assert(raw =~= text.push('\r'));
    assert(raw.drop_last() =~= text);
    assert(text.len() > 0);
    assert(text.last() != '\r') by {
        if p.information.len() > 0 {
            assert(text.last() == p.information.last());
        } else {
            assert(text.last() == ':');
        }
    }
    assert(strip_returns(text) == text);
    assert(strip_returns(raw) == text);
    let rest = buffer.subrange(nl + 1, buffer.len() as int);
    assert(rest =~= Seq::<char>::empty());
    assert(tnc2_packets(rest, now) =~= Seq::<PacketView>::empty());
    assert(tnc2_rest(rest) =~= Seq::<char>::empty());
    assert(tnc2_packets(buffer, now) =~= seq![PacketView { raw: None, ..q }]);
}

} // verus!
