//! The router's gating policy: what happens to each packet that comes in.
//!
//! The router itself moves packets between queues; what is decided here is where a
//! packet goes, from where it came and what the router has seen before.

use crate::aprs::packet::{AprsPacket, PacketView};
use crate::config::Config;
use crate::digipeater::elapsed;
use crate::filter::{passes, CompiledFilter, PacketFilter};
use crate::seen::{retained, Seen};
use crate::text::{
    chars_of, contains, has_substring_str, hexadecimal, push_hexadecimal, same, string_of,
};
use vstd::prelude::*;

verus! {

/// Seconds after which a packet that was routed is forgotten.
pub const RETENTION_SECS: u32 = 300;

/// Seconds between two clean-ups of the list of recent packets.
pub const HOUSEKEEPING_SECS: u64 = 60;

/// How many packets each of the router's queues holds.
pub const QUEUE_CAPACITY: usize = 100;

/// The number of remembered packets above which the oldest are dropped.
pub const RECENT_LIMIT: usize = 1000;

/// How many of the oldest are dropped then.
pub const RECENT_DROP: usize = 100;

/// Where a packet came from.
#[derive(Debug, Clone, PartialEq)]
pub enum PacketSource {
    /// A TNC on the serial port of this name: the packet was heard on RF.
    SerialPort(String),
    /// The APRS-IS connection.
    AprsIs,
    /// This gateway itself: beacon, telemetry, message replies, digipeater.
    Internal,
}

/// A packet with its provenance.
#[derive(Debug, Clone)]
pub struct RoutedPacket {
    pub packet: AprsPacket,
    pub source: PacketSource,
}

/// Where one packet goes.
#[derive(Debug, Clone, Copy, PartialEq, Eq, Structural)]
pub struct RoutePlan {
    /// The packet is neither a duplicate nor filtered out.
    pub accepted: bool,
    /// Offer it to the digipeater.
    pub to_digipeater: bool,
    /// Publish it to APRS-IS.
    pub to_aprs_is: bool,
    /// Offer it to the message handler.
    pub to_messages: bool,
    /// Publish it to RF.
    pub to_rf: bool,
}

/// Which of the sinks took the packet.
#[derive(Debug, Clone, Copy, PartialEq, Eq, Structural)]
pub struct Delivery {
    pub digipeater: bool,
    pub aprs_is: bool,
    pub rf: bool,
}

/// Which counters go up by one for a packet.
#[derive(Debug, Clone, Copy, PartialEq, Eq, Structural)]
pub struct Tally {
    pub rx: bool,
    pub tx: bool,
    pub digipeated: bool,
    pub igate_rf_to_is: bool,
    pub igate_is_to_rf: bool,
}

/// The router's state: its configuration, its filter, and the packets it routed
/// of late, oldest first, each as the hash of its text with the second it came.
pub struct PacketRouter {
    pub config: Config,
    pub filter: PacketFilter,
    pub recent_packets: Vec<Seen>,
}

/// The 64-bit number that the standard library's default hasher gives for a text.
pub uninterp spec fn text_hash(text: Seq<char>) -> u64;

/// The hash of a packet's text, written in hexadecimal.
pub open spec fn packet_hash(text: Seq<char>) -> Seq<char> {
    hexadecimal(text_hash(text) as nat)
}

/// A packet with this hash was routed less than `delay` seconds ago.
pub open spec fn is_recent(
    entries: Seq<(Seq<char>, i64)>,
    hash: Seq<char>,
    now: i64,
    delay: u32,
) -> bool {
    exists|i: int|
        0 <= i < entries.len() && (#[trigger] entries[i]).0 == hash && elapsed(now, entries[i].1)
            < delay
}

/// The list after a packet was noted: it is added at the end, and when the list
/// then holds more than 1000, the oldest 100 are dropped.
pub open spec fn stored(entries: Seq<(Seq<char>, i64)>, hash: Seq<char>, now: i64) -> Seq<
    (Seq<char>, i64),
> {
    let added = entries.push((hash, now));
    if added.len() > RECENT_LIMIT {
        added.subrange(RECENT_DROP as int, added.len() as int)
    } else {
        added
    }
}

/// Whether a packet from APRS-IS may go out on RF: not if a hop of its path holds
/// `TCPIP`, and not if we sent it ourselves.
pub open spec fn gates_to_rf(mycall: Seq<char>, p: PacketView) -> bool {
    &&& forall|i: int| 0 <= i < p.path.len() ==> !contains((#[trigger] p.path[i]).call, "TCPIP"@)
    &&& p.source.name() != mycall
}

/// Nothing happens to the packet.
pub open spec fn no_route() -> RoutePlan {
    RoutePlan {
        accepted: false,
        to_digipeater: false,
        to_aprs_is: false,
        to_messages: false,
        to_rf: false,
    }
}

/// Where an accepted packet goes, by its provenance.
pub open spec fn policy(config: Config, p: PacketView, source: PacketSource) -> RoutePlan {
    match source {
        PacketSource::SerialPort(_) => RoutePlan {
            accepted: true,
            to_digipeater: config.digipeater.enabled,
            to_aprs_is: !contains(p.information, "RFONLY"@) && !contains(p.information, "NOGATE"@)
                && config.aprs_is is Some && config.aprs_is->0.rx_enable,
            to_messages: p.destination.name() == config.mycall@,
            to_rf: false,
        },
        PacketSource::AprsIs => RoutePlan {
            accepted: true,
            to_digipeater: false,
            to_aprs_is: false,
            to_messages: false,
            to_rf: config.aprs_is is Some && config.aprs_is->0.tx_enable && gates_to_rf(
                config.mycall@,
                p,
            ),
        },
        PacketSource::Internal => RoutePlan {
            accepted: true,
            to_digipeater: false,
            to_aprs_is: config.aprs_is is Some && config.aprs_is->0.tx_enable,
            to_messages: false,
            to_rf: true,
        },
    }
}

/// What the router does with one packet at second `now`: the list of recent packets
/// afterwards, and where the packet goes.
///
/// A packet whose text was routed less than `viscous_delay` seconds ago is dropped,
/// and so is one that the filter does not pass; neither is noted. Any other packet
/// goes where the policy sends it and is noted.
pub open spec fn route(
    config: Config,
    rules: Seq<CompiledFilter>,
    entries: Seq<(Seq<char>, i64)>,
    p: PacketView,
    source: PacketSource,
    now: i64,
) -> (Seq<(Seq<char>, i64)>, RoutePlan) {
    let hash = packet_hash(p.text());
    if is_recent(entries, hash, now, config.digipeater.viscous_delay) {
        (entries, no_route())
    } else if !passes(rules, p.text()) {
        (entries, no_route())
    } else {
        (stored(entries, hash, now), policy(config, p, source))
    }
}

/// Which counters go up, given where the packet was to go and which sinks took it.
pub open spec fn tally_of(source: PacketSource, plan: RoutePlan, delivered: Delivery) -> Tally {
    match source {
        PacketSource::SerialPort(_) => Tally {
            rx: plan.accepted,
            tx: false,
            digipeated: plan.to_digipeater && delivered.digipeater,
            igate_rf_to_is: plan.to_aprs_is && delivered.aprs_is,
            igate_is_to_rf: false,
        },
        PacketSource::AprsIs => Tally {
            rx: false,
            tx: plan.to_rf && delivered.rf,
            digipeated: false,
            igate_rf_to_is: false,
            igate_is_to_rf: plan.to_rf && delivered.rf,
        },
        PacketSource::Internal => Tally {
            rx: false,
            tx: plan.to_rf && delivered.rf,
            digipeated: false,
            igate_rf_to_is: false,
            igate_is_to_rf: false,
        },
    }
}

/// Hashes a text with the standard library's default hasher, by
/// `BuildHasher::hash_one` on a `BuildHasherDefault<DefaultHasher>`.
///
/// Trusted: the number depends on the text alone. Nothing else is claimed of it.
#[verifier::external_body]
fn hash_text(text: &str) -> (r: u64)
    ensures
        r == text_hash(text@),
{
    let hashers =
        std::hash::BuildHasherDefault::<std::collections::hash_map::DefaultHasher>::default();
    std::hash::BuildHasher::hash_one(&hashers, text)
}

/// The hash of a packet's text, in hexadecimal.
pub fn calculate_packet_hash(packet: &str) -> (r: String)
    ensures
        r@ == packet_hash(packet@),
{
    let h = hash_text(packet);
    let mut out: Vec<char> = Vec::new();
    push_hexadecimal(&mut out, h);
    assert(out@ =~= packet_hash(packet@));
    string_of(&out)
}

/// Which counters go up for a packet, once it is known which sinks took it.
pub fn tally(source: &PacketSource, plan: &RoutePlan, delivered: &Delivery) -> (r: Tally)
    ensures
        r == tally_of(*source, *plan, *delivered),
{
    match source {
        PacketSource::SerialPort(_) => Tally {
            rx: plan.accepted,
            tx: false,
            digipeated: plan.to_digipeater && delivered.digipeater,
            igate_rf_to_is: plan.to_aprs_is && delivered.aprs_is,
            igate_is_to_rf: false,
        },
        PacketSource::AprsIs => Tally {
            rx: false,
            tx: plan.to_rf && delivered.rf,
            digipeated: false,
            igate_rf_to_is: false,
            igate_is_to_rf: plan.to_rf && delivered.rf,
        },
        PacketSource::Internal => Tally {
            rx: false,
            tx: plan.to_rf && delivered.rf,
            digipeated: false,
            igate_rf_to_is: false,
            igate_is_to_rf: false,
        },
    }
}

impl PacketRouter {
    /// The packets routed of late, oldest first: hash of the text, and second of arrival.
    pub open spec fn recent(&self) -> Seq<(Seq<char>, i64)> {
        Seq::new(
            self.recent_packets@.len(),
            |i: int| (self.recent_packets@[i].key@, self.recent_packets@[i].at),
        )
    }

    /// A router that has seen nothing yet.
    pub fn new(config: Config, filter: PacketFilter) -> (r: Self)
        ensures
            r.config == config,
            r.filter == filter,
            r.recent() == Seq::<(Seq<char>, i64)>::empty(),
    {
        let r = PacketRouter { config, filter, recent_packets: Vec::new() };
        assert(r.recent() =~= Seq::empty());
        r
    }

    /// How many packets are remembered.
    pub fn recent_len(&self) -> (n: usize)
        ensures
            n == self.recent().len(),
    {
        self.recent_packets.len()
    }

    /// Whether a packet with this text was routed less than `viscous_delay` seconds ago.
    pub fn is_duplicate(&self, packet_str: &str, now: i64) -> (r: bool)
        ensures
            r == is_recent(
                self.recent(),
                packet_hash(packet_str@),
                now,
                self.config.digipeater.viscous_delay,
            ),
    {
        let hash = calculate_packet_hash(packet_str);
        let hash = chars_of(hash.as_str());
        let delay = self.config.digipeater.viscous_delay;
        let mut i: usize = 0;
        while i < self.recent_packets.len()
            invariant
                i <= self.recent_packets.len(),
                hash@ == packet_hash(packet_str@),
                delay == self.config.digipeater.viscous_delay,
                forall|j: int|
                    0 <= j < i ==> !((#[trigger] self.recent()[j]).0 == hash@ && elapsed(
                        now,
                        self.recent()[j].1,
                    ) < delay),
            decreases self.recent_packets.len() - i,
        {
            let entry = &self.recent_packets[i];
            let key = chars_of(entry.key.as_str());
            assert(self.recent()[i as int] == (entry.key@, entry.at));
            if same(&key, &hash) {
                let gone: i128 = if now >= entry.at {
                    now as i128 - entry.at as i128
                } else {
                    0
                };
                if gone < delay as i128 {
                    return true;
                }
            }
            i += 1;
        }
        false
    }

    /// Notes that a packet with this text was routed at `now`.
    pub fn store_packet_hash(&mut self, packet_str: &str, now: i64)
        ensures
            final(self).recent() == stored(old(self).recent(), packet_hash(packet_str@), now),
            final(self).config == old(self).config,
            final(self).filter == old(self).filter,
    {
        let hash = calculate_packet_hash(packet_str);
        let ghost before = self.recent();
        self.recent_packets.push(Seen { key: hash, at: now });
        assert(self.recent() =~= before.push((packet_hash(packet_str@), now)));
        if self.recent_packets.len() > RECENT_LIMIT {
            let ghost added = self.recent();
            let mut kept: Vec<Seen> = Vec::new();
            let mut i: usize = RECENT_DROP;
            while i < self.recent_packets.len()
                invariant
                    RECENT_DROP <= i <= self.recent_packets.len(),
                    self.recent() == added,
                    Seq::new(kept@.len(), |k: int| (kept@[k].key@, kept@[k].at)) == added.subrange(
                        RECENT_DROP as int,
                        i as int,
                    ),
                decreases self.recent_packets.len() - i,
            {
                let ghost before = Seq::new(kept@.len(), |k: int| (kept@[k].key@, kept@[k].at));
                let e = &self.recent_packets[i];
                assert(added[i as int] == (e.key@, e.at));
                kept.push(Seen { key: e.key.clone(), at: e.at });
                i += 1;
                assert(Seq::new(kept@.len(), |k: int| (kept@[k].key@, kept@[k].at)) =~= before.push(
                    (e.key@, e.at),
                ));
                assert(before.push((e.key@, e.at)) =~= added.subrange(RECENT_DROP as int, i as int));
            }
            self.recent_packets = kept;
            assert(self.recent() =~= added.subrange(RECENT_DROP as int, added.len() as int));
        }
    }

    /// Forgets the packets that were routed five minutes ago or longer.
    pub fn cleanup_recent_packets(&mut self, now: i64)
        ensures
            final(self).recent() == retained(old(self).recent(), now, RETENTION_SECS as int),
            final(self).config == old(self).config,
            final(self).filter == old(self).filter,
    {
        let ghost all = self.recent();
        let mut kept: Vec<Seen> = Vec::new();
        let mut i: usize = 0;
        while i < self.recent_packets.len()
            invariant
                i <= self.recent_packets.len(),
                self.recent() == all,
                Seq::new(kept@.len(), |k: int| (kept@[k].key@, kept@[k].at)) == retained(
                    all.subrange(0, i as int),
                    now,
                    RETENTION_SECS as int,
                ),
            decreases self.recent_packets.len() - i,
        {
            let ghost before = Seq::new(kept@.len(), |k: int| (kept@[k].key@, kept@[k].at));
            let e = &self.recent_packets[i];
            proof {
                assert(all.subrange(0, i + 1).drop_last() =~= all.subrange(0, i as int));
                assert(all.subrange(0, i + 1).last() == (e.key@, e.at));
            }
            if (now as i128) - (e.at as i128) < RETENTION_SECS as i128 {
                kept.push(Seen { key: e.key.clone(), at: e.at });
                assert(Seq::new(kept@.len(), |k: int| (kept@[k].key@, kept@[k].at)) =~= before.push(
                    (e.key@, e.at),
                ));
            }
            i += 1;
        }
        proof {
            assert(all.subrange(0, i as int) =~= all);
        }
        self.recent_packets = kept;
        assert(self.recent() =~= retained(all, now, RETENTION_SECS as int));
    }

    /// Whether a packet from APRS-IS may go out on RF.
    pub fn should_gate_to_rf(&self, packet: &AprsPacket) -> (r: bool)
        ensures
            r == gates_to_rf(self.config.mycall@, packet@),
    {
        let mut i: usize = 0;
        while i < packet.path.len()
            invariant
                i <= packet.path.len(),
                forall|j: int| 0 <= j < i ==> !contains((#[trigger] packet@.path[j]).call, "TCPIP"@),
            decreases packet.path.len() - i,
        {
            let call = chars_of(packet.path[i].call.as_str());
            assert(packet@.path[i as int].call == call@);
            if has_substring_str(&call, "TCPIP") {
                return false;
            }
            i += 1;
        }
        let name = packet.source.name();
        let mycall = chars_of(self.config.mycall.as_str());
        !same(&name, &mycall)
    }

    /// Where an accepted packet goes, by its provenance.
    fn plan(&self, routed: &RoutedPacket) -> (r: RoutePlan)
        ensures
            r == policy(self.config, routed.packet@, routed.source),
    {
        let packet = &routed.packet;
        match &routed.source {
            PacketSource::SerialPort(_) => {
                let gate = match &self.config.aprs_is {
                    Some(aprs_is) => aprs_is.rx_enable,
                    None => false,
                };
                let rf_only = packet.has_rfonly();
                let no_gate = packet.has_nogate();
                let name = packet.destination.name();
                let mycall = chars_of(self.config.mycall.as_str());
                RoutePlan {
                    accepted: true,
                    to_digipeater: self.config.digipeater.enabled,
                    to_aprs_is: !rf_only && !no_gate && gate,
                    to_messages: same(&name, &mycall),
                    to_rf: false,
                }
            },
            PacketSource::AprsIs => {
                let transmit = match &self.config.aprs_is {
                    Some(aprs_is) => aprs_is.tx_enable,
                    None => false,
                };
                RoutePlan {
                    accepted: true,
                    to_digipeater: false,
                    to_aprs_is: false,
                    to_messages: false,
                    to_rf: transmit && self.should_gate_to_rf(packet),
                }
            },
            PacketSource::Internal => {
                let transmit = match &self.config.aprs_is {
                    Some(aprs_is) => aprs_is.tx_enable,
                    None => false,
                };
                RoutePlan {
                    accepted: true,
                    to_digipeater: false,
                    to_aprs_is: transmit,
                    to_messages: false,
                    to_rf: true,
                }
            },
        }
    }

    /// Decides where one packet goes at second `now` of a clock that does not run
    /// backwards, and notes the packet if it goes anywhere.
    pub fn route_packet(&mut self, routed: &RoutedPacket, now: i64) -> (r: RoutePlan)
        ensures
            (final(self).recent(), r) == route(
                old(self).config,
                old(self).filter.filters@,
                old(self).recent(),
                routed.packet@,
                routed.source,
                now,
            ),
            final(self).config == old(self).config,
            final(self).filter == old(self).filter,
    {
        let text = routed.packet.to_string();
        if self.is_duplicate(text.as_str(), now) {
            return RoutePlan {
                accepted: false,
                to_digipeater: false,
                to_aprs_is: false,
                to_messages: false,
                to_rf: false,
            };
        }
        if !self.filter.passes_text(text.as_str()) {
            return RoutePlan {
                accepted: false,
                to_digipeater: false,
                to_aprs_is: false,
                to_messages: false,
                to_rf: false,
            };
        }
        let plan = self.plan(routed);
        self.store_packet_hash(text.as_str(), now);
        plan
    }
}

impl RoutePlan {
    /// The packet goes to no sink.
    pub open spec fn idle(self) -> bool {
        !self.to_digipeater && !self.to_aprs_is && !self.to_messages && !self.to_rf
    }
}

// ---------------------------------------------------------------------------
// Laws
// ---------------------------------------------------------------------------
/// Of two packets with the same text that come in less than `viscous_delay` seconds
/// apart, at most one goes to any sink: if the first went anywhere, the second goes
/// nowhere.
pub proof fn law_dedup(
    config: Config,
    rules: Seq<CompiledFilter>,
    entries: Seq<(Seq<char>, i64)>,
    first: PacketView,
    first_source: PacketSource,
    first_at: i64,
    second: PacketView,
    second_source: PacketSource,
    second_at: i64,
)
    requires
        first.text() == second.text(),
        first_at <= second_at,
        second_at - first_at < config.digipeater.viscous_delay,
    ensures
        ({
            let (between, plan1) = route(config, rules, entries, first, first_source, first_at);
            let (after, plan2) = route(config, rules, between, second, second_source, second_at);
            plan1.idle() || (plan2.idle() && !plan2.accepted)
        }),
{
    let (between, plan1) = route(config, rules, entries, first, first_source, first_at);
    let hash = packet_hash(first.text());
    if !plan1.idle() {
        let added = entries.push((hash, first_at));
        assert(between == stored(entries, hash, first_at));
        assert(between.last() == (hash, first_at));
        assert(between[between.len() - 1].0 == hash);
        assert(is_recent(between, hash, second_at, config.digipeater.viscous_delay));
    }
}

} // verus!
