//! Operational telemetry: the counters, and the packets that report them.

use crate::aprs::packet::{own_packet, own_packet_view, AprsPacket};
use crate::config::TelemetryConfig;
use crate::router::Tally;
use crate::text::{
    append_str, chars_of, decimal, pad_left, pad_right, push_decimal_padded, push_padded_right,
    string_of,
};
use std::sync::atomic::{AtomicU64, Ordering};
use vstd::prelude::*;

verus! {

/// The counters of the process. Each only goes up.
pub struct TelemetryStats {
    pub packets_rx: AtomicU64,
    pub packets_tx: AtomicU64,
    pub packets_digipeated: AtomicU64,
    pub packets_igate_rf_to_is: AtomicU64,
    pub packets_igate_is_to_rf: AtomicU64,
}

/// The counters as they were read at one time.
#[derive(Debug, Clone, Copy, PartialEq, Eq, Structural)]
pub struct TelemetryCounters {
    pub rx: u64,
    pub tx: u64,
    pub digipeated: u64,
    pub igate_rf_to_is: u64,
    pub igate_is_to_rf: u64,
}

impl TelemetryStats {
    /// Counters at zero.
    pub fn new() -> Self {
        TelemetryStats {
            packets_rx: AtomicU64::new(0),
            packets_tx: AtomicU64::new(0),
            packets_digipeated: AtomicU64::new(0),
            packets_igate_rf_to_is: AtomicU64::new(0),
            packets_igate_is_to_rf: AtomicU64::new(0),
        }
    }

    /// Reads the counters, each by itself. Other tasks may count meanwhile, so
    /// nothing is known of the values.
    pub fn snapshot(&self) -> TelemetryCounters {
        TelemetryCounters {
            rx: self.packets_rx.load(Ordering::Relaxed),
            tx: self.packets_tx.load(Ordering::Relaxed),
            digipeated: self.packets_digipeated.load(Ordering::Relaxed),
            igate_rf_to_is: self.packets_igate_rf_to_is.load(Ordering::Relaxed),
            igate_is_to_rf: self.packets_igate_is_to_rf.load(Ordering::Relaxed),
        }
    }

    /// Adds one to each counter that the tally names.
    pub fn record(&self, tally: &Tally) {
        if tally.rx {
            self.packets_rx.fetch_add(1, Ordering::Relaxed);
        }
        if tally.tx {
            self.packets_tx.fetch_add(1, Ordering::Relaxed);
        }
        if tally.digipeated {
            self.packets_digipeated.fetch_add(1, Ordering::Relaxed);
        }
        if tally.igate_rf_to_is {
            self.packets_igate_rf_to_is.fetch_add(1, Ordering::Relaxed);
        }
        if tally.igate_is_to_rf {
            self.packets_igate_is_to_rf.fetch_add(1, Ordering::Relaxed);
        }
    }
}

/// A number in three digits at least, with zeros in front.
pub open spec fn three_digits(n: nat) -> Seq<char> {
    pad_left(decimal(n), 3, '0')
}

/// The telemetry report `T#SSS,R,T,D,IG1,IG2,00000000`: the sequence number modulo
/// 1000 and each counter modulo 256, in three digits.
pub open spec fn report_text(sequence: u32, c: TelemetryCounters) -> Seq<char> {
    "T#"@ + three_digits((sequence % 1000) as nat) + ","@ + three_digits((c.rx % 256) as nat)
        + ","@ + three_digits((c.tx % 256) as nat) + ","@ + three_digits(
        (c.digipeated % 256) as nat,
    ) + ","@ + three_digits((c.igate_rf_to_is % 256) as nat) + ","@ + three_digits(
        (c.igate_is_to_rf % 256) as nat,
    ) + ",00000000"@
}

/// A message to ourselves that starts with `:`, our call in nine characters, `:`.
pub open spec fn addressed(mycall: Seq<char>, body: Seq<char>) -> Seq<char> {
    ":"@ + pad_right(mycall, 9, ' ') + ":"@ + body
}

/// The names of the telemetry channels.
pub open spec fn parameter_text(mycall: Seq<char>) -> Seq<char> {
    addressed(mycall, "PARM.RxPkts,TxPkts,Digi,RF>IS,IS>RF"@)
}

/// The units of the telemetry channels.
pub open spec fn unit_text(mycall: Seq<char>) -> Seq<char> {
    addressed(mycall, "UNIT.Pkts,Pkts,Pkts,Pkts,Pkts"@)
}

/// The status line with the operator's comment.
pub open spec fn status_text(comment: Seq<char>) -> Seq<char> {
    ">aprstx "@ + comment
}

/// The information fields of the packets of one telemetry tick, in the order in
/// which they are sent: the report; with every tenth sequence number the names and
/// the units; and the status where a comment is configured.
pub open spec fn tick_texts(
    comment: Seq<char>,
    mycall: Seq<char>,
    sequence: u32,
    c: TelemetryCounters,
) -> Seq<Seq<char>> {
    seq![report_text(sequence, c)] + (if sequence % 10 == 0 {
        seq![parameter_text(mycall), unit_text(mycall)]
    } else {
        Seq::empty()
    }) + (if comment.len() > 0 {
        seq![status_text(comment)]
    } else {
        Seq::empty()
    })
}

/// The telemetry report for a sequence number and the counters.
pub fn format_report(sequence: u32, c: &TelemetryCounters) -> (r: String)
    ensures
        r@ == report_text(sequence, *c),
{
    let mut out: Vec<char> = Vec::new();
    append_str(&mut out, "T#");
    push_decimal_padded(&mut out, (sequence % 1000) as u64, 3);
    append_str(&mut out, ",");
    push_decimal_padded(&mut out, c.rx % 256, 3);
    append_str(&mut out, ",");
    push_decimal_padded(&mut out, c.tx % 256, 3);
    append_str(&mut out, ",");
    push_decimal_padded(&mut out, c.digipeated % 256, 3);
    append_str(&mut out, ",");
    push_decimal_padded(&mut out, c.igate_rf_to_is % 256, 3);
    append_str(&mut out, ",");
    push_decimal_padded(&mut out, c.igate_is_to_rf % 256, 3);
    append_str(&mut out, ",00000000");
    assert(out@ =~= report_text(sequence, *c));
    string_of(&out)
}

/// `:MYCALL   :` and `body`.
fn format_addressed(mycall: &str, body: &str) -> (r: String)
    ensures
        r@ == addressed(mycall@, body@),
{
    let mut out: Vec<char> = Vec::new();
    append_str(&mut out, ":");
    let call = chars_of(mycall);
    push_padded_right(&mut out, &call, 9);
    append_str(&mut out, ":");
    append_str(&mut out, body);
    assert(out@ =~= addressed(mycall@, body@));
    string_of(&out)
}

/// The names of the telemetry channels, addressed to ourselves.
pub fn format_parameters(mycall: &str) -> (r: String)
    ensures
        r@ == parameter_text(mycall@),
{
    format_addressed(mycall, "PARM.RxPkts,TxPkts,Digi,RF>IS,IS>RF")
}

/// The units of the telemetry channels, addressed to ourselves.
pub fn format_units(mycall: &str) -> (r: String)
    ensures
        r@ == unit_text(mycall@),
{
    format_addressed(mycall, "UNIT.Pkts,Pkts,Pkts,Pkts,Pkts")
}

/// The status line with the operator's comment.
pub fn format_status(comment: &str) -> (r: String)
    ensures
        r@ == status_text(comment@),
{
    let mut out: Vec<char> = Vec::new();
    append_str(&mut out, ">aprstx ");
    append_str(&mut out, comment);
    assert(out@ =~= status_text(comment@));
    string_of(&out)
}

/// The packets of one telemetry tick, in the order in which they are sent, each
/// from this station to `APRS` and stamped `now`.
pub fn telemetry_packets(
    config: &TelemetryConfig,
    mycall: &str,
    sequence: u32,
    counters: &TelemetryCounters,
    now: i64,
) -> (r: Vec<AprsPacket>)
    ensures
        r@.len() == tick_texts(config.comment@, mycall@, sequence, *counters).len(),
        forall|i: int|
            0 <= i < r@.len() ==> (#[trigger] r@[i])@ == own_packet_view(
                mycall@,
                tick_texts(config.comment@, mycall@, sequence, *counters)[i],
                now,
            ),
{
    let mut out: Vec<AprsPacket> = Vec::new();
    out.push(own_packet(mycall, format_report(sequence, counters), now));
    if sequence % 10 == 0 {
        out.push(own_packet(mycall, format_parameters(mycall), now));
        out.push(own_packet(mycall, format_units(mycall), now));
    }
    if config.comment.as_str().unicode_len() > 0 {
        out.push(own_packet(mycall, format_status(config.comment.as_str()), now));
    }
    out
}

/// The sequence number of the next tick: one more, and 0 after the largest.
pub fn next_sequence(sequence: u32) -> (r: u32)
    ensures
        r == if sequence == u32::MAX {
            0
        } else {
            sequence + 1
        },
{
    if sequence == u32::MAX {
        0
    } else {
        sequence + 1
    }
}

} // verus!
