//! Directed text messages: acknowledging what comes in, and retrying what went out.

use crate::aprs::packet::{
    own_packet, own_packet_view, AprsPacket, DataType, PacketView,
};
use crate::router::RoutedPacket;
use crate::seen::{noted, retained, SeenTable};
use crate::text::{
    append, append_str, chars_of, has_prefix, last_index, pad_right, push_padded_right, rfind,
    same, slice, starts_with, string_of, to_uppercase, trim, trimmed, uppercase,
};
use vstd::prelude::*;

verus! {

/// Seconds between two attempts to send a message.
pub const RETRY_SECS: i64 = 30;

/// Attempts after which a message is given up.
pub const MAX_ATTEMPTS: u8 = 3;

/// Seconds for which the number of a received message is remembered: 24 hours.
pub const RECEIVED_RETENTION_SECS: u32 = 86_400;

/// Seconds between two clean-ups of the received messages.
pub const HOUSEKEEPING_SECS: u64 = 300;

/// A message that was sent and waits for its acknowledgement.
#[derive(Debug)]
pub struct PendingMessage {
    pub msg_id: String,
    pub packet: AprsPacket,
    /// How often it was sent again, 0 to 3.
    pub attempts: u8,
    /// The second of the last attempt.
    pub last_attempt: i64,
}

/// The mathematical content of a [`PendingMessage`].
pub struct PendingView {
    pub msg_id: Seq<char>,
    pub packet: PacketView,
    pub attempts: u8,
    pub last_attempt: i64,
}

impl View for PendingMessage {
    type V = PendingView;

    open spec fn view(&self) -> PendingView {
        PendingView {
            msg_id: self.msg_id@,
            packet: self.packet@,
            attempts: self.attempts,
            last_attempt: self.last_attempt,
        }
    }
}

/// The message handler's state: our call, the messages that wait for an
/// acknowledgement, at most one for each message number, and the numbers of the
/// messages received of late.
#[derive(Debug)]
pub struct MessageHandler {
    pub mycall: String,
    pub pending_acks: Vec<PendingMessage>,
    pub received_messages: SeenTable,
}

/// The contents of a list of pending messages.
pub open spec fn pending_view(list: Seq<PendingMessage>) -> Seq<PendingView> {
    Seq::new(list.len(), |i: int| list[i]@)
}

/// Addressee and body of a message `:ADDRESSEE:body`, the addressee nine
/// characters long with the white space around it dropped; none where the
/// information field is not of that form.
pub open spec fn message_parts(info: Seq<char>) -> Option<MessageParts> {
    if info.len() >= 11 && info[0] == ':' && info[10] == ':' {
        Some(
            MessageParts {
                addressee: trim(info.subrange(1, 10)),
                body: info.subrange(11, info.len() as int),
            },
        )
    } else {
        None
    }
}

/// The parts of a message's information field.
pub struct MessageParts {
    pub addressee: Seq<char>,
    pub body: Seq<char>,
}

/// The body is an acknowledgement or a rejection.
pub open spec fn is_ack_or_rej(body: Seq<char>) -> bool {
    starts_with(body, "ack"@) || starts_with(body, "rej"@)
}

/// The number of a message: what follows the last `{` of its body, if there is one.
pub open spec fn message_id(body: Seq<char>) -> Option<Seq<char>> {
    if last_index(body, '{') >= 0 {
        Some(body.subrange(last_index(body, '{') + 1, body.len() as int))
    } else {
        None
    }
}

/// The text of a message: its body up to the last `{`.
pub open spec fn message_text(body: Seq<char>) -> Seq<char> {
    if last_index(body, '{') >= 0 {
        body.subrange(0, last_index(body, '{'))
    } else {
        body
    }
}

/// A message to `to`: `:`, the addressee in nine characters, `:`, and the body.
pub open spec fn message_to(to: Seq<char>, body: Seq<char>) -> Seq<char> {
    ":"@ + pad_right(to, 9, ' ') + ":"@ + body
}

/// The text asks for our status: it is `?APRST`, in any case, white space aside.
pub open spec fn asks_status(text: Seq<char>) -> bool {
    uppercase(trim(text)) == "?APRST"@
}

/// The replies to a message from `from` with the given body: the acknowledgement
/// `ack` and the message's number where it has one, then the status where asked.
pub open spec fn reply_texts(from: Seq<char>, body: Seq<char>) -> Seq<Seq<char>> {
    (match message_id(body) {
        Some(id) => seq![message_to(from, "ack"@ + id)],
        None => Seq::empty(),
    }) + (if asks_status(message_text(body)) {
        seq![message_to(from, "aprstx daemon running"@)]
    } else {
        Seq::empty()
    })
}

/// The key under which a received message is remembered: sender, `:`, number.
pub open spec fn received_key(from: Seq<char>, id: Seq<char>) -> Seq<char> {
    from + ":"@ + id
}

/// The pending messages without those of the given number.
pub open spec fn without_id(list: Seq<PendingView>, id: Seq<char>) -> Seq<PendingView>
    decreases list.len(),
{
    if list.len() == 0 {
        Seq::empty()
    } else if list.last().msg_id == id {
        without_id(list.drop_last(), id)
    } else {
        without_id(list.drop_last(), id).push(list.last())
    }
}

/// No two pending messages have the same number.
pub open spec fn distinct_ids(list: Seq<PendingView>) -> bool {
    forall|i: int, j: int|
        0 <= i < j < list.len() ==> (#[trigger] list[i]).msg_id != (#[trigger] list[j]).msg_id
}

/// The pending messages after one more was sent: it takes the place of any that
/// had its number, at the end of the list.
pub open spec fn with_pending(list: Seq<PendingView>, m: PendingView) -> Seq<PendingView> {
    without_id(list, m.msg_id).push(m)
}

/// What is left without a number was pending before, has another number, and
/// keeps the numbers apart.
pub proof fn lemma_without_id(list: Seq<PendingView>, id: Seq<char>)
    ensures
        without_id(list, id).len() <= list.len(),
        forall|k: int|
            0 <= k < without_id(list, id).len() ==> (#[trigger] without_id(list, id)[k]).msg_id
                != id && exists|j: int| 0 <= j < list.len() && list[j] == without_id(list, id)[k],
        distinct_ids(list) ==> distinct_ids(without_id(list, id)),
    decreases list.len(),
{
    if list.len() > 0 {
        let init = list.drop_last();
        let ri = without_id(init, id);
        let r = without_id(list, id);
        lemma_without_id(init, id);
        assert forall|k: int| 0 <= k < r.len() implies (#[trigger] r[k]).msg_id != id && exists|
            j: int,
        | 0 <= j < list.len() && list[j] == r[k] by {
            if k < ri.len() {
                assert(r[k] == ri[k]);
                let j = choose|j: int| 0 <= j < init.len() && init[j] == ri[k];
                assert(list[j] == r[k]);
            } else {
                assert(list[list.len() - 1] == r[k]);
            }
        }
        if distinct_ids(list) {
            assert(distinct_ids(init)) by {
                assert forall|a: int, b: int| 0 <= a < b < init.len() implies (
                #[trigger] init[a]).msg_id != (#[trigger] init[b]).msg_id by {
                    assert(init[a] == list[a]);
                    assert(init[b] == list[b]);
                }
            }
            assert forall|a: int, b: int| 0 <= a < b < r.len() implies (#[trigger] r[a]).msg_id != (
            #[trigger] r[b]).msg_id by {
                if b < ri.len() {
                    assert(r[a] == ri[a]);
                    assert(r[b] == ri[b]);
                } else {
                    assert(r[a] == ri[a]);
                    let j = choose|j: int| 0 <= j < init.len() && init[j] == ri[a];
                    assert(list[j] == init[j]);
                    assert(r[b] == list[list.len() - 1]);
                }
            }
        }
    }
}

/// After one more message was sent, the numbers are apart if they were.
pub proof fn lemma_with_pending(list: Seq<PendingView>, m: PendingView)
    ensures
        distinct_ids(list) ==> distinct_ids(with_pending(list, m)),
{
    lemma_without_id(list, m.msg_id);
    let w = without_id(list, m.msg_id);
    let r = with_pending(list, m);
    if distinct_ids(list) {
        assert forall|a: int, b: int| 0 <= a < b < r.len() implies (#[trigger] r[a]).msg_id != (
        #[trigger] r[b]).msg_id by {
            assert(r[a] == w[a]);
            if b < w.len() {
                assert(r[b] == w[b]);
            }
        }
    }
}

/// What is pending after a retry has the number of a message that was pending
/// before, and the numbers stay apart.
pub proof fn lemma_after_retry(list: Seq<PendingView>, now: i64)
    ensures
        after_retry(list, now).len() <= list.len(),
        forall|k: int|
            0 <= k < after_retry(list, now).len() ==> exists|j: int|
                0 <= j < list.len() && list[j].msg_id == (#[trigger] after_retry(
                    list,
                    now,
                )[k]).msg_id,
        distinct_ids(list) ==> distinct_ids(after_retry(list, now)),
    decreases list.len(),
{
    if list.len() > 0 {
        let init = list.drop_last();
        let ri = after_retry(init, now);
        let r = after_retry(list, now);
        lemma_after_retry(init, now);
        assert forall|k: int| 0 <= k < r.len() implies exists|j: int|
            0 <= j < list.len() && list[j].msg_id == (#[trigger] r[k]).msg_id by {
            if k < ri.len() {
                assert(r[k] == ri[k]);
                let j = choose|j: int| 0 <= j < init.len() && init[j].msg_id == ri[k].msg_id;
                assert(list[j] == init[j]);
            } else {
                assert(list[list.len() - 1].msg_id == r[k].msg_id);
            }
        }
        if distinct_ids(list) {
            assert(distinct_ids(init)) by {
                assert forall|a: int, b: int| 0 <= a < b < init.len() implies (
                #[trigger] init[a]).msg_id != (#[trigger] init[b]).msg_id by {
                    assert(init[a] == list[a]);
                    assert(init[b] == list[b]);
                }
            }
            assert forall|a: int, b: int| 0 <= a < b < r.len() implies (#[trigger] r[a]).msg_id != (
            #[trigger] r[b]).msg_id by {
                if b < ri.len() {
                    assert(r[a] == ri[a]);
                    assert(r[b] == ri[b]);
                } else {
                    assert(r[a] == ri[a]);
                    let j = choose|j: int| 0 <= j < init.len() && init[j].msg_id == ri[a].msg_id;
                    assert(list[j] == init[j]);
                    assert(r[b].msg_id == list[list.len() - 1].msg_id);
                }
            }
        }
    }
}

/// A pending message is due for another attempt: 30 seconds have passed since the last.
pub open spec fn due(m: PendingView, now: i64) -> bool {
    now - m.last_attempt >= RETRY_SECS
}

/// The pending messages after the retry at `now`: one that is due is given up after
/// three attempts, and counted as attempted at `now` before that; the others stay.
pub open spec fn after_retry(list: Seq<PendingView>, now: i64) -> Seq<PendingView>
    decreases list.len(),
{
    if list.len() == 0 {
        Seq::empty()
    } else {
        let m = list.last();
        let init = after_retry(list.drop_last(), now);
        if !due(m, now) {
            init.push(m)
        } else if m.attempts >= MAX_ATTEMPTS {
            init
        } else {
            init.push(PendingView { attempts: (m.attempts + 1) as u8, last_attempt: now, ..m })
        }
    }
}

/// The packets that the retry at `now` sends again, in the order of the list.
pub open spec fn resent(list: Seq<PendingView>, now: i64) -> Seq<PacketView>
    decreases list.len(),
{
    if list.len() == 0 {
        Seq::empty()
    } else {
        let m = list.last();
        let init = resent(list.drop_last(), now);
        if due(m, now) && m.attempts < MAX_ATTEMPTS {
            init.push(m.packet)
        } else {
            init
        }
    }
}

/// The contents of a list of packets.
pub open spec fn packets_view(list: Seq<AprsPacket>) -> Seq<PacketView> {
    Seq::new(list.len(), |i: int| list[i]@)
}

/// Whether a packet is a message to us that the handler acts on.
pub open spec fn is_to_us(mycall: Seq<char>, p: PacketView) -> bool {
    p.data_type == DataType::Message && message_parts(p.information) is Some && starts_with(
        message_parts(p.information)->0.addressee,
        mycall,
    )
}

/// `:TO       :` and `body`.
fn format_message(to: &Vec<char>, body: &Vec<char>) -> (r: String)
    ensures
        r@ == message_to(to@, body@),
{
    let mut out: Vec<char> = Vec::new();
    append_str(&mut out, ":");
    push_padded_right(&mut out, to, 9);
    append_str(&mut out, ":");
    append(&mut out, body);
    assert(out@ =~= message_to(to@, body@));
    string_of(&out)
}

impl MessageHandler {
    /// No message number is pending twice, and no received message is remembered twice.
    pub open spec fn wf(&self) -> bool {
        distinct_ids(pending_view(self.pending_acks@)) && self.received_messages.wf()
    }

    /// A handler for our call, with nothing pending and nothing received.
    pub fn new(mycall: String) -> (r: Self)
        ensures
            r.mycall == mycall,
            r.pending_acks@.len() == 0,
            r.received_messages@ == Seq::<(Seq<char>, i64)>::empty(),
            r.wf(),
    {
        MessageHandler { mycall, pending_acks: Vec::new(), received_messages: SeenTable::new() }
    }

    /// Notes that a message with the given number was sent at `now` and waits for
    /// its acknowledgement. It takes the place of a pending message of the same
    /// number, if there is one.
    pub fn expect_ack(&mut self, msg_id: String, packet: AprsPacket, now: i64)
        ensures
            pending_view(final(self).pending_acks@) == with_pending(
                pending_view(old(self).pending_acks@),
                PendingView { msg_id: msg_id@, packet: packet@, attempts: 0, last_attempt: now },
            ),
            final(self).mycall == old(self).mycall,
            final(self).received_messages == old(self).received_messages,
            old(self).wf() ==> final(self).wf(),
    {
        let id = chars_of(msg_id.as_str());
        self.remove_pending(&id);
        let ghost kept = pending_view(self.pending_acks@);
        let ghost m = PendingView {
            msg_id: msg_id@,
            packet: packet@,
            attempts: 0,
            last_attempt: now,
        };
        proof {
            lemma_with_pending(pending_view(old(self).pending_acks@), m);
        }
        self.pending_acks.push(PendingMessage { msg_id, packet, attempts: 0, last_attempt: now });
        assert(pending_view(self.pending_acks@) =~= kept.push(m));
    }

    /// Drops the pending messages of the given number.
    fn remove_pending(&mut self, id: &Vec<char>)
        ensures
            pending_view(final(self).pending_acks@) == without_id(
                pending_view(old(self).pending_acks@),
                id@,
            ),
            final(self).mycall == old(self).mycall,
            final(self).received_messages == old(self).received_messages,
            old(self).wf() ==> final(self).wf(),
    {
        proof {
            lemma_without_id(pending_view(self.pending_acks@), id@);
        }
        let ghost all = pending_view(self.pending_acks@);
        let mut kept: Vec<PendingMessage> = Vec::new();
        let mut i: usize = 0;
        assert(all.subrange(0, 0) =~= Seq::empty());
        assert(pending_view(kept@) =~= Seq::empty());
        while i < self.pending_acks.len()
            invariant
                i <= self.pending_acks.len(),
                all == pending_view(self.pending_acks@),
                pending_view(kept@) == without_id(all.subrange(0, i as int), id@),
                self.mycall == old(self).mycall,
                self.received_messages == old(self).received_messages,
            decreases self.pending_acks.len() - i,
        {
            let ghost before = pending_view(kept@);
            let m = &self.pending_acks[i];
            proof {
                assert(all.subrange(0, i + 1).drop_last() =~= all.subrange(0, i as int));
                assert(all.subrange(0, i + 1).last() == m@);
            }
            let mid = chars_of(m.msg_id.as_str());
            if !same(&mid, id) {
                kept.push(
                    PendingMessage {
                        msg_id: m.msg_id.clone(),
                        packet: m.packet.clone(),
                        attempts: m.attempts,
                        last_attempt: m.last_attempt,
                    },
                );
                assert(pending_view(kept@) =~= before.push(m@));
            }
            i += 1;
        }
        assert(all.subrange(0, i as int) =~= all);
        self.pending_acks = kept;
    }

    /// Handles one packet from the message feed at second `now` and returns the
    /// replies to send, in their order.
    ///
    /// A packet that is no message to us changes nothing. An acknowledgement or a
    /// rejection takes the message of its number off the pending list. Any other
    /// message with a number is remembered and acknowledged, also when it came
    /// before; one that asks for the status is answered.
    pub fn handle_message(&mut self, routed: &RoutedPacket, now: i64) -> (replies: Vec<AprsPacket>)
        ensures
            final(self).mycall == old(self).mycall,
            old(self).wf() ==> final(self).wf(),
            !is_to_us(old(self).mycall@, routed.packet@) ==> replies@.len() == 0 && final(self).received_messages@ == old(self).received_messages@ && pending_view(
                final(self).pending_acks@,
            ) == pending_view(old(self).pending_acks@),
            is_to_us(old(self).mycall@, routed.packet@) ==> ({
                let body = message_parts(routed.packet@.information)->0.body;
                let from = routed.packet@.source.text();
                if is_ack_or_rej(body) {
                    &&& replies@.len() == 0
                    &&& pending_view(final(self).pending_acks@) == without_id(
                        pending_view(old(self).pending_acks@),
                        body.subrange(3, body.len() as int),
                    )
                    &&& final(self).received_messages@ == old(self).received_messages@
                } else {
                    &&& pending_view(final(self).pending_acks@) == pending_view(
                        old(self).pending_acks@,
                    )
                    &&& final(self).received_messages@ == match message_id(body) {
                        Some(id) => noted(old(self).received_messages@, received_key(from, id), now),
                        None => old(self).received_messages@,
                    }
                    &&& replies@.len() == reply_texts(from, body).len()
                    &&& forall|i: int|
                        0 <= i < replies@.len() ==> (#[trigger] replies@[i])@ == own_packet_view(
                            old(self).mycall@,
                            reply_texts(from, body)[i],
                            now,
                        )
                }
            }),
    {
        let mut replies: Vec<AprsPacket> = Vec::new();
        if routed.packet.data_type != DataType::Message {
            return replies;
        }
        let info = chars_of(routed.packet.information.as_str());
        if info.len() < 11 || info[0] != ':' || info[10] != ':' {
            return replies;
        }
        let addressee = trimmed(&slice(&info, 1, 10));
        let mycall = chars_of(self.mycall.as_str());
        if !has_prefix(&addressee, &mycall) {
            return replies;
        }
        let body = slice(&info, 11, info.len());
        let ack = chars_of("ack");
        let rej = chars_of("rej");
        if has_prefix(&body, &ack) || has_prefix(&body, &rej) {
            assert(body.len() >= 3) by {
                reveal_strlit("ack");
                reveal_strlit("rej");
            }
            let id = slice(&body, 3, body.len());
            self.remove_pending(&id);
            return replies;
        }
        let from = chars_of(routed.packet.source.to_string().as_str());
        let ghost texts = reply_texts(from@, body@);
        let text = match rfind(&body, '{') {
            Some(brace) => {
                let id = slice(&body, brace + 1, body.len());
                let mut key = slice(&from, 0, from.len());
                assert(key@ =~= from@);
                append_str(&mut key, ":");
                append(&mut key, &id);
                assert(key@ =~= received_key(from@, id@));
                self.received_messages.note(string_of(&key), now);
                let mut ack_body = chars_of("ack");
                append(&mut ack_body, &id);
                let ack_text = format_message(&from, &ack_body);
                replies.push(own_packet(self.mycall.as_str(), ack_text, now));
                slice(&body, 0, brace)
            },
            None => slice(&body, 0, body.len()),
        };
        proof {
            if message_id(body@) is None {
                assert(text@ =~= body@);
            }
        }
        let wanted = chars_of("?APRST");
        let said = chars_of(to_uppercase(string_of(&trimmed(&text)).as_str()).as_str());
        if same(&said, &wanted) {
            let status = chars_of("aprstx daemon running");
            let status_text = format_message(&from, &status);
            replies.push(own_packet(self.mycall.as_str(), status_text, now));
        }
        assert(replies@.len() == texts.len());
        replies
    }

    /// Sends again, at second `now`, each pending message whose last attempt is 30
    /// seconds old, and gives up those that were attempted three times. Returns the
    /// packets to send, in the order of the pending list.
    pub fn retry_pending_messages(&mut self, now: i64) -> (packets: Vec<AprsPacket>)
        ensures
            pending_view(final(self).pending_acks@) == after_retry(
                pending_view(old(self).pending_acks@),
                now,
            ),
            packets_view(packets@) == resent(pending_view(old(self).pending_acks@), now),
            final(self).mycall == old(self).mycall,
            final(self).received_messages == old(self).received_messages,
            old(self).wf() ==> final(self).wf(),
    {
        let ghost all = pending_view(self.pending_acks@);
        proof {
            lemma_after_retry(all, now);
        }
        let mut kept: Vec<PendingMessage> = Vec::new();
        let mut packets: Vec<AprsPacket> = Vec::new();
        let mut i: usize = 0;
        assert(all.subrange(0, 0) =~= Seq::empty());
        assert(pending_view(kept@) =~= Seq::empty());
        assert(packets_view(packets@) =~= Seq::empty());
        while i < self.pending_acks.len()
            invariant
                i <= self.pending_acks.len(),
                all == pending_view(self.pending_acks@),
                pending_view(kept@) == after_retry(all.subrange(0, i as int), now),
                packets_view(packets@) == resent(all.subrange(0, i as int), now),
                self.mycall == old(self).mycall,
                self.received_messages == old(self).received_messages,
            decreases self.pending_acks.len() - i,
        {
            let ghost kept_before = pending_view(kept@);
            let ghost sent_before = packets_view(packets@);
            let m = &self.pending_acks[i];
            proof {
                assert(all.subrange(0, i + 1).drop_last() =~= all.subrange(0, i as int));
                assert(all.subrange(0, i + 1).last() == m@);
            }
            let is_due = now as i128 - m.last_attempt as i128 >= RETRY_SECS as i128;
            if !is_due {
                kept.push(
                    PendingMessage {
                        msg_id: m.msg_id.clone(),
                        packet: m.packet.clone(),
                        attempts: m.attempts,
                        last_attempt: m.last_attempt,
                    },
                );
                assert(pending_view(kept@) =~= kept_before.push(m@));
            } else if m.attempts < MAX_ATTEMPTS {
                kept.push(
                    PendingMessage {
                        msg_id: m.msg_id.clone(),
                        packet: m.packet.clone(),
                        attempts: m.attempts + 1,
                        last_attempt: now,
                    },
                );
                assert(pending_view(kept@) =~= kept_before.push(
                    PendingView { attempts: (m.attempts + 1) as u8, last_attempt: now, ..m@ },
                ));
                packets.push(m.packet.clone());
                assert(packets_view(packets@) =~= sent_before.push(m@.packet));
            }
            i += 1;
        }
        assert(all.subrange(0, i as int) =~= all);
        self.pending_acks = kept;
        packets
    }

    /// Forgets the messages that were received 24 hours ago or longer.
    pub fn cleanup_old_messages(&mut self, now: i64)
        ensures
            final(self).received_messages@ == retained(
                old(self).received_messages@,
                now,
                RECEIVED_RETENTION_SECS as int,
            ),
            old(self).wf() ==> final(self).wf(),
            final(self).mycall == old(self).mycall,
            final(self).pending_acks == old(self).pending_acks,
    {
        self.received_messages.evict(now, RECEIVED_RETENTION_SECS);
    }
}

} // verus!
