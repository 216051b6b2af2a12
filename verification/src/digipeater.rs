//! The digipeater: which packets it repeats, and how it rewrites their path.

use crate::aprs::packet::{
    hops_view, parse_callsign, AprsPacket, CallSign, CallSignView, PacketView, Ssid,
};
use crate::config::DigipeaterConfig;
use crate::seen::{lemma_recorded, lookup, recorded, retained, SeenTable};
use crate::text::{
    chars_of, decimal, find, first_index, has_char, parse_u8, read_u8, same, slice, string_of,
    to_uppercase, uppercase,
};
use vstd::prelude::*;

verus! {

/// Seconds after which a packet that was repeated is forgotten.
pub const RETENTION_SECS: u32 = 300;

/// Seconds between two clean-ups of the remembered packets.
pub const HOUSEKEEPING_SECS: u64 = 60;

/// What the digipeater remembers: the packets it handled, by source and content.
#[derive(Debug)]
pub struct DigipeaterState {
    pub recent_packets: SeenTable,
}

/// A hop that a digipeater has used: it carries the used-marker, as a flag or as a
/// `*` in its call.
pub open spec fn hop_used(hop: CallSignView) -> bool {
    hop.digipeated || has_char(hop.call, '*')
}

/// The number of used hops in a path.
pub open spec fn used_hops(path: Seq<CallSignView>) -> nat
    decreases path.len(),
{
    if path.len() == 0 {
        0
    } else {
        used_hops(path.drop_last()) + if hop_used(path.last()) {
            1nat
        } else {
            0nat
        }
    }
}

/// Position of the first hop that is not used, or the path's length.
pub open spec fn current_hop(path: Seq<CallSignView>) -> int
    decreases path.len(),
{
    if path.len() == 0 {
        0
    } else if !hop_used(path[0]) {
        0
    } else {
        1 + current_hop(path.drop_first())
    }
}

/// The hops left in a `WIDEn-N` address: `WIDE`, one digit from 1 to 7, a dash, and
/// a number from 1 to 7. Any other address has none.
pub open spec fn wide_hops(name: Seq<char>) -> Option<u8> {
    if first_index(name, '-') == 5 && name.len() > 5 && name[0] == 'W' && name[1] == 'I'
        && name[2] == 'D' && name[3] == 'E' && 49 <= name[4] as u32 <= 55 {
        match parse_u8(name.subrange(6, name.len() as int)) {
            Some(n) => if 1 <= n <= 7 {
                Some(n)
            } else {
                None
            },
            None => None,
        }
    } else {
        None
    }
}

/// What stands before the first dash of an address, and the number behind it; the
/// whole address and 0 where there is no dash or no number.
pub open spec fn wide_parts(call: Seq<char>) -> (Seq<char>, u8) {
    let dash = first_index(call, '-');
    if dash < call.len() {
        match parse_u8(call.subrange(dash + 1, call.len() as int)) {
            Some(n) => (call.subrange(0, dash), n),
            None => (call, 0u8),
        }
    } else {
        (call, 0u8)
    }
}

/// The address is the digipeater's own call or one of its aliases, letter for letter.
pub open spec fn for_us(config: DigipeaterConfig, name: Seq<char>) -> bool {
    name == config.mycall@ || exists|i: int|
        0 <= i < config.aliases@.len() && (#[trigger] config.aliases@[i])@ == name
}

/// Whether a packet with this path is repeated: the digipeater is enabled, fewer
/// than `max_hops` hops are used, and the first unused hop is for us or is `WIDEn-N`.
pub open spec fn admits(config: DigipeaterConfig, path: Seq<CallSignView>) -> bool {
    let k = current_hop(path);
    &&& config.enabled
    &&& used_hops(path) < config.max_hops
    &&& 0 <= k < path.len()
    &&& (for_us(config, path[k].name()) || wide_hops(path[k].name()) is Some)
}

/// The hop that the digipeater leaves in a path it has handled: its own call, used.
pub open spec fn own_hop(mycall: Seq<char>) -> CallSignView {
    match parse_callsign(mycall) {
        Some(c) => CallSignView { digipeated: true, ..c },
        None => CallSignView { call: uppercase(mycall), ssid: 0, digipeated: true },
    }
}

/// The hop `WIDEn-N` with `left` in place of `N`.
pub open spec fn wide_hop(name: Seq<char>, left: u8) -> CallSignView {
    CallSignView { call: name.subrange(0, 5), ssid: left, digipeated: false }
}

/// What takes the place of the current hop: our own call, used, and behind it
/// `WIDEn-(N-1)` where the hop was `WIDEn-N` with `N` above 1.
pub open spec fn replacement(config: DigipeaterConfig, name: Seq<char>) -> Option<
    Seq<CallSignView>,
> {
    if for_us(config, name) {
        Some(seq![own_hop(config.mycall@)])
    } else {
        match wide_hops(name) {
            Some(n) => if n > 1 {
                Some(seq![own_hop(config.mycall@), wide_hop(name, (n - 1) as u8)])
            } else {
                Some(seq![own_hop(config.mycall@)])
            },
            None => None,
        }
    }
}

/// The path after the digipeater has handled it, where the first unused hop is one
/// that it handles: the hops before it and after it stay as they are.
pub open spec fn rewritten_path(config: DigipeaterConfig, path: Seq<CallSignView>) -> Option<
    Seq<CallSignView>,
> {
    let k = current_hop(path);
    if 0 <= k < path.len() {
        match replacement(config, path[k].name()) {
            Some(hops) => Some(path.subrange(0, k) + hops + path.subrange(k + 1, path.len() as int)),
            None => None,
        }
    } else {
        None
    }
}

/// By what a packet is known to have been handled: its source and its content. The
/// path is left out, so that copies that came by different ways count as one.
pub open spec fn dedup_key(p: PacketView) -> Seq<char> {
    p.source.text() + seq!['>'] + p.information
}

/// Seconds from `then` to `now` on a clock that does not run backwards.
pub open spec fn elapsed(now: i64, then: i64) -> int {
    if now >= then {
        now - then
    } else {
        0
    }
}

/// The key was handled less than `delay` seconds ago.
pub open spec fn seen_within(
    entries: Seq<(Seq<char>, i64)>,
    key: Seq<char>,
    now: i64,
    delay: u32,
) -> bool {
    match lookup(entries, key) {
        Some(then) => elapsed(now, then) < delay,
        None => false,
    }
}

/// `current_hop` is within bounds, every hop before it is used, and the hop it
/// points at is not.
pub proof fn lemma_current_hop(path: Seq<CallSignView>)
    ensures
        0 <= current_hop(path) <= path.len(),
        forall|j: int| 0 <= j < current_hop(path) ==> hop_used(path[j]),
        current_hop(path) < path.len() ==> !hop_used(path[current_hop(path)]),
    decreases path.len(),
{
    if path.len() != 0 && hop_used(path[0]) {
        let t = path.drop_first();
        lemma_current_hop(t);
        assert forall|j: int| 0 <= j < current_hop(path) implies hop_used(path[j]) by {
            if j > 0 {
                assert(path[j] == t[j - 1]);
            }
        }
        if current_hop(path) < path.len() {
            assert(path[current_hop(path)] == t[current_hop(t)]);
        }
    }
}

/// Any position that fits the description of `current_hop` is `current_hop`.
pub proof fn lemma_current_hop_is(path: Seq<CallSignView>, i: int)
    requires
        0 <= i <= path.len(),
        forall|j: int| 0 <= j < i ==> hop_used(path[j]),
        i < path.len() ==> !hop_used(path[i]),
    ensures
        current_hop(path) == i,
{
    lemma_current_hop(path);
    let f = current_hop(path);
    if f < i {
        assert(hop_used(path[f]));
    } else if i < f {
        assert(hop_used(path[i]));
    }
}

impl DigipeaterState {
    /// Nothing remembered.
    pub fn new() -> (r: Self)
        ensures
            r.recent_packets@ == Seq::<(Seq<char>, i64)>::empty(),
            r.recent_packets.wf(),
    {
        DigipeaterState { recent_packets: SeenTable::new() }
    }
}

/// Whether a digipeater has used this hop.
fn is_used(hop: &CallSign) -> (r: bool)
    ensures
        r == hop_used(hop@),
{
    if hop.digipeated {
        return true;
    }
    let call = chars_of(hop.call.as_str());
    find(&call, '*') < call.len()
}

/// The hops left in a `WIDEn-N` address.
fn wide_count(name: &Vec<char>) -> (r: Option<u8>)
    ensures
        r == wide_hops(name@),
{
    let dash = find(name, '-');
    if dash != 5 || name.len() <= 5 {
        return None;
    }
    if name[0] != 'W' || name[1] != 'I' || name[2] != 'D' || name[3] != 'E' {
        return None;
    }
    let level: u32 = name[4] as u32;
    if level < 49 || level > 55 {
        return None;
    }
    let suffix = slice(name, 6, name.len());
    match read_u8(&suffix) {
        Some(n) => if 1 <= n && n <= 7 {
            Some(n)
        } else {
            None
        },
        None => None,
    }
}

/// Whether `call` is a `WIDEn-N` address with `n` and `N` from 1 to 7.
pub fn is_wide_pattern(call: &str) -> (r: bool)
    ensures
        r == (wide_hops(call@) is Some),
{
    let name = chars_of(call);
    wide_count(&name).is_some()
}

/// Splits an address at its first dash into the part before it and the number behind it.
pub fn parse_wide_pattern(call: &str) -> (r: (String, u8))
    ensures
        r.0@ == wide_parts(call@).0,
        r.1 == wide_parts(call@).1,
{
    let name = chars_of(call);
    let dash = find(&name, '-');
    if dash < name.len() {
        let suffix = slice(&name, dash + 1, name.len());
        match read_u8(&suffix) {
            Some(n) => {
                let prefix = slice(&name, 0, dash);
                return (string_of(&prefix), n);
            },
            None => {},
        }
    }
    (string_of(&name), 0)
}

/// Whether `name` is our own call or one of our aliases.
fn is_for_us(config: &DigipeaterConfig, name: &Vec<char>) -> (r: bool)
    ensures
        r == for_us(*config, name@),
{
    let mycall = chars_of(config.mycall.as_str());
    if same(&mycall, name) {
        return true;
    }
    let mut i: usize = 0;
    while i < config.aliases.len()
        invariant
            i <= config.aliases.len(),
            name@ != config.mycall@,
            forall|j: int| 0 <= j < i ==> (#[trigger] config.aliases@[j])@ != name@,
        decreases config.aliases.len() - i,
    {
        let alias = chars_of(config.aliases[i].as_str());
        if same(&alias, name) {
            return true;
        }
        i += 1;
    }
    false
}

/// Position of the first unused hop and the number of used hops.
fn scan_path(path: &Vec<CallSign>) -> (r: (usize, usize))
    ensures
        r.0 == current_hop(hops_view(path@)),
        r.1 == used_hops(hops_view(path@)),
        r.0 <= path.len(),
        r.1 <= path.len(),
{
    let ghost hops = hops_view(path@);
    let mut first: usize = path.len();
    let mut used: usize = 0;
    let mut i: usize = 0;
    assert(hops.subrange(0, 0) =~= Seq::empty());
    while i < path.len()
        invariant
            i <= path.len(),
            hops == hops_view(path@),
            used == used_hops(hops.subrange(0, i as int)),
            used <= i,
            first == path.len() ==> forall|j: int| 0 <= j < i ==> hop_used(hops[j]),
            first != path.len() ==> first < i && !hop_used(hops[first as int]) && forall|j: int|
                0 <= j < first ==> hop_used(hops[j]),
        decreases path.len() - i,
    {
        proof {
            assert(hops.subrange(0, i + 1).drop_last() =~= hops.subrange(0, i as int));
            assert(hops.subrange(0, i + 1).last() == hops[i as int]);
        }
        if is_used(&path[i]) {
            used += 1;
        } else if first == path.len() {
            first = i;
        }
        i += 1;
    }
    proof {
        assert(hops.subrange(0, i as int) =~= hops);
        lemma_current_hop_is(hops, first as int);
    }
    (first, used)
}

/// Whether the digipeater repeats this packet.
pub fn should_digipeat(config: &DigipeaterConfig, packet: &AprsPacket) -> (r: bool)
    ensures
        r == admits(*config, packet@.path),
{
    if !config.enabled {
        return false;
    }
    let (first, used) = scan_path(&packet.path);
    if used >= config.max_hops as usize {
        return false;
    }
    if first >= packet.path.len() {
        return false;
    }
    let name = packet.path[first].name();
    if is_for_us(config, &name) {
        return true;
    }
    wide_count(&name).is_some()
}

/// Our own call as a used hop.
fn make_own_hop(config: &DigipeaterConfig) -> (r: CallSign)
    ensures
        r@ == own_hop(config.mycall@),
{
    match CallSign::parse(config.mycall.as_str()) {
        Some(c) => CallSign { call: c.call, ssid: c.ssid, digipeated: true },
        None => CallSign {
            call: to_uppercase(config.mycall.as_str()),
            ssid: Ssid(0),
            digipeated: true,
        },
    }
}

/// The hops that take the place of the current hop.
fn make_replacement(config: &DigipeaterConfig, name: &Vec<char>) -> (r: Option<Vec<CallSign>>)
    ensures
        match r {
            Some(hops) => replacement(*config, name@) == Some(hops_view(hops@)),
            None => replacement(*config, name@) is None,
        },
{
    let mut hops: Vec<CallSign> = Vec::new();
    if is_for_us(config, name) {
        hops.push(make_own_hop(config));
        assert(hops_view(hops@) =~= seq![own_hop(config.mycall@)]);
        return Some(hops);
    }
    match wide_count(name) {
        Some(n) => {
            hops.push(make_own_hop(config));
            if n > 1 {
                let prefix = slice(name, 0, 5);
                hops.push(
                    CallSign { call: string_of(&prefix), ssid: Ssid(n - 1), digipeated: false },
                );
                assert(hops_view(hops@) =~= seq![
                    own_hop(config.mycall@),
                    wide_hop(name@, (n - 1) as u8),
                ]);
            } else {
                assert(hops_view(hops@) =~= seq![own_hop(config.mycall@)]);
            }
            Some(hops)
        },
        None => None,
    }
}

/// The path with the current hop replaced.
fn rewrite_path(config: &DigipeaterConfig, path: &Vec<CallSign>) -> (r: Option<Vec<CallSign>>)
    ensures
        match r {
            Some(hops) => rewritten_path(*config, hops_view(path@)) == Some(hops_view(hops@)),
            None => rewritten_path(*config, hops_view(path@)) is None,
        },
{
    let (first, _used) = scan_path(path);
    if first >= path.len() {
        return None;
    }
    let name = path[first].name();
    let middle = match make_replacement(config, &name) {
        Some(hops) => hops,
        None => {
            return None;
        },
    };
    let ghost old_view = hops_view(path@);
    let ghost mid_view = hops_view(middle@);
    let mut out: Vec<CallSign> = Vec::new();
    let mut i: usize = 0;
    while i < first
        invariant
            i <= first < path.len(),
            hops_view(out@) == hops_view(path@).subrange(0, i as int),
        decreases first - i,
    {
        let ghost before = hops_view(out@);
        out.push(path[i].clone());
        i += 1;
        assert(hops_view(out@) =~= before.push(path@[i - 1]@));
        assert(hops_view(out@) =~= hops_view(path@).subrange(0, i as int));
    }
    let mut j: usize = 0;
    while j < middle.len()
        invariant
            j <= middle.len(),
            mid_view == hops_view(middle@),
            hops_view(out@) == old_view.subrange(0, first as int) + mid_view.subrange(0, j as int),
        decreases middle.len() - j,
    {
        let ghost before = hops_view(out@);
        out.push(middle[j].clone());
        j += 1;
        assert(hops_view(out@) =~= before.push(middle@[j - 1]@));
        assert(hops_view(out@) =~= old_view.subrange(0, first as int) + mid_view.subrange(
            0,
            j as int,
        ));
    }
    assert(mid_view.subrange(0, j as int) =~= mid_view);
    let mut k: usize = first + 1;
    while k < path.len()
        invariant
            first + 1 <= k <= path.len(),
            old_view == hops_view(path@),
            hops_view(out@) == old_view.subrange(0, first as int) + mid_view + old_view.subrange(
                first + 1,
                k as int,
            ),
        decreases path.len() - k,
    {
        let ghost before = hops_view(out@);
        out.push(path[k].clone());
        k += 1;
        assert(hops_view(out@) =~= before.push(path@[k - 1]@));
        assert(hops_view(out@) =~= old_view.subrange(0, first as int) + mid_view
            + old_view.subrange(first + 1, k as int));
    }
    Some(out)
}

/// Handles one packet at second `now` of a clock that does not run backwards.
///
/// A packet from the same source with the same content that was handled less than
/// `viscous_delay` seconds ago is dropped, and nothing changes. Otherwise the packet
/// is remembered, and it is returned with its path rewritten if its first unused hop
/// is one that the digipeater handles.
pub fn process_packet(
    config: &DigipeaterConfig,
    packet: &AprsPacket,
    state: &mut DigipeaterState,
    now: i64,
) -> (r: Option<AprsPacket>)
    ensures
        old(state).recent_packets.wf() ==> final(state).recent_packets.wf(),
        seen_within(old(state).recent_packets@, dedup_key(packet@), now, config.viscous_delay)
            ==> r is None && final(state).recent_packets@ == old(state).recent_packets@,
        !seen_within(old(state).recent_packets@, dedup_key(packet@), now, config.viscous_delay)
            ==> final(state).recent_packets@ == recorded(
            old(state).recent_packets@,
            dedup_key(packet@),
            now,
        ) && match rewritten_path(*config, packet@.path) {
            Some(path) => r is Some && r->0@ == (PacketView { path: path, ..packet@ }),
            None => r is None,
        },
{
    let mut key = chars_of(packet.source.to_string().as_str());
    key.push('>');
    let info = chars_of(packet.information.as_str());
    crate::text::append(&mut key, &info);
    assert(key@ =~= dedup_key(packet@));
    let key = string_of(&key);
    match state.recent_packets.last_seen(key.as_str()) {
        Some(then) => {
            let gone: i128 = if now >= then {
                now as i128 - then as i128
            } else {
                0
            };
            if gone < config.viscous_delay as i128 {
                return None;
            }
        },
        None => {},
    }
    state.recent_packets.record(key, now);
    match rewrite_path(config, &packet.path) {
        Some(path) => {
            let mut out = packet.clone();
            out.path = path;
            Some(out)
        },
        None => None,
    }
}

/// What the digipeater does with one packet from the feed: it repeats the packet,
/// rewritten, if it admits it and has not handled it within the viscous delay.
///
/// A packet whose path holds `max_hops` used hops or more is never rewritten.
pub fn digipeat(
    config: &DigipeaterConfig,
    packet: &AprsPacket,
    state: &mut DigipeaterState,
    now: i64,
) -> (r: Option<AprsPacket>)
    ensures
        old(state).recent_packets.wf() ==> final(state).recent_packets.wf(),
        used_hops(packet@.path) >= config.max_hops ==> r is None,
        !admits(*config, packet@.path) ==> r is None && final(state).recent_packets@ == old(state).recent_packets@,
        admits(*config, packet@.path) && seen_within(
            old(state).recent_packets@,
            dedup_key(packet@),
            now,
            config.viscous_delay,
        ) ==> r is None && final(state).recent_packets@ == old(state).recent_packets@,
        admits(*config, packet@.path) && !seen_within(
            old(state).recent_packets@,
            dedup_key(packet@),
            now,
            config.viscous_delay,
        ) ==> final(state).recent_packets@ == recorded(
            old(state).recent_packets@,
            dedup_key(packet@),
            now,
        ) && r is Some && rewritten_path(*config, packet@.path) == Some(r->0@.path) && r->0@ == (
        PacketView { path: r->0@.path, ..packet@ }),
{
    if should_digipeat(config, packet) {
        process_packet(config, packet, state, now)
    } else {
        None
    }
}

/// Forgets the packets that were handled five minutes ago or longer.
pub fn cleanup_old_packets(state: &mut DigipeaterState, now: i64)
    ensures
        final(state).recent_packets@ == retained(
            old(state).recent_packets@,
            now,
            RETENTION_SECS as int,
        ),
        old(state).recent_packets.wf() ==> final(state).recent_packets.wf(),
{
    state.recent_packets.evict(now, RETENTION_SECS);
}

// ---------------------------------------------------------------------------
// Laws
// ---------------------------------------------------------------------------
/// After a packet whose current hop is `WIDEn-N` was handled, its path holds our own
/// call, used, in place of that hop, followed by `WIDEn-(N-1)` unless `N` was 1; the
/// hops before and behind are unchanged.
pub proof fn law_wide_rewrite(config: DigipeaterConfig, path: Seq<CallSignView>)
    requires
        0 <= current_hop(path) < path.len(),
        wide_hops(path[current_hop(path)].name()) is Some,
        !for_us(config, path[current_hop(path)].name()),
    ensures
        ({
            let k = current_hop(path);
            let name = path[k].name();
            let n = wide_hops(name)->0;
            let own = own_hop(config.mycall@);
            let before = path.subrange(0, k);
            let behind = path.subrange(k + 1, path.len() as int);
            &&& 1 <= n <= 7
            &&& own.digipeated
            &&& own.text().last() == '*'
            &&& n > 1 ==> rewritten_path(config, path) == Some(
                before + seq![own, wide_hop(name, (n - 1) as u8)] + behind,
            )
            &&& n > 1 ==> wide_hop(name, (n - 1) as u8).text() == name.subrange(0, 5) + seq!['-']
                + decimal((n - 1) as nat)
            &&& n == 1 ==> rewritten_path(config, path) == Some(before + seq![own] + behind)
        }),
{
}

/// A packet with `max_hops` used hops or more is not admitted, so it is never rewritten.
pub proof fn law_hop_cap(config: DigipeaterConfig, path: Seq<CallSignView>)
    requires
        used_hops(path) >= config.max_hops,
    ensures
        !admits(config, path),
{
}

/// A packet that was handled is not handled again within the viscous delay: after
/// its key was recorded at `first`, it counts as seen at every `second` from `first`
/// on that is less than `delay` seconds later.
pub proof fn law_viscous_delay(
    entries: Seq<(Seq<char>, i64)>,
    key: Seq<char>,
    first: i64,
    second: i64,
    delay: u32,
)
    requires
        first <= second,
        second - first < delay,
    ensures
        seen_within(recorded(entries, key, first), key, second, delay),
{
    lemma_recorded(entries, key, first);
}

} // verus!
