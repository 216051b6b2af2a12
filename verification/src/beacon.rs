//! The smart-beacon scheduler: when a position is sent, and what the report says.

use crate::aprs::packet::{
    aprs_destination, data_type_of, destination_callsign, hops_view, parse_callsign, station,
    station_callsign, AprsPacket, CallSign, CallSignView, PacketView,
};
use crate::clock::{unix_now, utc_day, utc_day_time, utc_hour, utc_minute};
use crate::config::{BeaconConfig, SmartBeaconConfig};
use crate::gps::GpsPosition;
use crate::text::{
    all_digits, append_str, chars_of, decimal, find, first_index, is_digit, least, lemma_decimal,
    pad_left, push_decimal_padded, slice, starts_with, string_of, trim, trimmed,
};
use vstd::prelude::*;

verus! {

/// Metres below which two fixes count as the same place.
pub const STATIONARY_METRES: u64 = 10;

/// The scheduler's state: the configuration, the position and time of the last
/// beacon, and for how many checks in a row the station has not moved.
#[derive(Debug)]
pub struct BeaconService {
    pub config: BeaconConfig,
    pub last_position: Option<GpsPosition>,
    pub last_beacon_time: i64,
    pub stationary_count: u32,
}

/// What a check decides.
pub struct Decision {
    /// Send a beacon now.
    pub beacon: bool,
    /// The count of checks without motion afterwards.
    pub stationary_count: u32,
}

/// The speed of a fix in hundredths of a knot; 0 where none is known.
pub open spec fn speed_of(p: GpsPosition) -> u32 {
    match p.speed {
        Some(s) => s,
        None => 0,
    }
}

/// The angle between two courses, along the shorter arc; all in hundredths of a degree.
pub open spec fn angle_between(a: u32, b: u32) -> int {
    let d = if b >= a {
        b - a
    } else {
        a - b
    };
    if d > 18000 {
        36000 - d
    } else {
        d
    }
}

/// Both fixes have a course, the courses differ by more than `turn_angle` degrees,
/// and the speed is above `turn_speed` knots.
pub open spec fn turned(smart: SmartBeaconConfig, last: GpsPosition, current: GpsPosition) -> bool {
    last.course is Some && current.course is Some && angle_between(
        last.course->0,
        current.course->0,
    ) > smart.turn_angle * 100 && speed_of(current) > smart.turn_speed * 100
}

/// The beacon is due by speed: above `high_speed` knots after `high_speed_interval`
/// seconds, below `low_speed` knots after `low_speed_interval` seconds.
pub open spec fn due_by_speed(smart: SmartBeaconConfig, speed: u32, since_last: int) -> bool {
    if speed > smart.high_speed * 100 {
        since_last >= smart.high_speed_interval
    } else if speed < smart.low_speed * 100 {
        since_last >= smart.low_speed_interval
    } else {
        false
    }
}

/// One more, up to the largest number.
pub open spec fn one_more(n: u32) -> u32 {
    if n == u32::MAX {
        n
    } else {
        (n + 1) as u32
    }
}

/// What a check decides, `since_last` seconds after the last beacon and `moved`
/// metres from where it was sent.
///
/// A beacon is due once `interval` seconds have passed. Before that, with smart
/// beaconing on: the first fix is sent; a station that moved less than 10 m counts
/// one more check without motion and sends nothing; one that moved starts that
/// count again and sends on a turn or when due by its speed. In every other case
/// nothing is sent: neither the stationary nor the minimum interval ever leads to
/// a beacon.
pub open spec fn beacon_decision(
    config: BeaconConfig,
    last: Option<GpsPosition>,
    stationary_count: u32,
    current: GpsPosition,
    moved: u64,
    since_last: int,
) -> Decision {
    if since_last >= config.interval {
        Decision { beacon: true, stationary_count: stationary_count }
    } else if !config.smart_beacon.enabled {
        Decision { beacon: false, stationary_count: stationary_count }
    } else {
        match last {
            None => Decision { beacon: true, stationary_count: stationary_count },
            Some(l) => if moved < STATIONARY_METRES {
                Decision { beacon: false, stationary_count: one_more(stationary_count) }
            } else {
                Decision {
                    beacon: turned(config.smart_beacon, l, current) || due_by_speed(
                        config.smart_beacon,
                        speed_of(current),
                        since_last,
                    ),
                    stationary_count: 0,
                }
            },
        }
    }
}

/// The size of a number.
pub open spec fn magnitude(x: i64) -> nat {
    if x < 0 {
        (-x) as nat
    } else {
        x as nat
    }
}

/// The whole degrees of a coordinate in units of 10⁻⁷ degree.
pub open spec fn whole_degrees(x: i64) -> nat {
    magnitude(x) / 10_000_000
}

/// The minutes of a coordinate in hundredths, rounded to the nearest, a half upwards.
pub open spec fn minute_hundredths(x: i64) -> nat {
    ((magnitude(x) % 10_000_000) * 6000 + 5_000_000) / 10_000_000
}

/// A coordinate as degrees in `width` digits, minutes as `MM.mm`, and a letter for
/// the hemisphere.
pub open spec fn coordinate_text(x: i64, width: nat, positive: char, negative: char) -> Seq<char> {
    pad_left(decimal(whole_degrees(x)), width, '0') + pad_left(
        decimal(minute_hundredths(x) / 100),
        2,
        '0',
    ) + seq!['.'] + pad_left(decimal(minute_hundredths(x) % 100), 2, '0') + seq![
        if x >= 0 {
            positive
        } else {
            negative
        },
    ]
}

/// A latitude as `DDMM.mmN` or `DDMM.mmS`.
pub open spec fn latitude_text(lat: i64) -> Seq<char> {
    coordinate_text(lat, 2, 'N', 'S')
}

/// A longitude as `DDDMM.mmE` or `DDDMM.mmW`.
pub open spec fn longitude_text(lon: i64) -> Seq<char> {
    coordinate_text(lon, 3, 'E', 'W')
}

/// Whole units of a value in hundredths, at most 65 535.
pub open spec fn whole_units(hundredths: u32) -> nat {
    least((hundredths / 100) as int, 65535) as nat
}

/// Course and speed as `CCC/SSS`, whole degrees and whole knots, where both are
/// known and the speed is above one knot; nothing otherwise.
pub open spec fn course_speed_text(p: GpsPosition) -> Seq<char> {
    if p.course is Some && p.speed is Some && p.speed->0 > 100 {
        pad_left(decimal(whole_units(p.course->0)), 3, '0') + seq!['/'] + pad_left(
            decimal(whole_units(p.speed->0)),
            3,
            '0',
        )
    } else {
        Seq::empty()
    }
}

/// A height in whole feet, what is beyond dropped: 3.28084 feet to the metre.
pub open spec fn feet(centimetres: i32) -> int {
    if centimetres >= 0 {
        centimetres * 328084 / 10_000_000
    } else {
        -((-centimetres) * 328084 / 10_000_000)
    }
}

/// A whole number in six characters at least, zeros in front, the sign before them.
pub open spec fn six_digits(n: int) -> Seq<char> {
    if n < 0 {
        seq!['-'] + pad_left(decimal((-n) as nat), 5, '0')
    } else {
        pad_left(decimal(n as nat), 6, '0')
    }
}

/// The height as `/A=FFFFFF` in feet, where it is known.
pub open spec fn altitude_text(p: GpsPosition) -> Seq<char> {
    match p.altitude {
        Some(cm) => "/A="@ + six_digits(feet(cm)),
        None => Seq::empty(),
    }
}

/// A number in two digits at least, with a zero in front where it has one.
pub open spec fn two_digits(n: nat) -> Seq<char> {
    pad_left(decimal(n), 2, '0')
}

/// How a report starts: `@DDHHMMz` with day of the month, hour and minute of the
/// fix in UTC, two digits each, where timestamps are on and the time is a date;
/// else `!`.
pub open spec fn report_prefix(timestamped: bool, timestamp: i64) -> Seq<char> {
    if timestamped && utc_day(timestamp) is Some {
        "@"@ + two_digits(utc_day(timestamp)->0 as nat) + two_digits(utc_hour(timestamp) as nat)
            + two_digits(utc_minute(timestamp) as nat) + "z"@
    } else {
        "!"@
    }
}

/// The layout of the start of a report: `!` alone, or `@`, six digits and `z`.
pub open spec fn prefix_layout(prefix: Seq<char>) -> bool {
    ||| prefix.len() == 1 && prefix[0] == '!'
    ||| prefix.len() == 8 && prefix[0] == '@' && prefix[7] == 'z' && all_digits(
        prefix.subrange(1, 7),
    )
}

/// A number below 100 is written in exactly two digits.
pub proof fn lemma_two_digits(n: nat)
    requires
        n < 100,
    ensures
        two_digits(n).len() == 2,
        all_digits(two_digits(n)),
{
    lemma_decimal(n);
    let d = decimal(n);
    let t = two_digits(n);
    if n < 10 {
        assert(d.len() == 1);
        assert(t =~= seq!['0'] + d);
        assert forall|i: int| 0 <= i < t.len() implies is_digit(#[trigger] t[i]) by {
            if i == 1 {
                assert(t[i] == d[0]);
            }
        }
    } else {
        assert(decimal(n / 10).len() == 1);
        assert(d.len() == 2);
        assert(t == d);
    }
}

/// The information field of a position report: prefix, latitude, symbol table,
/// longitude, symbol, course and speed, height, and the comment behind a space.
pub open spec fn position_report(config: BeaconConfig, p: GpsPosition) -> Seq<char> {
    report_prefix(config.timestamp, p.timestamp) + latitude_text(p.latitude) + seq![
        config.symbol_table,
    ] + longitude_text(p.longitude) + seq![config.symbol] + course_speed_text(p) + altitude_text(p)
        + (if config.comment@.len() > 0 {
        " "@ + config.comment@
    } else {
        Seq::empty()
    })
}

/// The path that a setting such as `WIDE1-1, WIDE2-2` denotes: its comma-separated
/// tokens, white space around each dropped; a token that is no callsign is left out.
pub open spec fn path_setting(list: Seq<char>) -> Seq<CallSignView>
    decreases list.len(),
{
    let comma = first_index(list, ',');
    let tail = if 0 <= comma < list.len() {
        path_setting(list.subrange(comma + 1, list.len() as int))
    } else {
        Seq::empty()
    };
    match parse_callsign(trim(list.subrange(0, comma))) {
        Some(c) => seq![c] + tail,
        None => tail,
    }
}

/// The beacon packet for a fix: from the configured callsign to `APRS` by the
/// configured path, with the position report, stamped `now`.
pub open spec fn beacon_view(config: BeaconConfig, p: GpsPosition, now: i64) -> PacketView {
    PacketView {
        source: station(config.callsign@),
        destination: aprs_destination(),
        path: if config.path@.len() > 0 {
            path_setting(config.path@)
        } else {
            Seq::empty()
        },
        data_type: data_type_of(position_report(config, p)),
        information: position_report(config, p),
        timestamp: now,
        raw: None,
    }
}

/// The angle between two courses along the shorter arc, in hundredths of a degree.
pub fn angle_difference(angle1: u32, angle2: u32) -> (r: i64)
    ensures
        r == angle_between(angle1, angle2),
{
    let d: i64 = if angle2 >= angle1 {
        (angle2 - angle1) as i64
    } else {
        (angle1 - angle2) as i64
    };
    if d > 18000 {
        36000 - d
    } else {
        d
    }
}

/// Appends a coordinate to `out`.
fn push_coordinate(out: &mut Vec<char>, x: i64, width: usize, positive: char, negative: char)
    ensures
        final(out)@ == old(out)@ + coordinate_text(x, width as nat, positive, negative),
{
    let m: u64 = if x == i64::MIN {
        0x8000_0000_0000_0000
    } else if x < 0 {
        (0 - x) as u64
    } else {
        x as u64
    };
    let degrees: u64 = m / 10_000_000;
    let hundredths: u64 = ((m % 10_000_000) * 6000 + 5_000_000) / 10_000_000;
    push_decimal_padded(out, degrees, width);
    push_decimal_padded(out, hundredths / 100, 2);
    out.push('.');
    push_decimal_padded(out, hundredths % 100, 2);
    out.push(if x >= 0 {
        positive
    } else {
        negative
    });
    assert(out@ =~= old(out)@ + coordinate_text(x, width as nat, positive, negative));
}

/// A latitude in units of 10⁻⁷ degree as `DDMM.mmN` or `DDMM.mmS`.
pub fn format_latitude(lat: i64) -> (r: String)
    ensures
        r@ == latitude_text(lat),
{
    let mut out: Vec<char> = Vec::new();
    push_coordinate(&mut out, lat, 2, 'N', 'S');
    assert(out@ =~= latitude_text(lat));
    string_of(&out)
}

/// A longitude in units of 10⁻⁷ degree as `DDDMM.mmE` or `DDDMM.mmW`.
pub fn format_longitude(lon: i64) -> (r: String)
    ensures
        r@ == longitude_text(lon),
{
    let mut out: Vec<char> = Vec::new();
    push_coordinate(&mut out, lon, 3, 'E', 'W');
    assert(out@ =~= longitude_text(lon));
    string_of(&out)
}

/// Whole units of a value in hundredths, at most 65 535.
fn units(hundredths: u32) -> (r: u64)
    ensures
        r == whole_units(hundredths),
{
    let w: u32 = hundredths / 100;
    if w > 65535 {
        65535
    } else {
        w as u64
    }
}

/// Appends the height in feet to `out`.
fn push_altitude(out: &mut Vec<char>, centimetres: i32)
    ensures
        final(out)@ == old(out)@ + "/A="@ + six_digits(feet(centimetres)),
{
    append_str(out, "/A=");
    if centimetres >= 0 {
        let ft: u64 = (centimetres as u64) * 328084 / 10_000_000;
        push_decimal_padded(out, ft, 6);
    } else {
        let ft: u64 = ((0 - centimetres as i64) as u64) * 328084 / 10_000_000;
        if ft == 0 {
            push_decimal_padded(out, 0, 6);
        } else {
            out.push('-');
            push_decimal_padded(out, ft, 5);
        }
    }
    assert(out@ =~= old(out)@ + "/A="@ + six_digits(feet(centimetres)));
}

/// Appends the start of a report to `out`.
fn push_prefix(out: &mut Vec<char>, timestamped: bool, timestamp: i64)
    ensures
        final(out)@ == old(out)@ + report_prefix(timestamped, timestamp),
        prefix_layout(report_prefix(timestamped, timestamp)),
{
    let stamp = if timestamped {
        utc_day_time(timestamp)
    } else {
        None
    };
    let ghost start = out@;
    match stamp {
        Some(t) => {
            let ghost day = two_digits(t.day as nat);
            let ghost hour = two_digits(t.hour as nat);
            let ghost minute = two_digits(t.minute as nat);
            proof {
                lemma_two_digits(t.day as nat);
                lemma_two_digits(t.hour as nat);
                lemma_two_digits(t.minute as nat);
                reveal_strlit("@");
                reveal_strlit("z");
            }
            append_str(out, "@");
            push_decimal_padded(out, t.day as u64, 2);
            push_decimal_padded(out, t.hour as u64, 2);
            push_decimal_padded(out, t.minute as u64, 2);
            append_str(out, "z");
            let ghost prefix = "@"@ + day + hour + minute + "z"@;
            assert(out@ =~= start + prefix);
            assert(prefix == report_prefix(timestamped, timestamp));
            assert(prefix.len() == 8);
            assert(prefix.subrange(1, 7) =~= day + hour + minute);
            assert forall|i: int| 0 <= i < 6 implies is_digit(
                #[trigger] (day + hour + minute)[i],
            ) by {
                if i < 2 {
                    assert((day + hour + minute)[i] == day[i]);
                } else if i < 4 {
                    assert((day + hour + minute)[i] == hour[i - 2]);
                } else {
                    assert((day + hour + minute)[i] == minute[i - 4]);
                }
            }
        },
        None => {
            proof {
                reveal_strlit("!");
            }
            append_str(out, "!");
        },
    }
}

/// Appends course and speed to `out` where the report has them.
fn push_course_speed(out: &mut Vec<char>, pos: &GpsPosition)
    ensures
        final(out)@ == old(out)@ + course_speed_text(*pos),
{
    let ghost start = out@;
    match (pos.course, pos.speed) {
        (Some(course), Some(speed)) => {
            if speed > 100 {
                push_decimal_padded(out, units(course), 3);
                out.push('/');
                push_decimal_padded(out, units(speed), 3);
            }
        },
        _ => {},
    }
    assert(out@ =~= start + course_speed_text(*pos));
}

/// Appends the height to `out` where it is known.
fn push_altitude_of(out: &mut Vec<char>, pos: &GpsPosition)
    ensures
        final(out)@ == old(out)@ + altitude_text(*pos),
{
    let ghost start = out@;
    match pos.altitude {
        Some(cm) => {
            push_altitude(out, cm);
        },
        None => {},
    }
    assert(out@ =~= start + altitude_text(*pos));
}

/// Appends one character to `out`.
fn push_one(out: &mut Vec<char>, c: char)
    ensures
        final(out)@ == old(out)@ + seq![c],
{
    out.push(c);
    assert(out@ =~= old(out)@ + seq![c]);
}

/// Appends the comment behind a space to `out`, if there is a comment.
fn push_comment(out: &mut Vec<char>, comment: &str)
    ensures
        final(out)@ == old(out)@ + (if comment@.len() > 0 {
            " "@ + comment@
        } else {
            Seq::empty()
        }),
{
    let ghost start = out@;
    if comment.unicode_len() > 0 {
        append_str(out, " ");
        append_str(out, comment);
        assert(out@ =~= start + (" "@ + comment@));
    } else {
        assert(out@ =~= start + Seq::<char>::empty());
    }
}

/// The information field of the position report for a fix. It starts with `!`, or
/// with `@`, six digits and `z`.
pub fn format_position_report(config: &BeaconConfig, pos: &GpsPosition) -> (r: String)
    ensures
        r@ == position_report(*config, *pos),
        prefix_layout(report_prefix(config.timestamp, pos.timestamp)),
        starts_with(r@, report_prefix(config.timestamp, pos.timestamp)),
{
    let mut out: Vec<char> = Vec::new();
    push_prefix(&mut out, config.timestamp, pos.timestamp);
    assert(out@ =~= report_prefix(config.timestamp, pos.timestamp));
    let ghost prefix = out@;
    push_coordinate(&mut out, pos.latitude, 2, 'N', 'S');
    push_one(&mut out, config.symbol_table);
    push_coordinate(&mut out, pos.longitude, 3, 'E', 'W');
    push_one(&mut out, config.symbol);
    push_course_speed(&mut out, pos);
    push_altitude_of(&mut out, pos);
    push_comment(&mut out, config.comment.as_str());
    assert(out@.subrange(0, prefix.len() as int) =~= prefix);
    string_of(&out)
}

/// Reads a path setting.
pub fn read_path_setting(setting: &str) -> (path: Vec<CallSign>)
    ensures
        hops_view(path@) == path_setting(setting@),
{
    let list = chars_of(setting);
    let mut path: Vec<CallSign> = Vec::new();
    let mut rest: Vec<char> = slice(&list, 0, list.len());
    let mut done = false;
    assert(rest@ =~= list@);
    assert(hops_view(path@) =~= Seq::empty());
    while !done
        invariant
            !done ==> hops_view(path@) + path_setting(rest@) == path_setting(list@),
            done ==> hops_view(path@) == path_setting(list@),
        decreases rest.len() + (if done { 0int } else { 1int }),
    {
        let comma = find(&rest, ',');
        let raw = slice(&rest, 0, comma);
        let token = string_of(&trimmed(&raw));
        let ghost before = hops_view(path@);
        match CallSign::parse(token.as_str()) {
            Some(c) => {
                path.push(c);
                assert(hops_view(path@) =~= before + seq![c@]);
            },
            None => {},
        }
        if comma == rest.len() {
            done = true;
            assert(hops_view(path@) =~= before + path_setting(rest@));
        } else {
            let next = slice(&rest, comma + 1, rest.len());
            assert(hops_view(path@) + path_setting(next@) =~= before + path_setting(rest@));
            rest = next;
        }
    }
    path
}

impl BeaconService {
    /// A scheduler that has sent nothing, as if the last beacon went out at `now`.
    pub fn new_at(config: BeaconConfig, now: i64) -> (r: Self)
        ensures
            r.config == config,
            r.last_position is None,
            r.last_beacon_time == now,
            r.stationary_count == 0,
    {
        BeaconService { config, last_position: None, last_beacon_time: now, stationary_count: 0 }
    }

    /// A scheduler that has sent nothing, as if the last beacon went out just now.
    pub fn new(config: BeaconConfig) -> (r: Self)
        ensures
            r.config == config,
            r.last_position is None,
            r.stationary_count == 0,
    {
        let now = unix_now();
        BeaconService::new_at(config, now)
    }

    /// Decides at second `now` whether the fix `current` is sent. `moved` is the
    /// distance in whole metres from the position of the last beacon; it is not
    /// read where there is none.
    pub fn should_beacon(&mut self, current: &GpsPosition, moved: u64, now: i64) -> (r: bool)
        ensures
            r == beacon_decision(
                old(self).config,
                old(self).last_position,
                old(self).stationary_count,
                *current,
                moved,
                now - old(self).last_beacon_time,
            ).beacon,
            final(self).stationary_count == beacon_decision(
                old(self).config,
                old(self).last_position,
                old(self).stationary_count,
                *current,
                moved,
                now - old(self).last_beacon_time,
            ).stationary_count,
            final(self).config == old(self).config,
            final(self).last_position == old(self).last_position,
            final(self).last_beacon_time == old(self).last_beacon_time,
    {
        let since: i128 = now as i128 - self.last_beacon_time as i128;
        if since >= self.config.interval as i128 {
            return true;
        }
        if !self.config.smart_beacon.enabled {
            return false;
        }
        let smart = self.config.smart_beacon;
        let last = match self.last_position {
            Some(l) => l,
            None => {
                return true;
            },
        };
        if moved < STATIONARY_METRES {
            if self.stationary_count < u32::MAX {
                self.stationary_count = self.stationary_count + 1;
            }
            return false;
        }
        self.stationary_count = 0;
        let speed: u64 = match current.speed {
            Some(s) => s as u64,
            None => 0,
        };
        match (last.course, current.course) {
            (Some(a), Some(b)) => {
                if angle_difference(a, b) > (smart.turn_angle as i64) * 100 && speed > (
                smart.turn_speed as u64) * 100 {
                    return true;
                }
            },
            _ => {},
        }
        if speed > (smart.high_speed as u64) * 100 {
            since >= smart.high_speed_interval as i128
        } else if speed < (smart.low_speed as u64) * 100 {
            since >= smart.low_speed_interval as i128
        } else {
            false
        }
    }

    /// The information field of the position report for a fix.
    pub fn format_position_packet(&self, pos: &GpsPosition) -> (r: String)
        ensures
            r@ == position_report(self.config, *pos),
    {
        format_position_report(&self.config, pos)
    }

    /// The beacon packet for a fix, stamped `now`.
    pub fn beacon_packet(&self, position: &GpsPosition, now: i64) -> (r: AprsPacket)
        ensures
            r@ == beacon_view(self.config, *position, now),
    {
        let information = self.format_position_packet(position);
        let source = station_callsign(self.config.callsign.as_str());
        let mut packet = AprsPacket::new_at(source, destination_callsign(), information, now);
        if self.config.path.as_str().unicode_len() > 0 {
            packet.path = read_path_setting(self.config.path.as_str());
        }
        packet
    }

    /// Notes that the fix was sent at `now`.
    pub fn mark_sent(&mut self, position: &GpsPosition, now: i64)
        ensures
            final(self).last_position == Some(*position),
            final(self).last_beacon_time == now,
            final(self).config == old(self).config,
            final(self).stationary_count == old(self).stationary_count,
    {
        self.last_position = Some(*position);
        self.last_beacon_time = now;
    }
}

} // verus!
