//! Callsigns and packets, with their textual form `SRC>DEST[,HOP…]:INFO`.

use crate::clock::unix_now;
use crate::text::{
    append, chars_of, contains, decimal, find, first_index, has_substring_str, is_ascii, parse_unsigned,
    push_decimal, read_unsigned_capped, slice, string_of, to_uppercase, uppercase, ascii_uppercase,
};
use vstd::prelude::*;

verus! {

/// A secondary station identifier. A legal one is at most 15.
#[derive(Debug, Clone, Copy, PartialEq, Eq, Structural)]
pub struct Ssid(pub u8);

/// What kind of report a packet carries, told by the first character of its information field.
#[derive(Debug, Clone, Copy, PartialEq, Eq, Structural)]
pub enum DataType {
    Position,
    Status,
    Message,
    Object,
    Item,
    MicE,
    Telemetry,
    Weather,
    UserDefined,
    ThirdParty,
    Invalid,
}

/// A station address: base call, SSID, and whether a digipeater has used it.
#[derive(Debug, PartialEq)]
pub struct CallSign {
    pub call: String,
    pub ssid: Ssid,
    pub digipeated: bool,
}

/// The mathematical content of a [`CallSign`].
pub struct CallSignView {
    pub call: Seq<char>,
    pub ssid: u8,
    pub digipeated: bool,
}

/// A packet: who sent it, to whom, by which digipeaters, and what it says.
#[derive(Debug, PartialEq)]
pub struct AprsPacket {
    pub source: CallSign,
    pub destination: CallSign,
    pub path: Vec<CallSign>,
    pub data_type: DataType,
    pub information: String,
    /// When the packet was received, in seconds since the Unix epoch.
    pub timestamp: i64,
    pub raw: Option<Vec<u8>>,
}

/// The mathematical content of an [`AprsPacket`].
pub struct PacketView {
    pub source: CallSignView,
    pub destination: CallSignView,
    pub path: Seq<CallSignView>,
    pub data_type: DataType,
    pub information: Seq<char>,
    pub timestamp: i64,
    pub raw: Option<Seq<u8>>,
}

impl View for CallSign {
    type V = CallSignView;

    open spec fn view(&self) -> CallSignView {
        CallSignView { call: self.call@, ssid: self.ssid.0, digipeated: self.digipeated }
    }
}

/// The contents of a list of callsigns.
pub open spec fn hops_view(hops: Seq<CallSign>) -> Seq<CallSignView> {
    Seq::new(hops.len(), |i: int| hops[i]@)
}

impl View for AprsPacket {
    type V = PacketView;

    open spec fn view(&self) -> PacketView {
        PacketView {
            source: self.source@,
            destination: self.destination@,
            path: hops_view(self.path@),
            data_type: self.data_type,
            information: self.information@,
            timestamp: self.timestamp,
            raw: match self.raw {
                Some(bytes) => Some(bytes@),
                None => None,
            },
        }
    }
}

/// `c` is an ASCII capital letter or a digit.
pub open spec fn is_upper_alnum(c: char) -> bool {
    (48 <= c as u32 <= 57) || (65 <= c as u32 <= 90)
}

/// The data type that an information field announces with its first character.
pub open spec fn data_type_of(info: Seq<char>) -> DataType {
    if info.len() == 0 {
        DataType::Invalid
    } else {
        let c = info[0];
        if c == '!' || c == '=' || c == '/' || c == '@' {
            DataType::Position
        } else if c == '>' {
            DataType::Status
        } else if c == ':' {
            DataType::Message
        } else if c == ';' {
            DataType::Object
        } else if c == ')' {
            DataType::Item
        } else if c == '`' || c == '\'' {
            DataType::MicE
        } else if c == 'T' {
            DataType::Telemetry
        } else if c == '_' {
            DataType::Weather
        } else if c == '{' {
            DataType::UserDefined
        } else if c == '}' {
            DataType::ThirdParty
        } else {
            DataType::Invalid
        }
    }
}

/// What follows the base call in a callsign's text: nothing for SSID 0, else `-` and the number.
pub open spec fn ssid_text(ssid: u8) -> Seq<char> {
    if ssid == 0 {
        Seq::empty()
    } else {
        seq!['-'] + decimal(ssid as nat)
    }
}

impl CallSignView {
    /// The address without the used-marker: `CALL` or `CALL-SSID`.
    pub open spec fn name(self) -> Seq<char> {
        self.call + ssid_text(self.ssid)
    }

    /// The textual form: `CALL`, `CALL-SSID`, each with `*` behind it if used.
    pub open spec fn text(self) -> Seq<char> {
        if self.digipeated {
            self.name().push('*')
        } else {
            self.name()
        }
    }

    /// A legal callsign: one to six ASCII capitals or digits, and an SSID of at most 15.
    pub open spec fn valid(self) -> bool {
        &&& 1 <= self.call.len() <= 6
        &&& forall|i: int| 0 <= i < self.call.len() ==> is_upper_alnum(#[trigger] self.call[i])
        &&& self.ssid <= 15
    }
}

/// The number in a callsign's SSID field, the field between the first and the second
/// `-` of the token without its used-marker: the value of the field where it is a
/// run of decimal digits, with at most one `+` in front, however long. None where
/// there is no `-` or the field is no such number.
pub open spec fn ssid_number(body: Seq<char>) -> Option<nat> {
    let dash = first_index(body, '-');
    if dash < body.len() {
        let rest = body.subrange(dash + 1, body.len() as int);
        parse_unsigned(rest.subrange(0, first_index(rest, '-')))
    } else {
        None
    }
}

/// The callsign that a token denotes, if any: a `*` at the end marks it used; the base
/// call is what stands before the first `-`, in upper case; the SSID is the number
/// in the SSID field, or 0 where the field holds no number. A token with an empty
/// base call denotes none, and so does one whose SSID field holds a number above
/// 15, of any size.
pub open spec fn parse_callsign(token: Seq<char>) -> Option<CallSignView> {
    let used = token.len() > 0 && token.last() == '*';
    let body = if used {
        token.drop_last()
    } else {
        token
    };
    let base = body.subrange(0, first_index(body, '-'));
    match ssid_number(body) {
        Some(n) => if base.len() == 0 || n > 15 {
            None
        } else {
            Some(CallSignView { call: uppercase(base), ssid: n as u8, digipeated: used })
        },
        None => if base.len() == 0 {
            None
        } else {
            Some(CallSignView { call: uppercase(base), ssid: 0, digipeated: used })
        },
    }
}

/// The path part of a packet's text: each hop with a comma before it.
pub open spec fn hops_text(path: Seq<CallSignView>) -> Seq<char>
    decreases path.len(),
{
    if path.len() == 0 {
        Seq::empty()
    } else {
        hops_text(path.drop_last()) + seq![','] + path.last().text()
    }
}

impl PacketView {
    /// The header of the textual form: `SRC>DEST[,HOP…]`.
    pub open spec fn header(self) -> Seq<char> {
        self.source.text() + seq!['>'] + self.destination.text() + hops_text(self.path)
    }

    /// The textual form `SRC>DEST[,HOP…]:INFO`.
    pub open spec fn text(self) -> Seq<char> {
        self.header() + seq![':'] + self.information
    }

    /// Every callsign is legal, and the data type is the one that the information
    /// field announces.
    pub open spec fn well_formed(self) -> bool {
        &&& self.source.valid()
        &&& self.destination.valid()
        &&& forall|i: int| 0 <= i < self.path.len() ==> (#[trigger] self.path[i]).valid()
        &&& self.data_type == data_type_of(self.information)
    }
}

impl Clone for CallSign {
    fn clone(&self) -> (r: Self)
        ensures
            r == *self,
    {
        CallSign { call: self.call.clone(), ssid: self.ssid, digipeated: self.digipeated }
    }
}

/// A copy of a list of callsigns.
pub fn clone_hops(hops: &Vec<CallSign>) -> (r: Vec<CallSign>)
    ensures
        r@ == hops@,
{
    let mut out: Vec<CallSign> = Vec::new();
    let mut i: usize = 0;
    while i < hops.len()
        invariant
            i <= hops.len(),
            out@ == hops@.subrange(0, i as int),
        decreases hops.len() - i,
    {
        out.push(hops[i].clone());
        i += 1;
        assert(out@ =~= hops@.subrange(0, i as int));
    }
    assert(hops@.subrange(0, hops.len() as int) =~= hops@);
    out
}

/// A copy of a list of bytes.
fn clone_bytes(bytes: &Vec<u8>) -> (r: Vec<u8>)
    ensures
        r@ == bytes@,
{
    let mut out: Vec<u8> = Vec::new();
    let mut i: usize = 0;
    while i < bytes.len()
        invariant
            i <= bytes.len(),
            out@ == bytes@.subrange(0, i as int),
        decreases bytes.len() - i,
    {
        out.push(bytes[i]);
        i += 1;
        assert(out@ =~= bytes@.subrange(0, i as int));
    }
    assert(bytes@.subrange(0, bytes.len() as int) =~= bytes@);
    out
}

impl Clone for AprsPacket {
    fn clone(&self) -> (r: Self)
        ensures
            r@ == self@,
            r.source == self.source,
            r.destination == self.destination,
            r.path@ == self.path@,
            r.information == self.information,
    {
        let raw = match &self.raw {
            Some(bytes) => Some(clone_bytes(bytes)),
            None => None,
        };
        AprsPacket {
            source: self.source.clone(),
            destination: self.destination.clone(),
            path: clone_hops(&self.path),
            data_type: self.data_type,
            information: self.information.clone(),
            timestamp: self.timestamp,
            raw,
        }
    }
}

impl CallSign {
    /// A callsign with the given base call, in upper case, and SSID; not used.
    pub fn new(call: &str, ssid: u8) -> (r: Self)
        ensures
            r@ == (CallSignView { call: uppercase(call@), ssid: ssid, digipeated: false }),
    {
        CallSign { call: to_uppercase(call), ssid: Ssid(ssid), digipeated: false }
    }

    /// Reads a callsign token such as `N0CALL`, `N0CALL-5` or `WIDE1-1*`. A token
    /// with an empty base call is refused, and so is one whose SSID is a number
    /// above 15, however large; an SSID field that holds no number counts as 0.
    pub fn parse(input: &str) -> (r: Option<Self>)
        ensures
            match r {
                Some(c) => parse_callsign(input@) == Some(c@),
                None => parse_callsign(input@) is None,
            },
    {
        let token = chars_of(input);
        let used = token.len() > 0 && token[token.len() - 1] == '*';
        let body = if used {
            slice(&token, 0, token.len() - 1)
        } else {
            slice(&token, 0, token.len())
        };
        proof {
            if used {
                assert(body@ =~= token@.drop_last());
            } else {
                assert(body@ =~= token@);
            }
        }
        let dash = find(&body, '-');
        if dash == 0 {
            return None;
        }
        let base = slice(&body, 0, dash);
        let ssid: u8 = if dash < body.len() {
            let rest = slice(&body, dash + 1, body.len());
            let end = find(&rest, '-');
            let field = slice(&rest, 0, end);
            match read_unsigned_capped(&field, 16) {
                Some(n) => {
                    if n > 15 {
                        return None;
                    }
                    n as u8
                },
                None => 0,
            }
        } else {
            0
        };
        let base_text = string_of(&base);
        Some(CallSign { call: to_uppercase(base_text.as_str()), ssid: Ssid(ssid), digipeated: used })
    }

    /// Appends the textual form to `dst`.
    pub fn push_text(&self, dst: &mut Vec<char>)
        ensures
            final(dst)@ == old(dst)@ + self@.text(),
    {
        let call = chars_of(self.call.as_str());
        append(dst, &call);
        if self.ssid.0 != 0 {
            dst.push('-');
            push_decimal(dst, self.ssid.0 as u64);
        }
        if self.digipeated {
            dst.push('*');
        }
        assert(dst@ =~= old(dst)@ + self@.text());
    }

    /// The address without the used-marker, `CALL` or `CALL-SSID`.
    pub fn name(&self) -> (r: Vec<char>)
        ensures
            r@ == self@.name(),
    {
        let mut out = chars_of(self.call.as_str());
        if self.ssid.0 != 0 {
            out.push('-');
            push_decimal(&mut out, self.ssid.0 as u64);
        }
        assert(out@ =~= self@.name());
        out
    }

    /// The textual form: `CALL` or `CALL-SSID`, with `*` behind it if used.
    pub fn to_string(&self) -> (r: String)
        ensures
            r@ == self@.text(),
    {
        let mut out: Vec<char> = Vec::new();
        self.push_text(&mut out);
        assert(out@ =~= self@.text());
        string_of(&out)
    }
}

/// The data type that `info` announces with its first character.
pub fn detect_data_type(info: &str) -> (r: DataType)
    ensures
        r == data_type_of(info@),
{
    let n = info.unicode_len();
    if n == 0 {
        return DataType::Invalid;
    }
    let c = info.get_char(0);
    if c == '!' || c == '=' || c == '/' || c == '@' {
        DataType::Position
    } else if c == '>' {
        DataType::Status
    } else if c == ':' {
        DataType::Message
    } else if c == ';' {
        DataType::Object
    } else if c == ')' {
        DataType::Item
    } else if c == '`' || c == '\'' {
        DataType::MicE
    } else if c == 'T' {
        DataType::Telemetry
    } else if c == '_' {
        DataType::Weather
    } else if c == '{' {
        DataType::UserDefined
    } else if c == '}' {
        DataType::ThirdParty
    } else {
        DataType::Invalid
    }
}

/// The callsign under which this station sends: the one that `mycall` denotes, or
/// `N0CALL` where it denotes none.
pub open spec fn station(mycall: Seq<char>) -> CallSignView {
    match parse_callsign(mycall) {
        Some(c) => c,
        None => CallSignView { call: "N0CALL"@, ssid: 0, digipeated: false },
    }
}

/// The destination of every packet that this station makes: `APRS`.
pub open spec fn aprs_destination() -> CallSignView {
    CallSignView { call: "APRS"@, ssid: 0, digipeated: false }
}

/// The callsign under which this station sends.
pub fn station_callsign(mycall: &str) -> (r: CallSign)
    ensures
        r@ == station(mycall@),
{
    match CallSign::parse(mycall) {
        Some(c) => c,
        None => {
            proof {
                reveal_strlit("N0CALL");
                assert(is_ascii("N0CALL"@));
                assert(ascii_uppercase("N0CALL"@) =~= "N0CALL"@);
            }
            CallSign::new("N0CALL", 0)
        },
    }
}

/// The destination `APRS`.
pub fn destination_callsign() -> (r: CallSign)
    ensures
        r@ == aprs_destination(),
{
    proof {
        reveal_strlit("APRS");
        assert(is_ascii("APRS"@));
        assert(ascii_uppercase("APRS"@) =~= "APRS"@);
    }
    CallSign::new("APRS", 0)
}

/// A packet from this station to `APRS` with the given information, stamped `now`.
pub fn own_packet(mycall: &str, information: String, now: i64) -> (r: AprsPacket)
    ensures
        r@ == own_packet_view(mycall@, information@, now),
{
    AprsPacket::new_at(station_callsign(mycall), destination_callsign(), information, now)
}

/// A packet from this station to `APRS`, without path.
pub open spec fn own_packet_view(mycall: Seq<char>, information: Seq<char>, now: i64) -> PacketView {
    PacketView {
        source: station(mycall),
        destination: aprs_destination(),
        path: Seq::empty(),
        data_type: data_type_of(information),
        information: information,
        timestamp: now,
        raw: None,
    }
}

impl AprsPacket {
    /// A packet without path and raw bytes, stamped with the time given.
    pub fn new_at(source: CallSign, destination: CallSign, information: String, timestamp: i64) -> (r:
        Self)
        ensures
            r@ == (PacketView {
                source: source@,
                destination: destination@,
                path: Seq::empty(),
                data_type: data_type_of(information@),
                information: information@,
                timestamp: timestamp,
                raw: None,
            }),
    {
        let data_type = detect_data_type(information.as_str());
        let r = AprsPacket {
            source,
            destination,
            path: Vec::new(),
            data_type,
            information,
            timestamp,
            raw: None,
        };
        assert(r@.path =~= Seq::empty());
        r
    }

    /// A packet without path and raw bytes, stamped with the current time.
    pub fn new(source: CallSign, destination: CallSign, information: String) -> (r: Self)
        ensures
            r@ == (PacketView {
                source: source@,
                destination: destination@,
                path: Seq::empty(),
                data_type: data_type_of(information@),
                information: information@,
                timestamp: r.timestamp,
                raw: None,
            }),
    {
        let now = unix_now();
        AprsPacket::new_at(source, destination, information, now)
    }

    /// The data type that an information field announces.
    pub fn detect_data_type(info: &str) -> (r: DataType)
        ensures
            r == data_type_of(info@),
    {
        detect_data_type(info)
    }

    /// Whether the information field holds `RFONLY`.
    pub fn has_rfonly(&self) -> (r: bool)
        ensures
            r == contains(self@.information, "RFONLY"@),
    {
        let info = chars_of(self.information.as_str());
        has_substring_str(&info, "RFONLY")
    }

    /// Whether the information field holds `NOGATE`.
    pub fn has_nogate(&self) -> (r: bool)
        ensures
            r == contains(self@.information, "NOGATE"@),
    {
        let info = chars_of(self.information.as_str());
        has_substring_str(&info, "NOGATE")
    }

    /// The textual form as characters.
    pub fn text(&self) -> (r: Vec<char>)
        ensures
            r@ == self@.text(),
    {
        let mut out: Vec<char> = Vec::new();
        self.source.push_text(&mut out);
        out.push('>');
        self.destination.push_text(&mut out);
        let ghost head = out@;
        let mut i: usize = 0;
        while i < self.path.len()
            invariant
                i <= self.path.len(),
                out@ == head + hops_text(hops_view(self.path@).subrange(0, i as int)),
            decreases self.path.len() - i,
        {
            let ghost before = hops_view(self.path@).subrange(0, i as int);
            let ghost after = hops_view(self.path@).subrange(0, i + 1);
            out.push(',');
            self.path[i].push_text(&mut out);
            proof {
                assert(after.drop_last() =~= before);
                assert(after.last() == self.path@[i as int]@);
                assert(out@ =~= head + hops_text(after));
            }
            i += 1;
        }
        proof {
            assert(hops_view(self.path@).subrange(0, i as int) =~= hops_view(self.path@));
        }
        out.push(':');
        let info = chars_of(self.information.as_str());
        append(&mut out, &info);
        assert(out@ =~= self@.text());
        out
    }

    /// The textual form `SRC>DEST[,HOP…]:INFO`.
    pub fn to_string(&self) -> (r: String)
        ensures
            r@ == self@.text(),
    {
        let t = self.text();
        string_of(&t)
    }
}

} // verus!
