//! Reading a packet from one line of text.

use crate::aprs::packet::{
    data_type_of, detect_data_type, hops_text, hops_view, is_upper_alnum, parse_callsign,
    ssid_number, AprsPacket, CallSign, CallSignView, PacketView,
};
use crate::clock::unix_now;
use crate::text::{
    ascii_uppercase, chars_of, decimal, find, first_index, is_ascii, is_digit, is_space,
    lemma_decimal, lemma_first_index_is, lemma_first_index_split, lemma_parse_decimal,
    lemma_trim_noop, slice, string_of, trim, trim_start, trimmed, trimmed_start,
    uppercase,
};
use vstd::prelude::*;

verus! {

/// Why a line is not a packet.
#[derive(Debug, Clone, Copy, PartialEq, Eq, Structural)]
pub enum ParseError {
    /// Nothing but white space.
    Empty,
    /// No `:` between header and information.
    NoSeparator,
    /// The header is not two parts around one `>`.
    InvalidHeader,
    /// The part before `>` is no callsign.
    InvalidSource,
    /// The first address after `>` is no callsign.
    InvalidDestination,
}

/// The hops that a comma-separated list of tokens denotes. A token that is no
/// callsign is left out.
pub open spec fn parse_hops(list: Seq<char>) -> Seq<CallSignView>
    decreases list.len(),
{
    let comma = first_index(list, ',');
    let tail = if 0 <= comma < list.len() {
        parse_hops(list.subrange(comma + 1, list.len() as int))
    } else {
        Seq::empty()
    };
    match parse_callsign(list.subrange(0, comma)) {
        Some(c) => seq![c] + tail,
        None => tail,
    }
}

/// The packet that a line denotes, or why it denotes none.
///
/// Leading white space is dropped. The first `:` ends the header, and all that follows
/// it is the information field, trailing spaces included. The header, with white space
/// around it dropped, is `SRC>ADDRESSES`, with exactly one `>`; the addresses are
/// separated by commas, the first is the destination and the others are the path.
pub open spec fn parse_line(line: Seq<char>, timestamp: i64) -> Result<PacketView, ParseError> {
    let input = trim_start(line);
    let colon = first_index(input, ':');
    if input.len() == 0 {
        Err(ParseError::Empty)
    } else if colon >= input.len() {
        Err(ParseError::NoSeparator)
    } else {
        let header = trim(input.subrange(0, colon));
        let information = input.subrange(colon + 1, input.len() as int);
        let gt = first_index(header, '>');
        let addresses = header.subrange(gt + 1, header.len() as int);
        if gt >= header.len() || first_index(addresses, '>') < addresses.len() {
            Err(ParseError::InvalidHeader)
        } else {
            let comma = first_index(addresses, ',');
            match parse_callsign(header.subrange(0, gt)) {
                None => Err(ParseError::InvalidSource),
                Some(source) => match parse_callsign(addresses.subrange(0, comma)) {
                    None => Err(ParseError::InvalidDestination),
                    Some(destination) => Ok(
                        PacketView {
                            source: source,
                            destination: destination,
                            path: if comma < addresses.len() {
                                parse_hops(addresses.subrange(comma + 1, addresses.len() as int))
                            } else {
                                Seq::empty()
                            },
                            data_type: data_type_of(information),
                            information: information,
                            timestamp: timestamp,
                            raw: None,
                        },
                    ),
                },
            }
        }
    }
}

impl ParseError {
    /// A sentence that says what is wrong.
    pub fn message(&self) -> (r: String)
        ensures
            r@ == match *self {
                ParseError::Empty => "Empty packet"@,
                ParseError::NoSeparator => "No ':' separator found"@,
                ParseError::InvalidHeader => "Invalid header format"@,
                ParseError::InvalidSource => "Invalid source callsign"@,
                ParseError::InvalidDestination => "Invalid destination callsign"@,
            },
    {
        match self {
            ParseError::Empty => "Empty packet".to_owned(),
            ParseError::NoSeparator => "No ':' separator found".to_owned(),
            ParseError::InvalidHeader => "Invalid header format".to_owned(),
            ParseError::InvalidSource => "Invalid source callsign".to_owned(),
            ParseError::InvalidDestination => "Invalid destination callsign".to_owned(),
        }
    }
}

/// Reads the callsign that the characters of `token` denote.
fn parse_token(token: &Vec<char>) -> (r: Option<CallSign>)
    ensures
        match r {
            Some(c) => parse_callsign(token@) == Some(c@),
            None => parse_callsign(token@) is None,
        },
{
    let s = string_of(token);
    CallSign::parse(s.as_str())
}

/// Reads a comma-separated list of hops; tokens that are no callsign are left out.
fn read_hops(list: &Vec<char>) -> (path: Vec<CallSign>)
    ensures
        hops_view(path@) == parse_hops(list@),
{
    let mut path: Vec<CallSign> = Vec::new();
    let mut rest: Vec<char> = slice(list, 0, list.len());
    let mut done = false;
    assert(rest@ =~= list@);
    assert(hops_view(path@) =~= Seq::empty());
    while !done
        invariant
            !done ==> hops_view(path@) + parse_hops(rest@) == parse_hops(list@),
            done ==> hops_view(path@) == parse_hops(list@),
        decreases rest.len() + (if done { 0int } else { 1int }),
    {
        let comma = find(&rest, ',');
        let token = slice(&rest, 0, comma);
        let ghost before = hops_view(path@);
        match parse_token(&token) {
            Some(c) => {
                path.push(c);
                assert(hops_view(path@) =~= before + seq![c@]);
            },
            None => {},
        }
        if comma == rest.len() {
            done = true;
            assert(hops_view(path@) =~= before + parse_hops(rest@));
        } else {
            let next = slice(&rest, comma + 1, rest.len());
            assert(hops_view(path@) + parse_hops(next@) =~= before + parse_hops(rest@));
            rest = next;
        }
    }
    path
}

/// Reads a packet from one line of text and stamps it with the time given.
pub fn parse_packet_at(input: &str, timestamp: i64) -> (r: Result<AprsPacket, ParseError>)
    ensures
        match r {
            Ok(p) => parse_line(input@, timestamp) == Ok::<PacketView, ParseError>(p@),
            Err(e) => parse_line(input@, timestamp) == Err::<PacketView, ParseError>(e),
        },
{
    let line = chars_of(input);
    let text = trimmed_start(&line);
    if text.len() == 0 {
        return Err(ParseError::Empty);
    }
    let colon = find(&text, ':');
    if colon == text.len() {
        return Err(ParseError::NoSeparator);
    }
    let raw_header = slice(&text, 0, colon);
    let header = trimmed(&raw_header);
    let information = slice(&text, colon + 1, text.len());
    let gt = find(&header, '>');
    if gt == header.len() {
        return Err(ParseError::InvalidHeader);
    }
    let addresses = slice(&header, gt + 1, header.len());
    if find(&addresses, '>') < addresses.len() {
        return Err(ParseError::InvalidHeader);
    }
    let source_token = slice(&header, 0, gt);
    let source = match parse_token(&source_token) {
        Some(c) => c,
        None => {
            return Err(ParseError::InvalidSource);
        },
    };
    let comma = find(&addresses, ',');
    let destination_token = slice(&addresses, 0, comma);
    let destination = match parse_token(&destination_token) {
        Some(c) => c,
        None => {
            return Err(ParseError::InvalidDestination);
        },
    };
    let path = if comma < addresses.len() {
        let list = slice(&addresses, comma + 1, addresses.len());
        read_hops(&list)
    } else {
        let empty: Vec<CallSign> = Vec::new();
        assert(hops_view(empty@) =~= Seq::empty());
        empty
    };
    let information = string_of(&information);
    let data_type = detect_data_type(information.as_str());
    Ok(AprsPacket { source, destination, path, data_type, information, timestamp, raw: None })
}

/// Reads a packet from one line of text and stamps it with the current time.
pub fn parse_packet(input: &str) -> (r: Result<AprsPacket, ParseError>)
    ensures
        match r {
            Ok(p) => parse_line(input@, p.timestamp) == Ok::<PacketView, ParseError>(p@),
            Err(e) => forall|t: i64| parse_line(input@, t) == Err::<PacketView, ParseError>(e),
        },
{
    let now = unix_now();
    parse_packet_at(input, now)
}

// ---------------------------------------------------------------------------
// Laws
// ---------------------------------------------------------------------------
/// A character that the text of a legal callsign can hold.
pub open spec fn is_address_char(c: char) -> bool {
    is_upper_alnum(c) || c == '-' || c == '*'
}

/// An upper-case ASCII text is its own upper-case form.
pub proof fn lemma_uppercase_fixed(s: Seq<char>)
    requires
        forall|i: int| 0 <= i < s.len() ==> is_upper_alnum(#[trigger] s[i]),
    ensures
        uppercase(s) == s,
{
    assert(is_ascii(s));
    assert(ascii_uppercase(s) =~= s);
}

/// The text of a legal callsign: what it is made of, and that it is not empty.
pub proof fn lemma_callsign_text(c: CallSignView)
    requires
        c.valid(),
    ensures
        c.text().len() >= 1,
        is_upper_alnum(c.text()[0]),
        forall|i: int| 0 <= i < c.text().len() ==> is_address_char(#[trigger] c.text()[i]),
        c.text().last() == '*' <==> c.digipeated,
{
    let t = c.text();
    let n = c.name();
    lemma_decimal(c.ssid as nat);
    let d = decimal(c.ssid as nat);
    assert(t[0] == c.call[0]);
    assert forall|i: int| 0 <= i < n.len() implies is_upper_alnum(#[trigger] n[i]) || n[i]
        == '-' by {
        if i < c.call.len() {
            assert(n[i] == c.call[i]);
        } else if i > c.call.len() {
            assert(n[i] == d[i - c.call.len() - 1]);
            assert(is_digit(d[i - c.call.len() - 1]));
        }
    }
    assert forall|i: int| 0 <= i < t.len() implies is_address_char(#[trigger] t[i]) by {
        if i < n.len() {
            assert(t[i] == n[i]);
        }
    }
    if !c.digipeated {
        assert(t.last() == n[n.len() - 1]);
        if c.ssid == 0 {
            assert(n =~= c.call);
            assert(is_upper_alnum(c.call[c.call.len() - 1]));
        } else {
            assert(n.last() == d.last());
            assert(is_digit(d[d.len() - 1]));
        }
    }
}

/// Reading the text of a legal callsign gives the callsign back, its used-marker included.
pub proof fn law_callsign_roundtrip(c: CallSignView)
    requires
        c.valid(),
    ensures
        parse_callsign(c.text()) == Some(c),
{
    lemma_callsign_text(c);
    let t = c.text();
    let body = c.name();
    if c.digipeated {
        assert(t.drop_last() =~= body);
    }
    lemma_uppercase_fixed(c.call);
    if c.ssid == 0 {
        assert(body =~= c.call);
        lemma_first_index_is(body, '-', body.len() as int);
        assert(body.subrange(0, body.len() as int) =~= c.call);
    } else {
        let d = decimal(c.ssid as nat);
        lemma_decimal(c.ssid as nat);
        lemma_parse_decimal(c.ssid as nat);
        assert(body =~= c.call + seq!['-'] + d);
        lemma_first_index_split(c.call, '-', d);
        assert forall|j: int| 0 <= j < d.len() implies d[j] != '-' by {
            assert(is_digit(d[j]));
        }
        lemma_first_index_is(d, '-', d.len() as int);
        assert(d.subrange(0, d.len() as int) =~= d);
    }
}

/// The callsign parser rejects every token whose SSID field holds a number above 15,
/// however large; it puts the base call in upper case, and keeps the `*` at the end
/// as the used-marker.
pub proof fn law_callsign_parser(token: Seq<char>)
    ensures
        ({
            let used = token.len() > 0 && token.last() == '*';
            let body = if used {
                token.drop_last()
            } else {
                token
            };
            &&& ssid_number(body) is Some && ssid_number(body)->0 > 15 ==> parse_callsign(
                token,
            ) is None
            &&& parse_callsign(token) is Some ==> {
                let c = parse_callsign(token)->0;
                &&& c.ssid <= 15
                &&& ssid_number(body) is Some ==> c.ssid == ssid_number(body)->0
                &&& ssid_number(body) is None ==> c.ssid == 0
                &&& c.call == uppercase(body.subrange(0, first_index(body, '-')))
                &&& c.digipeated == used
            }
        }),
{
}

/// A token `BASE-N`, with or without `*` behind it, where `N` is any decimal number
/// above 15, denotes no callsign.
pub proof fn law_ssid_above_15_rejected(base: Seq<char>, n: nat, used: bool)
    requires
        n > 15,
        forall|i: int| 0 <= i < base.len() ==> base[i] != '-',
    ensures
        parse_callsign(
            if used {
                (base + seq!['-'] + decimal(n)).push('*')
            } else {
                base + seq!['-'] + decimal(n)
            },
        ) is None,
{
    let d = decimal(n);
    let body = base + seq!['-'] + d;
    let token = if used {
        body.push('*')
    } else {
        body
    };
    lemma_decimal(n);
    lemma_parse_decimal(n);
    assert(is_digit(d[d.len() - 1]));
    if used {
        assert(token.drop_last() =~= body);
    } else {
        assert(token.last() == d.last());
    }
    lemma_first_index_split(base, '-', d);
    assert forall|j: int| 0 <= j < d.len() implies d[j] != '-' by {
        assert(is_digit(d[j]));
    }
    lemma_first_index_is(d, '-', d.len() as int);
    assert(d.subrange(0, d.len() as int) =~= d);
    assert(ssid_number(body) == Some(n));
}

/// The path text of a non-empty path starts with a comma and the first hop.
pub proof fn lemma_hops_text_front(path: Seq<CallSignView>)
    requires
        path.len() > 0,
    ensures
        hops_text(path) == seq![','] + path[0].text() + hops_text(path.drop_first()),
    decreases path.len(),
{
    if path.len() == 1 {
        assert(path.drop_last() =~= Seq::empty());
        assert(path.drop_first() =~= Seq::empty());
        assert(hops_text(path) =~= seq![','] + path[0].text() + hops_text(path.drop_first()));
    } else {
        let init = path.drop_last();
        lemma_hops_text_front(init);
        assert(init.drop_first() =~= path.drop_first().drop_last());
        assert(path.drop_first().last() == path.last());
        assert(init[0] == path[0]);
        assert(hops_text(path) =~= seq![','] + path[0].text() + hops_text(path.drop_first()));
    }
}

/// The path text of legal hops holds only address characters and commas, and is
/// empty or starts with a comma.
pub proof fn lemma_hops_text_chars(path: Seq<CallSignView>)
    requires
        forall|i: int| 0 <= i < path.len() ==> (#[trigger] path[i]).valid(),
    ensures
        forall|i: int|
            0 <= i < hops_text(path).len() ==> is_address_char(#[trigger] hops_text(path)[i])
                || hops_text(path)[i] == ',',
        path.len() > 0 ==> hops_text(path).len() >= 2 && hops_text(path)[0] == ',' && (
        hops_text(path).last() == '*' || is_upper_alnum(hops_text(path).last())),
        path.len() == 0 ==> hops_text(path).len() == 0,
    decreases path.len(),
{
    if path.len() > 0 {
        let init = path.drop_last();
        lemma_hops_text_chars(init);
        lemma_callsign_text(path.last());
        let a = hops_text(init);
        let b = path.last().text();
        let t = hops_text(path);
        assert(t == a + seq![','] + b);
        assert forall|i: int| 0 <= i < t.len() implies is_address_char(#[trigger] t[i]) || t[i]
            == ',' by {
            if i < a.len() {
                assert(t[i] == a[i]);
            } else if i > a.len() {
                assert(t[i] == b[i - a.len() - 1]);
            }
        }
        assert(t.last() == b.last());
        lemma_callsign_last(path.last());
        if init.len() > 0 {
            assert(t[0] == a[0]);
        }
    }
}

/// The text of a legal callsign ends with `*` or with a capital or digit.
pub proof fn lemma_callsign_last(c: CallSignView)
    requires
        c.valid(),
    ensures
        c.text().last() == '*' || is_upper_alnum(c.text().last()),
{
    lemma_callsign_text(c);
    let n = c.name();
    let d = decimal(c.ssid as nat);
    lemma_decimal(c.ssid as nat);
    if !c.digipeated {
        if c.ssid == 0 {
            assert(n =~= c.call);
            assert(is_upper_alnum(c.call[c.call.len() - 1]));
        } else {
            assert(n.last() == d.last());
            assert(is_digit(d[d.len() - 1]));
        }
    }
}

/// Reading the list of a path's hops gives the path back.
#[verifier::rlimit(30)]
pub proof fn lemma_hops_roundtrip(path: Seq<CallSignView>)
    requires
        path.len() > 0,
        forall|i: int| 0 <= i < path.len() ==> (#[trigger] path[i]).valid(),
    ensures
        parse_hops(hops_text(path).subrange(1, hops_text(path).len() as int)) == path,
    decreases path.len(),
{
    let rest = path.drop_first();
    lemma_hops_text_front(path);
    lemma_callsign_text(path[0]);
    law_callsign_roundtrip(path[0]);
    assert forall|i: int| 0 <= i < rest.len() implies (#[trigger] rest[i]).valid() by {
        assert(rest[i] == path[i + 1]);
    }
    lemma_hops_text_chars(rest);
    let head = path[0].text();
    let tail = hops_text(rest);
    let list = hops_text(path).subrange(1, hops_text(path).len() as int);
    assert(list =~= head + tail);
    assert forall|j: int| 0 <= j < head.len() implies head[j] != ',' by {
        assert(is_address_char(head[j]));
    }
    if rest.len() == 0 {
        assert(list =~= head);
        lemma_first_index_is(list, ',', list.len() as int);
        assert(list.subrange(0, list.len() as int) =~= head);
        assert(seq![path[0]] + Seq::<CallSignView>::empty() =~= path);
    } else {
        lemma_hops_roundtrip(rest);
        let inner = tail.subrange(1, tail.len() as int);
        assert(tail =~= seq![','] + inner);
        assert(list =~= head + seq![','] + inner);
        lemma_first_index_split(head, ',', inner);
        assert(seq![path[0]] + rest =~= path);
    }
}

/// Reading the textual form of a packet gives the packet back: for every packet with
/// legal callsigns, whose data type is the one its information field announces,
/// `parse_line` of its text is the packet, raw bytes aside.
#[verifier::rlimit(30)]
pub proof fn law_parse_format_roundtrip(p: PacketView)
    requires
        p.well_formed(),
    ensures
        parse_line(p.text(), p.timestamp) == Ok::<PacketView, ParseError>(
            PacketView { raw: None, ..p },
        ),
{
    let src = p.source.text();
    let dst = p.destination.text();
    let hops = hops_text(p.path);
    let header = p.header();
    let line = p.text();
    lemma_callsign_text(p.source);
    lemma_callsign_text(p.destination);
    lemma_callsign_last(p.source);
    lemma_callsign_last(p.destination);
    lemma_hops_text_chars(p.path);
    law_callsign_roundtrip(p.source);
    law_callsign_roundtrip(p.destination);
    let addresses = dst + hops;
    assert(header =~= src + seq!['>'] + addresses);
    // no separator inside the header
    assert forall|j: int| 0 <= j < addresses.len() implies (is_address_char(
        #[trigger] addresses[j],
    ) || addresses[j] == ',') by {
        if j < dst.len() {
            assert(addresses[j] == dst[j]);
        } else {
            assert(addresses[j] == hops[j - dst.len()]);
        }
    }
    assert forall|j: int| 0 <= j < header.len() implies header[j] != ':' by {
        if j < src.len() {
            assert(header[j] == src[j]);
            assert(is_address_char(src[j]));
        } else if j > src.len() {
            assert(header[j] == addresses[j - src.len() - 1]);
        }
    }
    assert(line =~= header + seq![':'] + p.information);
    assert(line[0] == src[0]);
    assert(!is_space(line[0]));
    crate::text::lemma_leading_spaces_is(line, 0);
    assert(line.subrange(0, line.len() as int) =~= line);
    assert(trim_start(line) == line);
    lemma_first_index_split(header, ':', p.information);
    // the header is already trimmed
    assert(header[0] == src[0]);
    assert(header.last() == addresses.last());
    if p.path.len() == 0 {
        assert(addresses =~= dst);
    } else {
        assert(addresses.last() == hops.last());
    }
    assert(!is_space(header.last()));
    lemma_trim_noop(header);
    // exactly one `>`
    assert forall|j: int| 0 <= j < src.len() implies src[j] != '>' by {
        assert(is_address_char(src[j]));
    }
    lemma_first_index_split(src, '>', addresses);
    assert forall|j: int| 0 <= j < addresses.len() implies addresses[j] != '>' by {
        assert(is_address_char(addresses[j]) || addresses[j] == ',');
    }
    lemma_first_index_is(addresses, '>', addresses.len() as int);
    // destination and path
    assert forall|j: int| 0 <= j < dst.len() implies dst[j] != ',' by {
        assert(is_address_char(dst[j]));
    }
    if p.path.len() == 0 {
        lemma_first_index_is(addresses, ',', addresses.len() as int);
        assert(addresses.subrange(0, addresses.len() as int) =~= dst);
        assert(p.path =~= Seq::empty());
    } else {
        lemma_hops_roundtrip(p.path);
        let inner = hops.subrange(1, hops.len() as int);
        assert(hops =~= seq![','] + inner);
        assert(addresses =~= dst + seq![','] + inner);
        lemma_first_index_split(dst, ',', inner);
    }
}

} // verus!
