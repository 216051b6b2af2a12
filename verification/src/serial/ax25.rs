//! AX.25 UI frames: seven-byte addresses, control and PID, and the information field.

use crate::aprs::packet::{
    hops_text, is_upper_alnum, ssid_text, AprsPacket, CallSign, CallSignView, PacketView,
};
use crate::aprs::parser::{
    law_parse_format_roundtrip, lemma_hops_text_front, parse_line, ParseError,
};
use crate::text::{append, chars_of, push_decimal, string_of};
use vstd::prelude::*;
use vstd::slice::slice_subrange;
use vstd::utf8::{
    decode_utf8, encode_utf8, encode_utf8_decode_utf8, encode_utf8_valid_utf8, is_ascii_chars,
    is_ascii_chars_encode_utf8, valid_utf8,
};

verus! {

/// The control byte of a UI frame.
pub const CONTROL_UI: u8 = 0x03;

/// The PID for no layer-3 protocol.
pub const PID_NONE: u8 = 0xF0;

/// The shortest frame: two addresses, control and PID.
pub const MIN_FRAME: usize = 16;

/// Why bytes are no AX.25 frame or address.
#[derive(Debug, Clone, Copy, PartialEq, Eq, Structural)]
pub enum Ax25Error {
    /// Fewer than 16 bytes.
    FrameTooShort,
    /// Fewer than 7 bytes for an address.
    AddressTooShort,
}

/// What `String::from_utf8_lossy` makes of bytes that are not valid UTF-8.
pub uninterp spec fn lossy_decoded(bytes: Seq<u8>) -> Seq<char>;

/// Bytes read as text: the text they encode in UTF-8, or else what the lossy
/// conversion gives, with replacement characters for what is invalid.
pub open spec fn bytes_text(bytes: Seq<u8>) -> Seq<char> {
    if valid_utf8(bytes) {
        decode_utf8(bytes)
    } else {
        lossy_decoded(bytes)
    }
}

/// Reads bytes as text with `String::from_utf8_lossy`.
///
/// Trusted: valid UTF-8 gives the text it encodes; for other bytes the result
/// depends on the bytes alone.
#[verifier::external_body]
pub(crate) fn text_of_bytes(bytes: &[u8]) -> (r: String)
    ensures
        r@ == bytes_text(bytes@),
        !valid_utf8(bytes@) ==> r@ == lossy_decoded(bytes@),
{
    String::from_utf8_lossy(bytes).into_owned()
}

/// The characters of the first `n` bytes of an address, each shifted right by one
/// bit, without the spaces.
pub open spec fn address_chars(data: Seq<u8>, n: int) -> Seq<char>
    decreases n,
{
    if n <= 0 {
        Seq::empty()
    } else if ((data[n - 1] >> 1u8) as char) == ' ' {
        address_chars(data, n - 1)
    } else {
        address_chars(data, n - 1).push((data[n - 1] >> 1u8) as char)
    }
}

/// The SSID of an address: four bits of its seventh byte.
pub open spec fn address_ssid(data: Seq<u8>) -> u8 {
    (data[6] >> 1u8) & 0x0Fu8
}

/// The callsign that seven bytes of address denote, as text: `CALL` or `CALL-SSID`.
pub open spec fn address_text(data: Seq<u8>) -> Seq<char> {
    address_chars(data, 6) + ssid_text(address_ssid(data))
}

/// A digipeater address as text: with `*` behind it if its has-been-repeated bit is set.
pub open spec fn digi_text(data: Seq<u8>) -> Seq<char> {
    if data[6] & 0x80u8 != 0u8 {
        address_text(data).push('*')
    } else {
        address_text(data)
    }
}

/// The seven bytes of an address: the first six bytes of the call, each shifted
/// left by one bit, filled up with shifted spaces; then `0x60 | (SSID << 1)`, with
/// bit 0 set in the last address of a frame.
pub open spec fn address_bytes(call: Seq<u8>, ssid: u8, last: bool) -> Seq<u8> {
    Seq::new(
        7,
        |i: int|
            if i < 6 {
                if i < call.len() {
                    call[i] << 1u8
                } else {
                    0x40u8
                }
            } else if last {
                ((ssid << 1u8) | 0x60u8) | 0x01u8
            } else {
                (ssid << 1u8) | 0x60u8
            },
    )
}

/// The address of a callsign.
pub open spec fn address_of(c: CallSignView, last: bool) -> Seq<u8> {
    address_bytes(encode_utf8(c.call), c.ssid, last)
}

/// The addresses of the first `n` hops of a path; the last hop of the path ends
/// the address field.
pub open spec fn hop_addresses(path: Seq<CallSignView>, n: int) -> Seq<u8>
    decreases n,
{
    if n <= 0 {
        Seq::empty()
    } else {
        hop_addresses(path, n - 1) + address_of(path[n - 1], n == path.len())
    }
}

/// The UI frame of a packet: destination, source, digipeaters, control `0x03`,
/// PID `0xF0`, and the information field in UTF-8.
#[verifier::opaque]
pub open spec fn ax25_frame(p: PacketView) -> Seq<u8> {
    address_of(p.destination, false) + address_of(p.source, p.path.len() == 0) + hop_addresses(
        p.path,
        p.path.len() as int,
    ) + seq![CONTROL_UI, PID_NONE] + encode_utf8(p.information)
}

/// Whether a digipeater address is read at offset `i`: the address before it does
/// not end the address field, and seven bytes are there.
pub open spec fn digi_follows(frame: Seq<u8>, i: int) -> bool {
    14 <= i < frame.len() && frame[i - 1] & 0x01u8 == 0u8 && i + 7 <= frame.len()
}

/// The digipeater addresses from offset `i` on, as text, each with a comma before it.
pub open spec fn digis_text(frame: Seq<u8>, i: int) -> Seq<char>
    decreases frame.len() - i,
{
    if digi_follows(frame, i) {
        seq![','] + digi_text(frame.subrange(i, i + 7)) + digis_text(frame, i + 7)
    } else {
        Seq::empty()
    }
}

/// The offset behind the digipeater addresses that start at offset `i`.
pub open spec fn digis_end(frame: Seq<u8>, i: int) -> int
    decreases frame.len() - i,
{
    if digi_follows(frame, i) {
        digis_end(frame, i + 7)
    } else {
        i
    }
}

/// What follows the addresses, as text: `:` and the information field where
/// control and PID are those of a UI frame without layer 3, else nothing.
pub open spec fn payload_text(frame: Seq<u8>, i: int) -> Seq<char> {
    if 0 <= i && i + 2 <= frame.len() && frame[i] == CONTROL_UI && frame[i + 1] == PID_NONE {
        seq![':'] + bytes_text(frame.subrange(i + 2, frame.len() as int))
    } else {
        Seq::empty()
    }
}

/// The textual form of the packet in a frame: `SRC>DEST[,DIGI…][:INFO]`. A frame of
/// fewer than 16 bytes has none.
pub open spec fn ax25_text(frame: Seq<u8>) -> Option<Seq<char>> {
    if frame.len() < MIN_FRAME {
        None
    } else {
        Some(
            address_text(frame.subrange(7, 14)) + seq!['>'] + address_text(frame.subrange(0, 7))
                + digis_text(frame, 14) + payload_text(frame, digis_end(frame, 14)),
        )
    }
}

/// Appends the callsign of an address to `out`.
fn push_address(data: &[u8], out: &mut Vec<char>)
    requires
        data.len() >= 7,
    ensures
        final(out)@ == old(out)@ + address_text(data@),
{
    let ghost start = out@;
    let mut i: usize = 0;
    while i < 6
        invariant
            i <= 6,
            data.len() >= 7,
            out@ == start + address_chars(data@, i as int),
        decreases 6 - i,
    {
        let c = (data[i] >> 1) as char;
        if c != ' ' {
            out.push(c);
        }
        i += 1;
        assert(out@ =~= start + address_chars(data@, i as int));
    }
    let ssid: u8 = (data[6] >> 1) & 0x0F;
    if ssid > 0 {
        out.push('-');
        push_decimal(out, ssid as u64);
    }
    assert(out@ =~= start + address_text(data@));
}

/// The callsign that the first seven bytes of `data` denote: the call without its
/// padding, and `-SSID` behind it unless the SSID is 0.
pub fn decode_ax25_address(data: &[u8]) -> (r: Result<String, Ax25Error>)
    ensures
        match r {
            Ok(text) => data@.len() >= 7 && text@ == address_text(data@),
            Err(e) => data@.len() < 7 && e == Ax25Error::AddressTooShort,
        },
{
    if data.len() < 7 {
        return Err(Ax25Error::AddressTooShort);
    }
    let mut out: Vec<char> = Vec::new();
    push_address(data, &mut out);
    assert(out@ =~= address_text(data@));
    Ok(string_of(&out))
}

/// Appends the address of `call` to `frame`. Always succeeds.
pub fn encode_ax25_address(call: &CallSign, last: bool, frame: &mut Vec<u8>) -> (r: Result<
    (),
    Ax25Error,
>)
    ensures
        r is Ok,
        final(frame)@ == old(frame)@ + address_of(call@, last),
{
    let ghost start = frame@;
    let ghost addr = address_of(call@, last);
    let bytes = call.call.as_str().as_bytes();
    let mut i: usize = 0;
    while i < 6
        invariant
            i <= 6,
            bytes@ == encode_utf8(call@.call),
            addr == address_of(call@, last),
            frame@ == start + addr.subrange(0, i as int),
        decreases 6 - i,
    {
        if i < bytes.len() {
            frame.push(bytes[i] << 1);
        } else {
            frame.push(0x40);
        }
        i += 1;
        assert(frame@ =~= start + addr.subrange(0, i as int));
    }
    let mut ssid_byte: u8 = (call.ssid.0 << 1) | 0x60;
    if last {
        ssid_byte = ssid_byte | 0x01;
    }
    frame.push(ssid_byte);
    assert(frame@ =~= start + addr);
    Ok(())
}

/// The UI frame of a packet. Always succeeds.
pub fn aprs_to_ax25(packet: &AprsPacket) -> (r: Result<Vec<u8>, Ax25Error>)
    ensures
        r is Ok,
        r->Ok_0@ == ax25_frame(packet@),
{
    let mut frame: Vec<u8> = Vec::new();
    let _ = encode_ax25_address(&packet.destination, false, &mut frame);
    let _ = encode_ax25_address(&packet.source, packet.path.len() == 0, &mut frame);
    let ghost head = frame@;
    let ghost path = packet@.path;
    let mut i: usize = 0;
    while i < packet.path.len()
        invariant
            i <= packet.path.len(),
            path == packet@.path,
            frame@ == head + hop_addresses(path, i as int),
        decreases packet.path.len() - i,
    {
        let last = i == packet.path.len() - 1;
        assert(path[i as int] == packet.path@[i as int]@);
        let _ = encode_ax25_address(&packet.path[i], last, &mut frame);
        i += 1;
        assert(frame@ =~= head + hop_addresses(path, i as int));
    }
    frame.push(CONTROL_UI);
    frame.push(PID_NONE);
    let info = packet.information.as_str().as_bytes();
    let ghost before = frame@;
    let mut k: usize = 0;
    while k < info.len()
        invariant
            k <= info.len(),
            frame@ == before + info@.subrange(0, k as int),
        decreases info.len() - k,
    {
        frame.push(info[k]);
        k += 1;
        assert(frame@ =~= before + info@.subrange(0, k as int));
    }
    assert(info@.subrange(0, k as int) =~= info@);
    reveal(ax25_frame);
    assert(frame@ =~= ax25_frame(packet@));
    Ok(frame)
}

/// The textual form of the packet in a UI frame, for the text parser to read.
///
/// A digipeater address whose has-been-repeated bit is set gets a `*`. A frame of
/// fewer than 16 bytes is refused.
pub fn ax25_to_aprs(frame: &[u8]) -> (r: Result<String, Ax25Error>)
    ensures
        match r {
            Ok(text) => ax25_text(frame@) == Some(text@),
            Err(e) => ax25_text(frame@) is None && e == Ax25Error::FrameTooShort,
        },
{
    if frame.len() < MIN_FRAME {
        return Err(Ax25Error::FrameTooShort);
    }
    let mut out: Vec<char> = Vec::new();
    push_address(slice_subrange(frame, 7, 14), &mut out);
    out.push('>');
    push_address(slice_subrange(frame, 0, 7), &mut out);
    let ghost head = out@;
    let mut i: usize = 14;
    while i < frame.len() && (frame[i - 1] & 0x01) == 0 && frame.len() - i >= 7
        invariant
            14 <= i <= frame.len(),
            out@ + digis_text(frame@, i as int) == head + digis_text(frame@, 14),
            digis_end(frame@, i as int) == digis_end(frame@, 14),
        decreases frame.len() - i,
    {
        let ghost before = out@;
        let addr = slice_subrange(frame, i, i + 7);
        out.push(',');
        push_address(addr, &mut out);
        if addr[6] & 0x80 != 0 {
            out.push('*');
        }
        proof {
            assert(digi_follows(frame@, i as int));
            assert(out@ =~= before + seq![','] + digi_text(frame@.subrange(i as int, i + 7)));
            assert(out@ + digis_text(frame@, i + 7) =~= before + digis_text(frame@, i as int));
        }
        i += 7;
    }
    proof {
        assert(!digi_follows(frame@, i as int));
        assert(digis_text(frame@, i as int) =~= Seq::empty());
        assert(out@ =~= head + digis_text(frame@, 14));
    }
    if frame.len() - i >= 2 && frame[i] == CONTROL_UI && frame[i + 1] == PID_NONE {
        out.push(':');
        let info = text_of_bytes(slice_subrange(frame, i + 2, frame.len()));
        let info = chars_of(info.as_str());
        append(&mut out, &info);
    }
    assert(out@ =~= ax25_text(frame@)->0);
    Ok(string_of(&out))
}

// ---------------------------------------------------------------------------
// Laws
// ---------------------------------------------------------------------------
/// A seven-bit character survives being shifted left and right again.
proof fn lemma_shift_character(b: u8)
    requires
        b < 128,
    ensures
        (b << 1u8) >> 1u8 == b,
{
    assert((b << 1u8) >> 1u8 == b) by (bit_vector)
        requires
            b < 128u8,
    ;
}

/// A shifted space reads as a space.
proof fn lemma_shift_space()
    ensures
        (0x40u8 >> 1u8) as char == ' ',
{
    assert(0x40u8 >> 1u8 == 0x20u8) by (bit_vector);
}

/// The seventh byte of an address holds the SSID and the end mark, and no
/// has-been-repeated bit.
proof fn lemma_ssid_byte(ssid: u8)
    requires
        ssid <= 15,
    ensures
        (((ssid << 1u8) | 0x60u8) >> 1u8) & 0x0Fu8 == ssid,
        ((((ssid << 1u8) | 0x60u8) | 0x01u8) >> 1u8) & 0x0Fu8 == ssid,
        ((ssid << 1u8) | 0x60u8) & 0x80u8 == 0u8,
        (((ssid << 1u8) | 0x60u8) | 0x01u8) & 0x80u8 == 0u8,
        ((ssid << 1u8) | 0x60u8) & 0x01u8 == 0u8,
        (((ssid << 1u8) | 0x60u8) | 0x01u8) & 0x01u8 == 1u8,
{
    assert((((ssid << 1u8) | 0x60u8) >> 1u8) & 0x0Fu8 == ssid && ((((ssid << 1u8) | 0x60u8)
        | 0x01u8) >> 1u8) & 0x0Fu8 == ssid && ((ssid << 1u8) | 0x60u8) & 0x80u8 == 0u8 && (((ssid
        << 1u8) | 0x60u8) | 0x01u8) & 0x80u8 == 0u8 && ((ssid << 1u8) | 0x60u8) & 0x01u8 == 0u8
        && (((ssid << 1u8) | 0x60u8) | 0x01u8) & 0x01u8 == 1u8) by (bit_vector)
        requires
            ssid <= 15u8,
    ;
}

/// A capital or digit is a seven-bit character and no space.
proof fn lemma_upper_alnum(c: char)
    requires
        is_upper_alnum(c),
    ensures
        '\0' <= c,
        c <= '\u{7f}',
        (c as u8) < 128,
        (c as u8) as char == c,
        c != ' ',
{
}

/// A call of capitals and digits is encoded one byte to the character.
proof fn lemma_call_bytes(call: Seq<char>)
    requires
        forall|i: int| 0 <= i < call.len() ==> is_upper_alnum(#[trigger] call[i]),
    ensures
        encode_utf8(call).len() == call.len(),
        forall|i: int| 0 <= i < call.len() ==> (#[trigger] encode_utf8(call)[i]) == call[i] as u8,
{
    assert forall|i: int| 0 <= i < call.len() implies '\0' <= (#[trigger] call[i]) && call[i]
        <= '\u{7f}' by {
        lemma_upper_alnum(call[i]);
    }
    assert(is_ascii_chars(call));
    is_ascii_chars_encode_utf8(call);
}

/// The characters of the first `n` bytes of a legal callsign's address are the
/// first `n` characters of the call, or all of it.
proof fn lemma_address_chars(c: CallSignView, last: bool, n: int)
    requires
        c.valid(),
        0 <= n <= 6,
    ensures
        n <= c.call.len() ==> address_chars(address_of(c, last), n) == c.call.subrange(0, n),
        n > c.call.len() ==> address_chars(address_of(c, last), n) == c.call,
    decreases n,
{
    let a = address_of(c, last);
    let bytes = encode_utf8(c.call);
    lemma_call_bytes(c.call);
    if n > 0 {
        lemma_address_chars(c, last, n - 1);
        let i = n - 1;
        if i < c.call.len() {
            let b = bytes[i];
            let ch = c.call[i];
            assert(is_upper_alnum(ch));
            lemma_upper_alnum(ch);
            assert(b == ch as u8);
            assert(b < 128);
            lemma_shift_character(b);
            assert(a[i] == b << 1u8);
            assert(a[i] >> 1u8 == b);
            assert(b as char == ch);
            assert(ch != ' ');
            assert(address_chars(a, n) == address_chars(a, n - 1).push(ch));
            assert(c.call.subrange(0, n) =~= c.call.subrange(0, n - 1).push(ch));
        } else {
            assert(a[i] == 0x40u8);
            lemma_shift_space();
            assert(address_chars(a, n) == address_chars(a, n - 1));
            if i == c.call.len() {
                assert(c.call.subrange(0, i) =~= c.call);
            }
        }
    } else {
        assert(c.call.subrange(0, 0) =~= Seq::<char>::empty());
    }
}

/// The address of a legal callsign reads back as the callsign without marker, ends
/// the address field exactly where it should, and has no has-been-repeated bit.
pub proof fn lemma_address_roundtrip(c: CallSignView, last: bool)
    requires
        c.valid(),
    ensures
        address_of(c, last).len() == 7,
        address_text(address_of(c, last)) == c.name(),
        digi_text(address_of(c, last)) == c.name(),
        (address_of(c, last)[6] & 0x01u8 == 0u8) == !last,
{
    let a = address_of(c, last);
    lemma_address_chars(c, last, 6);
    assert(c.call.subrange(0, c.call.len() as int) =~= c.call);
    assert(address_chars(a, 6) == c.call);
    lemma_ssid_byte(c.ssid);
}

/// How long the addresses of hops are, and where each stands.
pub proof fn lemma_hop_addresses(path: Seq<CallSignView>, n: int)
    requires
        0 <= n <= path.len(),
    ensures
        hop_addresses(path, n).len() == 7 * n,
        forall|j: int|
            0 <= j < n ==> #[trigger] hop_addresses(path, n).subrange(7 * j, 7 * j + 7)
                == address_of(path[j], j + 1 == path.len()),
    decreases n,
{
    if n > 0 {
        lemma_hop_addresses(path, n - 1);
        let init = hop_addresses(path, n - 1);
        let whole = hop_addresses(path, n);
        let a = address_of(path[n - 1], n == path.len());
        assert(a.len() == 7);
        assert(whole == init + a);
        assert forall|j: int| 0 <= j < n implies #[trigger] whole.subrange(7 * j, 7 * j + 7)
            == address_of(path[j], j + 1 == path.len()) by {
            if j < n - 1 {
                assert(whole.subrange(7 * j, 7 * j + 7) =~= init.subrange(7 * j, 7 * j + 7));
            } else {
                assert(whole.subrange(7 * j, 7 * j + 7) =~= a);
            }
        }
    }
}

/// Where the parts of a packet's frame stand, the digipeater addresses aside.
pub proof fn lemma_frame_layout(p: PacketView)
    ensures
        ax25_frame(p).len() == 16 + 7 * p.path.len() + encode_utf8(p.information).len(),
        ax25_frame(p).subrange(0, 7) == address_of(p.destination, false),
        ax25_frame(p).subrange(7, 14) == address_of(p.source, p.path.len() == 0),
        ax25_frame(p)[14 + 7 * (p.path.len() as int)] == CONTROL_UI,
        ax25_frame(p)[15 + 7 * (p.path.len() as int)] == PID_NONE,
        ax25_frame(p).subrange(16 + 7 * (p.path.len() as int), ax25_frame(p).len() as int)
            == encode_utf8(p.information),
{
    reveal(ax25_frame);
    let k = p.path.len() as int;
    let f = ax25_frame(p);
    let d = address_of(p.destination, false);
    let s = address_of(p.source, k == 0);
    let h = hop_addresses(p.path, k);
    let info = encode_utf8(p.information);
    let mid = seq![CONTROL_UI, PID_NONE];
    lemma_hop_addresses(p.path, k);
    assert(d.len() == 7 && s.len() == 7 && h.len() == 7 * k && mid.len() == 2);
    assert(f == d + s + h + mid + info);
    assert(f.len() == 16 + 7 * k + info.len());
    assert(f.subrange(0, 7) =~= d);
    assert(f.subrange(7, 14) =~= s);
    assert(f[14 + 7 * k] == mid[0]);
    assert(f[15 + 7 * k] == mid[1]);
    assert(f.subrange(16 + 7 * k, f.len() as int) =~= info);
}

/// Where the `j`-th digipeater address of a packet's frame stands.
pub proof fn lemma_frame_hop(p: PacketView, j: int)
    requires
        0 <= j < p.path.len(),
    ensures
        21 + 7 * j <= ax25_frame(p).len(),
        ax25_frame(p).subrange(14 + 7 * j, 21 + 7 * j) == address_of(
            p.path[j],
            j + 1 == p.path.len(),
        ),
{
    reveal(ax25_frame);
    let k = p.path.len() as int;
    let f = ax25_frame(p);
    let d = address_of(p.destination, false);
    let s = address_of(p.source, k == 0);
    let h = hop_addresses(p.path, k);
    let info = encode_utf8(p.information);
    let mid = seq![CONTROL_UI, PID_NONE];
    lemma_hop_addresses(p.path, k);
    assert(d.len() == 7 && s.len() == 7 && h.len() == 7 * k && mid.len() == 2);
    assert(f == d + s + h + mid + info);
    let part = h.subrange(7 * j, 7 * j + 7);
    assert(part == address_of(p.path[j], j + 1 == k));
    assert(f.subrange(14 + 7 * j, 21 + 7 * j) =~= part);
}

/// The source address of a frame ends the address field if and only if the packet
/// has no path.
proof fn lemma_source_end_mark(p: PacketView)
    requires
        p.source.valid(),
    ensures
        (ax25_frame(p)[13] & 0x01u8 == 0u8) == (p.path.len() > 0),
{
    lemma_frame_layout(p);
    let f = ax25_frame(p);
    let s = f.subrange(7, 14);
    lemma_address_roundtrip(p.source, p.path.len() == 0);
    assert(s[6] == f[13]);
}

/// A digipeater address ends the address field if and only if it is the last.
proof fn lemma_hop_end_mark(p: PacketView, j: int)
    requires
        0 <= j < p.path.len(),
        p.path[j].valid(),
    ensures
        (ax25_frame(p)[20 + 7 * j] & 0x01u8 == 0u8) == (j + 1 < p.path.len()),
{
    lemma_frame_hop(p, j);
    let f = ax25_frame(p);
    let a = f.subrange(14 + 7 * j, 21 + 7 * j);
    lemma_address_roundtrip(p.path[j], j + 1 == p.path.len());
    assert(a[6] == f[20 + 7 * j]);
}

/// The last bit of the byte before the `j`-th digipeater address of a frame says
/// whether that address is there.
proof fn lemma_end_mark(p: PacketView, j: int)
    requires
        p.well_formed(),
        0 <= j <= p.path.len(),
    ensures
        (ax25_frame(p)[13 + 7 * j] & 0x01u8 == 0u8) == (j < p.path.len()),
{
    if j == 0 {
        lemma_source_end_mark(p);
    } else {
        assert(p.path[j - 1].valid());
        lemma_hop_end_mark(p, j - 1);
        assert(20 + 7 * (j - 1) == 13 + 7 * j);
    }
}

/// In the frame of a packet with legal, unused hops, the digipeater addresses from
/// the `j`-th on read as the text of the hops from the `j`-th on, and end where
/// control and PID stand.
proof fn lemma_digis(p: PacketView, j: int)
    requires
        p.well_formed(),
        forall|i: int| 0 <= i < p.path.len() ==> !(#[trigger] p.path[i]).digipeated,
        0 <= j <= p.path.len(),
    ensures
        digis_text(ax25_frame(p), 14 + 7 * j) == hops_text(
            p.path.subrange(j, p.path.len() as int),
        ),
        digis_end(ax25_frame(p), 14 + 7 * j) == 14 + 7 * p.path.len(),
    decreases p.path.len() - j,
{
    let k = p.path.len() as int;
    let f = ax25_frame(p);
    let i = 14 + 7 * j;
    lemma_frame_layout(p);
    lemma_end_mark(p, j);
    assert(f[i - 1] == f[13 + 7 * j]);
    if j == k {
        assert(!digi_follows(f, i));
        assert(p.path.subrange(j, k) =~= Seq::<CallSignView>::empty());
        assert(hops_text(p.path.subrange(j, k)) =~= Seq::<char>::empty());
    } else {
        lemma_frame_hop(p, j);
        assert(digi_follows(f, i));
        let a = f.subrange(i, i + 7);
        assert(a == f.subrange(14 + 7 * j, 21 + 7 * j));
        assert(a == address_of(p.path[j], j + 1 == k));
        assert(p.path[j].valid());
        lemma_address_roundtrip(p.path[j], j + 1 == k);
        lemma_digis(p, j + 1);
        let rest = p.path.subrange(j, k);
        lemma_hops_text_front(rest);
        assert(rest.drop_first() =~= p.path.subrange(j + 1, k));
        assert(rest[0] == p.path[j]);
        assert(!p.path[j].digipeated);
        assert(p.path[j].text() == p.path[j].name());
        assert(digis_text(f, i) == seq![','] + digi_text(a) + digis_text(f, i + 7));
        assert(i + 7 == 14 + 7 * (j + 1));
    }
}

/// The frame of a packet with legal, unused callsigns reads as the packet's text.
proof fn lemma_frame_text(p: PacketView)
    requires
        p.well_formed(),
        !p.source.digipeated,
        !p.destination.digipeated,
        forall|i: int| 0 <= i < p.path.len() ==> !(#[trigger] p.path[i]).digipeated,
    ensures
        ax25_text(ax25_frame(p)) == Some(p.text()),
{
    let k = p.path.len() as int;
    let f = ax25_frame(p);
    let info = encode_utf8(p.information);
    let e = 14 + 7 * k;
    lemma_frame_layout(p);
    assert(address_text(f.subrange(7, 14)) == p.source.text()) by {
        lemma_address_roundtrip(p.source, k == 0);
    }
    assert(address_text(f.subrange(0, 7)) == p.destination.text()) by {
        lemma_address_roundtrip(p.destination, false);
    }
    assert(digis_text(f, 14) == hops_text(p.path) && digis_end(f, 14) == e) by {
        lemma_digis(p, 0);
        assert(p.path.subrange(0, k) =~= p.path);
    }
    assert(payload_text(f, e) == seq![':'] + p.information) by {
        encode_utf8_valid_utf8(p.information);
        encode_utf8_decode_utf8(p.information);
        assert(bytes_text(info) == p.information);
        assert(f.subrange(e + 2, f.len() as int) == info);
    }
    assert(f.len() >= MIN_FRAME);
    assert(ax25_text(f)->0 =~= p.text());
}

/// Decoding what was encoded gives the packet back: for every packet with legal
/// callsigns that carry no used-marker, whose data type is the one its information
/// field announces, the frame reads as the packet's textual form, and the text
/// parser reads that as the packet, raw bytes aside. (The frame has no place for a
/// used-marker, so a hop that carries one comes back without it.)
pub proof fn law_ax25_roundtrip(p: PacketView)
    requires
        p.well_formed(),
        !p.source.digipeated,
        !p.destination.digipeated,
        forall|i: int| 0 <= i < p.path.len() ==> !(#[trigger] p.path[i]).digipeated,
    ensures
        ax25_text(ax25_frame(p)) == Some(p.text()),
        parse_line(ax25_text(ax25_frame(p))->0, p.timestamp) == Ok::<PacketView, ParseError>(
            PacketView { raw: None, ..p },
        ),
{
    lemma_frame_text(p);
    law_parse_format_roundtrip(p);
}

} // verus!
