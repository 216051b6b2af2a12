//! KISS framing: frames between `0xC0` bytes, with two escape sequences.

use bytes::BytesMut;
use vstd::prelude::*;

verus! {

/// Frame end.
pub const KISS_FEND: u8 = 0xC0;

/// Frame escape.
pub const KISS_FESC: u8 = 0xDB;

/// Behind an escape: a frame-end byte in the data.
pub const KISS_TFEND: u8 = 0xDC;

/// Behind an escape: an escape byte in the data.
pub const KISS_TFESC: u8 = 0xDD;

/// The command of a data frame.
pub const KISS_CMD_DATA: u8 = 0x00;

/// The growable byte buffer of the `bytes` crate; opaque here.
#[verifier::external_type_specification]
#[verifier::external_body]
pub struct ExBytesMut(BytesMut);

/// An I/O error of the standard library; opaque here.
#[verifier::external_type_specification]
#[verifier::external_body]
pub struct ExIoError(std::io::Error);

/// The bytes that a buffer holds, the next to be read first.
pub uninterp spec fn contents(buf: BytesMut) -> Seq<u8>;

/// An empty buffer, made by `BytesMut::with_capacity`.
#[verifier::external_body]
fn buffer_with_capacity(capacity: usize) -> (buf: BytesMut)
    ensures
        contents(buf) == Seq::<u8>::empty(),
{
    BytesMut::with_capacity(capacity)
}

/// Whether the buffer holds a byte, by `Buf::has_remaining`.
#[verifier::external_body]
fn has_remaining(buf: &BytesMut) -> (r: bool)
    ensures
        r == (contents(*buf).len() > 0),
{
    bytes::Buf::has_remaining(buf)
}

/// Takes the first byte out of the buffer, by `Buf::get_u8`, which panics on an
/// empty buffer.
#[verifier::external_body]
fn get_u8(buf: &mut BytesMut) -> (byte: u8)
    requires
        contents(*old(buf)).len() > 0,
    ensures
        byte == contents(*old(buf))[0],
        contents(*final(buf)) == contents(*old(buf)).drop_first(),
{
    bytes::Buf::get_u8(buf)
}

/// Adds a byte at the end of the buffer, by `BufMut::put_u8`.
#[verifier::external_body]
fn put_u8(buf: &mut BytesMut, byte: u8)
    ensures
        contents(*final(buf)) == contents(*old(buf)).push(byte),
{
    bytes::BufMut::put_u8(buf, byte)
}

/// Empties the buffer, by `BytesMut::clear`.
#[verifier::external_body]
fn clear(buf: &mut BytesMut)
    ensures
        contents(*final(buf)) == Seq::<u8>::empty(),
{
    buf.clear()
}

/// Whether the buffer holds nothing, by `BytesMut::is_empty`.
#[verifier::external_body]
fn is_empty(buf: &BytesMut) -> (r: bool)
    ensures
        r == (contents(*buf).len() == 0),
{
    buf.is_empty()
}

/// Takes all bytes out of the buffer into a new one, by `BytesMut::split`.
#[verifier::external_body]
fn split(buf: &mut BytesMut) -> (taken: BytesMut)
    ensures
        contents(taken) == contents(*old(buf)),
        contents(*final(buf)) == Seq::<u8>::empty(),
{
    buf.split()
}

/// The bytes of the buffer as a vector, by `to_vec` on its slice.
#[verifier::external_body]
fn to_vec(buf: &BytesMut) -> (bytes: Vec<u8>)
    ensures
        bytes@ == contents(*buf),
{
    buf.to_vec()
}

/// A KISS decoder and encoder. The decoder keeps what it has read of a frame that is
/// not complete yet.
pub struct KissCodec {
    decode_buf: BytesMut,
    in_frame: bool,
    escaped: bool,
}

/// The state of the decoder.
pub struct KissState {
    /// The bytes of the frame read so far, escapes resolved.
    pub buffer: Seq<u8>,
    /// A frame end was read and the frame behind it is not complete.
    pub in_frame: bool,
    /// The last byte was an escape.
    pub escaped: bool,
}

/// The state before anything is read, and after a frame is complete or abandoned.
pub open spec fn idle() -> KissState {
    KissState { buffer: Seq::empty(), in_frame: false, escaped: false }
}

/// What one byte does to the decoder: the state afterwards, and the data of the
/// frame that this byte completes, if it completes one.
///
/// Behind an escape, `0xDC` stands for `0xC0` and `0xDD` for `0xDB`; any other byte
/// abandons the frame. A frame end closes a frame that has bytes, and opens one
/// otherwise. A complete frame is surfaced if its first byte is 0, which is the data
/// command on port 0, and data follows it; the data is the frame without that byte.
pub open spec fn step(s: KissState, byte: u8) -> (KissState, Option<Seq<u8>>) {
    if s.escaped {
        if byte == KISS_TFEND {
            (KissState { buffer: s.buffer.push(KISS_FEND), escaped: false, ..s }, None)
        } else if byte == KISS_TFESC {
            (KissState { buffer: s.buffer.push(KISS_FESC), escaped: false, ..s }, None)
        } else {
            (idle(), None)
        }
    } else if byte == KISS_FEND {
        if s.in_frame && s.buffer.len() > 0 {
            if s.buffer[0] == KISS_CMD_DATA && s.buffer.len() > 1 {
                (idle(), Some(s.buffer.subrange(1, s.buffer.len() as int)))
            } else {
                (idle(), None)
            }
        } else {
            (KissState { buffer: Seq::empty(), in_frame: true, escaped: false }, None)
        }
    } else if byte == KISS_FESC {
        if s.in_frame {
            (KissState { escaped: true, ..s }, None)
        } else {
            (s, None)
        }
    } else {
        if s.in_frame {
            (KissState { buffer: s.buffer.push(byte), ..s }, None)
        } else {
            (s, None)
        }
    }
}

/// Reading `input` up to the first complete data frame: the state afterwards, the
/// input that is left, and the frame's data, or none if the input ends first.
pub open spec fn run(s: KissState, input: Seq<u8>) -> (KissState, Seq<u8>, Option<Seq<u8>>)
    decreases input.len(),
{
    if input.len() == 0 {
        (s, input, None)
    } else {
        let (next, out) = step(s, input[0]);
        if out is Some {
            (next, input.drop_first(), out)
        } else {
            run(next, input.drop_first())
        }
    }
}

/// One byte of data as it stands in a frame.
pub open spec fn escape_byte(byte: u8) -> Seq<u8> {
    if byte == KISS_FEND {
        seq![KISS_FESC, KISS_TFEND]
    } else if byte == KISS_FESC {
        seq![KISS_FESC, KISS_TFESC]
    } else {
        seq![byte]
    }
}

/// Data as it stands in a frame.
pub open spec fn escape(data: Seq<u8>) -> Seq<u8>
    decreases data.len(),
{
    if data.len() == 0 {
        Seq::empty()
    } else {
        escape_byte(data[0]) + escape(data.drop_first())
    }
}

/// The first byte of a data frame for a port: the port in the high four bits.
pub open spec fn port_byte(port: u8) -> u8 {
    ((port as int % 16) * 16) as u8
}

/// A data frame: frame end, port and command, the data escaped, frame end.
pub open spec fn frame(data: Seq<u8>, port: u8) -> Seq<u8> {
    seq![KISS_FEND, port_byte(port)] + escape(data) + seq![KISS_FEND]
}

/// Escaping data with one more byte at the end adds that byte, escaped, at the end.
pub proof fn lemma_escape_push(data: Seq<u8>, byte: u8)
    ensures
        escape(data.push(byte)) == escape(data) + escape_byte(byte),
    decreases data.len(),
{
    if data.len() == 0 {
        let one = data.push(byte);
        assert(one.drop_first() =~= Seq::empty());
        assert(one[0] == byte);
        assert(escape(one.drop_first()) =~= Seq::empty());
        assert(escape(data) =~= Seq::empty());
        assert(escape(one) == escape_byte(byte) + escape(one.drop_first()));
        assert(escape(one) =~= escape(data) + escape_byte(byte));
    } else {
        lemma_escape_push(data.drop_first(), byte);
        assert(data.push(byte).drop_first() =~= data.drop_first().push(byte));
        assert(escape(data.push(byte)) =~= escape(data) + escape_byte(byte));
    }
}

impl View for KissCodec {
    type V = KissState;

    closed spec fn view(&self) -> KissState {
        KissState {
            buffer: contents(self.decode_buf),
            in_frame: self.in_frame,
            escaped: self.escaped,
        }
    }
}

impl KissCodec {
    /// A codec that has read nothing.
    pub fn new() -> (r: Self)
        ensures
            r@ == idle(),
    {
        KissCodec { decode_buf: buffer_with_capacity(1024), in_frame: false, escaped: false }
    }

    /// Reads bytes from `src` up to the end of the first complete data frame and
    /// returns the frame's data, or reads all of `src` and returns none. What was
    /// read is taken out of `src`. Never fails.
    pub fn decode(&mut self, src: &mut BytesMut) -> (r: Result<Option<Vec<u8>>, std::io::Error>)
        ensures
            r is Ok,
            (final(self)@, contents(*final(src)), match r->Ok_0 {
                Some(data) => Some(data@),
                None => None,
            }) == run(old(self)@, contents(*old(src))),
    {
        while has_remaining(src)
            invariant
                run(self@, contents(*src)) == run(old(self)@, contents(*old(src))),
            decreases contents(*src).len(),
        {
            let ghost before = self@;
            let ghost input = contents(*src);
            let byte = get_u8(src);
            if self.escaped {
                self.escaped = false;
                if byte == KISS_TFEND {
                    put_u8(&mut self.decode_buf, KISS_FEND);
                } else if byte == KISS_TFESC {
                    put_u8(&mut self.decode_buf, KISS_FESC);
                } else {
                    clear(&mut self.decode_buf);
                    self.in_frame = false;
                }
            } else if byte == KISS_FEND {
                if self.in_frame && !is_empty(&self.decode_buf) {
                    let taken = split(&mut self.decode_buf);
                    let whole = to_vec(&taken);
                    self.in_frame = false;
                    if whole[0] == KISS_CMD_DATA && whole.len() > 1 {
                        let mut data: Vec<u8> = Vec::new();
                        let mut i: usize = 1;
                        while i < whole.len()
                            invariant
                                1 <= i <= whole.len(),
                                data@ == whole@.subrange(1, i as int),
                            decreases whole.len() - i,
                        {
                            data.push(whole[i]);
                            i += 1;
                            assert(data@ =~= whole@.subrange(1, i as int));
                        }
                        assert(self@ == step(before, byte).0);
                        return Ok(Some(data));
                    }
                } else {
                    self.in_frame = true;
                    clear(&mut self.decode_buf);
                }
            } else if byte == KISS_FESC {
                if self.in_frame {
                    self.escaped = true;
                }
            } else {
                if self.in_frame {
                    put_u8(&mut self.decode_buf, byte);
                }
            }
            assert(self@ == step(before, byte).0);
            assert(step(before, byte).1 is None);
        }
        Ok(None)
    }

    /// The data frame that carries `data` for `port`.
    pub fn encode(&self, data: &[u8], port: u8) -> (out: Vec<u8>)
        ensures
            out@ == frame(data@, port),
    {
        let mut output: Vec<u8> = Vec::new();
        output.push(KISS_FEND);
        output.push((port % 16) * 16);
        let ghost head = output@;
        let mut i: usize = 0;
        assert(data@.subrange(0, 0) =~= Seq::empty());
        while i < data.len()
            invariant
                i <= data.len(),
                output@ == head + escape(data@.subrange(0, i as int)),
            decreases data.len() - i,
        {
            let byte = data[i];
            proof {
                lemma_escape_push(data@.subrange(0, i as int), byte);
                assert(data@.subrange(0, i as int).push(byte) =~= data@.subrange(0, i + 1));
            }
            if byte == KISS_FEND {
                output.push(KISS_FESC);
                output.push(KISS_TFEND);
            } else if byte == KISS_FESC {
                output.push(KISS_FESC);
                output.push(KISS_TFESC);
            } else {
                output.push(byte);
            }
            assert(output@ =~= head + escape(data@.subrange(0, i as int)) + escape_byte(byte));
            i += 1;
        }
        assert(data@.subrange(0, i as int) =~= data@);
        output.push(KISS_FEND);
        assert(output@ =~= frame(data@, port));
        output
    }
}

// ---------------------------------------------------------------------------
// Laws
// ---------------------------------------------------------------------------
/// Reading escaped data inside a frame adds the data to the frame and completes nothing.
pub proof fn lemma_run_escaped(s: KissState, data: Seq<u8>, rest: Seq<u8>)
    requires
        s.in_frame,
        !s.escaped,
    ensures
        run(s, escape(data) + rest) == run(KissState { buffer: s.buffer + data, ..s }, rest),
    decreases data.len(),
{
    if data.len() == 0 {
        assert(escape(data) + rest =~= rest);
        assert(s.buffer + data =~= s.buffer);
    } else {
        let byte = data[0];
        let tail = data.drop_first();
        let input = escape(data) + rest;
        let after = KissState { buffer: s.buffer.push(byte), ..s };
        if byte == KISS_FEND || byte == KISS_FESC {
            assert(input[0] == KISS_FESC);
            let mid = step(s, input[0]).0;
            assert(mid == KissState { escaped: true, ..s });
            let input1 = input.drop_first();
            assert(input1[0] == if byte == KISS_FEND {
                KISS_TFEND
            } else {
                KISS_TFESC
            });
            assert(step(mid, input1[0]).0 == after);
            assert(input1.drop_first() =~= escape(tail) + rest);
            assert(run(s, input) == run(mid, input1));
            assert(run(mid, input1) == run(after, escape(tail) + rest));
        } else {
            assert(input[0] == byte);
            assert(step(s, byte).0 == after);
            assert(input.drop_first() =~= escape(tail) + rest);
        }
        lemma_run_escaped(after, tail, rest);
        assert(after.buffer + tail =~= s.buffer + data);
    }
}

/// Decoding what was encoded gives the data back: a decoder that has read nothing
/// and reads the frame of non-empty `data` for port 0 returns `data`, has read all
/// of the frame, and is idle again. (A frame without data is discarded.)
pub proof fn law_kiss_roundtrip(data: Seq<u8>)
    requires
        data.len() > 0,
    ensures
        run(idle(), frame(data, 0)) == (idle(), Seq::<u8>::empty(), Some(data)),
{
    let input = frame(data, 0);
    let opened = KissState { buffer: Seq::empty(), in_frame: true, escaped: false };
    let started = KissState { buffer: seq![0u8], in_frame: true, escaped: false };
    assert(port_byte(0) == 0);
    assert(input[0] == KISS_FEND);
    assert(step(idle(), input[0]) == (opened, None::<Seq<u8>>));
    let input1 = input.drop_first();
    assert(input1[0] == 0u8);
    assert(step(opened, 0u8).0.buffer =~= seq![0u8]);
    assert(step(opened, 0u8) == (started, None::<Seq<u8>>));
    let input2 = input1.drop_first();
    assert(input2 =~= escape(data) + seq![KISS_FEND]);
    assert(run(idle(), input) == run(opened, input1));
    assert(run(opened, input1) == run(started, input2));
    lemma_run_escaped(started, data, seq![KISS_FEND]);
    let full = KissState { buffer: seq![0u8] + data, in_frame: true, escaped: false };
    let last = seq![KISS_FEND];
    assert(full.buffer[0] == 0u8);
    assert(full.buffer.subrange(1, full.buffer.len() as int) =~= data);
    assert(step(full, last[0]) == (idle(), Some(data)));
    assert(last.drop_first() =~= Seq::<u8>::empty());
}

} // verus!
