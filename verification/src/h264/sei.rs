//! Supplemental enhancement information: a list of messages, each with a
//! type, a size and payload bytes. Type and size are coded as a run of
//! `0xFF` bytes (each adding 255) ended by a byte below `0xFF`.

use vstd::prelude::*;
use crate::bitstream::{
    BitstreamReader, BitstreamWriter, bytes_bits, byte_bit, u32_bits, read_bits_spec,
    has_more_rbsp_data_spec, lemma_bytes_bits_push, lemma_u32_bits_byte,
};
use crate::h264::error::Error;
use crate::h264::syntax::{read_u, rbsp_bits};

verus! {

/// One SEI message.
#[derive(Debug)]
pub struct SeiMessage {
    pub payload_type: u32,
    pub payload_size: u32,
    pub payload: Vec<u8>,
}

/// SEI RBSP: the messages in order.
#[derive(Debug)]
pub struct Sei {
    pub sei_message: Vec<SeiMessage>,
}

/// Reading a `0xFF`-run coded number at bit position `p`: the number and
/// the position after it.
pub open spec fn ff_parse_spec(s: Seq<bool>, p: nat) -> Result<(nat, nat), Error>
    decreases s.len() - p,
{
    if p + 8 > s.len() {
        Err(Error::DataTooShort)
    } else {
        let b = read_bits_spec(s, p, 8)->Ok_0.0;
        if b == 0xFF {
            match ff_parse_spec(s, p + 8) {
                Ok((v, q)) => Ok((v + 255, q)),
                Err(e) => Err(e),
            }
        } else {
            Ok((b as nat, p + 8))
        }
    }
}

/// The `0xFF`-run code of a number.
pub open spec fn ff_bits(v: nat) -> Seq<bool>
    decreases v,
{
    if v >= 255 {
        u32_bits(0xFF, 8) + ff_bits((v - 255) as nat)
    } else {
        u32_bits(v as u32, 8)
    }
}

/// Reading one message at bit position `p`: type, size, and the bit range
/// of the payload (`size` bytes).
pub open spec fn sei_message_parse_spec(s: Seq<bool>, p: nat) -> Result<(nat, nat, nat, nat), Error> {
    match ff_parse_spec(s, p) {
        Err(e) => Err(e),
        Ok((t, p1)) => match ff_parse_spec(s, p1) {
            Err(e) => Err(e),
            Ok((size, p2)) => if p2 + 8 * size > s.len() {
                Err(Error::DataTooShort)
            } else {
                Ok((t, size, p2, p2 + 8 * size))
            },
        },
    }
}

/// The syntax bits of one message.
pub open spec fn sei_message_bits(t: nat, size: nat, payload: Seq<u8>) -> Seq<bool> {
    ff_bits(t) + ff_bits(size) + bytes_bits(payload)
}

/// Reading messages at bit position `p` of the RBSP `d` while RBSP data
/// remains: for each, type, size and payload bit range.
pub open spec fn sei_parse_spec(d: Seq<u8>, p: nat) -> Result<Seq<(nat, nat, nat, nat)>, Error>
    decreases d.len() * 8 - p,
{
    if !has_more_rbsp_data_spec(d, p) {
        Ok(Seq::empty())
    } else {
        match sei_message_parse_spec(bytes_bits(d), p) {
            Err(e) => Err(e),
            Ok(m) => if m.3 <= p {
                Err(Error::DataTooShort)
            } else {
                match sei_parse_spec(d, m.3) {
                    Err(e) => Err(e),
                    Ok(rest) => Ok(seq![m] + rest),
                }
            },
        }
    }
}

/// `pre` followed by the models of a parse result.
pub open spec fn prepend_models(pre: Seq<(nat, nat, nat, nat)>, r: Result<Seq<(nat, nat, nat, nat)>, Error>) -> Result<Seq<(nat, nat, nat, nat)>, Error> {
    match r {
        Ok(rest) => Ok(pre + rest),
        Err(e) => Err(e),
    }
}

/// A message holds the parsed model `m` of bits `s`.
pub open spec fn sei_message_is(msg: SeiMessage, s: Seq<bool>, m: (nat, nat, nat, nat)) -> bool {
    &&& msg.payload_type == m.0
    &&& msg.payload_size == m.1
    &&& bytes_bits(msg.payload@) == s.subrange(m.2 as int, m.3 as int)
}

/// The syntax bits of all messages, in order.
pub open spec fn sei_messages_bits(ms: Seq<SeiMessage>) -> Seq<bool>
    decreases ms.len(),
{
    if ms.len() == 0 {
        Seq::empty()
    } else {
        sei_messages_bits(ms.drop_last()) + sei_message_bits(
            ms.last().payload_type as nat,
            ms.last().payload_size as nat,
            ms.last().payload@,
        )
    }
}

/// A `0xFF`-run code read at `p` consumes at least one byte.
proof fn lemma_ff_parse_advances(s: Seq<bool>, p: nat)
    requires
        ff_parse_spec(s, p) is Ok,
    ensures
        ff_parse_spec(s, p)->Ok_0.1 >= p + 8,
        ff_parse_spec(s, p)->Ok_0.1 <= s.len(),
    decreases s.len() - p,
{
    if read_bits_spec(s, p, 8)->Ok_0.0 == 0xFF {
        lemma_ff_parse_advances(s, p + 8);
    }
}

/// Write a number as a `0xFF`-run code.
fn write_ff(writer: &mut BitstreamWriter, v: u32)
    ensures
        final(writer).bits() == old(writer).bits() + ff_bits(v as nat),
{
    let mut t = v;
    while t >= 255
        invariant
            writer.bits() + ff_bits(t as nat) == old(writer).bits() + ff_bits(v as nat),
        decreases t,
    {
        let ghost before = writer.bits();
        writer.write_bits(0xFF, 8);
        proof {
            assert(ff_bits(t as nat) == u32_bits(0xFF, 8) + ff_bits((t - 255) as nat));
            assert(before + ff_bits(t as nat) =~= writer.bits() + ff_bits((t - 255) as nat));
        }
        t = t - 255;
    }
    writer.write_bits(t, 8);
}

/// Write all bytes, eight bits each.
fn write_bytes(writer: &mut BitstreamWriter, data: &Vec<u8>)
    ensures
        final(writer).bits() == old(writer).bits() + bytes_bits(data@),
{
    let mut i: usize = 0;
    while i < data.len()
        invariant
            i <= data@.len(),
            writer.bits() == old(writer).bits() + bytes_bits(data@.subrange(0, i as int)),
        decreases data@.len() - i,
    {
        let b = data[i];
        writer.write_bits(b as u32, 8);
        proof {
            lemma_u32_bits_byte(b);
            lemma_bytes_bits_push(data@.subrange(0, i as int), b);
            assert(data@.subrange(0, i as int).push(b) =~= data@.subrange(0, i + 1));
            assert(writer.bits() =~= old(writer).bits() + bytes_bits(data@.subrange(0, i + 1)));
        }
        i = i + 1;
    }
    assert(data@.subrange(0, data@.len() as int) =~= data@);
}

/// Read a `0xFF`-run coded number. The input holds at most
/// `u32::MAX / 255` bytes, so the running sum never overflows 32 bits.
fn read_ff(reader: &mut BitstreamReader) -> (r: Result<u32, Error>)
    requires
        old(reader).bytes().len() <= 0x0101_0101,
    ensures
        final(reader).bytes() == old(reader).bytes(),
        match ff_parse_spec(old(reader).bits(), old(reader).pos()) {
            Ok((v, q)) => r == Ok::<u32, Error>(v as u32) && v <= u32::MAX && final(reader).pos() == q,
            Err(e) => r == Err::<u32, Error>(e),
        },
{
    let ghost s = old(reader).bits();
    let ghost p0 = old(reader).pos();
    let _ = reader.remaining_bits();
    let mut value: u32 = 0;
    loop
        invariant
            reader.bytes() == old(reader).bytes(),
            s == reader.bits(),
            s == old(reader).bits(),
            p0 == old(reader).pos(),
            s.len() == reader.bytes().len() * 8,
            reader.bytes().len() <= 0x0101_0101,
            p0 <= reader.pos() <= s.len(),
            (reader.pos() - p0) % 8 == 0,
            value == 255 * ((reader.pos() - p0) / 8),
            ff_parse_spec(s, p0) == match ff_parse_spec(s, reader.pos()) {
                Ok((v, q)) => Ok::<(nat, nat), Error>(((v + value) as nat, q)),
                Err(e) => Err::<(nat, nat), Error>(e),
            },
        decreases s.len() - reader.pos(),
    {
        let ghost p = reader.pos();
        let byte = match read_u(reader, 8) {
            Ok(b) => b,
            Err(e) => {
                proof {
                    assert(p + 8 > s.len());
                    assert(ff_parse_spec(s, p) == Err::<(nat, nat), Error>(Error::DataTooShort));
                }
                return Err(e);
            },
        };
        proof {
            vstd::arithmetic::power2::lemma2_to64();
            crate::bitstream::lemma_read_bits_consumed(s, p, 8);
            crate::bitstream::lemma_u32_bits_seq_val(s.subrange(p as int, (p + 8) as int));
            crate::bitstream::lemma_seq_val_bound(s.subrange(p as int, (p + 8) as int));
        }
        if byte == 0xFF {
            proof {
                assert((reader.pos() - p0) / 8 == (p - p0) / 8 + 1);
                assert((p - p0) / 8 < 0x0101_0101);
            }
            value = value + 255;
        } else {
            proof {
                assert((p - p0) / 8 < 0x0101_0101);
                assert(ff_parse_spec(s, p) == Ok::<(nat, nat), Error>((byte as nat, p + 8)));
            }
            return Ok(value + byte);
        }
    }
}

impl SeiMessage {
    /// Write the type and size codes and the payload bytes.
    pub fn to_bytes(&self, writer: &mut BitstreamWriter)
        ensures
            final(writer).bits() == old(writer).bits() + sei_message_bits(
                self.payload_type as nat,
                self.payload_size as nat,
                self.payload@,
            ),
    {
        write_ff(writer, self.payload_type);
        write_ff(writer, self.payload_size);
        write_bytes(writer, &self.payload);
        assert(writer.bits() =~= old(writer).bits() + sei_message_bits(
            self.payload_type as nat,
            self.payload_size as nat,
            self.payload@,
        ));
    }

    /// Read one message (the input holds at most `u32::MAX / 255` bytes,
    /// so its 32-bit type and size sums cannot overflow).
    pub fn parse(reader: &mut BitstreamReader) -> (r: Result<Self, Error>)
        requires
            old(reader).bytes().len() <= 0x0101_0101,
        ensures
            final(reader).bytes() == old(reader).bytes(),
            match sei_message_parse_spec(old(reader).bits(), old(reader).pos()) {
                Ok(m) => r matches Ok(msg) && sei_message_is(msg, old(reader).bits(), m)
                    && final(reader).pos() == m.3,
                Err(e) => r matches Err(x) && x == e,
            },
    {
        let payload_type = read_ff(reader)?;
        let payload_size = read_ff(reader)?;
        let size = payload_size as usize;
        let payload = match reader.read_slice(size) {
            Ok(p) => p,
            Err(_) => return Err(Error::DataTooShort),
        };
        Ok(SeiMessage { payload_type, payload_size, payload })
    }
}

impl Sei {
    /// Serialize all messages, the stop bit and the alignment bits.
    pub fn to_bytes(&self) -> (r: Vec<u8>)
        ensures
            bytes_bits(r@) == rbsp_bits(sei_messages_bits(self.sei_message@)),
    {
        let mut writer = BitstreamWriter::new();
        let mut i: usize = 0;
        while i < self.sei_message.len()
            invariant
                i <= self.sei_message@.len(),
                writer.bits() == sei_messages_bits(self.sei_message@.subrange(0, i as int)),
            decreases self.sei_message@.len() - i,
        {
            self.sei_message[i].to_bytes(&mut writer);
            proof {
                let ms = self.sei_message@.subrange(0, i + 1);
                assert(ms.drop_last() =~= self.sei_message@.subrange(0, i as int));
            }
            i = i + 1;
        }
        assert(self.sei_message@.subrange(0, self.sei_message@.len() as int) =~= self.sei_message@);
        writer.write_bits(1, 1);
        proof {
            crate::bitstream::lemma_u32_bits_one();
        }
        writer.finish()
    }

    /// Parse messages while RBSP data remains (the input holds at most
    /// `u32::MAX / 255` bytes, so its 32-bit type and size sums cannot
    /// overflow).
    pub fn parse(data: &[u8]) -> (r: Result<Self, Error>)
        requires
            data@.len() <= 0x0101_0101,
        ensures
            match sei_parse_spec(data@, 0) {
                Ok(ms) => r matches Ok(sei) && sei.sei_message@.len() == ms.len() && forall|k: int|
                    0 <= k < ms.len() ==> sei_message_is(#[trigger] sei.sei_message@[k], bytes_bits(data@), ms[k]),
                Err(e) => r matches Err(x) && x == e,
            },
    {
        let mut reader = BitstreamReader::new(data);
        let mut sei_message: Vec<SeiMessage> = Vec::new();
        let ghost s = bytes_bits(data@);
        let ghost mut done: Seq<(nat, nat, nat, nat)> = Seq::empty();
        assert(done + Seq::<(nat, nat, nat, nat)>::empty() =~= Seq::<(nat, nat, nat, nat)>::empty());
        while reader.has_more_rbsp_data()
            invariant
                reader.bytes() == data@,
                s == bytes_bits(data@),
                data@.len() <= 0x0101_0101,
                sei_message@.len() == done.len(),
                forall|k: int| 0 <= k < done.len() ==> sei_message_is(#[trigger] sei_message@[k], s, done[k]),
                sei_parse_spec(data@, 0) == prepend_models(done, sei_parse_spec(data@, reader.pos())),
            decreases data@.len() * 8 - reader.pos(),
        {
            let ghost p = reader.pos();
            let msg = SeiMessage::parse(&mut reader)?;
            proof {
                let m = sei_message_parse_spec(s, p)->Ok_0;
                lemma_ff_parse_advances(s, p);
                lemma_ff_parse_advances(s, ff_parse_spec(s, p)->Ok_0.1);
                assert(m.3 > p);
                let rest = sei_parse_spec(data@, m.3);
                assert(sei_parse_spec(data@, p) == prepend_models(seq![m], rest));
                match rest {
                    Ok(x) => { assert(done + (seq![m] + x) =~= done.push(m) + x); },
                    Err(_) => {},
                }
                done = done.push(m);
            }
            sei_message.push(msg);
        }
        assert(done + Seq::<(nat, nat, nat, nat)>::empty() =~= done);
        Ok(Sei { sei_message })
    }
}

} // verus!
