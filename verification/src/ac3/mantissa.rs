//! Mantissa unpacking.
//!
//! Each mantissa is unpacked according to its bit allocation pointer
//! (`bap`). Pointers 1, 2 and 4 use grouped quantizers: one group code
//! carries three (`bap` 1 and 2) or two (`bap` 4) mantissas, and a group is
//! shared by the mantissas of that pointer that follow, across channels.
//! Every unpacked mantissa records a write action, so that the mantissas
//! can be written back bit for bit.

use vstd::prelude::*;
use crate::ac3::error::Error;
use crate::bitstream::{BitstreamReader, BitstreamWriter, read_bits_spec, u32_bits, lemma_read_bits_consumed, lemma_add_assoc};

verus! {

/// Write action recorded for one mantissa.
#[derive(Debug, Clone, Copy, PartialEq, Eq, Structural)]
pub enum MantissaWriteAction {
    /// No bits (`bap` 0).
    NoOp,
    /// The group code, at the first mantissa of a group.
    WriteGroup { code: u32, bits: u8 },
    /// A later mantissa of a group: its bits came with the group code.
    Skip,
    /// A mantissa coded on its own.
    WriteSingle { code: u32, bits: u8 },
}

/// Unpacked mantissas of one audio block and the write actions that
/// reproduce their bits.
#[derive(Debug)]
pub struct QuantizedMantissaValues {
    /// One list per full-bandwidth channel.
    pub chmant: Vec<Vec<i32>>,
    /// The coupling channel, if any.
    pub cplmant: Option<Vec<i32>>,
    /// The low-frequency effects channel, if any.
    pub lfemant: Option<Vec<i32>>,
    /// One action per mantissa, in bitstream order.
    pub write_actions: Vec<MantissaWriteAction>,
}

/// State of the grouped quantizers: the values of the current group of
/// each grouped pointer, the index of the next one to hand out (3, or 2
/// for `bap` 4, when a new group must be read), and the group code.
pub struct GroupedQuantizer {
    q1_codes: [i32; 3],
    q1_idx: usize,
    q1_gc: i32,
    q2_codes: [i32; 3],
    q2_idx: usize,
    q2_gc: i32,
    q4_codes: [i32; 2],
    q4_idx: usize,
    q4_gc: i32,
}

/// Model of one grouped quantizer: values of the current group, index of
/// the next value, and group code.
pub struct GroupView {
    pub codes: Seq<i32>,
    pub idx: nat,
    pub gc: i32,
}

/// Model of the grouped quantizers of pointers 1, 2 and 4.
pub struct GqView {
    pub q1: GroupView,
    pub q2: GroupView,
    pub q4: GroupView,
}

impl View for GroupedQuantizer {
    type V = GqView;

    closed spec fn view(&self) -> GqView {
        GqView {
            q1: GroupView { codes: self.q1_codes@, idx: self.q1_idx as nat, gc: self.q1_gc },
            q2: GroupView { codes: self.q2_codes@, idx: self.q2_idx as nat, gc: self.q2_gc },
            q4: GroupView { codes: self.q4_codes@, idx: self.q4_idx as nat, gc: self.q4_gc },
        }
    }
}

/// The group of three 3-level values in a 5-bit code.
pub open spec fn q1_group(gc: i32) -> Seq<i32> {
    seq![(gc / 9 - 1) as i32, ((gc % 9) / 3 - 1) as i32, (gc % 3 - 1) as i32]
}

/// The group of three 5-level values in a 7-bit code.
pub open spec fn q2_group(gc: i32) -> Seq<i32> {
    seq![(gc / 25 - 2) as i32, ((gc % 25) / 5 - 2) as i32, (gc % 5 - 2) as i32]
}

/// The group of two 11-level values in a 7-bit code.
pub open spec fn q4_group(gc: i32) -> Seq<i32> {
    seq![(gc / 11 - 5) as i32, (gc % 11 - 5) as i32]
}

/// A/52 7.3.5: grouped mantissa codes pack their values in a base equal
/// to the number of levels, the first value most significant: a 5-bit
/// code `9 m1 + 3 m2 + m3` of three 3-level values, a 7-bit code
/// `25 m1 + 5 m2 + m3` of three 5-level values, a 7-bit code `11 m1 + m2`
/// of two 11-level values, each `m` being the level index; the values
/// are the level indices centred on 0. Ungrouped pointers 6 to 15 offset
/// their codes by half the range of their bits.
pub proof fn lemma_mantissa_groups(gc: i32, bap: u8)
    ensures
        0 <= gc < 27 ==> {
            let r = q1_group(gc);
            &&& -1 <= r[0] <= 1 && -1 <= r[1] <= 1 && -1 <= r[2] <= 1
            &&& 9 * (r[0] + 1) + 3 * (r[1] + 1) + (r[2] + 1) == gc
        },
        0 <= gc < 125 ==> {
            let r = q2_group(gc);
            &&& -2 <= r[0] <= 2 && -2 <= r[1] <= 2 && -2 <= r[2] <= 2
            &&& 25 * (r[0] + 2) + 5 * (r[1] + 2) + (r[2] + 2) == gc
        },
        0 <= gc < 121 ==> {
            let r = q4_group(gc);
            &&& -5 <= r[0] <= 5 && -5 <= r[1] <= 5
            &&& 11 * (r[0] + 5) + (r[1] + 5) == gc
        },
        6 <= bap <= 15 ==> qntz_offset(bap) == vstd::arithmetic::power2::pow2((qntz_bits(bap) - 1) as nat),
{
    vstd::arithmetic::power2::lemma2_to64();
}

/// Mantissa bits of the ungrouped pointers 6 to 15.
pub open spec fn qntz_bits(bap: u8) -> u8 {
    if bap <= 13 { (bap - 1) as u8 } else if bap == 14 { 14 } else { 16 }
}

/// Offset of the ungrouped pointers 6 to 15: half the code range,
/// `2^(bits - 1)`.
pub open spec fn qntz_offset(bap: u8) -> i32 {
    if bap == 6 { 16 } else if bap == 7 { 32 } else if bap == 8 { 64 } else if bap == 9 { 128 }
    else if bap == 10 { 256 } else if bap == 11 { 512 } else if bap == 12 { 1024 }
    else if bap == 13 { 2048 } else if bap == 14 { 8192 } else { 32768 }
}

/// Reading `n` bits, reader errors becoming `Error::Bitstream`.
pub open spec fn ac3_bits(s: Seq<bool>, p: nat, n: nat) -> Result<(u32, nat), Error> {
    match read_bits_spec(s, p, n) {
        Ok(x) => Ok(x),
        Err(e) => Err(Error::Bitstream(e)),
    }
}

/// Handing out the next value of a group of `size` values coded in `bits`
/// bits, reading a new group code first when the group is used up.
pub open spec fn group_step(g: GroupView, s: Seq<bool>, p: nat, size: nat, bits: u8, group: spec_fn(i32) -> Seq<i32>) -> Result<(i32, MantissaWriteAction, GroupView, nat), Error> {
    let r: Result<(GroupView, nat), Error> = if g.idx >= size {
        match ac3_bits(s, p, bits as nat) {
            Err(e) => Err(e),
            Ok((v, q)) => Ok((GroupView { codes: group(v as i32), idx: 0, gc: v as i32 }, q)),
        }
    } else {
        Ok((g, p))
    };
    match r {
        Err(e) => Err(e),
        Ok((g1, q)) => Ok((
            g1.codes[g1.idx as int],
            if g1.idx == 0 { MantissaWriteAction::WriteGroup { code: g1.gc as u32, bits } } else { MantissaWriteAction::Skip },
            GroupView { codes: g1.codes, idx: g1.idx + 1, gc: g1.gc },
            q,
        )),
    }
}

/// Reading a mantissa coded on its own in `bits` bits, offset by `offset`.
pub open spec fn single_step(s: Seq<bool>, p: nat, bits: u8, offset: i32) -> Result<(i32, MantissaWriteAction, nat), Error> {
    match ac3_bits(s, p, bits as nat) {
        Err(e) => Err(e),
        Ok((v, q)) => Ok(((v - offset) as i32, MantissaWriteAction::WriteSingle { code: v, bits }, q)),
    }
}

/// Unpacking one mantissa with pointer `bap`: its value, its write action,
/// the new quantizer state and the next bit position. Pointers above 15
/// are refused.
#[verifier::opaque]
pub open spec fn unpack_spec(g: GqView, s: Seq<bool>, p: nat, bap: u8) -> Result<(i32, MantissaWriteAction, GqView, nat), Error> {
    if bap == 0 {
        Ok((0, MantissaWriteAction::NoOp, g, p))
    } else if bap == 1 {
        match group_step(g.q1, s, p, 3, 5, |gc: i32| q1_group(gc)) {
            Err(e) => Err(e),
            Ok((v, a, q1, q)) => Ok((v, a, GqView { q1, q2: g.q2, q4: g.q4 }, q)),
        }
    } else if bap == 2 {
        match group_step(g.q2, s, p, 3, 7, |gc: i32| q2_group(gc)) {
            Err(e) => Err(e),
            Ok((v, a, q2, q)) => Ok((v, a, GqView { q1: g.q1, q2, q4: g.q4 }, q)),
        }
    } else if bap == 4 {
        match group_step(g.q4, s, p, 2, 7, |gc: i32| q4_group(gc)) {
            Err(e) => Err(e),
            Ok((v, a, q4, q)) => Ok((v, a, GqView { q1: g.q1, q2: g.q2, q4 }, q)),
        }
    } else if bap == 3 {
        match single_step(s, p, 3, 3) {
            Err(e) => Err(e),
            Ok((v, a, q)) => Ok((v, a, g, q)),
        }
    } else if bap == 5 {
        match single_step(s, p, 4, 7) {
            Err(e) => Err(e),
            Ok((v, a, q)) => Ok((v, a, g, q)),
        }
    } else if bap <= 15 {
        match single_step(s, p, qntz_bits(bap), qntz_offset(bap)) {
            Err(e) => Err(e),
            Ok((v, a, q)) => Ok((v, a, g, q)),
        }
    } else {
        Err(Error::InvalidState("invalid bap"))
    }
}

/// The bits that a write action writes.
pub open spec fn action_bits(a: MantissaWriteAction) -> Seq<bool> {
    match a {
        MantissaWriteAction::WriteGroup { code, bits } => u32_bits(code, bits as nat),
        MantissaWriteAction::WriteSingle { code, bits } => u32_bits(code, bits as nat),
        _ => Seq::empty(),
    }
}

/// The bits that write actions write, in order.
pub open spec fn actions_bits(acts: Seq<MantissaWriteAction>) -> Seq<bool>
    decreases acts.len(),
{
    if acts.len() == 0 {
        Seq::empty()
    } else {
        actions_bits(acts.drop_last()) + action_bits(acts.last())
    }
}

/// A write action writes at most 32 bits.
pub open spec fn action_ok(a: MantissaWriteAction) -> bool {
    match a {
        MantissaWriteAction::WriteGroup { bits, .. } => bits <= 32,
        MantissaWriteAction::WriteSingle { bits, .. } => bits <= 32,
        _ => true,
    }
}

/// A successful read of `n <= 32` bits gives a value below `2^n` whose
/// bits are the ones read.
pub proof fn lemma_ac3_bits(s: Seq<bool>, p: nat, n: nat)
    requires
        n <= 32,
        ac3_bits(s, p, n) is Ok,
    ensures
        ac3_bits(s, p, n)->Ok_0.1 == p + n,
        p + n <= s.len(),
        (ac3_bits(s, p, n)->Ok_0.0 as nat) < vstd::arithmetic::power2::pow2(n),
        s.subrange(p as int, (p + n) as int) == u32_bits(ac3_bits(s, p, n)->Ok_0.0, n),
{
    lemma_read_bits_consumed(s, p, n);
    let t = s.subrange(p as int, (p + n) as int);
    crate::bitstream::lemma_seq_val_bound(t);
    if n < 32 {
        vstd::arithmetic::power2::lemma_pow2_strictly_increases(n, 32);
    }
    vstd::arithmetic::power2::lemma2_to64();
    vstd::arithmetic::div_mod::lemma_small_mod(crate::bitstream::seq_val(t), 0x1_0000_0000);
}

/// Read `n` bits.
pub(crate) fn read_bits_ac3(reader: &mut BitstreamReader, n: u8) -> (r: Result<u32, Error>)
    ensures
        final(reader).bytes() == old(reader).bytes(),
        match ac3_bits(old(reader).bits(), old(reader).pos(), n as nat) {
            Ok((v, q)) => r == Ok::<u32, Error>(v) && final(reader).pos() == q,
            Err(e) => r == Err::<u32, Error>(e) && final(reader).pos() == old(reader).pos(),
        },
{
    match reader.read_bits(n) {
        Ok(v) => Ok(v),
        Err(e) => Err(Error::Bitstream(e)),
    }
}

/// `2^(bits - 1)` for the ungrouped pointers 6 to 15.
fn qntz_offset_exec(bap: u8) -> (r: i32)
    requires
        6 <= bap <= 15,
    ensures
        r == qntz_offset(bap),
{
    match bap {
        6 => 16,
        7 => 32,
        8 => 64,
        9 => 128,
        10 => 256,
        11 => 512,
        12 => 1024,
        13 => 2048,
        14 => 8192,
        _ => 32768,
    }
}

impl GroupedQuantizer {
    /// The state of quantizers with no group read yet.
    pub open spec fn new_spec() -> GqView {
        GqView {
            q1: GroupView { codes: seq![0i32, 0i32, 0i32], idx: 3, gc: 0 },
            q2: GroupView { codes: seq![0i32, 0i32, 0i32], idx: 3, gc: 0 },
            q4: GroupView { codes: seq![0i32, 0i32], idx: 2, gc: 0 },
        }
    }

    /// Quantizers with no group read yet.
    pub fn new() -> (r: Self)
        ensures
            r@ == Self::new_spec(),
    {
        let g = GroupedQuantizer {
            q1_codes: [0; 3],
            q1_idx: 3,
            q1_gc: 0,
            q2_codes: [0; 3],
            q2_idx: 3,
            q2_gc: 0,
            q4_codes: [0; 2],
            q4_idx: 2,
            q4_gc: 0,
        };
        assert(g.q1_codes@ =~= seq![0i32, 0i32, 0i32]);
        assert(g.q2_codes@ =~= seq![0i32, 0i32, 0i32]);
        assert(g.q4_codes@ =~= seq![0i32, 0i32]);
        g
    }

    /// Unpack one mantissa with pointer `bap` and record its write action.
    pub fn unpack_with_action(&mut self, reader: &mut BitstreamReader, bap: u8) -> (r: Result<(i32, MantissaWriteAction), Error>)
        ensures
            final(reader).bytes() == old(reader).bytes(),
            match unpack_spec(old(self)@, old(reader).bits(), old(reader).pos(), bap) {
                Ok((v, a, g, q)) => r == Ok::<(i32, MantissaWriteAction), Error>((v, a)) && final(self)@ == g
                    && final(reader).pos() == q,
                Err(e) => r == Err::<(i32, MantissaWriteAction), Error>(e),
            },
            r matches Err(e) ==> e is Bitstream || e is InvalidState,
    {
        reveal(unpack_spec);
        let ghost s = old(reader).bits();
        let ghost p = old(reader).pos();
        if bap == 0 {
            Ok((0, MantissaWriteAction::NoOp))
        } else if bap == 1 {
            if self.q1_idx >= 3 {
                let v = read_bits_ac3(reader, 5)?;
                proof {
                    lemma_ac3_bits(s, p, 5);
                    vstd::arithmetic::power2::lemma2_to64();
                }
                let gc = v as i32;
                self.q1_codes[0] = gc / 9 - 1;
                self.q1_codes[1] = (gc % 9) / 3 - 1;
                self.q1_codes[2] = (gc % 3) - 1;
                self.q1_idx = 0;
                self.q1_gc = gc;
                assert(self.q1_codes@ =~= q1_group(gc));
            }
            let val = self.q1_codes[self.q1_idx];
            let action = if self.q1_idx == 0 {
                MantissaWriteAction::WriteGroup { code: self.q1_gc as u32, bits: 5 }
            } else {
                MantissaWriteAction::Skip
            };
            self.q1_idx = self.q1_idx + 1;
            Ok((val, action))
        } else if bap == 2 {
            if self.q2_idx >= 3 {
                let v = read_bits_ac3(reader, 7)?;
                proof {
                    lemma_ac3_bits(s, p, 7);
                    vstd::arithmetic::power2::lemma2_to64();
                }
                let gc = v as i32;
                self.q2_codes[0] = gc / 25 - 2;
                self.q2_codes[1] = (gc % 25) / 5 - 2;
                self.q2_codes[2] = (gc % 5) - 2;
                self.q2_idx = 0;
                self.q2_gc = gc;
                assert(self.q2_codes@ =~= q2_group(gc));
            }
            let val = self.q2_codes[self.q2_idx];
            let action = if self.q2_idx == 0 {
                MantissaWriteAction::WriteGroup { code: self.q2_gc as u32, bits: 7 }
            } else {
                MantissaWriteAction::Skip
            };
            self.q2_idx = self.q2_idx + 1;
            Ok((val, action))
        } else if bap == 4 {
            if self.q4_idx >= 2 {
                let v = read_bits_ac3(reader, 7)?;
                proof {
                    lemma_ac3_bits(s, p, 7);
                    vstd::arithmetic::power2::lemma2_to64();
                }
                let gc = v as i32;
                self.q4_codes[0] = gc / 11 - 5;
                self.q4_codes[1] = (gc % 11) - 5;
                self.q4_idx = 0;
                self.q4_gc = gc;
                assert(self.q4_codes@ =~= q4_group(gc));
            }
            let val = self.q4_codes[self.q4_idx];
            let action = if self.q4_idx == 0 {
                MantissaWriteAction::WriteGroup { code: self.q4_gc as u32, bits: 7 }
            } else {
                MantissaWriteAction::Skip
            };
            self.q4_idx = self.q4_idx + 1;
            Ok((val, action))
        } else if bap == 3 {
            let code = read_bits_ac3(reader, 3)?;
            proof {
                lemma_ac3_bits(s, p, 3);
                vstd::arithmetic::power2::lemma2_to64();
            }
            Ok((code as i32 - 3, MantissaWriteAction::WriteSingle { code, bits: 3 }))
        } else if bap == 5 {
            let code = read_bits_ac3(reader, 4)?;
            proof {
                lemma_ac3_bits(s, p, 4);
                vstd::arithmetic::power2::lemma2_to64();
            }
            Ok((code as i32 - 7, MantissaWriteAction::WriteSingle { code, bits: 4 }))
        } else if bap <= 15 {
            let nbits: u8 = if bap <= 13 { bap - 1 } else if bap == 14 { 14 } else { 16 };
            let code = read_bits_ac3(reader, nbits)?;
            proof {
                lemma_ac3_bits(s, p, nbits as nat);
                vstd::arithmetic::power2::lemma2_to64();
                vstd::arithmetic::power2::lemma_pow2_strictly_increases(nbits as nat, 17);
                vstd::arithmetic::power2::lemma2_to64_rest();
            }
            let off = qntz_offset_exec(bap);
            Ok((code as i32 - off, MantissaWriteAction::WriteSingle { code, bits: nbits }))
        } else {
            Err(Error::InvalidState("invalid bap"))
        }
    }
}

/// Unpacking the mantissas with pointers `baps[i..]`, after `vals` and
/// `acts`: all values and actions, the final state and position.
pub open spec fn unpack_run(g: GqView, s: Seq<bool>, p: nat, baps: Seq<u8>, i: nat, vals: Seq<i32>, acts: Seq<MantissaWriteAction>) -> Result<(Seq<i32>, Seq<MantissaWriteAction>, GqView, nat), Error>
    decreases baps.len() - i,
{
    if i >= baps.len() {
        Ok((vals, acts, g, p))
    } else {
        match unpack_spec(g, s, p, baps[i as int]) {
            Err(e) => Err(e),
            Ok((v, a, g1, q)) => unpack_run(g1, s, q, baps, i + 1, vals.push(v), acts.push(a)),
        }
    }
}

/// Unpack the mantissas of the first `n` pointers of `baps`, appending
/// their write actions to `actions`.
fn unpack_bins(gq: &mut GroupedQuantizer, reader: &mut BitstreamReader, baps: &[u8], n: usize, actions: &mut Vec<MantissaWriteAction>) -> (r: Result<Vec<i32>, Error>)
    requires
        n <= baps@.len(),
    ensures
        final(reader).bytes() == old(reader).bytes(),
        match unpack_run(old(gq)@, old(reader).bits(), old(reader).pos(), baps@.take(n as int), 0, Seq::empty(), old(actions)@) {
            Ok((vals, acts, g, q)) => r matches Ok(x) && x@ == vals && final(actions)@ == acts && final(gq)@ == g
                && final(reader).pos() == q,
            Err(e) => r matches Err(x) && x == e,
        },
        r matches Err(e) ==> e is Bitstream || e is InvalidState,
{
    let ghost s = old(reader).bits();
    let ghost t = baps@.take(n as int);
    let mut mant: Vec<i32> = Vec::new();
    let mut i: usize = 0;
    while i < n
        invariant
            i <= n <= baps@.len(),
            t == baps@.take(n as int),
            reader.bytes() == old(reader).bytes(),
            s == old(reader).bits(),
            s == reader.bits(),
            unpack_run(old(gq)@, s, old(reader).pos(), t, 0, Seq::empty(), old(actions)@)
                == unpack_run(gq@, s, reader.pos(), t, i as nat, mant@, actions@),
        decreases n - i,
    {
        assert(t[i as int] == baps@[i as int]);
        let (v, a) = gq.unpack_with_action(reader, baps[i])?;
        mant.push(v);
        actions.push(a);
        i = i + 1;
    }
    Ok(mant)
}

/// Pointers and mantissa counts of all channels of an audio block.
pub struct MantissaParams<'a> {
    /// Per full-bandwidth channel: pointers and mantissa count.
    pub channels: &'a [(Vec<u8>, usize)],
    /// Which channels are in coupling.
    pub chincpl: &'a [bool],
    /// Coupling channel pointers and mantissa count.
    pub coupling: Option<(&'a [u8], usize)>,
    /// Low-frequency effects channel pointers (7 mantissas).
    pub lfe: Option<&'a [u8]>,
}

/// Model of `MantissaParams`.
pub struct MantissaParamsView {
    pub channels: Seq<(Seq<u8>, nat)>,
    pub chincpl: Seq<bool>,
    pub coupling: Option<(Seq<u8>, nat)>,
    pub lfe: Option<Seq<u8>>,
}

impl<'a> View for MantissaParams<'a> {
    type V = MantissaParamsView;

    open spec fn view(&self) -> MantissaParamsView {
        MantissaParamsView {
            channels: self.channels@.map_values(|c: (Vec<u8>, usize)| (c.0@, c.1 as nat)),
            chincpl: self.chincpl@,
            coupling: match self.coupling {
                Some((b, n)) => Some((b@, n as nat)),
                None => None,
            },
            lfe: match self.lfe {
                Some(b) => Some(b@),
                None => None,
            },
        }
    }
}

/// The parameters name valid ranges: each channel's count is within its
/// pointers, every channel has a coupling flag, the coupling channel's
/// count is within its pointers, and the effects channel has 7 pointers.
pub open spec fn params_valid(m: MantissaParamsView) -> bool {
    &&& forall|c: int| 0 <= c < m.channels.len() ==> (#[trigger] m.channels[c]).1 <= m.channels[c].0.len()
    &&& m.chincpl.len() >= m.channels.len()
    &&& (m.coupling matches Some((b, n)) ==> n <= b.len())
    &&& (m.lfe matches Some(b) ==> b.len() >= 7)
}

/// Unpacking the full-bandwidth channels `ch..` (and the coupling channel
/// after the first channel in coupling), after the values and actions so
/// far; a channel in coupling without coupling parameters is refused.
pub open spec fn mant_channels(s: Seq<bool>, p: nat, g: GqView, m: MantissaParamsView, ch: nat, got: bool,
    chm: Seq<Seq<i32>>, cpl: Option<Seq<i32>>, acts: Seq<MantissaWriteAction>)
    -> Result<(Seq<Seq<i32>>, Option<Seq<i32>>, Seq<MantissaWriteAction>, GqView, nat), Error>
    decreases m.channels.len() - ch,
{
    if ch >= m.channels.len() {
        Ok((chm, cpl, acts, g, p))
    } else {
        let c = m.channels[ch as int];
        match unpack_run(g, s, p, c.0.take(c.1 as int), 0, Seq::empty(), acts) {
            Err(e) => Err(e),
            Ok((vals, acts1, g1, p1)) => if m.chincpl[ch as int] && !got {
                match m.coupling {
                    None => Err(Error::InvalidState("cpl_bap missing")),
                    Some((cb, cn)) => match unpack_run(g1, s, p1, cb.take(cn as int), 0, Seq::empty(), acts1) {
                        Err(e) => Err(e),
                        Ok((cv, acts2, g2, p2)) => mant_channels(s, p2, g2, m, ch + 1, true, chm.push(vals), Some(cv), acts2),
                    },
                }
            } else {
                mant_channels(s, p1, g1, m, ch + 1, got, chm.push(vals), cpl, acts1)
            },
        }
    }
}

/// Unpacking the mantissas of an audio block: the full-bandwidth channels
/// (with the coupling channel after the first channel in coupling), then
/// the 7 effects channel mantissas; one quantizer state is shared
/// throughout. The result: channel values, coupling values, effects values,
/// write actions, and the next bit position.
pub open spec fn mantissas_spec(s: Seq<bool>, p: nat, m: MantissaParamsView, g: GqView)
    -> Result<(Seq<Seq<i32>>, Option<Seq<i32>>, Option<Seq<i32>>, Seq<MantissaWriteAction>, nat), Error>
{
    match mant_channels(s, p, g, m, 0, false, Seq::empty(), None, Seq::empty()) {
        Err(e) => Err(e),
        Ok((chm, cpl, acts, g1, p1)) => match m.lfe {
            Some(lb) => match unpack_run(g1, s, p1, lb.take(7), 0, Seq::empty(), acts) {
                Err(e) => Err(e),
                Ok((lv, acts2, g2, q)) => Ok((chm, cpl, Some(lv), acts2, q)),
            },
            None => Ok((chm, cpl, None, acts, p1)),
        },
    }
}

/// The model of lists of values.
pub open spec fn chmant_view(v: Seq<Vec<i32>>) -> Seq<Seq<i32>> {
    v.map_values(|x: Vec<i32>| x@)
}

/// Unpack the quantized mantissas of an audio block.
pub fn parse_mantissas(reader: &mut BitstreamReader, params: &MantissaParams) -> (r: Result<QuantizedMantissaValues, Error>)
    requires
        params_valid(params@),
    ensures
        final(reader).bytes() == old(reader).bytes(),
        match mantissas_spec(old(reader).bits(), old(reader).pos(), params@, GroupedQuantizer::new_spec()) {
            Ok((chm, cpl, lfe, acts, q)) => r matches Ok(x) && chmant_view(x.chmant@) == chm
                && (match x.cplmant { Some(v) => cpl == Some(v@), None => cpl is None })
                && (match x.lfemant { Some(v) => lfe == Some(v@), None => lfe is None })
                && x.write_actions@ == acts && final(reader).pos() == q,
            Err(e) => r matches Err(x) && x == e,
        },
        r matches Err(e) ==> e is Bitstream || e is InvalidState,
{
    let mut gq = GroupedQuantizer::new();
    let mut got_cplchan = false;
    let mut write_actions: Vec<MantissaWriteAction> = Vec::new();
    let mut chmant: Vec<Vec<i32>> = Vec::new();
    let mut cplmant: Option<Vec<i32>> = None;
    let ghost s = old(reader).bits();
    let ghost m = params@;
    let mut ch: usize = 0;
    assert(chmant_view(chmant@) =~= Seq::<Seq<i32>>::empty());
    assert(write_actions@ =~= Seq::<MantissaWriteAction>::empty());
    while ch < params.channels.len()
        invariant
            ch <= params.channels@.len(),
            m == params@,
            params_valid(m),
            reader.bytes() == old(reader).bytes(),
            s == old(reader).bits(),
            s == reader.bits(),
            mant_channels(s, old(reader).pos(), GroupedQuantizer::new_spec(), m, 0, false, Seq::empty(), None, Seq::empty())
                == mant_channels(s, reader.pos(), gq@, m, ch as nat, got_cplchan, chmant_view(chmant@),
                    match cplmant { Some(v) => Some(v@), None => None }, write_actions@),
        decreases params.channels@.len() - ch,
    {
        let ghost chm0 = chmant@;
        assert(m.channels[ch as int] == (params.channels@[ch as int].0@, params.channels@[ch as int].1 as nat));
        let nch = params.channels[ch].1;
        let mant = unpack_bins(&mut gq, reader, params.channels[ch].0.as_slice(), nch, &mut write_actions)?;
        let ghost mv = mant@;
        chmant.push(mant);
        assert(chmant_view(chmant@) =~= chmant_view(chm0).push(mv));
        if params.chincpl[ch] && !got_cplchan {
            match params.coupling {
                None => {
                    return Err(Error::InvalidState("cpl_bap missing"));
                },
                Some((cpl_bap, ncplmant)) => {
                    let cv = unpack_bins(&mut gq, reader, cpl_bap, ncplmant, &mut write_actions)?;
                    cplmant = Some(cv);
                    got_cplchan = true;
                },
            }
        }
        ch = ch + 1;
    }
    let lfemant = match params.lfe {
        Some(lfe_bap) => {
            let lv = unpack_bins(&mut gq, reader, lfe_bap, 7, &mut write_actions)?;
            Some(lv)
        },
        None => None,
    };
    Ok(QuantizedMantissaValues { chmant, cplmant, lfemant, write_actions })
}

/// Write the mantissas by replaying their write actions.
pub fn write_mantissas(writer: &mut BitstreamWriter, mant: &QuantizedMantissaValues)
    requires
        forall|i: int| 0 <= i < mant.write_actions@.len() ==> action_ok(#[trigger] mant.write_actions@[i]),
    ensures
        final(writer).bits() == old(writer).bits() + actions_bits(mant.write_actions@),
{
    let ghost acts = mant.write_actions@;
    let mut i: usize = 0;
    while i < mant.write_actions.len()
        invariant
            i <= acts.len(),
            acts == mant.write_actions@,
            forall|k: int| 0 <= k < acts.len() ==> action_ok(#[trigger] acts[k]),
            writer.bits() == old(writer).bits() + actions_bits(acts.take(i as int)),
        decreases acts.len() - i,
    {
        let ghost before = writer.bits();
        assert(action_ok(acts[i as int]));
        match mant.write_actions[i] {
            MantissaWriteAction::WriteGroup { code, bits } => writer.write_bits(code, bits),
            MantissaWriteAction::WriteSingle { code, bits } => writer.write_bits(code, bits),
            _ => {
                assert(before + Seq::<bool>::empty() =~= before);
            },
        }
        proof {
            assert(acts.take(i + 1).drop_last() =~= acts.take(i as int));
            lemma_add_assoc(old(writer).bits(), actions_bits(acts.take(i as int)), action_bits(acts[i as int]));
        }
        i = i + 1;
    }
    assert(acts.take(acts.len() as int) =~= acts);
}

/// A quantizer state that `new` and unpacking reach: every group index
/// is past the first value of its group.
pub open spec fn gq_valid(g: GqView) -> bool {
    &&& 1 <= g.q1.idx <= 3 && g.q1.codes.len() == 3
    &&& 1 <= g.q2.idx <= 3 && g.q2.codes.len() == 3
    &&& 1 <= g.q4.idx <= 2 && g.q4.codes.len() == 2
}

proof fn lemma_group_step(g: GroupView, s: Seq<bool>, p: nat, size: nat, bits: u8, group: spec_fn(i32) -> Seq<i32>)
    requires
        1 <= g.idx <= size,
        g.codes.len() == size,
        bits <= 7,
        forall|gc: i32| (#[trigger] group(gc)).len() == size,
        p <= s.len(),
        group_step(g, s, p, size, bits, group) is Ok,
    ensures
        ({
            let (v, a, g1, q) = group_step(g, s, p, size, bits, group)->Ok_0;
            &&& p <= q <= s.len()
            &&& s.subrange(p as int, q as int) == action_bits(a)
            &&& action_ok(a)
            &&& 1 <= g1.idx <= size && g1.codes.len() == size
        }),
{
    if g.idx >= size {
        lemma_ac3_bits(s, p, bits as nat);
        vstd::arithmetic::power2::lemma2_to64();
        vstd::arithmetic::power2::lemma_pow2_strictly_increases(bits as nat, 8);
        let v = ac3_bits(s, p, bits as nat)->Ok_0.0;
        assert((v as i32) as u32 == v);
    } else {
        assert(s.subrange(p as int, p as int) =~= Seq::<bool>::empty());
    }
}

proof fn lemma_single_step(s: Seq<bool>, p: nat, bits: u8, offset: i32)
    requires
        bits <= 32,
        single_step(s, p, bits, offset) is Ok,
    ensures
        ({
            let (v, a, q) = single_step(s, p, bits, offset)->Ok_0;
            &&& p <= q <= s.len()
            &&& s.subrange(p as int, q as int) == action_bits(a)
            &&& action_ok(a)
        }),
{
    lemma_ac3_bits(s, p, bits as nat);
}

/// Unpacking one mantissa consumes exactly the bits of its write action,
/// and keeps the quantizer state valid.
pub proof fn lemma_unpack_step(g: GqView, s: Seq<bool>, p: nat, bap: u8)
    requires
        gq_valid(g),
        p <= s.len(),
        unpack_spec(g, s, p, bap) is Ok,
    ensures
        ({
            let (v, a, g1, q) = unpack_spec(g, s, p, bap)->Ok_0;
            &&& p <= q <= s.len()
            &&& s.subrange(p as int, q as int) == action_bits(a)
            &&& action_ok(a)
            &&& gq_valid(g1)
        }),
{
    reveal(unpack_spec);
    if bap == 0 {
        assert(s.subrange(p as int, p as int) =~= Seq::<bool>::empty());
    } else if bap == 1 {
        lemma_group_step(g.q1, s, p, 3, 5, |gc: i32| q1_group(gc));
    } else if bap == 2 {
        lemma_group_step(g.q2, s, p, 3, 7, |gc: i32| q2_group(gc));
    } else if bap == 4 {
        lemma_group_step(g.q4, s, p, 2, 7, |gc: i32| q4_group(gc));
    } else if bap == 3 {
        lemma_single_step(s, p, 3, 3);
    } else if bap == 5 {
        lemma_single_step(s, p, 4, 7);
    } else {
        lemma_single_step(s, p, qntz_bits(bap), qntz_offset(bap));
    }
}

/// Unpacking a run of mantissas appends actions whose bits are exactly the
/// bits consumed.
pub proof fn lemma_unpack_run(g: GqView, s: Seq<bool>, p: nat, baps: Seq<u8>, i: nat, vals: Seq<i32>, acts: Seq<MantissaWriteAction>)
    requires
        gq_valid(g),
        p <= s.len(),
        forall|k: int| 0 <= k < acts.len() ==> action_ok(#[trigger] acts[k]),
        unpack_run(g, s, p, baps, i, vals, acts) is Ok,
    ensures
        ({
            let (vs, acts2, g2, q) = unpack_run(g, s, p, baps, i, vals, acts)->Ok_0;
            &&& p <= q <= s.len()
            &&& actions_bits(acts2) == actions_bits(acts) + s.subrange(p as int, q as int)
            &&& forall|k: int| 0 <= k < acts2.len() ==> action_ok(#[trigger] acts2[k])
            &&& gq_valid(g2)
        }),
    decreases baps.len() - i,
{
    if i >= baps.len() {
        assert(actions_bits(acts) + s.subrange(p as int, p as int) =~= actions_bits(acts));
    } else {
        lemma_unpack_step(g, s, p, baps[i as int]);
        let (v, a, g1, q1) = unpack_spec(g, s, p, baps[i as int])->Ok_0;
        assert(acts.push(a).drop_last() =~= acts);
        lemma_unpack_run(g1, s, q1, baps, i + 1, vals.push(v), acts.push(a));
        let q = unpack_run(g, s, p, baps, i, vals, acts)->Ok_0.3;
        assert(s.subrange(p as int, q as int) =~= s.subrange(p as int, q1 as int) + s.subrange(q1 as int, q as int));
        lemma_add_assoc(actions_bits(acts), action_bits(a), s.subrange(q1 as int, q as int));
    }
}

proof fn lemma_mant_channels(s: Seq<bool>, p: nat, g: GqView, m: MantissaParamsView, ch: nat, got: bool,
    chm: Seq<Seq<i32>>, cpl: Option<Seq<i32>>, acts: Seq<MantissaWriteAction>)
    requires
        gq_valid(g),
        p <= s.len(),
        forall|k: int| 0 <= k < acts.len() ==> action_ok(#[trigger] acts[k]),
        mant_channels(s, p, g, m, ch, got, chm, cpl, acts) is Ok,
    ensures
        ({
            let (c2, cp2, acts2, g2, q) = mant_channels(s, p, g, m, ch, got, chm, cpl, acts)->Ok_0;
            &&& p <= q <= s.len()
            &&& actions_bits(acts2) == actions_bits(acts) + s.subrange(p as int, q as int)
            &&& forall|k: int| 0 <= k < acts2.len() ==> action_ok(#[trigger] acts2[k])
            &&& gq_valid(g2)
        }),
    decreases m.channels.len() - ch,
{
    if ch >= m.channels.len() {
        assert(actions_bits(acts) + s.subrange(p as int, p as int) =~= actions_bits(acts));
    } else {
        let c = m.channels[ch as int];
        lemma_unpack_run(g, s, p, c.0.take(c.1 as int), 0, Seq::empty(), acts);
        let (vals, acts1, g1, p1) = unpack_run(g, s, p, c.0.take(c.1 as int), 0, Seq::empty(), acts)->Ok_0;
        let q = mant_channels(s, p, g, m, ch, got, chm, cpl, acts)->Ok_0.4;
        if m.chincpl[ch as int] && !got {
            let (cb, cn) = m.coupling->0;
            lemma_unpack_run(g1, s, p1, cb.take(cn as int), 0, Seq::empty(), acts1);
            let (cv, acts2, g2, p2) = unpack_run(g1, s, p1, cb.take(cn as int), 0, Seq::empty(), acts1)->Ok_0;
            lemma_mant_channels(s, p2, g2, m, ch + 1, true, chm.push(vals), Some(cv), acts2);
            assert(s.subrange(p as int, q as int) =~= s.subrange(p as int, p1 as int) + s.subrange(p1 as int, p2 as int) + s.subrange(p2 as int, q as int));
            lemma_add_assoc(actions_bits(acts), s.subrange(p as int, p1 as int), s.subrange(p1 as int, p2 as int));
            lemma_add_assoc(actions_bits(acts) + s.subrange(p as int, p1 as int) + s.subrange(p1 as int, p2 as int), Seq::empty(), Seq::empty());
            lemma_add_assoc(actions_bits(acts), s.subrange(p as int, p1 as int) + s.subrange(p1 as int, p2 as int), s.subrange(p2 as int, q as int));
        } else {
            lemma_mant_channels(s, p1, g1, m, ch + 1, got, chm.push(vals), cpl, acts1);
            assert(s.subrange(p as int, q as int) =~= s.subrange(p as int, p1 as int) + s.subrange(p1 as int, q as int));
            lemma_add_assoc(actions_bits(acts), s.subrange(p as int, p1 as int), s.subrange(p1 as int, q as int));
        }
    }
}

/// Replaying the write actions of unpacked mantissas writes exactly the
/// bits that were unpacked, and every action can be replayed.
pub proof fn lemma_mantissas_rewrite(s: Seq<bool>, p: nat, m: MantissaParamsView)
    requires
        p <= s.len(),
        mantissas_spec(s, p, m, GroupedQuantizer::new_spec()) is Ok,
    ensures
        ({
            let (chm, cpl, lfe, acts, q) = mantissas_spec(s, p, m, GroupedQuantizer::new_spec())->Ok_0;
            &&& p <= q <= s.len()
            &&& actions_bits(acts) == s.subrange(p as int, q as int)
            &&& forall|k: int| 0 <= k < acts.len() ==> action_ok(#[trigger] acts[k])
        }),
{
    let g0 = GroupedQuantizer::new_spec();
    let e = Seq::<MantissaWriteAction>::empty();
    lemma_mant_channels(s, p, g0, m, 0, false, Seq::empty(), None, e);
    let (chm, cpl, acts, g1, p1) = mant_channels(s, p, g0, m, 0, false, Seq::empty(), None, e)->Ok_0;
    assert(actions_bits(e) + s.subrange(p as int, p1 as int) =~= s.subrange(p as int, p1 as int));
    match m.lfe {
        Some(lb) => {
            lemma_unpack_run(g1, s, p1, lb.take(7), 0, Seq::empty(), acts);
            let q = mantissas_spec(s, p, m, g0)->Ok_0.4;
            assert(s.subrange(p as int, q as int) =~= s.subrange(p as int, p1 as int) + s.subrange(p1 as int, q as int));
        },
        None => {},
    }
}

} // verus!
