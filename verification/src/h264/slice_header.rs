//! Slice header (`slice_header()` of the slice layer RBSPs) and the
//! structures inside it: reference picture list modification, prediction
//! weight table and decoded reference picture marking.
//!
//! Each parser is specified by a function over the bits of the RBSP and a
//! bit position (`*_spec`); each writer by the bits it appends (`*_bits`).

use vstd::prelude::*;
use crate::bitstream::{BitstreamReader, BitstreamWriter, u32_bits, ue_bits, se_bits, lemma_add_assoc};
use crate::h264::error::Error;
use crate::h264::nal::NalUnitType;
use crate::h264::sps::{Sps, SpsView, PicOrderCntView};
use crate::h264::pps::{Pps, PpsView, SliceGroup, SliceGroupView, ceil_log2, ceil_log2_exec};
use crate::h264::syntax::{read_u, read_flag, read_ue, read_se, sp_u, sp_flag, sp_ue, sp_se, prepend_seq, lemma_sp_ue_advances};

verus! {

// ---------------------------------------------------------------------
// Reference picture list modification.
// ---------------------------------------------------------------------

/// One `modification_of_pic_nums_idc` command with its argument
/// (idc 3 ends the list and is not stored).
#[derive(Debug, Clone, Copy, PartialEq, Eq, Structural)]
pub enum ModificationCommand {
    Idc0 { abs_diff_pic_num_minus1: u32 },
    Idc1 { abs_diff_pic_num_minus1: u32 },
    Idc2 { long_term_pic_num: u32 },
}

/// One command of the MVC list modification (idc 3 ends the list and is
/// not stored).
#[derive(Debug, Clone, Copy, PartialEq, Eq, Structural)]
pub enum MvcModificationCommand {
    Idc0 { abs_diff_pic_num_minus1: u32 },
    Idc1 { abs_diff_pic_num_minus1: u32 },
    Idc2 { long_term_pic_num: u32 },
    Idc4 { abs_diff_view_idx_minus1: u32 },
    Idc5 { abs_diff_view_idx_minus1: u32 },
}

/// The modification list of one reference picture list.
#[derive(Debug)]
pub struct RefPicListModificationList {
    pub flag: bool,
    pub commands: Vec<ModificationCommand>,
}

/// The modification lists: `l0` unless the slice is I or SI, `l1` for B.
#[derive(Debug)]
pub struct RefPicListModification {
    pub l0: Option<RefPicListModificationList>,
    pub l1: Option<RefPicListModificationList>,
}

/// The MVC modification list of one reference picture list.
#[derive(Debug)]
pub struct RefPicListMvcModificationList {
    pub flag: bool,
    pub commands: Vec<MvcModificationCommand>,
}

/// The MVC modification lists: `l0` unless the slice is I or SI, `l1` for B.
#[derive(Debug)]
pub struct RefPicListMvcModification {
    pub l0: Option<RefPicListMvcModificationList>,
    pub l1: Option<RefPicListMvcModificationList>,
}

/// Model of a modification list.
pub struct ModListView<C> {
    pub flag: bool,
    pub commands: Seq<C>,
}

/// Model of the modification lists of a slice.
pub struct ModView<C> {
    pub l0: Option<ModListView<C>>,
    pub l1: Option<ModListView<C>>,
}

impl View for RefPicListModificationList {
    type V = ModListView<ModificationCommand>;

    open spec fn view(&self) -> ModListView<ModificationCommand> {
        ModListView { flag: self.flag, commands: self.commands@ }
    }
}

impl View for RefPicListMvcModificationList {
    type V = ModListView<MvcModificationCommand>;

    open spec fn view(&self) -> ModListView<MvcModificationCommand> {
        ModListView { flag: self.flag, commands: self.commands@ }
    }
}

/// The model of an optional list.
pub open spec fn opt_view<T: View>(o: Option<T>) -> Option<T::V> {
    match o {
        Some(x) => Some(x@),
        None => None,
    }
}

impl View for RefPicListModification {
    type V = ModView<ModificationCommand>;

    open spec fn view(&self) -> ModView<ModificationCommand> {
        ModView { l0: opt_view(self.l0), l1: opt_view(self.l1) }
    }
}

impl View for RefPicListMvcModification {
    type V = ModView<MvcModificationCommand>;

    open spec fn view(&self) -> ModView<MvcModificationCommand> {
        ModView { l0: opt_view(self.l0), l1: opt_view(self.l1) }
    }
}

/// The command that idc 0, 1 or 2 introduces, with argument `v`.
pub open spec fn mod_cmd_of(idc: u32, v: u32) -> ModificationCommand {
    if idc == 0 {
        ModificationCommand::Idc0 { abs_diff_pic_num_minus1: v }
    } else if idc == 1 {
        ModificationCommand::Idc1 { abs_diff_pic_num_minus1: v }
    } else {
        ModificationCommand::Idc2 { long_term_pic_num: v }
    }
}

/// The MVC command that idc 0, 1, 2, 4 or 5 introduces, with argument `v`.
pub open spec fn mvc_cmd_of(idc: u32, v: u32) -> MvcModificationCommand {
    if idc == 0 {
        MvcModificationCommand::Idc0 { abs_diff_pic_num_minus1: v }
    } else if idc == 1 {
        MvcModificationCommand::Idc1 { abs_diff_pic_num_minus1: v }
    } else if idc == 2 {
        MvcModificationCommand::Idc2 { long_term_pic_num: v }
    } else if idc == 4 {
        MvcModificationCommand::Idc4 { abs_diff_view_idx_minus1: v }
    } else {
        MvcModificationCommand::Idc5 { abs_diff_view_idx_minus1: v }
    }
}

/// Reading modification commands up to the terminating idc 3; an idc
/// above 3 is refused.
pub open spec fn mod_cmds_spec(s: Seq<bool>, p: nat) -> Result<(Seq<ModificationCommand>, nat), Error>
    decreases s.len() - p,
{
    match sp_ue(s, p) {
        Err(e) => Err(e),
        Ok((idc, p1)) => if idc == 3 {
            Ok((Seq::empty(), p1))
        } else if idc > 3 {
            Err(Error::InvalidModificationOfPicNumsIdc(idc))
        } else {
            match sp_ue(s, p1) {
                Err(e) => Err(e),
                Ok((v, p2)) => {
                    proof {
                        lemma_sp_ue_advances(s, p);
                        lemma_sp_ue_advances(s, p1);
                    }
                    prepend_seq(seq![mod_cmd_of(idc, v)], mod_cmds_spec(s, p2))
                },
            }
        },
    }
}

/// Reading MVC modification commands up to the terminating idc 3; an idc
/// above 5 is refused.
pub open spec fn mvc_cmds_spec(s: Seq<bool>, p: nat) -> Result<(Seq<MvcModificationCommand>, nat), Error>
    decreases s.len() - p,
{
    match sp_ue(s, p) {
        Err(e) => Err(e),
        Ok((idc, p1)) => if idc == 3 {
            Ok((Seq::empty(), p1))
        } else if idc > 5 {
            Err(Error::InvalidModificationOfPicNumsIdc(idc))
        } else {
            match sp_ue(s, p1) {
                Err(e) => Err(e),
                Ok((v, p2)) => {
                    proof {
                        lemma_sp_ue_advances(s, p);
                        lemma_sp_ue_advances(s, p1);
                    }
                    prepend_seq(seq![mvc_cmd_of(idc, v)], mvc_cmds_spec(s, p2))
                },
            }
        },
    }
}

/// Reading one modification list: its flag and, when set, its commands.
pub open spec fn mod_list_spec(s: Seq<bool>, p: nat) -> Result<(ModListView<ModificationCommand>, nat), Error> {
    match sp_flag(s, p) {
        Err(e) => Err(e),
        Ok((flag, p1)) => if flag {
            match mod_cmds_spec(s, p1) {
                Err(e) => Err(e),
                Ok((c, q)) => Ok((ModListView { flag: true, commands: c }, q)),
            }
        } else {
            Ok((ModListView { flag: false, commands: Seq::empty() }, p1))
        },
    }
}

/// Reading one MVC modification list.
pub open spec fn mvc_list_spec(s: Seq<bool>, p: nat) -> Result<(ModListView<MvcModificationCommand>, nat), Error> {
    match sp_flag(s, p) {
        Err(e) => Err(e),
        Ok((flag, p1)) => if flag {
            match mvc_cmds_spec(s, p1) {
                Err(e) => Err(e),
                Ok((c, q)) => Ok((ModListView { flag: true, commands: c }, q)),
            }
        } else {
            Ok((ModListView { flag: false, commands: Seq::empty() }, p1))
        },
    }
}

/// `l0` is present unless the slice is I or SI.
pub open spec fn has_l0(st: SliceType) -> bool {
    st != SliceType::I && st != SliceType::SI
}

/// Reading the modification lists of a slice of type `st`.
pub open spec fn ref_mod_spec(s: Seq<bool>, p: nat, st: SliceType) -> Result<(ModView<ModificationCommand>, nat), Error> {
    let r0 = if has_l0(st) {
        match mod_list_spec(s, p) {
            Ok((l, q)) => Ok((Some(l), q)),
            Err(e) => Err(e),
        }
    } else {
        Ok((None, p))
    };
    match r0 {
        Err(e) => Err(e),
        Ok((l0, p1)) => if st == SliceType::B {
            match mod_list_spec(s, p1) {
                Ok((l1, q)) => Ok((ModView { l0, l1: Some(l1) }, q)),
                Err(e) => Err(e),
            }
        } else {
            Ok((ModView { l0, l1: None }, p1))
        },
    }
}

/// Reading the MVC modification lists of a slice of type `st`.
pub open spec fn mvc_mod_spec(s: Seq<bool>, p: nat, st: SliceType) -> Result<(ModView<MvcModificationCommand>, nat), Error> {
    let r0 = if has_l0(st) {
        match mvc_list_spec(s, p) {
            Ok((l, q)) => Ok((Some(l), q)),
            Err(e) => Err(e),
        }
    } else {
        Ok((None, p))
    };
    match r0 {
        Err(e) => Err(e),
        Ok((l0, p1)) => if st == SliceType::B {
            match mvc_list_spec(s, p1) {
                Ok((l1, q)) => Ok((ModView { l0, l1: Some(l1) }, q)),
                Err(e) => Err(e),
            }
        } else {
            Ok((ModView { l0, l1: None }, p1))
        },
    }
}

/// Read modification commands up to the terminator.
fn parse_mod_cmds(reader: &mut BitstreamReader) -> (r: Result<Vec<ModificationCommand>, Error>)
    ensures
        final(reader).bytes() == old(reader).bytes(),
        match mod_cmds_spec(old(reader).bits(), old(reader).pos()) {
            Ok((v, q)) => r matches Ok(x) && x@ == v && final(reader).pos() == q,
            Err(e) => r matches Err(x) && x == e,
        },
{
    let ghost s = old(reader).bits();
    let ghost p0 = old(reader).pos();
    let mut out: Vec<ModificationCommand> = Vec::new();
    proof {
        match mod_cmds_spec(s, p0) {
            Ok((v, q)) => { assert(out@ + v =~= v); },
            Err(_) => {},
        }
    }
    loop
        invariant
            reader.bytes() == old(reader).bytes(),
            s == old(reader).bits(),
            p0 == old(reader).pos(),
            s == reader.bits(),
            mod_cmds_spec(s, p0) == prepend_seq(out@, mod_cmds_spec(s, reader.pos())),
        decreases s.len() - reader.pos(),
    {
        let ghost p = reader.pos();
        proof {
            lemma_sp_ue_advances(s, p);
        }
        let idc = read_ue(reader)?;
        if idc == 3 {
            assert(out@ + Seq::<ModificationCommand>::empty() =~= out@);
            return Ok(out);
        }
        if idc > 3 {
            return Err(Error::InvalidModificationOfPicNumsIdc(idc));
        }
        let ghost p1 = reader.pos();
        proof {
            lemma_sp_ue_advances(s, p1);
        }
        let v = read_ue(reader)?;
        let cmd = if idc == 0 {
            ModificationCommand::Idc0 { abs_diff_pic_num_minus1: v }
        } else if idc == 1 {
            ModificationCommand::Idc1 { abs_diff_pic_num_minus1: v }
        } else {
            ModificationCommand::Idc2 { long_term_pic_num: v }
        };
        let ghost before = out@;
        out.push(cmd);
        proof {
            match mod_cmds_spec(s, reader.pos()) {
                Ok((rest, q)) => {
                    assert(before + (seq![cmd] + rest) =~= out@ + rest);
                },
                Err(_) => {},
            }
        }
    }
}

/// Read MVC modification commands up to the terminator.
fn parse_mvc_cmds(reader: &mut BitstreamReader) -> (r: Result<Vec<MvcModificationCommand>, Error>)
    ensures
        final(reader).bytes() == old(reader).bytes(),
        match mvc_cmds_spec(old(reader).bits(), old(reader).pos()) {
            Ok((v, q)) => r matches Ok(x) && x@ == v && final(reader).pos() == q,
            Err(e) => r matches Err(x) && x == e,
        },
{
    let ghost s = old(reader).bits();
    let ghost p0 = old(reader).pos();
    let mut out: Vec<MvcModificationCommand> = Vec::new();
    proof {
        match mvc_cmds_spec(s, p0) {
            Ok((v, q)) => { assert(out@ + v =~= v); },
            Err(_) => {},
        }
    }
    loop
        invariant
            reader.bytes() == old(reader).bytes(),
            s == old(reader).bits(),
            p0 == old(reader).pos(),
            s == reader.bits(),
            mvc_cmds_spec(s, p0) == prepend_seq(out@, mvc_cmds_spec(s, reader.pos())),
        decreases s.len() - reader.pos(),
    {
        let ghost p = reader.pos();
        proof {
            lemma_sp_ue_advances(s, p);
        }
        let idc = read_ue(reader)?;
        if idc == 3 {
            assert(out@ + Seq::<MvcModificationCommand>::empty() =~= out@);
            return Ok(out);
        }
        if idc > 5 {
            return Err(Error::InvalidModificationOfPicNumsIdc(idc));
        }
        let ghost p1 = reader.pos();
        proof {
            lemma_sp_ue_advances(s, p1);
        }
        let v = read_ue(reader)?;
        let cmd = if idc == 0 {
            MvcModificationCommand::Idc0 { abs_diff_pic_num_minus1: v }
        } else if idc == 1 {
            MvcModificationCommand::Idc1 { abs_diff_pic_num_minus1: v }
        } else if idc == 2 {
            MvcModificationCommand::Idc2 { long_term_pic_num: v }
        } else if idc == 4 {
            MvcModificationCommand::Idc4 { abs_diff_view_idx_minus1: v }
        } else {
            MvcModificationCommand::Idc5 { abs_diff_view_idx_minus1: v }
        };
        let ghost before = out@;
        out.push(cmd);
        proof {
            match mvc_cmds_spec(s, reader.pos()) {
                Ok((rest, q)) => {
                    assert(before + (seq![cmd] + rest) =~= out@ + rest);
                },
                Err(_) => {},
            }
        }
    }
}

/// Slice type (`slice_type % 5`).
#[derive(Debug, Clone, Copy, PartialEq, Eq, Structural)]
pub enum SliceType {
    P,
    B,
    I,
    SP,
    SI,
}

/// The slice type of a `slice_type` value (values 5..9 mean the same as 0..4).
pub open spec fn slice_type_of(value: u32) -> SliceType {
    let m = value % 5;
    if m == 0 {
        SliceType::P
    } else if m == 1 {
        SliceType::B
    } else if m == 2 {
        SliceType::I
    } else if m == 3 {
        SliceType::SP
    } else {
        SliceType::SI
    }
}

impl SliceType {
    /// The slice type of a `slice_type` value; every value has one.
    pub fn from_u32(value: u32) -> (r: SliceType)
        ensures
            r == slice_type_of(value),
    {
        match value % 5 {
            0 => SliceType::P,
            1 => SliceType::B,
            2 => SliceType::I,
            3 => SliceType::SP,
            _ => SliceType::SI,
        }
    }
}

impl RefPicListModification {
    /// Read one modification list.
    fn parse_commands(reader: &mut BitstreamReader) -> (r: Result<RefPicListModificationList, Error>)
        ensures
            final(reader).bytes() == old(reader).bytes(),
            match mod_list_spec(old(reader).bits(), old(reader).pos()) {
                Ok((v, q)) => r matches Ok(x) && x@ == v && final(reader).pos() == q,
                Err(e) => r matches Err(x) && x == e,
            },
    {
        let flag = read_flag(reader)?;
        if flag {
            let commands = parse_mod_cmds(reader)?;
            Ok(RefPicListModificationList { flag, commands })
        } else {
            let commands: Vec<ModificationCommand> = Vec::new();
            Ok(RefPicListModificationList { flag, commands })
        }
    }

    /// Read the modification lists of a slice of type `slice_type`.
    pub fn parse(reader: &mut BitstreamReader, slice_type: &SliceType) -> (r: Result<Self, Error>)
        ensures
            final(reader).bytes() == old(reader).bytes(),
            match ref_mod_spec(old(reader).bits(), old(reader).pos(), *slice_type) {
                Ok((v, q)) => r matches Ok(x) && x@ == v && final(reader).pos() == q,
                Err(e) => r matches Err(x) && x == e,
            },
    {
        let l0 = if *slice_type != SliceType::I && *slice_type != SliceType::SI {
            Some(Self::parse_commands(reader)?)
        } else {
            None
        };
        let l1 = if *slice_type == SliceType::B {
            Some(Self::parse_commands(reader)?)
        } else {
            None
        };
        Ok(RefPicListModification { l0, l1 })
    }
}

impl RefPicListMvcModification {
    /// Read one MVC modification list.
    fn parse_commands(reader: &mut BitstreamReader) -> (r: Result<RefPicListMvcModificationList, Error>)
        ensures
            final(reader).bytes() == old(reader).bytes(),
            match mvc_list_spec(old(reader).bits(), old(reader).pos()) {
                Ok((v, q)) => r matches Ok(x) && x@ == v && final(reader).pos() == q,
                Err(e) => r matches Err(x) && x == e,
            },
    {
        let flag = read_flag(reader)?;
        if flag {
            let commands = parse_mvc_cmds(reader)?;
            Ok(RefPicListMvcModificationList { flag, commands })
        } else {
            let commands: Vec<MvcModificationCommand> = Vec::new();
            Ok(RefPicListMvcModificationList { flag, commands })
        }
    }

    /// Read the MVC modification lists of a slice of type `slice_type`.
    pub fn parse(reader: &mut BitstreamReader, slice_type: &SliceType) -> (r: Result<Self, Error>)
        ensures
            final(reader).bytes() == old(reader).bytes(),
            match mvc_mod_spec(old(reader).bits(), old(reader).pos(), *slice_type) {
                Ok((v, q)) => r matches Ok(x) && x@ == v && final(reader).pos() == q,
                Err(e) => r matches Err(x) && x == e,
            },
    {
        let l0 = if *slice_type != SliceType::I && *slice_type != SliceType::SI {
            Some(Self::parse_commands(reader)?)
        } else {
            None
        };
        let l1 = if *slice_type == SliceType::B {
            Some(Self::parse_commands(reader)?)
        } else {
            None
        };
        Ok(RefPicListMvcModification { l0, l1 })
    }
}

/// The bits of one command: its idc and its argument.
pub open spec fn mod_cmd_bits(c: ModificationCommand) -> Seq<bool> {
    match c {
        ModificationCommand::Idc0 { abs_diff_pic_num_minus1: a } => ue_bits(0) + ue_bits(a),
        ModificationCommand::Idc1 { abs_diff_pic_num_minus1: a } => ue_bits(1) + ue_bits(a),
        ModificationCommand::Idc2 { long_term_pic_num: a } => ue_bits(2) + ue_bits(a),
    }
}

/// The bits of one MVC command: its idc and its argument.
pub open spec fn mvc_cmd_bits(c: MvcModificationCommand) -> Seq<bool> {
    match c {
        MvcModificationCommand::Idc0 { abs_diff_pic_num_minus1: a } => ue_bits(0) + ue_bits(a),
        MvcModificationCommand::Idc1 { abs_diff_pic_num_minus1: a } => ue_bits(1) + ue_bits(a),
        MvcModificationCommand::Idc2 { long_term_pic_num: a } => ue_bits(2) + ue_bits(a),
        MvcModificationCommand::Idc4 { abs_diff_view_idx_minus1: a } => ue_bits(4) + ue_bits(a),
        MvcModificationCommand::Idc5 { abs_diff_view_idx_minus1: a } => ue_bits(5) + ue_bits(a),
    }
}

/// The argument of a command.
pub open spec fn mod_cmd_arg(c: ModificationCommand) -> u32 {
    match c {
        ModificationCommand::Idc0 { abs_diff_pic_num_minus1: a } => a,
        ModificationCommand::Idc1 { abs_diff_pic_num_minus1: a } => a,
        ModificationCommand::Idc2 { long_term_pic_num: a } => a,
    }
}

/// The argument of an MVC command.
pub open spec fn mvc_cmd_arg(c: MvcModificationCommand) -> u32 {
    match c {
        MvcModificationCommand::Idc0 { abs_diff_pic_num_minus1: a } => a,
        MvcModificationCommand::Idc1 { abs_diff_pic_num_minus1: a } => a,
        MvcModificationCommand::Idc2 { long_term_pic_num: a } => a,
        MvcModificationCommand::Idc4 { abs_diff_view_idx_minus1: a } => a,
        MvcModificationCommand::Idc5 { abs_diff_view_idx_minus1: a } => a,
    }
}

/// The bits of a command sequence, without the terminator.
pub open spec fn mod_cmds_bits(cs: Seq<ModificationCommand>) -> Seq<bool>
    decreases cs.len(),
{
    if cs.len() == 0 {
        Seq::empty()
    } else {
        mod_cmd_bits(cs[0]) + mod_cmds_bits(cs.drop_first())
    }
}

/// The bits of an MVC command sequence, without the terminator.
pub open spec fn mvc_cmds_bits(cs: Seq<MvcModificationCommand>) -> Seq<bool>
    decreases cs.len(),
{
    if cs.len() == 0 {
        Seq::empty()
    } else {
        mvc_cmd_bits(cs[0]) + mvc_cmds_bits(cs.drop_first())
    }
}

/// The bits of an optional modification list: nothing when absent; the
/// flag; when it is set, the commands and the terminating idc 3.
pub open spec fn mod_list_bits(l: Option<ModListView<ModificationCommand>>) -> Seq<bool> {
    match l {
        None => Seq::empty(),
        Some(l) => if l.flag {
            seq![true] + mod_cmds_bits(l.commands) + ue_bits(3)
        } else {
            seq![false]
        },
    }
}

/// The bits of an optional MVC modification list.
pub open spec fn mvc_list_bits(l: Option<ModListView<MvcModificationCommand>>) -> Seq<bool> {
    match l {
        None => Seq::empty(),
        Some(l) => if l.flag {
            seq![true] + mvc_cmds_bits(l.commands) + ue_bits(3)
        } else {
            seq![false]
        },
    }
}

/// Every argument of the commands can be written as `ue(v)`.
pub open spec fn mod_cmds_writable(cs: Seq<ModificationCommand>) -> bool {
    forall|i: int| 0 <= i < cs.len() ==> mod_cmd_arg(#[trigger] cs[i]) < u32::MAX
}

/// Every argument of the list can be written as `ue(v)`.
pub open spec fn mod_list_writable(l: Option<ModListView<ModificationCommand>>) -> bool {
    match l {
        Some(l) => mod_cmds_writable(l.commands),
        None => true,
    }
}

/// Every argument of the MVC commands can be written as `ue(v)`.
pub open spec fn mvc_cmds_writable(cs: Seq<MvcModificationCommand>) -> bool {
    forall|i: int| 0 <= i < cs.len() ==> mvc_cmd_arg(#[trigger] cs[i]) < u32::MAX
}

/// Every argument of the list can be written as `ue(v)`.
pub open spec fn mvc_list_writable(l: Option<ModListView<MvcModificationCommand>>) -> bool {
    match l {
        Some(l) => mvc_cmds_writable(l.commands),
        None => true,
    }
}

/// Write commands (without the terminator).
fn write_mod_cmds(writer: &mut BitstreamWriter, cs: &Vec<ModificationCommand>)
    requires
        mod_cmds_writable(cs@),
    ensures
        final(writer).bits() == old(writer).bits() + mod_cmds_bits(cs@),
{
    let mut i: usize = 0;
    assert(cs@.subrange(0, cs@.len() as int) =~= cs@);
    while i < cs.len()
        invariant
            i <= cs.len(),
            mod_cmds_writable(cs@),
            writer.bits() + mod_cmds_bits(cs@.subrange(i as int, cs@.len() as int)) == old(writer).bits() + mod_cmds_bits(cs@),
        decreases cs.len() - i,
    {
        let ghost before = writer.bits();
        let ghost t = cs@.subrange(i as int, cs@.len() as int);
        let c = cs[i];
        assert(mod_cmd_arg(cs@[i as int]) < u32::MAX);
        match c {
            ModificationCommand::Idc0 { abs_diff_pic_num_minus1 } => {
                writer.write_ue(0);
                writer.write_ue(abs_diff_pic_num_minus1);
            },
            ModificationCommand::Idc1 { abs_diff_pic_num_minus1 } => {
                writer.write_ue(1);
                writer.write_ue(abs_diff_pic_num_minus1);
            },
            ModificationCommand::Idc2 { long_term_pic_num } => {
                writer.write_ue(2);
                writer.write_ue(long_term_pic_num);
            },
        }
        proof {
            assert(t.drop_first() =~= cs@.subrange(i + 1, cs@.len() as int));
            assert(t[0] == c);
            let cb = mod_cmd_bits(c);
            match c {
                ModificationCommand::Idc0 { abs_diff_pic_num_minus1: a } => lemma_add_assoc(before, ue_bits(0), ue_bits(a)),
                ModificationCommand::Idc1 { abs_diff_pic_num_minus1: a } => lemma_add_assoc(before, ue_bits(1), ue_bits(a)),
                ModificationCommand::Idc2 { long_term_pic_num: a } => lemma_add_assoc(before, ue_bits(2), ue_bits(a)),
            }
            assert(writer.bits() == before + cb);
            lemma_add_assoc(before, cb, mod_cmds_bits(t.drop_first()));
        }
        i = i + 1;
    }
    assert(cs@.subrange(i as int, cs@.len() as int) =~= Seq::<ModificationCommand>::empty());
    assert(writer.bits() + Seq::<bool>::empty() =~= writer.bits());
}

/// Write MVC commands (without the terminator).
fn write_mvc_cmds(writer: &mut BitstreamWriter, cs: &Vec<MvcModificationCommand>)
    requires
        mvc_cmds_writable(cs@),
    ensures
        final(writer).bits() == old(writer).bits() + mvc_cmds_bits(cs@),
{
    let mut i: usize = 0;
    assert(cs@.subrange(0, cs@.len() as int) =~= cs@);
    while i < cs.len()
        invariant
            i <= cs.len(),
            mvc_cmds_writable(cs@),
            writer.bits() + mvc_cmds_bits(cs@.subrange(i as int, cs@.len() as int)) == old(writer).bits() + mvc_cmds_bits(cs@),
        decreases cs.len() - i,
    {
        let ghost before = writer.bits();
        let ghost t = cs@.subrange(i as int, cs@.len() as int);
        let c = cs[i];
        assert(mvc_cmd_arg(cs@[i as int]) < u32::MAX);
        let idc: u32 = match c {
            MvcModificationCommand::Idc0 { .. } => 0,
            MvcModificationCommand::Idc1 { .. } => 1,
            MvcModificationCommand::Idc2 { .. } => 2,
            MvcModificationCommand::Idc4 { .. } => 4,
            MvcModificationCommand::Idc5 { .. } => 5,
        };
        let arg: u32 = match c {
            MvcModificationCommand::Idc0 { abs_diff_pic_num_minus1 } => abs_diff_pic_num_minus1,
            MvcModificationCommand::Idc1 { abs_diff_pic_num_minus1 } => abs_diff_pic_num_minus1,
            MvcModificationCommand::Idc2 { long_term_pic_num } => long_term_pic_num,
            MvcModificationCommand::Idc4 { abs_diff_view_idx_minus1 } => abs_diff_view_idx_minus1,
            MvcModificationCommand::Idc5 { abs_diff_view_idx_minus1 } => abs_diff_view_idx_minus1,
        };
        writer.write_ue(idc);
        writer.write_ue(arg);
        proof {
            assert(t.drop_first() =~= cs@.subrange(i + 1, cs@.len() as int));
            assert(t[0] == c);
            let cb = mvc_cmd_bits(c);
            assert(cb == ue_bits(idc) + ue_bits(arg));
            lemma_add_assoc(before, ue_bits(idc), ue_bits(arg));
            lemma_add_assoc(before, cb, mvc_cmds_bits(t.drop_first()));
        }
        i = i + 1;
    }
    assert(cs@.subrange(i as int, cs@.len() as int) =~= Seq::<MvcModificationCommand>::empty());
    assert(writer.bits() + Seq::<bool>::empty() =~= writer.bits());
}

/// Write an optional modification list.
fn write_mod_list(writer: &mut BitstreamWriter, list: &Option<RefPicListModificationList>)
    requires
        mod_list_writable(opt_view(*list)),
    ensures
        final(writer).bits() == old(writer).bits() + mod_list_bits(opt_view(*list)),
{
    if let Some(l) = list {
        assert(opt_view(*list) == Some(l@));
        assert(mod_list_writable(Some(l@)));
        let ghost before = writer.bits();
        writer.write_bool(l.flag);
        if l.flag {
            write_mod_cmds(writer, &l.commands);
            writer.write_ue(3);
            proof {
                assert(before.push(true) =~= before + seq![true]);
                lemma_add_assoc(before, seq![true], mod_cmds_bits(l.commands@));
                lemma_add_assoc(before, seq![true] + mod_cmds_bits(l.commands@), ue_bits(3));
            }
        } else {
            assert(before.push(false) =~= before + seq![false]);
        }
    } else {
        assert(old(writer).bits() + Seq::<bool>::empty() =~= old(writer).bits());
    }
}

/// Write an optional MVC modification list.
fn write_mvc_list(writer: &mut BitstreamWriter, list: &Option<RefPicListMvcModificationList>)
    requires
        mvc_list_writable(opt_view(*list)),
    ensures
        final(writer).bits() == old(writer).bits() + mvc_list_bits(opt_view(*list)),
{
    if let Some(l) = list {
        assert(opt_view(*list) == Some(l@));
        assert(mvc_list_writable(Some(l@)));
        let ghost before = writer.bits();
        writer.write_bool(l.flag);
        if l.flag {
            write_mvc_cmds(writer, &l.commands);
            writer.write_ue(3);
            proof {
                assert(before.push(true) =~= before + seq![true]);
                lemma_add_assoc(before, seq![true], mvc_cmds_bits(l.commands@));
                lemma_add_assoc(before, seq![true] + mvc_cmds_bits(l.commands@), ue_bits(3));
            }
        } else {
            assert(before.push(false) =~= before + seq![false]);
        }
    } else {
        assert(old(writer).bits() + Seq::<bool>::empty() =~= old(writer).bits());
    }
}

/// The bits of the modification lists: `l0` then `l1`.
pub open spec fn ref_mod_bits(v: ModView<ModificationCommand>) -> Seq<bool> {
    mod_list_bits(v.l0) + mod_list_bits(v.l1)
}

/// The bits of the MVC modification lists: `l0` then `l1`.
pub open spec fn mvc_mod_bits(v: ModView<MvcModificationCommand>) -> Seq<bool> {
    mvc_list_bits(v.l0) + mvc_list_bits(v.l1)
}

impl RefPicListModification {
    /// Write the modification lists.
    pub fn to_bytes(&self, writer: &mut BitstreamWriter)
        requires
            mod_list_writable(self@.l0),
            mod_list_writable(self@.l1),
        ensures
            final(writer).bits() == old(writer).bits() + ref_mod_bits(self@),
    {
        let ghost before = writer.bits();
        write_mod_list(writer, &self.l0);
        write_mod_list(writer, &self.l1);
        proof {
            lemma_add_assoc(before, mod_list_bits(self@.l0), mod_list_bits(self@.l1));
        }
    }
}

impl RefPicListMvcModification {
    /// Write the MVC modification lists.
    pub fn to_bytes(&self, writer: &mut BitstreamWriter)
        requires
            mvc_list_writable(self@.l0),
            mvc_list_writable(self@.l1),
        ensures
            final(writer).bits() == old(writer).bits() + mvc_mod_bits(self@),
    {
        let ghost before = writer.bits();
        write_mvc_list(writer, &self.l0);
        write_mvc_list(writer, &self.l1);
        proof {
            lemma_add_assoc(before, mvc_list_bits(self@.l0), mvc_list_bits(self@.l1));
        }
    }
}

/// The reference picture list modification of a slice: the MVC form for
/// NAL unit types 20 and 21, the plain form otherwise.
#[derive(Debug)]
pub enum RefPicListMod {
    MvcModification(RefPicListMvcModification),
    Modification(RefPicListModification),
}

/// Model of `RefPicListMod`.
pub enum RefPicListModView {
    MvcModification(ModView<MvcModificationCommand>),
    Modification(ModView<ModificationCommand>),
}

impl View for RefPicListMod {
    type V = RefPicListModView;

    open spec fn view(&self) -> RefPicListModView {
        match self {
            RefPicListMod::MvcModification(m) => RefPicListModView::MvcModification(m@),
            RefPicListMod::Modification(m) => RefPicListModView::Modification(m@),
        }
    }
}

/// NAL unit types whose slices carry the MVC list modification.
pub open spec fn is_mvc_nal(t: NalUnitType) -> bool {
    t == NalUnitType::SliceExt || t == NalUnitType::DepthExt
}

/// Reading the list modification of a slice of type `st` in a NAL unit of
/// type `t`.
pub open spec fn rplm_spec(s: Seq<bool>, p: nat, st: SliceType, t: NalUnitType) -> Result<(RefPicListModView, nat), Error> {
    if is_mvc_nal(t) {
        match mvc_mod_spec(s, p, st) {
            Ok((v, q)) => Ok((RefPicListModView::MvcModification(v), q)),
            Err(e) => Err(e),
        }
    } else {
        match ref_mod_spec(s, p, st) {
            Ok((v, q)) => Ok((RefPicListModView::Modification(v), q)),
            Err(e) => Err(e),
        }
    }
}

/// The bits of a list modification.
pub open spec fn rplm_bits(v: RefPicListModView) -> Seq<bool> {
    match v {
        RefPicListModView::MvcModification(m) => mvc_mod_bits(m),
        RefPicListModView::Modification(m) => ref_mod_bits(m),
    }
}

/// Every command argument of a list modification can be written.
pub open spec fn rplm_writable(v: RefPicListModView) -> bool {
    match v {
        RefPicListModView::MvcModification(m) => mvc_list_writable(m.l0) && mvc_list_writable(m.l1),
        RefPicListModView::Modification(m) => mod_list_writable(m.l0) && mod_list_writable(m.l1),
    }
}

impl RefPicListMod {
    /// Read the list modification of a slice of type `slice_type` in a NAL
    /// unit of type `nal_unit_type`.
    pub fn parse(reader: &mut BitstreamReader, slice_type: &SliceType, nal_unit_type: &NalUnitType) -> (r: Result<Self, Error>)
        ensures
            final(reader).bytes() == old(reader).bytes(),
            match rplm_spec(old(reader).bits(), old(reader).pos(), *slice_type, *nal_unit_type) {
                Ok((v, q)) => r matches Ok(x) && x@ == v && final(reader).pos() == q,
                Err(e) => r matches Err(x) && x == e,
            },
    {
        match nal_unit_type {
            NalUnitType::SliceExt | NalUnitType::DepthExt => {
                let m = RefPicListMvcModification::parse(reader, slice_type)?;
                Ok(RefPicListMod::MvcModification(m))
            },
            _ => {
                let m = RefPicListModification::parse(reader, slice_type)?;
                Ok(RefPicListMod::Modification(m))
            },
        }
    }

    /// Write the list modification.
    fn write(&self, writer: &mut BitstreamWriter)
        requires
            rplm_writable(self@),
        ensures
            final(writer).bits() == old(writer).bits() + rplm_bits(self@),
    {
        match self {
            RefPicListMod::MvcModification(m) => m.to_bytes(writer),
            RefPicListMod::Modification(m) => m.to_bytes(writer),
        }
    }
}

// ---------------------------------------------------------------------
// Prediction weight table.
// ---------------------------------------------------------------------

/// Weights of one reference index.
#[derive(Debug, Clone, Copy)]
pub struct WeightEntry {
    pub luma_weight_flag: bool,
    pub luma_weight: Option<i32>,
    pub luma_offset: Option<i32>,
    pub chroma_weight_flag: Option<bool>,
    /// `[Cb, Cr]`, each `(weight, offset)`.
    pub chroma_weight: Option<[(i32, i32); 2]>,
}

/// The prediction weight table.
#[derive(Debug)]
pub struct PredWeightTable {
    pub luma_log2_weight_denom: u32,
    pub chroma_log2_weight_denom: Option<u32>,
    pub l0: Option<Vec<WeightEntry>>,
    pub l1: Option<Vec<WeightEntry>>,
}

/// Model of `WeightEntry`: the chroma weights as a sequence.
pub struct WeightEntryView {
    pub luma_weight_flag: bool,
    pub luma_weight: Option<i32>,
    pub luma_offset: Option<i32>,
    pub chroma_weight_flag: Option<bool>,
    pub chroma_weight: Option<Seq<(i32, i32)>>,
}

/// Model of `PredWeightTable`.
pub struct PredWeightTableView {
    pub luma_log2_weight_denom: u32,
    pub chroma_log2_weight_denom: Option<u32>,
    pub l0: Option<Seq<WeightEntryView>>,
    pub l1: Option<Seq<WeightEntryView>>,
}

impl View for WeightEntry {
    type V = WeightEntryView;

    open spec fn view(&self) -> WeightEntryView {
        WeightEntryView {
            luma_weight_flag: self.luma_weight_flag,
            luma_weight: self.luma_weight,
            luma_offset: self.luma_offset,
            chroma_weight_flag: self.chroma_weight_flag,
            chroma_weight: match self.chroma_weight {
                Some(a) => Some(a@),
                None => None,
            },
        }
    }
}

/// The model of a list of weight entries.
pub open spec fn entries_view(v: Vec<WeightEntry>) -> Seq<WeightEntryView> {
    v@.map_values(|e: WeightEntry| e@)
}

/// The model of an optional list of weight entries.
pub open spec fn opt_entries_view(v: Option<Vec<WeightEntry>>) -> Option<Seq<WeightEntryView>> {
    match v {
        Some(v) => Some(entries_view(v)),
        None => None,
    }
}

impl View for PredWeightTable {
    type V = PredWeightTableView;

    open spec fn view(&self) -> PredWeightTableView {
        PredWeightTableView {
            luma_log2_weight_denom: self.luma_log2_weight_denom,
            chroma_log2_weight_denom: self.chroma_log2_weight_denom,
            l0: opt_entries_view(self.l0),
            l1: opt_entries_view(self.l1),
        }
    }
}

/// Reading a weight and an offset, each `se(v)`.
pub open spec fn se_pair_spec(s: Seq<bool>, p: nat) -> Result<((i32, i32), nat), Error> {
    match sp_se(s, p) {
        Err(e) => Err(e),
        Ok((w, p1)) => match sp_se(s, p1) {
            Err(e) => Err(e),
            Ok((o, q)) => Ok(((w, o), q)),
        },
    }
}

/// Reading the chroma part of a weight entry (present when
/// `ChromaArrayType != 0`).
pub open spec fn chroma_weight_spec(s: Seq<bool>, p: nat) -> Result<((bool, Option<Seq<(i32, i32)>>), nat), Error> {
    match sp_flag(s, p) {
        Err(e) => Err(e),
        Ok((f, p1)) => if f {
            match se_pair_spec(s, p1) {
                Err(e) => Err(e),
                Ok((cb, p2)) => match se_pair_spec(s, p2) {
                    Err(e) => Err(e),
                    Ok((cr, q)) => Ok(((true, Some(seq![cb, cr])), q)),
                },
            }
        } else {
            Ok(((false, None), p1))
        },
    }
}

/// Reading one weight entry.
pub open spec fn weight_entry_spec(s: Seq<bool>, p: nat, chroma: bool) -> Result<(WeightEntryView, nat), Error> {
    match sp_flag(s, p) {
        Err(e) => Err(e),
        Ok((lf, p1)) => {
            let luma: Result<((Option<i32>, Option<i32>), nat), Error> = if lf {
                match se_pair_spec(s, p1) {
                    Err(e) => Err(e),
                    Ok(((w, o), q)) => Ok(((Some(w), Some(o)), q)),
                }
            } else {
                Ok(((None, None), p1))
            };
            match luma {
                Err(e) => Err(e),
                Ok(((lw, lo), p2)) => if chroma {
                    match chroma_weight_spec(s, p2) {
                        Err(e) => Err(e),
                        Ok(((cf, cw), q)) => Ok((WeightEntryView {
                            luma_weight_flag: lf,
                            luma_weight: lw,
                            luma_offset: lo,
                            chroma_weight_flag: Some(cf),
                            chroma_weight: cw,
                        }, q)),
                    }
                } else {
                    Ok((WeightEntryView {
                        luma_weight_flag: lf,
                        luma_weight: lw,
                        luma_offset: lo,
                        chroma_weight_flag: None,
                        chroma_weight: None,
                    }, p2))
                },
            }
        },
    }
}

/// Reading `n` weight entries.
pub open spec fn weights_spec(s: Seq<bool>, p: nat, n: nat, chroma: bool) -> Result<(Seq<WeightEntryView>, nat), Error>
    decreases n,
{
    if n == 0 {
        Ok((Seq::empty(), p))
    } else {
        match weight_entry_spec(s, p, chroma) {
            Err(e) => Err(e),
            Ok((e, q)) => prepend_seq(seq![e], weights_spec(s, q, (n - 1) as nat, chroma)),
        }
    }
}

/// Reading the prediction weight table: the denominators, `num_l0 + 1`
/// entries for list 0 and, in a B slice (`is_b`), `num_l1 + 1` entries
/// for list 1.
pub open spec fn pwt_spec(s: Seq<bool>, p: nat, chroma_array_type: u8, num_l0: u32, num_l1: u32, is_b: bool) -> Result<(PredWeightTableView, nat), Error> {
    let chroma = chroma_array_type != 0;
    match sp_ue(s, p) {
        Err(e) => Err(e),
        Ok((luma_denom, p1)) => {
            let cd: Result<(Option<u32>, nat), Error> = if chroma {
                match sp_ue(s, p1) {
                    Err(e) => Err(e),
                    Ok((d, q)) => Ok((Some(d), q)),
                }
            } else {
                Ok((None, p1))
            };
            match cd {
                Err(e) => Err(e),
                Ok((chroma_denom, p2)) => match weights_spec(s, p2, num_l0 as nat + 1, chroma) {
                    Err(e) => Err(e),
                    Ok((l0, p3)) => if is_b {
                        match weights_spec(s, p3, num_l1 as nat + 1, chroma) {
                            Err(e) => Err(e),
                            Ok((l1, q)) => Ok((PredWeightTableView {
                                luma_log2_weight_denom: luma_denom,
                                chroma_log2_weight_denom: chroma_denom,
                                l0: Some(l0),
                                l1: Some(l1),
                            }, q)),
                        }
                    } else {
                        Ok((PredWeightTableView {
                            luma_log2_weight_denom: luma_denom,
                            chroma_log2_weight_denom: chroma_denom,
                            l0: Some(l0),
                            l1: None,
                        }, p3))
                    },
                },
            }
        },
    }
}

/// Read a weight and an offset.
fn parse_se_pair(reader: &mut BitstreamReader) -> (r: Result<(i32, i32), Error>)
    ensures
        final(reader).bytes() == old(reader).bytes(),
        match se_pair_spec(old(reader).bits(), old(reader).pos()) {
            Ok((v, q)) => r == Ok::<(i32, i32), Error>(v) && final(reader).pos() == q,
            Err(e) => r == Err::<(i32, i32), Error>(e),
        },
{
    let w = read_se(reader)?;
    let o = read_se(reader)?;
    Ok((w, o))
}

/// Read one weight entry.
fn parse_weight_entry(reader: &mut BitstreamReader, chroma: bool) -> (r: Result<WeightEntry, Error>)
    ensures
        final(reader).bytes() == old(reader).bytes(),
        match weight_entry_spec(old(reader).bits(), old(reader).pos(), chroma) {
            Ok((v, q)) => r matches Ok(x) && x@ == v && final(reader).pos() == q,
            Err(e) => r matches Err(x) && x == e,
        },
{
    let luma_weight_flag = read_flag(reader)?;
    let (luma_weight, luma_offset) = if luma_weight_flag {
        let (w, o) = parse_se_pair(reader)?;
        (Some(w), Some(o))
    } else {
        (None, None)
    };
    let ghost p2 = reader.pos();
    if chroma {
        let flag = read_flag(reader)?;
        if flag {
            let cb = parse_se_pair(reader)?;
            let cr = parse_se_pair(reader)?;
            let mut a: [(i32, i32); 2] = [(0, 0); 2];
            a[0] = cb;
            a[1] = cr;
            assert(a@ =~= seq![cb, cr]);
            Ok(WeightEntry {
                luma_weight_flag,
                luma_weight,
                luma_offset,
                chroma_weight_flag: Some(true),
                chroma_weight: Some(a),
            })
        } else {
            Ok(WeightEntry {
                luma_weight_flag,
                luma_weight,
                luma_offset,
                chroma_weight_flag: Some(false),
                chroma_weight: None,
            })
        }
    } else {
        Ok(WeightEntry {
            luma_weight_flag,
            luma_weight,
            luma_offset,
            chroma_weight_flag: None,
            chroma_weight: None,
        })
    }
}

/// Read `num_ref_idx + 1` weight entries.
fn parse_entries(reader: &mut BitstreamReader, chroma: bool, num_ref_idx: u32) -> (r: Result<Vec<WeightEntry>, Error>)
    ensures
        final(reader).bytes() == old(reader).bytes(),
        match weights_spec(old(reader).bits(), old(reader).pos(), num_ref_idx as nat + 1, chroma) {
            Ok((v, q)) => r matches Ok(x) && entries_view(x) == v && final(reader).pos() == q,
            Err(e) => r matches Err(x) && x == e,
        },
{
    let ghost s = old(reader).bits();
    let ghost p0 = old(reader).pos();
    let n: u64 = num_ref_idx as u64 + 1;
    let mut out: Vec<WeightEntry> = Vec::new();
    let mut i: u64 = 0;
    proof {
        match weights_spec(s, p0, n as nat, chroma) {
            Ok((v, q)) => { assert(entries_view(out) + v =~= v); },
            Err(_) => {},
        }
    }
    while i < n
        invariant
            i <= n,
            n == num_ref_idx as nat + 1,
            reader.bytes() == old(reader).bytes(),
            s == old(reader).bits(),
            p0 == old(reader).pos(),
            s == reader.bits(),
            weights_spec(s, p0, n as nat, chroma) == prepend_seq(entries_view(out), weights_spec(s, reader.pos(), (n - i) as nat, chroma)),
        decreases n - i,
    {
        let e = parse_weight_entry(reader, chroma)?;
        let ghost before = entries_view(out);
        out.push(e);
        proof {
            assert(entries_view(out) =~= before + seq![e@]);
            match weights_spec(s, reader.pos(), (n - i - 1) as nat, chroma) {
                Ok((rest, q)) => {
                    assert(before + (seq![e@] + rest) =~= entries_view(out) + rest);
                },
                Err(_) => {},
            }
        }
        i = i + 1;
    }
    assert(entries_view(out) + Seq::<WeightEntryView>::empty() =~= entries_view(out));
    Ok(out)
}

/// The bits of the luma weight and offset (written when both are present).
pub open spec fn luma_bits(e: WeightEntryView) -> Seq<bool> {
    match (e.luma_weight, e.luma_offset) {
        (Some(w), Some(o)) => se_bits(w) + se_bits(o),
        _ => Seq::empty(),
    }
}

/// The bits of the chroma flag (when present) and of the chroma weights
/// and offsets (when present after the flag).
pub open spec fn chroma_bits(e: WeightEntryView) -> Seq<bool> {
    match e.chroma_weight_flag {
        Some(f) => seq![f] + match e.chroma_weight {
            Some(c) => se_bits(c[0].0) + se_bits(c[0].1) + se_bits(c[1].0) + se_bits(c[1].1),
            None => Seq::empty(),
        },
        None => Seq::empty(),
    }
}

/// The bits of one weight entry.
pub open spec fn entry_bits(e: WeightEntryView) -> Seq<bool> {
    seq![e.luma_weight_flag] + luma_bits(e) + chroma_bits(e)
}

/// The bits of a list of weight entries.
pub open spec fn entries_bits(es: Seq<WeightEntryView>) -> Seq<bool>
    decreases es.len(),
{
    if es.len() == 0 {
        Seq::empty()
    } else {
        entry_bits(es[0]) + entries_bits(es.drop_first())
    }
}

/// The bits of an optional list of weight entries.
pub open spec fn opt_entries_bits(es: Option<Seq<WeightEntryView>>) -> Seq<bool> {
    match es {
        Some(es) => entries_bits(es),
        None => Seq::empty(),
    }
}

/// The bits of the prediction weight table.
pub open spec fn pwt_bits(v: PredWeightTableView) -> Seq<bool> {
    ue_bits(v.luma_log2_weight_denom)
        + match v.chroma_log2_weight_denom {
            Some(d) => ue_bits(d),
            None => Seq::empty(),
        }
        + opt_entries_bits(v.l0) + opt_entries_bits(v.l1)
}

/// Every value of a weight entry that is written can be written as `se(v)`.
pub open spec fn entry_writable(e: WeightEntryView) -> bool {
    &&& match (e.luma_weight, e.luma_offset) {
        (Some(w), Some(o)) => w > i32::MIN && o > i32::MIN,
        _ => true,
    }
    &&& match (e.chroma_weight_flag, e.chroma_weight) {
        (Some(_), Some(c)) => c.len() == 2 && c[0].0 > i32::MIN && c[0].1 > i32::MIN
            && c[1].0 > i32::MIN && c[1].1 > i32::MIN,
        _ => true,
    }
}

/// Every entry of a list can be written.
pub open spec fn entries_writable(es: Seq<WeightEntryView>) -> bool {
    forall|i: int| 0 <= i < es.len() ==> entry_writable(#[trigger] es[i])
}

/// Every value of the table that is written can be written.
pub open spec fn pwt_writable(v: PredWeightTableView) -> bool {
    &&& v.luma_log2_weight_denom < u32::MAX
    &&& (v.chroma_log2_weight_denom matches Some(d) ==> d < u32::MAX)
    &&& (v.l0 matches Some(es) ==> entries_writable(es))
    &&& (v.l1 matches Some(es) ==> entries_writable(es))
}

/// Write one weight entry.
#[verifier::spinoff_prover]
#[verifier::rlimit(40)]
fn write_entry(writer: &mut BitstreamWriter, e: &WeightEntry)
    requires
        entry_writable(e@),
    ensures
        final(writer).bits() == old(writer).bits() + entry_bits(e@),
{
    let ghost b0 = writer.bits();
    writer.write_bool(e.luma_weight_flag);
    assert(b0.push(e.luma_weight_flag) =~= b0 + seq![e.luma_weight_flag]);
    let ghost b1 = writer.bits();
    match (e.luma_weight, e.luma_offset) {
        (Some(w), Some(o)) => {
            writer.write_se(w);
            writer.write_se(o);
            proof { lemma_add_assoc(b1, se_bits(w), se_bits(o)); }
        },
        _ => {
            assert(b1 + Seq::<bool>::empty() =~= b1);
        },
    }
    proof { lemma_add_assoc(b0, seq![e.luma_weight_flag], luma_bits(e@)); }
    let ghost b2 = writer.bits();
    match e.chroma_weight_flag {
        Some(f) => {
            writer.write_bool(f);
            assert(b2.push(f) =~= b2 + seq![f]);
            let ghost b3 = writer.bits();
            match e.chroma_weight {
                Some(c) => {
                    let (w0, o0) = c[0];
                    let (w1, o1) = c[1];
                    writer.write_se(w0);
                    writer.write_se(o0);
                    writer.write_se(w1);
                    writer.write_se(o1);
                    proof {
                        lemma_add_assoc(b3, se_bits(w0), se_bits(o0));
                        lemma_add_assoc(b3, se_bits(w0) + se_bits(o0), se_bits(w1));
                        lemma_add_assoc(b3, se_bits(w0) + se_bits(o0) + se_bits(w1), se_bits(o1));
                    }
                },
                None => {
                    assert(b3 + Seq::<bool>::empty() =~= b3);
                },
            }
            proof {
                let cw = match e@.chroma_weight {
                    Some(c) => se_bits(c[0].0) + se_bits(c[0].1) + se_bits(c[1].0) + se_bits(c[1].1),
                    None => Seq::<bool>::empty(),
                };
                lemma_add_assoc(b2, seq![f], cw);
            }
        },
        None => {
            assert(b2 + Seq::<bool>::empty() =~= b2);
        },
    }
}

/// Write a list of weight entries.
fn write_entries(writer: &mut BitstreamWriter, es: &Vec<WeightEntry>)
    requires
        entries_writable(entries_view(*es)),
    ensures
        final(writer).bits() == old(writer).bits() + entries_bits(entries_view(*es)),
{
    let ghost v = entries_view(*es);
    let mut i: usize = 0;
    assert(v.subrange(0, v.len() as int) =~= v);
    while i < es.len()
        invariant
            i <= es.len(),
            v == entries_view(*es),
            entries_writable(v),
            writer.bits() + entries_bits(v.subrange(i as int, v.len() as int)) == old(writer).bits() + entries_bits(v),
        decreases es.len() - i,
    {
        let ghost before = writer.bits();
        let ghost t = v.subrange(i as int, v.len() as int);
        assert(v[i as int] == es@[i as int]@);
        assert(entry_writable(v[i as int]));
        write_entry(writer, &es[i]);
        proof {
            assert(t.drop_first() =~= v.subrange(i + 1, v.len() as int));
            assert(t[0] == es@[i as int]@);
            lemma_add_assoc(before, entry_bits(t[0]), entries_bits(t.drop_first()));
        }
        i = i + 1;
    }
    assert(v.subrange(i as int, v.len() as int) =~= Seq::<WeightEntryView>::empty());
    assert(writer.bits() + Seq::<bool>::empty() =~= writer.bits());
}

/// Write an optional list of weight entries.
fn write_opt_entries(writer: &mut BitstreamWriter, es: &Option<Vec<WeightEntry>>)
    requires
        opt_entries_view(*es) matches Some(v) ==> entries_writable(v),
    ensures
        final(writer).bits() == old(writer).bits() + opt_entries_bits(opt_entries_view(*es)),
{
    match es {
        Some(v) => write_entries(writer, v),
        None => {
            assert(old(writer).bits() + Seq::<bool>::empty() =~= old(writer).bits());
        },
    }
}

impl PredWeightTable {
    /// Read the prediction weight table for `ChromaArrayType`
    /// `chroma_array_type` and the active reference index counts (minus 1);
    /// the list 1 weights are read in a B slice (`is_b`) only.
    pub fn parse(reader: &mut BitstreamReader, chroma_array_type: u8, num_ref_idx_l0: u32, num_ref_idx_l1: u32, is_b: bool) -> (r: Result<Self, Error>)
        ensures
            final(reader).bytes() == old(reader).bytes(),
            match pwt_spec(old(reader).bits(), old(reader).pos(), chroma_array_type, num_ref_idx_l0, num_ref_idx_l1, is_b) {
                Ok((v, q)) => r matches Ok(x) && x@ == v && final(reader).pos() == q,
                Err(e) => r matches Err(x) && x == e,
            },
    {
        let chroma = chroma_array_type != 0;
        let luma_log2_weight_denom = read_ue(reader)?;
        let chroma_log2_weight_denom = if chroma {
            Some(read_ue(reader)?)
        } else {
            None
        };
        let l0 = parse_entries(reader, chroma, num_ref_idx_l0)?;
        let l1 = if is_b {
            Some(parse_entries(reader, chroma, num_ref_idx_l1)?)
        } else {
            None
        };
        Ok(PredWeightTable { luma_log2_weight_denom, chroma_log2_weight_denom, l0: Some(l0), l1 })
    }

    /// Write the prediction weight table.
    pub fn to_bytes(&self, writer: &mut BitstreamWriter)
        requires
            pwt_writable(self@),
        ensures
            final(writer).bits() == old(writer).bits() + pwt_bits(self@),
    {
        let ghost b0 = writer.bits();
        writer.write_ue(self.luma_log2_weight_denom);
        let ghost b1 = writer.bits();
        match self.chroma_log2_weight_denom {
            Some(d) => writer.write_ue(d),
            None => {
                assert(b1 + Seq::<bool>::empty() =~= b1);
            },
        }
        let ghost cd = match self.chroma_log2_weight_denom {
            Some(d) => ue_bits(d),
            None => Seq::<bool>::empty(),
        };
        let ghost b2 = writer.bits();
        write_opt_entries(writer, &self.l0);
        let ghost b3 = writer.bits();
        write_opt_entries(writer, &self.l1);
        proof {
            lemma_add_assoc(b0, ue_bits(self.luma_log2_weight_denom), cd);
            lemma_add_assoc(b0, ue_bits(self.luma_log2_weight_denom) + cd, opt_entries_bits(self@.l0));
            lemma_add_assoc(b0, ue_bits(self.luma_log2_weight_denom) + cd + opt_entries_bits(self@.l0), opt_entries_bits(self@.l1));
        }
    }
}

// ---------------------------------------------------------------------
// Decoded reference picture marking.
// ---------------------------------------------------------------------

/// One `memory_management_control_operation` with its arguments
/// (operation 0 ends the list and is not stored).
#[derive(Debug, Clone, Copy, PartialEq, Eq, Structural)]
pub enum MemoryManagementControlOp {
    Mmco1 { difference_of_pic_nums_minus1: u32 },
    Mmco2 { long_term_pic_num: u32 },
    Mmco3 { difference_of_pic_nums_minus1: u32, long_term_frame_idx: u32 },
    Mmco4 { max_long_term_frame_idx_plus1: u32 },
    Mmco5,
    Mmco6 { long_term_frame_idx: u32 },
}

/// Decoded reference picture marking: the IDR form or the adaptive form,
/// whose operations are present when its flag is set.
#[derive(Debug)]
pub enum DecRefPicMarking {
    Idr { no_output_of_prior_pics_flag: bool, long_term_reference_flag: bool },
    NonIdr { adaptive_ref_pic_marking_mode_flag: bool, commands: Option<Vec<MemoryManagementControlOp>> },
}

/// Model of `DecRefPicMarking`.
pub enum DecRefPicMarkingView {
    Idr { no_output_of_prior_pics_flag: bool, long_term_reference_flag: bool },
    NonIdr { adaptive_ref_pic_marking_mode_flag: bool, commands: Option<Seq<MemoryManagementControlOp>> },
}

impl View for DecRefPicMarking {
    type V = DecRefPicMarkingView;

    open spec fn view(&self) -> DecRefPicMarkingView {
        match self {
            DecRefPicMarking::Idr { no_output_of_prior_pics_flag, long_term_reference_flag } => DecRefPicMarkingView::Idr {
                no_output_of_prior_pics_flag: *no_output_of_prior_pics_flag,
                long_term_reference_flag: *long_term_reference_flag,
            },
            DecRefPicMarking::NonIdr { adaptive_ref_pic_marking_mode_flag, commands } => DecRefPicMarkingView::NonIdr {
                adaptive_ref_pic_marking_mode_flag: *adaptive_ref_pic_marking_mode_flag,
                commands: match commands {
                    Some(c) => Some(c@),
                    None => None,
                },
            },
        }
    }
}

/// Reading the arguments of operation `op` (1 to 6).
pub open spec fn mmco_args_spec(s: Seq<bool>, p: nat, op: u32) -> Result<(MemoryManagementControlOp, nat), Error> {
    if op == 5 {
        Ok((MemoryManagementControlOp::Mmco5, p))
    } else {
        match sp_ue(s, p) {
            Err(e) => Err(e),
            Ok((a, p1)) => if op == 1 {
                Ok((MemoryManagementControlOp::Mmco1 { difference_of_pic_nums_minus1: a }, p1))
            } else if op == 2 {
                Ok((MemoryManagementControlOp::Mmco2 { long_term_pic_num: a }, p1))
            } else if op == 3 {
                match sp_ue(s, p1) {
                    Err(e) => Err(e),
                    Ok((b, q)) => Ok((MemoryManagementControlOp::Mmco3 { difference_of_pic_nums_minus1: a, long_term_frame_idx: b }, q)),
                }
            } else if op == 4 {
                Ok((MemoryManagementControlOp::Mmco4 { max_long_term_frame_idx_plus1: a }, p1))
            } else {
                Ok((MemoryManagementControlOp::Mmco6 { long_term_frame_idx: a }, p1))
            },
        }
    }
}

/// Reading the arguments of an operation stays within the input and does
/// not go back.
pub proof fn lemma_mmco_args_advances(s: Seq<bool>, p: nat, op: u32)
    requires
        p <= s.len(),
    ensures
        mmco_args_spec(s, p, op) is Ok ==> p <= mmco_args_spec(s, p, op)->Ok_0.1 <= s.len(),
{
    lemma_sp_ue_advances(s, p);
    if sp_ue(s, p) is Ok {
        lemma_sp_ue_advances(s, sp_ue(s, p)->Ok_0.1);
    }
}

/// Reading operations up to the terminating operation 0; an operation
/// above 6 is refused.
pub open spec fn mmcos_spec(s: Seq<bool>, p: nat) -> Result<(Seq<MemoryManagementControlOp>, nat), Error>
    decreases s.len() - p,
{
    match sp_ue(s, p) {
        Err(e) => Err(e),
        Ok((op, p1)) => if op == 0 {
            Ok((Seq::empty(), p1))
        } else if op > 6 {
            Err(Error::InvalidMemoryManagementControlOp(op))
        } else {
            match mmco_args_spec(s, p1, op) {
                Err(e) => Err(e),
                Ok((c, p2)) => {
                    proof {
                        lemma_sp_ue_advances(s, p);
                        lemma_mmco_args_advances(s, p1, op);
                    }
                    prepend_seq(seq![c], mmcos_spec(s, p2))
                },
            }
        },
    }
}

/// Reading the decoded reference picture marking of an IDR picture
/// (`is_idr`) or of another picture.
pub open spec fn drpm_spec(s: Seq<bool>, p: nat, is_idr: bool) -> Result<(DecRefPicMarkingView, nat), Error> {
    if is_idr {
        match sp_flag(s, p) {
            Err(e) => Err(e),
            Ok((a, p1)) => match sp_flag(s, p1) {
                Err(e) => Err(e),
                Ok((b, q)) => Ok((DecRefPicMarkingView::Idr { no_output_of_prior_pics_flag: a, long_term_reference_flag: b }, q)),
            },
        }
    } else {
        match sp_flag(s, p) {
            Err(e) => Err(e),
            Ok((f, p1)) => if f {
                match mmcos_spec(s, p1) {
                    Err(e) => Err(e),
                    Ok((c, q)) => Ok((DecRefPicMarkingView::NonIdr { adaptive_ref_pic_marking_mode_flag: true, commands: Some(c) }, q)),
                }
            } else {
                Ok((DecRefPicMarkingView::NonIdr { adaptive_ref_pic_marking_mode_flag: false, commands: None }, p1))
            },
        }
    }
}

/// Read the arguments of operation `op` (1 to 6).
fn parse_mmco_args(reader: &mut BitstreamReader, op: u32) -> (r: Result<MemoryManagementControlOp, Error>)
    requires
        1 <= op <= 6,
    ensures
        final(reader).bytes() == old(reader).bytes(),
        match mmco_args_spec(old(reader).bits(), old(reader).pos(), op) {
            Ok((v, q)) => r == Ok::<MemoryManagementControlOp, Error>(v) && final(reader).pos() == q,
            Err(e) => r == Err::<MemoryManagementControlOp, Error>(e),
        },
{
    if op == 5 {
        return Ok(MemoryManagementControlOp::Mmco5);
    }
    let a = read_ue(reader)?;
    if op == 1 {
        Ok(MemoryManagementControlOp::Mmco1 { difference_of_pic_nums_minus1: a })
    } else if op == 2 {
        Ok(MemoryManagementControlOp::Mmco2 { long_term_pic_num: a })
    } else if op == 3 {
        let b = read_ue(reader)?;
        Ok(MemoryManagementControlOp::Mmco3 { difference_of_pic_nums_minus1: a, long_term_frame_idx: b })
    } else if op == 4 {
        Ok(MemoryManagementControlOp::Mmco4 { max_long_term_frame_idx_plus1: a })
    } else {
        Ok(MemoryManagementControlOp::Mmco6 { long_term_frame_idx: a })
    }
}

/// Read operations up to the terminator.
fn parse_mmcos(reader: &mut BitstreamReader) -> (r: Result<Vec<MemoryManagementControlOp>, Error>)
    ensures
        final(reader).bytes() == old(reader).bytes(),
        match mmcos_spec(old(reader).bits(), old(reader).pos()) {
            Ok((v, q)) => r matches Ok(x) && x@ == v && final(reader).pos() == q,
            Err(e) => r matches Err(x) && x == e,
        },
{
    let ghost s = old(reader).bits();
    let ghost p0 = old(reader).pos();
    let mut out: Vec<MemoryManagementControlOp> = Vec::new();
    proof {
        match mmcos_spec(s, p0) {
            Ok((v, q)) => { assert(out@ + v =~= v); },
            Err(_) => {},
        }
    }
    loop
        invariant
            reader.bytes() == old(reader).bytes(),
            s == old(reader).bits(),
            p0 == old(reader).pos(),
            s == reader.bits(),
            mmcos_spec(s, p0) == prepend_seq(out@, mmcos_spec(s, reader.pos())),
        decreases s.len() - reader.pos(),
    {
        let ghost p = reader.pos();
        proof {
            lemma_sp_ue_advances(s, p);
        }
        let op = read_ue(reader)?;
        if op == 0 {
            assert(out@ + Seq::<MemoryManagementControlOp>::empty() =~= out@);
            return Ok(out);
        }
        if op > 6 {
            return Err(Error::InvalidMemoryManagementControlOp(op));
        }
        let ghost p1 = reader.pos();
        proof {
            lemma_mmco_args_advances(s, p1, op);
        }
        let c = parse_mmco_args(reader, op)?;
        let ghost before = out@;
        out.push(c);
        proof {
            match mmcos_spec(s, reader.pos()) {
                Ok((rest, q)) => {
                    assert(before + (seq![c] + rest) =~= out@ + rest);
                },
                Err(_) => {},
            }
        }
    }
}

/// The bits of one operation: its number and its arguments.
pub open spec fn mmco_bits(c: MemoryManagementControlOp) -> Seq<bool> {
    match c {
        MemoryManagementControlOp::Mmco1 { difference_of_pic_nums_minus1: a } => ue_bits(1) + ue_bits(a),
        MemoryManagementControlOp::Mmco2 { long_term_pic_num: a } => ue_bits(2) + ue_bits(a),
        MemoryManagementControlOp::Mmco3 { difference_of_pic_nums_minus1: a, long_term_frame_idx: b } => ue_bits(3) + ue_bits(a) + ue_bits(b),
        MemoryManagementControlOp::Mmco4 { max_long_term_frame_idx_plus1: a } => ue_bits(4) + ue_bits(a),
        MemoryManagementControlOp::Mmco5 => ue_bits(5),
        MemoryManagementControlOp::Mmco6 { long_term_frame_idx: a } => ue_bits(6) + ue_bits(a),
    }
}

/// The arguments of an operation can be written as `ue(v)`.
pub open spec fn mmco_writable(c: MemoryManagementControlOp) -> bool {
    match c {
        MemoryManagementControlOp::Mmco1 { difference_of_pic_nums_minus1: a } => a < u32::MAX,
        MemoryManagementControlOp::Mmco2 { long_term_pic_num: a } => a < u32::MAX,
        MemoryManagementControlOp::Mmco3 { difference_of_pic_nums_minus1: a, long_term_frame_idx: b } => a < u32::MAX && b < u32::MAX,
        MemoryManagementControlOp::Mmco4 { max_long_term_frame_idx_plus1: a } => a < u32::MAX,
        MemoryManagementControlOp::Mmco5 => true,
        MemoryManagementControlOp::Mmco6 { long_term_frame_idx: a } => a < u32::MAX,
    }
}

/// The bits of a sequence of operations, without the terminator.
pub open spec fn mmcos_bits(cs: Seq<MemoryManagementControlOp>) -> Seq<bool>
    decreases cs.len(),
{
    if cs.len() == 0 {
        Seq::empty()
    } else {
        mmco_bits(cs[0]) + mmcos_bits(cs.drop_first())
    }
}

/// The bits of the decoded reference picture marking: the two IDR flags,
/// or the adaptive flag followed, when operations are present, by them and
/// the terminating operation 0.
pub open spec fn drpm_bits(v: DecRefPicMarkingView) -> Seq<bool> {
    match v {
        DecRefPicMarkingView::Idr { no_output_of_prior_pics_flag: a, long_term_reference_flag: b } => seq![a, b],
        DecRefPicMarkingView::NonIdr { adaptive_ref_pic_marking_mode_flag: f, commands: c } => match c {
            Some(c) => seq![f] + mmcos_bits(c) + ue_bits(0),
            None => seq![f],
        },
    }
}

/// Every operation of a sequence can be written.
pub open spec fn mmcos_writable(cs: Seq<MemoryManagementControlOp>) -> bool {
    forall|i: int| 0 <= i < cs.len() ==> mmco_writable(#[trigger] cs[i])
}

/// Every operation of the marking can be written.
pub open spec fn drpm_writable(v: DecRefPicMarkingView) -> bool {
    match v {
        DecRefPicMarkingView::NonIdr { commands: Some(c), .. } => mmcos_writable(c),
        _ => true,
    }
}

/// Write one operation.
fn write_mmco(writer: &mut BitstreamWriter, c: MemoryManagementControlOp)
    requires
        mmco_writable(c),
    ensures
        final(writer).bits() == old(writer).bits() + mmco_bits(c),
{
    let ghost b = writer.bits();
    match c {
        MemoryManagementControlOp::Mmco1 { difference_of_pic_nums_minus1 } => {
            writer.write_ue(1);
            writer.write_ue(difference_of_pic_nums_minus1);
            proof { lemma_add_assoc(b, ue_bits(1), ue_bits(difference_of_pic_nums_minus1)); }
        },
        MemoryManagementControlOp::Mmco2 { long_term_pic_num } => {
            writer.write_ue(2);
            writer.write_ue(long_term_pic_num);
            proof { lemma_add_assoc(b, ue_bits(2), ue_bits(long_term_pic_num)); }
        },
        MemoryManagementControlOp::Mmco3 { difference_of_pic_nums_minus1, long_term_frame_idx } => {
            writer.write_ue(3);
            writer.write_ue(difference_of_pic_nums_minus1);
            writer.write_ue(long_term_frame_idx);
            proof {
                lemma_add_assoc(b, ue_bits(3), ue_bits(difference_of_pic_nums_minus1));
                lemma_add_assoc(b, ue_bits(3) + ue_bits(difference_of_pic_nums_minus1), ue_bits(long_term_frame_idx));
            }
        },
        MemoryManagementControlOp::Mmco4 { max_long_term_frame_idx_plus1 } => {
            writer.write_ue(4);
            writer.write_ue(max_long_term_frame_idx_plus1);
            proof { lemma_add_assoc(b, ue_bits(4), ue_bits(max_long_term_frame_idx_plus1)); }
        },
        MemoryManagementControlOp::Mmco5 => {
            writer.write_ue(5);
        },
        MemoryManagementControlOp::Mmco6 { long_term_frame_idx } => {
            writer.write_ue(6);
            writer.write_ue(long_term_frame_idx);
            proof { lemma_add_assoc(b, ue_bits(6), ue_bits(long_term_frame_idx)); }
        },
    }
}

/// Write operations (without the terminator).
fn write_mmcos(writer: &mut BitstreamWriter, cs: &Vec<MemoryManagementControlOp>)
    requires
        mmcos_writable(cs@),
    ensures
        final(writer).bits() == old(writer).bits() + mmcos_bits(cs@),
{
    let mut i: usize = 0;
    assert(cs@.subrange(0, cs@.len() as int) =~= cs@);
    while i < cs.len()
        invariant
            i <= cs.len(),
            mmcos_writable(cs@),
            writer.bits() + mmcos_bits(cs@.subrange(i as int, cs@.len() as int)) == old(writer).bits() + mmcos_bits(cs@),
        decreases cs.len() - i,
    {
        let ghost before = writer.bits();
        let ghost t = cs@.subrange(i as int, cs@.len() as int);
        let c = cs[i];
        write_mmco(writer, c);
        proof {
            assert(t.drop_first() =~= cs@.subrange(i + 1, cs@.len() as int));
            assert(t[0] == c);
            lemma_add_assoc(before, mmco_bits(c), mmcos_bits(t.drop_first()));
        }
        i = i + 1;
    }
    assert(cs@.subrange(i as int, cs@.len() as int) =~= Seq::<MemoryManagementControlOp>::empty());
    assert(writer.bits() + Seq::<bool>::empty() =~= writer.bits());
}

impl DecRefPicMarking {
    /// Write the marking.
    pub fn to_bytes(&self, writer: &mut BitstreamWriter)
        requires
            drpm_writable(self@),
        ensures
            final(writer).bits() == old(writer).bits() + drpm_bits(self@),
    {
        let ghost b = writer.bits();
        match self {
            DecRefPicMarking::Idr { no_output_of_prior_pics_flag, long_term_reference_flag } => {
                writer.write_bool(*no_output_of_prior_pics_flag);
                writer.write_bool(*long_term_reference_flag);
                assert(b.push(*no_output_of_prior_pics_flag).push(*long_term_reference_flag) =~= b + seq![*no_output_of_prior_pics_flag, *long_term_reference_flag]);
            },
            DecRefPicMarking::NonIdr { adaptive_ref_pic_marking_mode_flag, commands } => {
                writer.write_bool(*adaptive_ref_pic_marking_mode_flag);
                assert(b.push(*adaptive_ref_pic_marking_mode_flag) =~= b + seq![*adaptive_ref_pic_marking_mode_flag]);
                if let Some(cmds) = commands {
                    write_mmcos(writer, cmds);
                    writer.write_ue(0);
                    proof {
                        let f = seq![*adaptive_ref_pic_marking_mode_flag];
                        lemma_add_assoc(b, f, mmcos_bits(cmds@));
                        lemma_add_assoc(b, f + mmcos_bits(cmds@), ue_bits(0));
                    }
                }
            },
        }
    }

    /// Read the marking of an IDR picture (`is_idr`) or of another picture.
    pub fn parse(reader: &mut BitstreamReader, is_idr: bool) -> (r: Result<Self, Error>)
        ensures
            final(reader).bytes() == old(reader).bytes(),
            match drpm_spec(old(reader).bits(), old(reader).pos(), is_idr) {
                Ok((v, q)) => r matches Ok(x) && x@ == v && final(reader).pos() == q,
                Err(e) => r matches Err(x) && x == e,
            },
    {
        if is_idr {
            let no_output_of_prior_pics_flag = read_flag(reader)?;
            let long_term_reference_flag = read_flag(reader)?;
            Ok(DecRefPicMarking::Idr { no_output_of_prior_pics_flag, long_term_reference_flag })
        } else {
            let adaptive_ref_pic_marking_mode_flag = read_flag(reader)?;
            let commands = if adaptive_ref_pic_marking_mode_flag {
                Some(parse_mmcos(reader)?)
            } else {
                None
            };
            Ok(DecRefPicMarking::NonIdr { adaptive_ref_pic_marking_mode_flag, commands })
        }
    }
}

// ---------------------------------------------------------------------
// Slice header.
// ---------------------------------------------------------------------

/// Field coding flags (present unless `frame_mbs_only_flag`).
#[derive(Debug, Clone, Copy, PartialEq, Eq, Structural)]
pub struct FieldFlags {
    pub field_pic_flag: bool,
    pub bottom_field_flag: Option<bool>,
}

/// Picture order count fields for `pic_order_cnt_type` 0.
#[derive(Debug, Clone, Copy, PartialEq, Eq, Structural)]
pub struct PicOrderCnt {
    pub pic_order_cnt_lsb: u32,
    pub delta_pic_order_cnt_bottom: Option<i32>,
}

/// Active reference index override (P, SP and B slices).
#[derive(Debug, Clone, Copy, PartialEq, Eq, Structural)]
pub struct NumRefIdx {
    pub num_ref_idx_active_override_flag: bool,
    pub num_ref_idx_l0_active_minus1: Option<u32>,
    pub num_ref_idx_l1_active_minus1: Option<u32>,
}

/// Deblocking filter control (present when the PPS says so).
#[derive(Debug, Clone, Copy, PartialEq, Eq, Structural)]
pub struct DeblockingFilter {
    pub disable_deblocking_filter_idc: u32,
    pub slice_alpha_c0_offset_div2: Option<i32>,
    pub slice_beta_offset_div2: Option<i32>,
}

/// Slice header.
#[derive(Debug)]
pub struct SliceHeader {
    pub first_mb_in_slice: u32,
    pub slice_type: u32,
    pub pic_parameter_set_id: u32,
    pub colour_plane_id: Option<u8>,
    pub frame_num: u16,
    pub field_flags: Option<FieldFlags>,
    pub idr_pic_id: Option<u32>,
    pub pic_order_cnt: Option<PicOrderCnt>,
    pub delta_pic_order_cnt: Option<Vec<i32>>,
    pub redundant_pic_cnt: Option<u32>,
    pub direct_spatial_mv_pred_flag: Option<bool>,
    pub num_ref_idx: Option<NumRefIdx>,
    pub ref_pic_list_mod: RefPicListMod,
    pub pred_weight_table: Option<PredWeightTable>,
    pub dec_ref_pic_marking: Option<DecRefPicMarking>,
    pub cabac_init_idc: Option<u32>,
    pub slice_qp_delta: i32,
    pub sp_for_switch_flag: Option<bool>,
    pub slice_qs_delta: Option<i32>,
    pub deblocking_filter: Option<DeblockingFilter>,
    pub slice_group_change_cycle: Option<u32>,
}

/// Model of `SliceHeader`.
pub struct SliceHeaderView {
    pub first_mb_in_slice: u32,
    pub slice_type: u32,
    pub pic_parameter_set_id: u32,
    pub colour_plane_id: Option<u8>,
    pub frame_num: u16,
    pub field_flags: Option<FieldFlags>,
    pub idr_pic_id: Option<u32>,
    pub pic_order_cnt: Option<PicOrderCnt>,
    pub delta_pic_order_cnt: Option<Seq<i32>>,
    pub redundant_pic_cnt: Option<u32>,
    pub direct_spatial_mv_pred_flag: Option<bool>,
    pub num_ref_idx: Option<NumRefIdx>,
    pub ref_pic_list_mod: RefPicListModView,
    pub pred_weight_table: Option<PredWeightTableView>,
    pub dec_ref_pic_marking: Option<DecRefPicMarkingView>,
    pub cabac_init_idc: Option<u32>,
    pub slice_qp_delta: i32,
    pub sp_for_switch_flag: Option<bool>,
    pub slice_qs_delta: Option<i32>,
    pub deblocking_filter: Option<DeblockingFilter>,
    pub slice_group_change_cycle: Option<u32>,
}

impl View for SliceHeader {
    type V = SliceHeaderView;

    open spec fn view(&self) -> SliceHeaderView {
        SliceHeaderView {
            first_mb_in_slice: self.first_mb_in_slice,
            slice_type: self.slice_type,
            pic_parameter_set_id: self.pic_parameter_set_id,
            colour_plane_id: self.colour_plane_id,
            frame_num: self.frame_num,
            field_flags: self.field_flags,
            idr_pic_id: self.idr_pic_id,
            pic_order_cnt: self.pic_order_cnt,
            delta_pic_order_cnt: match self.delta_pic_order_cnt {
                Some(d) => Some(d@),
                None => None,
            },
            redundant_pic_cnt: self.redundant_pic_cnt,
            direct_spatial_mv_pred_flag: self.direct_spatial_mv_pred_flag,
            num_ref_idx: self.num_ref_idx,
            ref_pic_list_mod: self.ref_pic_list_mod@,
            pred_weight_table: match self.pred_weight_table {
                Some(t) => Some(t@),
                None => None,
            },
            dec_ref_pic_marking: match self.dec_ref_pic_marking {
                Some(m) => Some(m@),
                None => None,
            },
            cabac_init_idc: self.cabac_init_idc,
            slice_qp_delta: self.slice_qp_delta,
            sp_for_switch_flag: self.sp_for_switch_flag,
            slice_qs_delta: self.slice_qs_delta,
            deblocking_filter: self.deblocking_filter,
            slice_group_change_cycle: self.slice_group_change_cycle,
        }
    }
}

/// The SPS codes the three colour planes separately.
pub open spec fn separate_colour_plane(sps: SpsView) -> bool {
    match sps.high_profile {
        Some(h) => h.separate_colour_plane_flag == Some(true),
        None => false,
    }
}

/// `ChromaArrayType`: 0 without high-profile data or with separate colour
/// planes, `chroma_format_idc` otherwise.
pub open spec fn chroma_array_type(sps: SpsView) -> u8 {
    match sps.high_profile {
        Some(h) => if h.separate_colour_plane_flag == Some(true) { 0 } else { h.chroma_format_idc },
        None => 0,
    }
}

/// `PicSizeInMapUnits`.
pub open spec fn pic_size_in_map_units(sps: SpsView) -> int {
    (sps.pic_width_in_mbs_minus1 + 1) * (sps.pic_height_in_map_units_minus1 + 1)
}

/// Length of `slice_group_change_cycle`:
/// `Ceil(Log2(PicSizeInMapUnits / SliceGroupChangeRate + 1))` with exact
/// division, that is the fewest bits that hold the numbers up to
/// `ceil(PicSizeInMapUnits / SliceGroupChangeRate)`.
pub open spec fn sgcc_len(sps: SpsView, rate_minus1: u32) -> nat {
    let rate = rate_minus1 + 1;
    ceil_log2(((pic_size_in_map_units(sps) + rate - 1) / rate + 1) as nat)
}

/// The change rate of slice groups of map types 3 to 5, when the PPS has
/// more than one slice group and such a map.
pub open spec fn change_rate_minus1(pps: PpsView) -> Option<u32> {
    if pps.num_slice_groups_minus1 > 0 {
        match pps.slice_group {
            Some(SliceGroupView::Type3_5 { slice_group_change_rate_minus1, .. }) => Some(slice_group_change_rate_minus1),
            _ => None,
        }
    } else {
        None
    }
}

/// Reading `ue(v)` when `present`.
pub open spec fn opt_ue_spec(s: Seq<bool>, p: nat, present: bool) -> Result<(Option<u32>, nat), Error> {
    if present {
        match sp_ue(s, p) {
            Ok((v, q)) => Ok((Some(v), q)),
            Err(e) => Err(e),
        }
    } else {
        Ok((None, p))
    }
}

/// Reading `se(v)` when `present`.
pub open spec fn opt_se_spec(s: Seq<bool>, p: nat, present: bool) -> Result<(Option<i32>, nat), Error> {
    if present {
        match sp_se(s, p) {
            Ok((v, q)) => Ok((Some(v), q)),
            Err(e) => Err(e),
        }
    } else {
        Ok((None, p))
    }
}

/// Reading a flag when `present`.
pub open spec fn opt_flag_spec(s: Seq<bool>, p: nat, present: bool) -> Result<(Option<bool>, nat), Error> {
    if present {
        match sp_flag(s, p) {
            Ok((v, q)) => Ok((Some(v), q)),
            Err(e) => Err(e),
        }
    } else {
        Ok((None, p))
    }
}

/// Reading `colour_plane_id` (with separate colour planes), `frame_num`
/// and the field flags (unless `frame_mbs_only_flag`).
pub open spec fn frame_spec(s: Seq<bool>, p: nat, sps: SpsView) -> Result<((Option<u8>, u16, Option<FieldFlags>), nat), Error> {
    let cp: Result<(Option<u8>, nat), Error> = if separate_colour_plane(sps) {
        match sp_u(s, p, 2) {
            Ok((v, q)) => Ok((Some(v as u8), q)),
            Err(e) => Err(e),
        }
    } else {
        Ok((None, p))
    };
    match cp {
        Err(e) => Err(e),
        Ok((c, p1)) => match sp_u(s, p1, (sps.log2_max_frame_num_minus4 + 4) as nat) {
            Err(e) => Err(e),
            Ok((f, p2)) => if !sps.frame_mbs_only_flag {
                match sp_flag(s, p2) {
                    Err(e) => Err(e),
                    Ok((fp, p3)) => match opt_flag_spec(s, p3, fp) {
                        Err(e) => Err(e),
                        Ok((bf, q)) => Ok(((c, f as u16, Some(FieldFlags { field_pic_flag: fp, bottom_field_flag: bf })), q)),
                    },
                }
            } else {
                Ok(((c, f as u16, None), p2))
            },
        },
    }
}

/// Reading the picture order count fields: for type 0 the LSB and, with a
/// bottom field order in frame and no field picture, its bottom delta; for
/// type 1 without `delta_pic_order_always_zero_flag` one delta and, under
/// the same condition, a second; nothing for type 2.
pub open spec fn poc_spec(s: Seq<bool>, p: nat, sps: SpsView, pps: PpsView, field_pic: bool) -> Result<((Option<PicOrderCnt>, Option<Seq<i32>>), nat), Error> {
    let second = pps.bottom_field_pic_order_in_frame_present_flag && !field_pic;
    match sps.pic_order_cnt {
        PicOrderCntView::Type0 { log2_max_pic_order_cnt_lsb_minus4: l } => match sp_u(s, p, (l + 4) as nat) {
            Err(e) => Err(e),
            Ok((lsb, p1)) => match opt_se_spec(s, p1, second) {
                Err(e) => Err(e),
                Ok((d, q)) => Ok(((Some(PicOrderCnt { pic_order_cnt_lsb: lsb, delta_pic_order_cnt_bottom: d }), None), q)),
            },
        },
        PicOrderCntView::Type1 { delta_pic_order_always_zero_flag: z, .. } => if !z {
            match sp_se(s, p) {
                Err(e) => Err(e),
                Ok((d0, p1)) => if second {
                    match sp_se(s, p1) {
                        Err(e) => Err(e),
                        Ok((d1, q)) => Ok(((None, Some(seq![d0, d1])), q)),
                    }
                } else {
                    Ok(((None, Some(seq![d0])), p1))
                },
            }
        } else {
            Ok(((None, None), p))
        },
        PicOrderCntView::Type2 => Ok(((None, None), p)),
    }
}

/// P, SP or B: slices with reference lists.
pub open spec fn is_inter(st: SliceType) -> bool {
    st == SliceType::P || st == SliceType::SP || st == SliceType::B
}

/// Reading the active reference index override of a P, SP or B slice.
pub open spec fn num_ref_idx_spec(s: Seq<bool>, p: nat, st: SliceType) -> Result<(Option<NumRefIdx>, nat), Error> {
    if is_inter(st) {
        match sp_flag(s, p) {
            Err(e) => Err(e),
            Ok((f, p1)) => if f {
                match sp_ue(s, p1) {
                    Err(e) => Err(e),
                    Ok((l0, p2)) => match opt_ue_spec(s, p2, st == SliceType::B) {
                        Err(e) => Err(e),
                        Ok((l1, q)) => Ok((Some(NumRefIdx {
                            num_ref_idx_active_override_flag: true,
                            num_ref_idx_l0_active_minus1: Some(l0),
                            num_ref_idx_l1_active_minus1: l1,
                        }), q)),
                    },
                }
            } else {
                Ok((Some(NumRefIdx {
                    num_ref_idx_active_override_flag: false,
                    num_ref_idx_l0_active_minus1: None,
                    num_ref_idx_l1_active_minus1: None,
                }), p1))
            },
        }
    } else {
        Ok((None, p))
    }
}

/// The active reference index count (minus 1) of list 0: the override,
/// or the PPS default.
pub open spec fn active_l0(n: Option<NumRefIdx>, pps: PpsView) -> u32 {
    match n {
        Some(NumRefIdx { num_ref_idx_l0_active_minus1: Some(x), .. }) => x,
        _ => pps.num_ref_idx_l0_default_active_minus1,
    }
}

/// The active reference index count (minus 1) of list 1: the override,
/// or the PPS default.
pub open spec fn active_l1(n: Option<NumRefIdx>, pps: PpsView) -> u32 {
    match n {
        Some(NumRefIdx { num_ref_idx_l1_active_minus1: Some(x), .. }) => x,
        _ => pps.num_ref_idx_l1_default_active_minus1,
    }
}

/// The slice carries a prediction weight table: weighted prediction for P
/// and SP slices, or explicit weighted bi-prediction for B slices.
pub open spec fn has_pwt(pps: PpsView, st: SliceType) -> bool {
    (pps.weighted_pred_flag && (st == SliceType::P || st == SliceType::SP))
        || (pps.weighted_bipred_idc == 1 && st == SliceType::B)
}

/// Reading the prediction weight table when the slice carries one.
pub open spec fn opt_pwt_spec(s: Seq<bool>, p: nat, sps: SpsView, pps: PpsView, st: SliceType, n: Option<NumRefIdx>) -> Result<(Option<PredWeightTableView>, nat), Error> {
    if has_pwt(pps, st) {
        match pwt_spec(s, p, chroma_array_type(sps), active_l0(n, pps), active_l1(n, pps), st == SliceType::B) {
            Ok((v, q)) => Ok((Some(v), q)),
            Err(e) => Err(e),
        }
    } else {
        Ok((None, p))
    }
}

/// Reading the decoded reference picture marking of a reference picture
/// (`nal_ref_idc != 0`).
pub open spec fn opt_drpm_spec(s: Seq<bool>, p: nat, nal_ref_idc: u8, is_idr: bool) -> Result<(Option<DecRefPicMarkingView>, nat), Error> {
    if nal_ref_idc != 0 {
        match drpm_spec(s, p, is_idr) {
            Ok((v, q)) => Ok((Some(v), q)),
            Err(e) => Err(e),
        }
    } else {
        Ok((None, p))
    }
}

/// Reading `sp_for_switch_flag` (SP) and `slice_qs_delta` (SP and SI).
pub open spec fn sp_qs_spec(s: Seq<bool>, p: nat, st: SliceType) -> Result<((Option<bool>, Option<i32>), nat), Error> {
    if st == SliceType::SP || st == SliceType::SI {
        match opt_flag_spec(s, p, st == SliceType::SP) {
            Err(e) => Err(e),
            Ok((f, p1)) => match sp_se(s, p1) {
                Err(e) => Err(e),
                Ok((d, q)) => Ok(((f, Some(d)), q)),
            },
        }
    } else {
        Ok(((None, None), p))
    }
}

/// Reading the deblocking filter control: the idc and, unless it is 1,
/// the two offsets.
pub open spec fn deblock_spec(s: Seq<bool>, p: nat, pps: PpsView) -> Result<(Option<DeblockingFilter>, nat), Error> {
    if pps.deblocking_filter_control_present_flag {
        match sp_ue(s, p) {
            Err(e) => Err(e),
            Ok((idc, p1)) => if idc != 1 {
                match sp_se(s, p1) {
                    Err(e) => Err(e),
                    Ok((a, p2)) => match sp_se(s, p2) {
                        Err(e) => Err(e),
                        Ok((b, q)) => Ok((Some(DeblockingFilter {
                            disable_deblocking_filter_idc: idc,
                            slice_alpha_c0_offset_div2: Some(a),
                            slice_beta_offset_div2: Some(b),
                        }), q)),
                    },
                }
            } else {
                Ok((Some(DeblockingFilter {
                    disable_deblocking_filter_idc: idc,
                    slice_alpha_c0_offset_div2: None,
                    slice_beta_offset_div2: None,
                }), p1))
            },
        }
    } else {
        Ok((None, p))
    }
}

/// Reading `slice_group_change_cycle` (slice group map types 3 to 5).
pub open spec fn sgcc_spec(s: Seq<bool>, p: nat, sps: SpsView, pps: PpsView) -> Result<(Option<u32>, nat), Error> {
    match change_rate_minus1(pps) {
        Some(r) => match sp_u(s, p, sgcc_len(sps, r)) {
            Ok((v, q)) => Ok((Some(v), q)),
            Err(e) => Err(e),
        },
        None => Ok((None, p)),
    }
}

/// The slice is a field picture.
pub open spec fn field_pic(ff: Option<FieldFlags>) -> bool {
    match ff {
        Some(f) => f.field_pic_flag,
        None => false,
    }
}

/// The model of an optional list of deltas.
pub open spec fn opt_deltas_view(d: Option<Vec<i32>>) -> Option<Seq<i32>> {
    match d {
        Some(d) => Some(d@),
        None => None,
    }
}

/// Reading the first part of a slice header: `first_mb_in_slice`,
/// `slice_type`, `pic_parameter_set_id`, the frame fields and `idr_pic_id`.
pub open spec fn sh_a_spec(s: Seq<bool>, p: nat, sps: SpsView, is_idr: bool) -> Result<((u32, u32, u32, (Option<u8>, u16, Option<FieldFlags>), Option<u32>), nat), Error> {
    match sp_ue(s, p) { Err(e) => Err(e), Ok((first_mb, p1)) =>
    match sp_ue(s, p1) { Err(e) => Err(e), Ok((slice_type, p2)) =>
    match sp_ue(s, p2) { Err(e) => Err(e), Ok((pps_id, p3)) =>
    match frame_spec(s, p3, sps) { Err(e) => Err(e), Ok((fr, p4)) =>
    match opt_ue_spec(s, p4, is_idr) { Err(e) => Err(e), Ok((idr_id, q)) =>
        Ok(((first_mb, slice_type, pps_id, fr, idr_id), q))
    }}}}}
}

/// Reading the second part: picture order count, `redundant_pic_cnt`,
/// `direct_spatial_mv_pred_flag`, the reference index override and the
/// list modification.
pub open spec fn sh_b_spec(s: Seq<bool>, p: nat, sps: SpsView, pps: PpsView, ff: Option<FieldFlags>, st: SliceType, t: NalUnitType) -> Result<(((Option<PicOrderCnt>, Option<Seq<i32>>), Option<u32>, Option<bool>, Option<NumRefIdx>, RefPicListModView), nat), Error> {
    match poc_spec(s, p, sps, pps, field_pic(ff)) { Err(e) => Err(e), Ok((poc, p1)) =>
    match opt_ue_spec(s, p1, pps.redundant_pic_cnt_present_flag) { Err(e) => Err(e), Ok((red, p2)) =>
    match opt_flag_spec(s, p2, st == SliceType::B) { Err(e) => Err(e), Ok((direct, p3)) =>
    match num_ref_idx_spec(s, p3, st) { Err(e) => Err(e), Ok((nri, p4)) =>
    match rplm_spec(s, p4, st, t) { Err(e) => Err(e), Ok((rplm, q)) =>
        Ok(((poc, red, direct, nri, rplm), q))
    }}}}}
}

/// Reading the prediction weight table and the reference picture marking.
pub open spec fn sh_c1_spec(s: Seq<bool>, p: nat, sps: SpsView, pps: PpsView, st: SliceType, nri: Option<NumRefIdx>, nal_ref_idc: u8, is_idr: bool) -> Result<((Option<PredWeightTableView>, Option<DecRefPicMarkingView>), nat), Error> {
    match opt_pwt_spec(s, p, sps, pps, st, nri) { Err(e) => Err(e), Ok((pwt, p1)) =>
    match opt_drpm_spec(s, p1, nal_ref_idc, is_idr) { Err(e) => Err(e), Ok((drpm, q)) =>
        Ok(((pwt, drpm), q))
    }}
}

/// Reading `cabac_init_idc`, `slice_qp_delta`, the SP/SI fields, the
/// deblocking filter control and `slice_group_change_cycle`.
pub open spec fn sh_c2_spec(s: Seq<bool>, p: nat, sps: SpsView, pps: PpsView, st: SliceType) -> Result<((Option<u32>, i32, (Option<bool>, Option<i32>), Option<DeblockingFilter>, Option<u32>), nat), Error> {
    match opt_ue_spec(s, p, pps.entropy_coding_mode_flag && has_l0(st)) { Err(e) => Err(e), Ok((cabac, p1)) =>
    match sp_se(s, p1) { Err(e) => Err(e), Ok((qp, p2)) =>
    match sp_qs_spec(s, p2, st) { Err(e) => Err(e), Ok((spqs, p3)) =>
    match deblock_spec(s, p3, pps) { Err(e) => Err(e), Ok((db, p4)) =>
    match sgcc_spec(s, p4, sps, pps) { Err(e) => Err(e), Ok((sgcc, q)) =>
        Ok(((cabac, qp, spqs, db, sgcc), q))
    }}}}}
}

/// Reading a slice header at bit position `p` of `s`, for the given SPS and
/// PPS, in a NAL unit of type `t` with `nal_ref_idc`: the three parts in
/// order, the slice type of the first deciding the later ones.
pub open spec fn slice_header_spec(s: Seq<bool>, p: nat, sps: SpsView, pps: PpsView, t: NalUnitType, nal_ref_idc: u8) -> Result<(SliceHeaderView, nat), Error> {
    let is_idr = t == NalUnitType::IDR;
    match sh_a_spec(s, p, sps, is_idr) { Err(e) => Err(e), Ok(((first_mb, slice_type, pps_id, (cp, fnum, ff), idr_id), p1)) =>
    match sh_b_spec(s, p1, sps, pps, ff, slice_type_of(slice_type), t) { Err(e) => Err(e), Ok((((poc, deltas), red, direct, nri, rplm), p2)) =>
    match sh_c1_spec(s, p2, sps, pps, slice_type_of(slice_type), nri, nal_ref_idc, is_idr) { Err(e) => Err(e), Ok(((pwt, drpm), p3)) =>
    match sh_c2_spec(s, p3, sps, pps, slice_type_of(slice_type)) { Err(e) => Err(e), Ok(((cabac, qp, (spf, qs), db, sgcc), q)) =>
        Ok((SliceHeaderView {
            first_mb_in_slice: first_mb,
            slice_type,
            pic_parameter_set_id: pps_id,
            colour_plane_id: cp,
            frame_num: fnum,
            field_flags: ff,
            idr_pic_id: idr_id,
            pic_order_cnt: poc,
            delta_pic_order_cnt: deltas,
            redundant_pic_cnt: red,
            direct_spatial_mv_pred_flag: direct,
            num_ref_idx: nri,
            ref_pic_list_mod: rplm,
            pred_weight_table: pwt,
            dec_ref_pic_marking: drpm,
            cabac_init_idc: cabac,
            slice_qp_delta: qp,
            sp_for_switch_flag: spf,
            slice_qs_delta: qs,
            deblocking_filter: db,
            slice_group_change_cycle: sgcc,
        }, q))
    }}}}
}

/// `slice_group_change_cycle` has a length that can be computed: the
/// picture size in map units and the change rate fit in 32 bits.
pub open spec fn sgcc_computable(sps: SpsView, rate_minus1: u32) -> bool {
    &&& sps.pic_width_in_mbs_minus1 < u32::MAX
    &&& sps.pic_height_in_map_units_minus1 < u32::MAX
    &&& pic_size_in_map_units(sps) <= u32::MAX
    &&& rate_minus1 < u32::MAX
}

/// The lengths that a slice header parse computes from the SPS and PPS fit
/// in their integer types.
pub open spec fn header_parsable(sps: SpsView, pps: PpsView) -> bool {
    &&& sps.log2_max_frame_num_minus4 + 4 <= u8::MAX
    &&& (sps.pic_order_cnt matches PicOrderCntView::Type0 { log2_max_pic_order_cnt_lsb_minus4: l } ==> l + 4 <= u8::MAX)
    &&& (change_rate_minus1(pps) matches Some(r) ==> sgcc_computable(sps, r))
}

/// Whether the lengths that a slice header parse computes from `sps` and
/// `pps` fit in their integer types.
pub fn header_parsable_exec(sps: &Sps, pps: &Pps) -> (r: bool)
    ensures
        r == header_parsable(sps@, pps@),
{
    if sps.log2_max_frame_num_minus4 > 251 {
        return false;
    }
    if let crate::h264::sps::PicOrderCnt::Type0 { log2_max_pic_order_cnt_lsb_minus4 } = &sps.pic_order_cnt {
        if *log2_max_pic_order_cnt_lsb_minus4 > 251 {
            return false;
        }
    }
    if pps.num_slice_groups_minus1 > 0 {
        if let Some(SliceGroup::Type3_5 { slice_group_change_rate_minus1, .. }) = &pps.slice_group {
            if sps.pic_width_in_mbs_minus1 == u32::MAX || sps.pic_height_in_map_units_minus1 == u32::MAX
                || *slice_group_change_rate_minus1 == u32::MAX {
                return false;
            }
            let w = sps.pic_width_in_mbs_minus1 as u64 + 1;
            let h = sps.pic_height_in_map_units_minus1 as u64 + 1;
            assert(w * h <= 0xFFFF_FFFF * 0xFFFF_FFFF) by (nonlinear_arith)
                requires 1 <= w <= 0xFFFF_FFFF, 1 <= h <= 0xFFFF_FFFF;
            let size = (w as u128) * (h as u128);
            assert(size == pic_size_in_map_units(sps@));
            if size > 0xFFFF_FFFF {
                return false;
            }
        }
    }
    true
}

/// Read `ue(v)` when `present`.
fn read_opt_ue(reader: &mut BitstreamReader, present: bool) -> (r: Result<Option<u32>, Error>)
    ensures
        final(reader).bytes() == old(reader).bytes(),
        match opt_ue_spec(old(reader).bits(), old(reader).pos(), present) {
            Ok((v, q)) => r == Ok::<Option<u32>, Error>(v) && final(reader).pos() == q,
            Err(e) => r == Err::<Option<u32>, Error>(e),
        },
{
    if present {
        Ok(Some(read_ue(reader)?))
    } else {
        Ok(None)
    }
}

/// Read `se(v)` when `present`.
fn read_opt_se(reader: &mut BitstreamReader, present: bool) -> (r: Result<Option<i32>, Error>)
    ensures
        final(reader).bytes() == old(reader).bytes(),
        match opt_se_spec(old(reader).bits(), old(reader).pos(), present) {
            Ok((v, q)) => r == Ok::<Option<i32>, Error>(v) && final(reader).pos() == q,
            Err(e) => r == Err::<Option<i32>, Error>(e),
        },
{
    if present {
        Ok(Some(read_se(reader)?))
    } else {
        Ok(None)
    }
}

/// Read a flag when `present`.
fn read_opt_flag(reader: &mut BitstreamReader, present: bool) -> (r: Result<Option<bool>, Error>)
    ensures
        final(reader).bytes() == old(reader).bytes(),
        match opt_flag_spec(old(reader).bits(), old(reader).pos(), present) {
            Ok((v, q)) => r == Ok::<Option<bool>, Error>(v) && final(reader).pos() == q,
            Err(e) => r == Err::<Option<bool>, Error>(e),
        },
{
    if present {
        Ok(Some(read_flag(reader)?))
    } else {
        Ok(None)
    }
}

/// The SPS codes the colour planes separately.
fn separate_colour_plane_exec(sps: &Sps) -> (r: bool)
    ensures
        r == separate_colour_plane(sps@),
{
    match &sps.high_profile {
        Some(hp) => match hp.separate_colour_plane_flag {
            Some(f) => f,
            None => false,
        },
        None => false,
    }
}

/// `ChromaArrayType` of the SPS.
fn chroma_array_type_exec(sps: &Sps) -> (r: u8)
    ensures
        r == chroma_array_type(sps@),
{
    match &sps.high_profile {
        Some(hp) => match hp.separate_colour_plane_flag {
            Some(true) => 0,
            _ => hp.chroma_format_idc,
        },
        None => 0,
    }
}

/// Read the colour plane, the frame number and the field flags.
fn parse_frame(reader: &mut BitstreamReader, sps: &Sps) -> (r: Result<(Option<u8>, u16, Option<FieldFlags>), Error>)
    requires
        sps@.log2_max_frame_num_minus4 + 4 <= u8::MAX,
    ensures
        final(reader).bytes() == old(reader).bytes(),
        match frame_spec(old(reader).bits(), old(reader).pos(), sps@) {
            Ok((v, q)) => r == Ok::<(Option<u8>, u16, Option<FieldFlags>), Error>(v) && final(reader).pos() == q,
            Err(e) => r == Err::<(Option<u8>, u16, Option<FieldFlags>), Error>(e),
        },
{
    let colour_plane_id = if separate_colour_plane_exec(sps) {
        Some(read_u(reader, 2)? as u8)
    } else {
        None
    };
    let frame_num = read_u(reader, sps.log2_max_frame_num_minus4 + 4)? as u16;
    let field_flags = if !sps.frame_mbs_only_flag {
        let field_pic_flag = read_flag(reader)?;
        let bottom_field_flag = read_opt_flag(reader, field_pic_flag)?;
        Some(FieldFlags { field_pic_flag, bottom_field_flag })
    } else {
        None
    };
    Ok((colour_plane_id, frame_num, field_flags))
}

/// Read the picture order count fields.
fn parse_poc(reader: &mut BitstreamReader, sps: &Sps, pps: &Pps, field_pic_flag: bool) -> (r: Result<(Option<PicOrderCnt>, Option<Vec<i32>>), Error>)
    requires
        sps@.pic_order_cnt matches PicOrderCntView::Type0 { log2_max_pic_order_cnt_lsb_minus4: l } ==> l + 4 <= u8::MAX,
    ensures
        final(reader).bytes() == old(reader).bytes(),
        match poc_spec(old(reader).bits(), old(reader).pos(), sps@, pps@, field_pic_flag) {
            Ok((v, q)) => r matches Ok((a, b)) && a == v.0 && opt_deltas_view(b) == v.1 && final(reader).pos() == q,
            Err(e) => r matches Err(x) && x == e,
        },
{
    let second = pps.bottom_field_pic_order_in_frame_present_flag && !field_pic_flag;
    match &sps.pic_order_cnt {
        crate::h264::sps::PicOrderCnt::Type0 { log2_max_pic_order_cnt_lsb_minus4 } => {
            let pic_order_cnt_lsb = read_u(reader, *log2_max_pic_order_cnt_lsb_minus4 + 4)?;
            let delta_pic_order_cnt_bottom = read_opt_se(reader, second)?;
            Ok((Some(PicOrderCnt { pic_order_cnt_lsb, delta_pic_order_cnt_bottom }), None))
        },
        crate::h264::sps::PicOrderCnt::Type1 { delta_pic_order_always_zero_flag, .. } => {
            if !*delta_pic_order_always_zero_flag {
                let d0 = read_se(reader)?;
                let mut deltas: Vec<i32> = Vec::new();
                deltas.push(d0);
                if second {
                    let d1 = read_se(reader)?;
                    deltas.push(d1);
                    assert(deltas@ =~= seq![d0, d1]);
                } else {
                    assert(deltas@ =~= seq![d0]);
                }
                Ok((None, Some(deltas)))
            } else {
                Ok((None, None))
            }
        },
        crate::h264::sps::PicOrderCnt::Type2 => Ok((None, None)),
    }
}

/// Read the active reference index override of a P, SP or B slice.
fn parse_num_ref_idx(reader: &mut BitstreamReader, st: SliceType) -> (r: Result<Option<NumRefIdx>, Error>)
    ensures
        final(reader).bytes() == old(reader).bytes(),
        match num_ref_idx_spec(old(reader).bits(), old(reader).pos(), st) {
            Ok((v, q)) => r == Ok::<Option<NumRefIdx>, Error>(v) && final(reader).pos() == q,
            Err(e) => r == Err::<Option<NumRefIdx>, Error>(e),
        },
{
    if st == SliceType::P || st == SliceType::SP || st == SliceType::B {
        let num_ref_idx_active_override_flag = read_flag(reader)?;
        if num_ref_idx_active_override_flag {
            let l0 = read_ue(reader)?;
            let l1 = read_opt_ue(reader, st == SliceType::B)?;
            Ok(Some(NumRefIdx {
                num_ref_idx_active_override_flag,
                num_ref_idx_l0_active_minus1: Some(l0),
                num_ref_idx_l1_active_minus1: l1,
            }))
        } else {
            Ok(Some(NumRefIdx {
                num_ref_idx_active_override_flag,
                num_ref_idx_l0_active_minus1: None,
                num_ref_idx_l1_active_minus1: None,
            }))
        }
    } else {
        Ok(None)
    }
}

/// Read the prediction weight table when the slice carries one.
fn parse_opt_pwt(reader: &mut BitstreamReader, sps: &Sps, pps: &Pps, st: SliceType, n: Option<NumRefIdx>) -> (r: Result<Option<PredWeightTable>, Error>)
    ensures
        final(reader).bytes() == old(reader).bytes(),
        match opt_pwt_spec(old(reader).bits(), old(reader).pos(), sps@, pps@, st, n) {
            Ok((v, q)) => r matches Ok(x) && opt_view(x) == v && final(reader).pos() == q,
            Err(e) => r matches Err(x) && x == e,
        },
{
    if (pps.weighted_pred_flag && (st == SliceType::P || st == SliceType::SP))
        || (pps.weighted_bipred_idc == 1 && st == SliceType::B) {
        let chroma_array_type = chroma_array_type_exec(sps);
        let num_ref_idx_l0 = match n {
            Some(NumRefIdx { num_ref_idx_l0_active_minus1: Some(x), .. }) => x,
            _ => pps.num_ref_idx_l0_default_active_minus1,
        };
        let num_ref_idx_l1 = match n {
            Some(NumRefIdx { num_ref_idx_l1_active_minus1: Some(x), .. }) => x,
            _ => pps.num_ref_idx_l1_default_active_minus1,
        };
        let t = PredWeightTable::parse(reader, chroma_array_type, num_ref_idx_l0, num_ref_idx_l1, st == SliceType::B)?;
        Ok(Some(t))
    } else {
        Ok(None)
    }
}

/// Read the decoded reference picture marking of a reference picture.
fn parse_opt_drpm(reader: &mut BitstreamReader, nal_ref_idc: u8, is_idr: bool) -> (r: Result<Option<DecRefPicMarking>, Error>)
    ensures
        final(reader).bytes() == old(reader).bytes(),
        match opt_drpm_spec(old(reader).bits(), old(reader).pos(), nal_ref_idc, is_idr) {
            Ok((v, q)) => r matches Ok(x) && opt_view(x) == v && final(reader).pos() == q,
            Err(e) => r matches Err(x) && x == e,
        },
{
    if nal_ref_idc != 0 {
        Ok(Some(DecRefPicMarking::parse(reader, is_idr)?))
    } else {
        Ok(None)
    }
}

/// Read `sp_for_switch_flag` and `slice_qs_delta`.
fn parse_sp_qs(reader: &mut BitstreamReader, st: SliceType) -> (r: Result<(Option<bool>, Option<i32>), Error>)
    ensures
        final(reader).bytes() == old(reader).bytes(),
        match sp_qs_spec(old(reader).bits(), old(reader).pos(), st) {
            Ok((v, q)) => r == Ok::<(Option<bool>, Option<i32>), Error>(v) && final(reader).pos() == q,
            Err(e) => r == Err::<(Option<bool>, Option<i32>), Error>(e),
        },
{
    if st == SliceType::SP || st == SliceType::SI {
        let sp_flag = read_opt_flag(reader, st == SliceType::SP)?;
        let qs_delta = read_se(reader)?;
        Ok((sp_flag, Some(qs_delta)))
    } else {
        Ok((None, None))
    }
}

/// Read the deblocking filter control.
fn parse_deblock(reader: &mut BitstreamReader, pps: &Pps) -> (r: Result<Option<DeblockingFilter>, Error>)
    ensures
        final(reader).bytes() == old(reader).bytes(),
        match deblock_spec(old(reader).bits(), old(reader).pos(), pps@) {
            Ok((v, q)) => r == Ok::<Option<DeblockingFilter>, Error>(v) && final(reader).pos() == q,
            Err(e) => r == Err::<Option<DeblockingFilter>, Error>(e),
        },
{
    if pps.deblocking_filter_control_present_flag {
        let disable_deblocking_filter_idc = read_ue(reader)?;
        if disable_deblocking_filter_idc != 1 {
            let a = read_se(reader)?;
            let b = read_se(reader)?;
            Ok(Some(DeblockingFilter {
                disable_deblocking_filter_idc,
                slice_alpha_c0_offset_div2: Some(a),
                slice_beta_offset_div2: Some(b),
            }))
        } else {
            Ok(Some(DeblockingFilter {
                disable_deblocking_filter_idc,
                slice_alpha_c0_offset_div2: None,
                slice_beta_offset_div2: None,
            }))
        }
    } else {
        Ok(None)
    }
}

/// The change rate (minus 1) of slice group map types 3 to 5.
fn change_rate_exec(pps: &Pps) -> (r: Option<u32>)
    ensures
        r == change_rate_minus1(pps@),
{
    if pps.num_slice_groups_minus1 > 0 {
        match &pps.slice_group {
            Some(SliceGroup::Type3_5 { slice_group_change_rate_minus1, .. }) => Some(*slice_group_change_rate_minus1),
            _ => None,
        }
    } else {
        None
    }
}

/// The length of `slice_group_change_cycle`.
fn sgcc_len_exec(sps: &Sps, rate_minus1: u32) -> (r: u8)
    requires
        sgcc_computable(sps@, rate_minus1),
    ensures
        r == sgcc_len(sps@, rate_minus1),
        r <= 32,
{
    let pic: u64 = (sps.pic_width_in_mbs_minus1 as u64 + 1) * (sps.pic_height_in_map_units_minus1 as u64 + 1);
    let rate: u64 = rate_minus1 as u64 + 1;
    assert(pic as int == pic_size_in_map_units(sps@));
    assert(((pic as int) + (rate as int) - 1) / (rate as int) <= pic as int) by (nonlinear_arith)
        requires rate >= 1, pic >= 0;
    let x: u64 = (pic + rate - 1) / rate + 1;
    ceil_log2_exec(x)
}

/// Read `slice_group_change_cycle` (slice group map types 3 to 5).
fn parse_sgcc(reader: &mut BitstreamReader, sps: &Sps, pps: &Pps) -> (r: Result<Option<u32>, Error>)
    requires
        change_rate_minus1(pps@) matches Some(rm) ==> sgcc_computable(sps@, rm),
    ensures
        final(reader).bytes() == old(reader).bytes(),
        match sgcc_spec(old(reader).bits(), old(reader).pos(), sps@, pps@) {
            Ok((v, q)) => r == Ok::<Option<u32>, Error>(v) && final(reader).pos() == q,
            Err(e) => r == Err::<Option<u32>, Error>(e),
        },
{
    match change_rate_exec(pps) {
        Some(rm) => {
            let bits = sgcc_len_exec(sps, rm);
            Ok(Some(read_u(reader, bits)?))
        },
        None => Ok(None),
    }
}

/// Read the first part of a slice header.
fn parse_sh_a(reader: &mut BitstreamReader, sps: &Sps, is_idr: bool) -> (r: Result<(u32, u32, u32, (Option<u8>, u16, Option<FieldFlags>), Option<u32>), Error>)
    requires
        sps@.log2_max_frame_num_minus4 + 4 <= u8::MAX,
    ensures
        final(reader).bytes() == old(reader).bytes(),
        match sh_a_spec(old(reader).bits(), old(reader).pos(), sps@, is_idr) {
            Ok((v, q)) => r == Ok::<(u32, u32, u32, (Option<u8>, u16, Option<FieldFlags>), Option<u32>), Error>(v) && final(reader).pos() == q,
            Err(e) => r == Err::<(u32, u32, u32, (Option<u8>, u16, Option<FieldFlags>), Option<u32>), Error>(e),
        },
{
    let first_mb_in_slice = read_ue(reader)?;
    let slice_type = read_ue(reader)?;
    let pic_parameter_set_id = read_ue(reader)?;
    let fr = parse_frame(reader, sps)?;
    let idr_pic_id = read_opt_ue(reader, is_idr)?;
    Ok((first_mb_in_slice, slice_type, pic_parameter_set_id, fr, idr_pic_id))
}

/// Read the second part of a slice header.
#[verifier::spinoff_prover]
#[verifier::rlimit(30)]
fn parse_sh_b(reader: &mut BitstreamReader, sps: &Sps, pps: &Pps, field_flags: Option<FieldFlags>, st: SliceType, nal_unit_type: NalUnitType) -> (r: Result<((Option<PicOrderCnt>, Option<Vec<i32>>), Option<u32>, Option<bool>, Option<NumRefIdx>, RefPicListMod), Error>)
    requires
        sps@.pic_order_cnt matches PicOrderCntView::Type0 { log2_max_pic_order_cnt_lsb_minus4: l } ==> l + 4 <= u8::MAX,
    ensures
        final(reader).bytes() == old(reader).bytes(),
        match sh_b_spec(old(reader).bits(), old(reader).pos(), sps@, pps@, field_flags, st, nal_unit_type) {
            Ok((v, q)) => r matches Ok(((poc, d), red, dir, n, m)) && poc == v.0.0 && opt_deltas_view(d) == v.0.1
                && red == v.1 && dir == v.2 && n == v.3 && m@ == v.4 && final(reader).pos() == q,
            Err(e) => r matches Err(x) && x == e,
        },
{
    let field_pic_flag = match field_flags {
        Some(f) => f.field_pic_flag,
        None => false,
    };
    let poc = parse_poc(reader, sps, pps, field_pic_flag)?;
    let redundant_pic_cnt = read_opt_ue(reader, pps.redundant_pic_cnt_present_flag)?;
    let direct_spatial_mv_pred_flag = read_opt_flag(reader, st == SliceType::B)?;
    let num_ref_idx = parse_num_ref_idx(reader, st)?;
    let ref_pic_list_mod = RefPicListMod::parse(reader, &st, &nal_unit_type)?;
    Ok((poc, redundant_pic_cnt, direct_spatial_mv_pred_flag, num_ref_idx, ref_pic_list_mod))
}

/// Read the prediction weight table and the reference picture marking.
fn parse_sh_c1(reader: &mut BitstreamReader, sps: &Sps, pps: &Pps, st: SliceType, num_ref_idx: Option<NumRefIdx>, nal_ref_idc: u8, is_idr: bool) -> (r: Result<(Option<PredWeightTable>, Option<DecRefPicMarking>), Error>)
    ensures
        final(reader).bytes() == old(reader).bytes(),
        match sh_c1_spec(old(reader).bits(), old(reader).pos(), sps@, pps@, st, num_ref_idx, nal_ref_idc, is_idr) {
            Ok((v, q)) => r matches Ok((pwt, drpm)) && opt_view(pwt) == v.0 && opt_view(drpm) == v.1 && final(reader).pos() == q,
            Err(e) => r matches Err(x) && x == e,
        },
{
    let pred_weight_table = parse_opt_pwt(reader, sps, pps, st, num_ref_idx)?;
    let dec_ref_pic_marking = parse_opt_drpm(reader, nal_ref_idc, is_idr)?;
    Ok((pred_weight_table, dec_ref_pic_marking))
}

/// Read the fields from `cabac_init_idc` to `slice_group_change_cycle`.
fn parse_sh_c2(reader: &mut BitstreamReader, sps: &Sps, pps: &Pps, st: SliceType) -> (r: Result<(Option<u32>, i32, (Option<bool>, Option<i32>), Option<DeblockingFilter>, Option<u32>), Error>)
    requires
        change_rate_minus1(pps@) matches Some(rm) ==> sgcc_computable(sps@, rm),
    ensures
        final(reader).bytes() == old(reader).bytes(),
        match sh_c2_spec(old(reader).bits(), old(reader).pos(), sps@, pps@, st) {
            Ok((v, q)) => r == Ok::<(Option<u32>, i32, (Option<bool>, Option<i32>), Option<DeblockingFilter>, Option<u32>), Error>(v) && final(reader).pos() == q,
            Err(e) => r == Err::<(Option<u32>, i32, (Option<bool>, Option<i32>), Option<DeblockingFilter>, Option<u32>), Error>(e),
        },
{
    let cabac_init_idc = read_opt_ue(reader, pps.entropy_coding_mode_flag && st != SliceType::I && st != SliceType::SI)?;
    let slice_qp_delta = read_se(reader)?;
    let spqs = parse_sp_qs(reader, st)?;
    let deblocking_filter = parse_deblock(reader, pps)?;
    let slice_group_change_cycle = parse_sgcc(reader, sps, pps)?;
    Ok((cabac_init_idc, slice_qp_delta, spqs, deblocking_filter, slice_group_change_cycle))
}

impl SliceHeader {
    /// Read a slice header for the given SPS and PPS, in a NAL unit of type
    /// `nal_unit_type` with `nal_ref_idc`.
    pub fn parse(reader: &mut BitstreamReader, sps: &Sps, pps: &Pps, nal_unit_type: NalUnitType, nal_ref_idc: u8) -> (r: Result<Self, Error>)
        requires
            header_parsable(sps@, pps@),
        ensures
            final(reader).bytes() == old(reader).bytes(),
            match slice_header_spec(old(reader).bits(), old(reader).pos(), sps@, pps@, nal_unit_type, nal_ref_idc) {
                Ok((v, q)) => r matches Ok(x) && x@ == v && final(reader).pos() == q,
                Err(e) => r matches Err(x) && x == e,
            },
    {
        let is_idr = nal_unit_type == NalUnitType::IDR;
        let (first_mb_in_slice, slice_type, pic_parameter_set_id, (colour_plane_id, frame_num, field_flags), idr_pic_id) =
            parse_sh_a(reader, sps, is_idr)?;
        let st = SliceType::from_u32(slice_type);
        let ((pic_order_cnt, delta_pic_order_cnt), redundant_pic_cnt, direct_spatial_mv_pred_flag, num_ref_idx, ref_pic_list_mod) =
            parse_sh_b(reader, sps, pps, field_flags, st, nal_unit_type)?;
        let (pred_weight_table, dec_ref_pic_marking) = parse_sh_c1(reader, sps, pps, st, num_ref_idx, nal_ref_idc, is_idr)?;
        let (cabac_init_idc, slice_qp_delta, (sp_for_switch_flag, slice_qs_delta), deblocking_filter, slice_group_change_cycle) =
            parse_sh_c2(reader, sps, pps, st)?;
        Ok(SliceHeader {
            first_mb_in_slice,
            slice_type,
            pic_parameter_set_id,
            colour_plane_id,
            frame_num,
            field_flags,
            idr_pic_id,
            pic_order_cnt,
            delta_pic_order_cnt,
            redundant_pic_cnt,
            direct_spatial_mv_pred_flag,
            num_ref_idx,
            ref_pic_list_mod,
            pred_weight_table,
            dec_ref_pic_marking,
            cabac_init_idc,
            slice_qp_delta,
            sp_for_switch_flag,
            slice_qs_delta,
            deblocking_filter,
            slice_group_change_cycle,
        })
    }
}

// ---------------------------------------------------------------------
// Writing a slice header.
// ---------------------------------------------------------------------

/// The bits of an optional `ue(v)` value.
pub open spec fn opt_ue_bits(o: Option<u32>) -> Seq<bool> {
    match o {
        Some(x) => ue_bits(x),
        None => Seq::empty(),
    }
}

/// The bits of an optional `se(v)` value.
pub open spec fn opt_se_bits(o: Option<i32>) -> Seq<bool> {
    match o {
        Some(x) => se_bits(x),
        None => Seq::empty(),
    }
}

/// The bits of an optional flag.
pub open spec fn opt_flag_bits(o: Option<bool>) -> Seq<bool> {
    match o {
        Some(x) => seq![x],
        None => Seq::empty(),
    }
}

/// The bits of a list of `se(v)` values.
pub open spec fn se_list_bits(l: Seq<i32>) -> Seq<bool>
    decreases l.len(),
{
    if l.len() == 0 {
        Seq::empty()
    } else {
        se_bits(l[0]) + se_list_bits(l.drop_first())
    }
}

/// The bits of the colour plane, frame number and field flags.
pub open spec fn frame_bits(v: SliceHeaderView, sps: SpsView) -> Seq<bool> {
    (match v.colour_plane_id {
        Some(c) => u32_bits(c as u32, 2),
        None => Seq::empty(),
    }) + u32_bits(v.frame_num as u32, (sps.log2_max_frame_num_minus4 + 4) as nat) + match v.field_flags {
        Some(f) => seq![f.field_pic_flag] + opt_flag_bits(f.bottom_field_flag),
        None => Seq::empty(),
    }
}

/// The bits of the first part of a slice header.
pub open spec fn sh_a_bits(v: SliceHeaderView, sps: SpsView) -> Seq<bool> {
    ue_bits(v.first_mb_in_slice) + ue_bits(v.slice_type) + ue_bits(v.pic_parameter_set_id)
        + frame_bits(v, sps) + opt_ue_bits(v.idr_pic_id)
}

/// The bits of the picture order count fields: the type-0 fields when
/// present and the SPS has type 0, then the deltas when present.
pub open spec fn poc_bits(v: SliceHeaderView, sps: SpsView) -> Seq<bool> {
    (match (v.pic_order_cnt, sps.pic_order_cnt) {
        (Some(poc), PicOrderCntView::Type0 { log2_max_pic_order_cnt_lsb_minus4: l }) =>
            u32_bits(poc.pic_order_cnt_lsb, (l + 4) as nat) + opt_se_bits(poc.delta_pic_order_cnt_bottom),
        _ => Seq::empty(),
    }) + match v.delta_pic_order_cnt {
        Some(d) => se_list_bits(d),
        None => Seq::empty(),
    }
}

/// The bits of the reference index override (written for P, SP and B
/// slices when present).
pub open spec fn nri_bits(v: SliceHeaderView) -> Seq<bool> {
    match v.num_ref_idx {
        Some(n) => if is_inter(slice_type_of(v.slice_type)) {
            seq![n.num_ref_idx_active_override_flag] + opt_ue_bits(n.num_ref_idx_l0_active_minus1)
                + opt_ue_bits(n.num_ref_idx_l1_active_minus1)
        } else {
            Seq::empty()
        },
        None => Seq::empty(),
    }
}

/// The bits of the second part of a slice header.
pub open spec fn sh_b_bits(v: SliceHeaderView, sps: SpsView) -> Seq<bool> {
    poc_bits(v, sps) + opt_ue_bits(v.redundant_pic_cnt)
        + (if slice_type_of(v.slice_type) == SliceType::B { opt_flag_bits(v.direct_spatial_mv_pred_flag) } else { Seq::empty() })
        + nri_bits(v) + rplm_bits(v.ref_pic_list_mod)
}

/// The change rate of a slice group map of types 3 to 5, if the PPS has
/// one.
pub open spec fn map_change_rate_minus1(pps: PpsView) -> Option<u32> {
    match pps.slice_group {
        Some(SliceGroupView::Type3_5 { slice_group_change_rate_minus1, .. }) => Some(slice_group_change_rate_minus1),
        _ => None,
    }
}

/// The bits of the deblocking filter control.
pub open spec fn deblock_bits(d: Option<DeblockingFilter>) -> Seq<bool> {
    match d {
        Some(d) => ue_bits(d.disable_deblocking_filter_idc) + match (d.slice_alpha_c0_offset_div2, d.slice_beta_offset_div2) {
            (Some(a), Some(b)) => se_bits(a) + se_bits(b),
            _ => Seq::empty(),
        },
        None => Seq::empty(),
    }
}

/// The bits of `slice_group_change_cycle` (written when present and the
/// PPS has a map of types 3 to 5).
pub open spec fn sgcc_bits(v: SliceHeaderView, sps: SpsView, pps: PpsView) -> Seq<bool> {
    match (v.slice_group_change_cycle, map_change_rate_minus1(pps)) {
        (Some(c), Some(r)) => u32_bits(c, sgcc_len(sps, r)),
        _ => Seq::empty(),
    }
}

/// The bits of the last part of a slice header.
pub open spec fn sh_c_bits(v: SliceHeaderView, sps: SpsView, pps: PpsView) -> Seq<bool> {
    (match v.pred_weight_table {
        Some(t) => pwt_bits(t),
        None => Seq::empty(),
    }) + (match v.dec_ref_pic_marking {
        Some(m) => drpm_bits(m),
        None => Seq::empty(),
    }) + opt_ue_bits(v.cabac_init_idc) + se_bits(v.slice_qp_delta) + opt_flag_bits(v.sp_for_switch_flag)
        + opt_se_bits(v.slice_qs_delta) + deblock_bits(v.deblocking_filter) + sgcc_bits(v, sps, pps)
}

/// The bits of a slice header.
pub open spec fn slice_header_bits(v: SliceHeaderView, sps: SpsView, pps: PpsView) -> Seq<bool> {
    sh_a_bits(v, sps) + sh_b_bits(v, sps) + sh_c_bits(v, sps, pps)
}

/// An optional value can be written as `ue(v)`.
pub open spec fn opt_ue_ok(o: Option<u32>) -> bool {
    o matches Some(x) ==> x < u32::MAX
}

/// An optional value can be written as `se(v)`.
pub open spec fn opt_se_ok(o: Option<i32>) -> bool {
    o matches Some(x) ==> x > i32::MIN
}

/// Every value of a list can be written as `se(v)`.
pub open spec fn se_list_ok(l: Seq<i32>) -> bool {
    forall|i: int| 0 <= i < l.len() ==> #[trigger] l[i] > i32::MIN
}

/// Every field that the writer writes fits its coding: `ue(v)` values
/// below `u32::MAX`, `se(v)` values above `i32::MIN`, fixed-width fields
/// of at most 32 bits, and a computable `slice_group_change_cycle` length.
pub open spec fn header_writable(v: SliceHeaderView, sps: SpsView, pps: PpsView) -> bool {
    &&& v.first_mb_in_slice < u32::MAX
    &&& v.slice_type < u32::MAX
    &&& v.pic_parameter_set_id < u32::MAX
    &&& sps.log2_max_frame_num_minus4 + 4 <= 32
    &&& opt_ue_ok(v.idr_pic_id)
    &&& (v.pic_order_cnt matches Some(poc) ==> match sps.pic_order_cnt {
        PicOrderCntView::Type0 { log2_max_pic_order_cnt_lsb_minus4: l } => l + 4 <= 32 && opt_se_ok(poc.delta_pic_order_cnt_bottom),
        _ => true,
    })
    &&& (v.delta_pic_order_cnt matches Some(d) ==> se_list_ok(d))
    &&& opt_ue_ok(v.redundant_pic_cnt)
    &&& (v.num_ref_idx matches Some(n) ==> opt_ue_ok(n.num_ref_idx_l0_active_minus1) && opt_ue_ok(n.num_ref_idx_l1_active_minus1))
    &&& rplm_writable(v.ref_pic_list_mod)
    &&& (v.pred_weight_table matches Some(t) ==> pwt_writable(t))
    &&& (v.dec_ref_pic_marking matches Some(m) ==> drpm_writable(m))
    &&& opt_ue_ok(v.cabac_init_idc)
    &&& v.slice_qp_delta > i32::MIN
    &&& opt_se_ok(v.slice_qs_delta)
    &&& (v.deblocking_filter matches Some(d) ==> d.disable_deblocking_filter_idc < u32::MAX
        && opt_se_ok(d.slice_alpha_c0_offset_div2) && opt_se_ok(d.slice_beta_offset_div2))
    &&& (v.slice_group_change_cycle is Some && map_change_rate_minus1(pps) is Some
        ==> sgcc_computable(sps, map_change_rate_minus1(pps)->0))
}

/// Write an optional `ue(v)` value.
fn write_opt_ue(writer: &mut BitstreamWriter, o: Option<u32>)
    requires
        opt_ue_ok(o),
    ensures
        final(writer).bits() == old(writer).bits() + opt_ue_bits(o),
{
    match o {
        Some(x) => writer.write_ue(x),
        None => {
            assert(old(writer).bits() + Seq::<bool>::empty() =~= old(writer).bits());
        },
    }
}

/// Write an optional `se(v)` value.
fn write_opt_se(writer: &mut BitstreamWriter, o: Option<i32>)
    requires
        opt_se_ok(o),
    ensures
        final(writer).bits() == old(writer).bits() + opt_se_bits(o),
{
    match o {
        Some(x) => writer.write_se(x),
        None => {
            assert(old(writer).bits() + Seq::<bool>::empty() =~= old(writer).bits());
        },
    }
}

/// Write an optional flag.
fn write_opt_flag(writer: &mut BitstreamWriter, o: Option<bool>)
    ensures
        final(writer).bits() == old(writer).bits() + opt_flag_bits(o),
{
    match o {
        Some(x) => {
            writer.write_bool(x);
            assert(old(writer).bits().push(x) =~= old(writer).bits() + seq![x]);
        },
        None => {
            assert(old(writer).bits() + Seq::<bool>::empty() =~= old(writer).bits());
        },
    }
}

/// Write a list of `se(v)` values.
fn write_se_list(writer: &mut BitstreamWriter, l: &Vec<i32>)
    requires
        se_list_ok(l@),
    ensures
        final(writer).bits() == old(writer).bits() + se_list_bits(l@),
{
    let mut i: usize = 0;
    assert(l@.subrange(0, l@.len() as int) =~= l@);
    while i < l.len()
        invariant
            i <= l.len(),
            se_list_ok(l@),
            writer.bits() + se_list_bits(l@.subrange(i as int, l@.len() as int)) == old(writer).bits() + se_list_bits(l@),
        decreases l.len() - i,
    {
        let ghost before = writer.bits();
        let ghost t = l@.subrange(i as int, l@.len() as int);
        assert(l@[i as int] > i32::MIN);
        writer.write_se(l[i]);
        proof {
            assert(t.drop_first() =~= l@.subrange(i + 1, l@.len() as int));
            lemma_add_assoc(before, se_bits(t[0]), se_list_bits(t.drop_first()));
        }
        i = i + 1;
    }
    assert(l@.subrange(i as int, l@.len() as int) =~= Seq::<i32>::empty());
    assert(writer.bits() + Seq::<bool>::empty() =~= writer.bits());
}

/// Write the colour plane, frame number and field flags.
fn write_frame(writer: &mut BitstreamWriter, h: &SliceHeader, sps: &Sps)
    requires
        sps@.log2_max_frame_num_minus4 + 4 <= 32,
    ensures
        final(writer).bits() == old(writer).bits() + frame_bits(h@, sps@),
{
    let ghost b0 = writer.bits();
    let ghost cp = match h.colour_plane_id {
        Some(c) => u32_bits(c as u32, 2),
        None => Seq::<bool>::empty(),
    };
    match h.colour_plane_id {
        Some(c) => writer.write_bits(c as u32, 2),
        None => {
            assert(b0 + Seq::<bool>::empty() =~= b0);
        },
    }
    let ghost fnb = u32_bits(h.frame_num as u32, (sps.log2_max_frame_num_minus4 + 4) as nat);
    writer.write_bits(h.frame_num as u32, sps.log2_max_frame_num_minus4 + 4);
    proof { lemma_add_assoc(b0, cp, fnb); }
    let ghost b2 = writer.bits();
    match h.field_flags {
        Some(f) => {
            writer.write_bool(f.field_pic_flag);
            assert(b2.push(f.field_pic_flag) =~= b2 + seq![f.field_pic_flag]);
            write_opt_flag(writer, f.bottom_field_flag);
            proof { lemma_add_assoc(b2, seq![f.field_pic_flag], opt_flag_bits(f.bottom_field_flag)); }
        },
        None => {
            assert(b2 + Seq::<bool>::empty() =~= b2);
        },
    }
    proof {
        let ffb = match h.field_flags {
            Some(f) => seq![f.field_pic_flag] + opt_flag_bits(f.bottom_field_flag),
            None => Seq::<bool>::empty(),
        };
        lemma_add_assoc(b0, cp + fnb, ffb);
    }
}

/// Write the first part of a slice header.
fn write_sh_a(writer: &mut BitstreamWriter, h: &SliceHeader, sps: &Sps, pps: &Pps)
    requires
        header_writable(h@, sps@, pps@),
    ensures
        final(writer).bits() == old(writer).bits() + sh_a_bits(h@, sps@),
{
    let ghost b0 = writer.bits();
    writer.write_ue(h.first_mb_in_slice);
    writer.write_ue(h.slice_type);
    proof { lemma_add_assoc(b0, ue_bits(h.first_mb_in_slice), ue_bits(h.slice_type)); }
    let ghost a1 = ue_bits(h.first_mb_in_slice) + ue_bits(h.slice_type);
    writer.write_ue(h.pic_parameter_set_id);
    proof { lemma_add_assoc(b0, a1, ue_bits(h.pic_parameter_set_id)); }
    let ghost a2 = a1 + ue_bits(h.pic_parameter_set_id);
    write_frame(writer, h, sps);
    proof { lemma_add_assoc(b0, a2, frame_bits(h@, sps@)); }
    let ghost a3 = a2 + frame_bits(h@, sps@);
    write_opt_ue(writer, h.idr_pic_id);
    proof { lemma_add_assoc(b0, a3, opt_ue_bits(h.idr_pic_id)); }
}

/// Write the picture order count fields.
fn write_poc(writer: &mut BitstreamWriter, h: &SliceHeader, sps: &Sps, pps: &Pps)
    requires
        header_writable(h@, sps@, pps@),
    ensures
        final(writer).bits() == old(writer).bits() + poc_bits(h@, sps@),
{
    let ghost b0 = writer.bits();
    let ghost pb = match (h@.pic_order_cnt, sps@.pic_order_cnt) {
        (Some(poc), PicOrderCntView::Type0 { log2_max_pic_order_cnt_lsb_minus4: l }) =>
            u32_bits(poc.pic_order_cnt_lsb, (l + 4) as nat) + opt_se_bits(poc.delta_pic_order_cnt_bottom),
        _ => Seq::<bool>::empty(),
    };
    match (&h.pic_order_cnt, &sps.pic_order_cnt) {
        (Some(poc), crate::h264::sps::PicOrderCnt::Type0 { log2_max_pic_order_cnt_lsb_minus4 }) => {
            writer.write_bits(poc.pic_order_cnt_lsb, *log2_max_pic_order_cnt_lsb_minus4 + 4);
            let ghost b1 = writer.bits();
            write_opt_se(writer, poc.delta_pic_order_cnt_bottom);
            proof {
                lemma_add_assoc(b0, u32_bits(poc.pic_order_cnt_lsb, (*log2_max_pic_order_cnt_lsb_minus4 + 4) as nat), opt_se_bits(poc.delta_pic_order_cnt_bottom));
            }
        },
        _ => {
            assert(b0 + Seq::<bool>::empty() =~= b0);
        },
    }
    let ghost b1 = writer.bits();
    match &h.delta_pic_order_cnt {
        Some(d) => write_se_list(writer, d),
        None => {
            assert(b1 + Seq::<bool>::empty() =~= b1);
        },
    }
    proof {
        let db = match h@.delta_pic_order_cnt {
            Some(d) => se_list_bits(d),
            None => Seq::<bool>::empty(),
        };
        lemma_add_assoc(b0, pb, db);
    }
}

/// Write the reference index override.
fn write_nri(writer: &mut BitstreamWriter, h: &SliceHeader, sps: &Sps, pps: &Pps)
    requires
        header_writable(h@, sps@, pps@),
    ensures
        final(writer).bits() == old(writer).bits() + nri_bits(h@),
{
    let ghost b0 = writer.bits();
    let st = SliceType::from_u32(h.slice_type);
    match h.num_ref_idx {
        Some(n) => {
            if st == SliceType::P || st == SliceType::SP || st == SliceType::B {
                writer.write_bool(n.num_ref_idx_active_override_flag);
                assert(b0.push(n.num_ref_idx_active_override_flag) =~= b0 + seq![n.num_ref_idx_active_override_flag]);
                write_opt_ue(writer, n.num_ref_idx_l0_active_minus1);
                proof { lemma_add_assoc(b0, seq![n.num_ref_idx_active_override_flag], opt_ue_bits(n.num_ref_idx_l0_active_minus1)); }
                write_opt_ue(writer, n.num_ref_idx_l1_active_minus1);
                proof {
                    lemma_add_assoc(b0, seq![n.num_ref_idx_active_override_flag] + opt_ue_bits(n.num_ref_idx_l0_active_minus1),
                        opt_ue_bits(n.num_ref_idx_l1_active_minus1));
                }
            } else {
                assert(b0 + Seq::<bool>::empty() =~= b0);
            }
        },
        None => {
            assert(b0 + Seq::<bool>::empty() =~= b0);
        },
    }
}

/// Write the second part of a slice header.
fn write_sh_b(writer: &mut BitstreamWriter, h: &SliceHeader, sps: &Sps, pps: &Pps)
    requires
        header_writable(h@, sps@, pps@),
    ensures
        final(writer).bits() == old(writer).bits() + sh_b_bits(h@, sps@),
{
    let ghost b0 = writer.bits();
    write_poc(writer, h, sps, pps);
    write_opt_ue(writer, h.redundant_pic_cnt);
    proof { lemma_add_assoc(b0, poc_bits(h@, sps@), opt_ue_bits(h.redundant_pic_cnt)); }
    let ghost a1 = poc_bits(h@, sps@) + opt_ue_bits(h.redundant_pic_cnt);
    let ghost b1 = writer.bits();
    let st = SliceType::from_u32(h.slice_type);
    let ghost db = if slice_type_of(h.slice_type) == SliceType::B { opt_flag_bits(h.direct_spatial_mv_pred_flag) } else { Seq::<bool>::empty() };
    if st == SliceType::B {
        write_opt_flag(writer, h.direct_spatial_mv_pred_flag);
    } else {
        assert(b1 + Seq::<bool>::empty() =~= b1);
    }
    proof { lemma_add_assoc(b0, a1, db); }
    write_nri(writer, h, sps, pps);
    proof { lemma_add_assoc(b0, a1 + db, nri_bits(h@)); }
    h.ref_pic_list_mod.write(writer);
    proof { lemma_add_assoc(b0, a1 + db + nri_bits(h@), rplm_bits(h@.ref_pic_list_mod)); }
}

/// Write the deblocking filter control.
fn write_deblock(writer: &mut BitstreamWriter, d: Option<DeblockingFilter>)
    requires
        d matches Some(d) ==> d.disable_deblocking_filter_idc < u32::MAX && opt_se_ok(d.slice_alpha_c0_offset_div2)
            && opt_se_ok(d.slice_beta_offset_div2),
    ensures
        final(writer).bits() == old(writer).bits() + deblock_bits(d),
{
    let ghost b0 = writer.bits();
    match d {
        Some(d) => {
            writer.write_ue(d.disable_deblocking_filter_idc);
            let ghost b1 = writer.bits();
            match (d.slice_alpha_c0_offset_div2, d.slice_beta_offset_div2) {
                (Some(a), Some(b)) => {
                    writer.write_se(a);
                    writer.write_se(b);
                    proof {
                        lemma_add_assoc(b1, se_bits(a), se_bits(b));
                        lemma_add_assoc(b0, ue_bits(d.disable_deblocking_filter_idc), se_bits(a) + se_bits(b));
                    }
                },
                _ => {
                    assert(b1 + Seq::<bool>::empty() =~= b1);
                    assert(ue_bits(d.disable_deblocking_filter_idc) + Seq::<bool>::empty() =~= ue_bits(d.disable_deblocking_filter_idc));
                },
            }
        },
        None => {
            assert(b0 + Seq::<bool>::empty() =~= b0);
        },
    }
}

/// Write `slice_group_change_cycle`.
fn write_sgcc(writer: &mut BitstreamWriter, h: &SliceHeader, sps: &Sps, pps: &Pps)
    requires
        header_writable(h@, sps@, pps@),
    ensures
        final(writer).bits() == old(writer).bits() + sgcc_bits(h@, sps@, pps@),
{
    let rate = match &pps.slice_group {
        Some(SliceGroup::Type3_5 { slice_group_change_rate_minus1, .. }) => Some(*slice_group_change_rate_minus1),
        _ => None,
    };
    assert(rate == map_change_rate_minus1(pps@));
    match (h.slice_group_change_cycle, rate) {
        (Some(c), Some(r)) => {
            let bits = sgcc_len_exec(sps, r);
            writer.write_bits(c, bits);
        },
        _ => {
            assert(old(writer).bits() + Seq::<bool>::empty() =~= old(writer).bits());
        },
    }
}

/// Write the prediction weight table and the reference picture marking.
fn write_sh_c1(writer: &mut BitstreamWriter, h: &SliceHeader, sps: &Sps, pps: &Pps)
    requires
        header_writable(h@, sps@, pps@),
    ensures
        final(writer).bits() == old(writer).bits() + (match h@.pred_weight_table {
            Some(t) => pwt_bits(t),
            None => Seq::empty(),
        }) + (match h@.dec_ref_pic_marking {
            Some(m) => drpm_bits(m),
            None => Seq::empty(),
        }),
{
    let ghost b0 = writer.bits();
    match &h.pred_weight_table {
        Some(t) => t.to_bytes(writer),
        None => {
            assert(b0 + Seq::<bool>::empty() =~= b0);
        },
    }
    let ghost b1 = writer.bits();
    match &h.dec_ref_pic_marking {
        Some(m) => m.to_bytes(writer),
        None => {
            assert(b1 + Seq::<bool>::empty() =~= b1);
        },
    }
}

/// Write the last part of a slice header.
fn write_sh_c(writer: &mut BitstreamWriter, h: &SliceHeader, sps: &Sps, pps: &Pps)
    requires
        header_writable(h@, sps@, pps@),
    ensures
        final(writer).bits() == old(writer).bits() + sh_c_bits(h@, sps@, pps@),
{
    let ghost b0 = writer.bits();
    let ghost a0 = (match h@.pred_weight_table {
        Some(t) => pwt_bits(t),
        None => Seq::<bool>::empty(),
    }) + (match h@.dec_ref_pic_marking {
        Some(m) => drpm_bits(m),
        None => Seq::<bool>::empty(),
    });
    write_sh_c1(writer, h, sps, pps);
    proof {
        let pw = match h@.pred_weight_table { Some(t) => pwt_bits(t), None => Seq::<bool>::empty() };
        let dm = match h@.dec_ref_pic_marking { Some(m) => drpm_bits(m), None => Seq::<bool>::empty() };
        lemma_add_assoc(b0, pw, dm);
    }
    write_opt_ue(writer, h.cabac_init_idc);
    proof { lemma_add_assoc(b0, a0, opt_ue_bits(h.cabac_init_idc)); }
    let ghost a1 = a0 + opt_ue_bits(h.cabac_init_idc);
    writer.write_se(h.slice_qp_delta);
    proof { lemma_add_assoc(b0, a1, se_bits(h.slice_qp_delta)); }
    let ghost a2 = a1 + se_bits(h.slice_qp_delta);
    write_opt_flag(writer, h.sp_for_switch_flag);
    proof { lemma_add_assoc(b0, a2, opt_flag_bits(h.sp_for_switch_flag)); }
    let ghost a3 = a2 + opt_flag_bits(h.sp_for_switch_flag);
    write_opt_se(writer, h.slice_qs_delta);
    proof { lemma_add_assoc(b0, a3, opt_se_bits(h.slice_qs_delta)); }
    let ghost a4 = a3 + opt_se_bits(h.slice_qs_delta);
    write_deblock(writer, h.deblocking_filter);
    proof { lemma_add_assoc(b0, a4, deblock_bits(h.deblocking_filter)); }
    let ghost a5 = a4 + deblock_bits(h.deblocking_filter);
    write_sgcc(writer, h, sps, pps);
    proof { lemma_add_assoc(b0, a5, sgcc_bits(h@, sps@, pps@)); }
}

impl SliceHeader {
    /// Write the slice header for the given SPS and PPS; it always
    /// succeeds.
    pub fn to_bytes(&self, writer: &mut BitstreamWriter, sps: &Sps, pps: &Pps) -> (r: Result<(), Error>)
        requires
            header_writable(self@, sps@, pps@),
        ensures
            r is Ok,
            final(writer).bits() == old(writer).bits() + slice_header_bits(self@, sps@, pps@),
    {
        let ghost b0 = writer.bits();
        write_sh_a(writer, self, sps, pps);
        write_sh_b(writer, self, sps, pps);
        proof { lemma_add_assoc(b0, sh_a_bits(self@, sps@), sh_b_bits(self@, sps@)); }
        write_sh_c(writer, self, sps, pps);
        proof { lemma_add_assoc(b0, sh_a_bits(self@, sps@) + sh_b_bits(self@, sps@), sh_c_bits(self@, sps@, pps@)); }
        Ok(())
    }
}

} // verus!
