//! Where the samples of a track fragment lie in the media data: the run
//! offsets and sample sizes of its `trun` boxes, resolved against the
//! `tfhd` defaults.

use vstd::prelude::*;
use crate::crypto::error::Error;

verus! {

/// A track run as far as sample layout reads it: its data offset (from
/// the base data offset) and the size of each sample, where it gives one.
#[derive(Debug)]
pub struct Trun {
    pub data_offset: Option<i32>,
    pub sample_sizes: Vec<Option<u32>>,
}

/// A track fragment as far as sample layout reads it: the base data
/// offset and default sample size of its `tfhd`, and its runs.
#[derive(Debug)]
pub struct Traf {
    pub base_data_offset: Option<u64>,
    pub default_sample_size: Option<u32>,
    pub truns: Vec<Trun>,
}

/// Model of a run.
pub struct TrunView {
    pub data_offset: Option<i32>,
    pub sample_sizes: Seq<Option<u32>>,
}

impl View for Trun {
    type V = TrunView;

    open spec fn view(&self) -> TrunView {
        TrunView { data_offset: self.data_offset, sample_sizes: self.sample_sizes@ }
    }
}

/// The models of runs.
pub open spec fn truns_view(v: Seq<Trun>) -> Seq<TrunView> {
    v.map_values(|t: Trun| t@)
}

/// The ranges of samples `i..` of a run whose sample `i` starts at byte
/// `cursor` of the payload: `(start, size)` each, and the byte after the
/// last. A sample without its own size takes `default`; with neither
/// the run fails. `None` where a position passes `usize::MAX`.
pub open spec fn run_ranges(sizes: Seq<Option<u32>>, default: Option<u32>, cursor: nat, i: nat) -> Option<Result<(Seq<(usize, usize)>, nat), Error>>
    decreases sizes.len() - i,
{
    if i >= sizes.len() {
        Some(Ok((Seq::empty(), cursor)))
    } else {
        let size = match sizes[i as int] {
            Some(s) => Some(s),
            None => default,
        };
        match size {
            None => Some(Err(Error::MissingSampleSize)),
            Some(s) => if cursor + s > usize::MAX {
                None
            } else {
                match run_ranges(sizes, default, (cursor + s) as nat, i + 1) {
                    None => None,
                    Some(Err(e)) => Some(Err(e)),
                    Some(Ok((rest, end))) => Some(Ok((seq![(cursor as usize, s as usize)] + rest, end))),
                }
            },
        }
    }
}

/// The start of a run relative to the fragment: its data offset added to
/// the base, or where the previous run ended (`running`) when it has
/// none. `None` where the sum leaves the 64-bit range.
pub open spec fn run_start(t: TrunView, base: u64, running: nat) -> Option<int> {
    match t.data_offset {
        Some(off) => if 0 <= base + off <= u64::MAX { Some(base + off) } else { None },
        None => Some(running as int),
    }
}

/// The sample ranges of runs `k..` within the media data payload that
/// starts at `pos` (relative to the fragment), the previous run having
/// ended at `running`. A run starting outside the 64-bit range or before
/// the payload fails with `SampleOutOfBounds`. `None` where a position
/// passes the range of its type.
pub open spec fn traf_ranges(truns: Seq<TrunView>, k: nat, base: u64, running: nat, pos: u64, default: Option<u32>) -> Option<Result<Seq<(usize, usize)>, Error>>
    decreases truns.len() - k,
{
    if k >= truns.len() {
        Some(Ok(Seq::empty()))
    } else {
        match run_start(truns[k as int], base, running) {
            None => Some(Err(Error::SampleOutOfBounds { end: 0, mdat_len: pos as usize })),
            Some(abs) => if abs < pos {
                Some(Err(Error::SampleOutOfBounds { end: abs as u64 as usize, mdat_len: pos as usize }))
            } else {
                let cursor = (abs - pos) as u64 as usize as nat;
                match run_ranges(truns[k as int].sample_sizes, default, cursor, 0) {
                    None => None,
                    Some(Err(e)) => Some(Err(e)),
                    Some(Ok((rs, end))) => if pos + end > u64::MAX {
                        None
                    } else {
                        match traf_ranges(truns, k + 1, base, (pos + end) as nat, pos, default) {
                            None => None,
                            Some(Err(e)) => Some(Err(e)),
                            Some(Ok(rest)) => Some(Ok(rs + rest)),
                        }
                    },
                }
            },
        }
    }
}

/// The sample ranges of a track fragment (base data offset 0 when the
/// `tfhd` gives none).
pub open spec fn sample_ranges_spec(traf: Traf, pos: u64) -> Option<Result<Seq<(usize, usize)>, Error>> {
    let base: u64 = match traf.base_data_offset {
        Some(b) => b,
        None => 0,
    };
    traf_ranges(truns_view(traf.truns@), 0, base, base as nat, pos, traf.default_sample_size)
}

/// `pre` followed by the ranges of a result.
pub open spec fn prepend_ranges(pre: Seq<(usize, usize)>, r: Option<Result<Seq<(usize, usize)>, Error>>) -> Option<Result<Seq<(usize, usize)>, Error>> {
    match r {
        Some(Ok(rest)) => Some(Ok(pre + rest)),
        other => other,
    }
}

/// The sample ranges of one run.
fn push_run(out: &mut Vec<(usize, usize)>, sizes: &Vec<Option<u32>>, default: Option<u32>, start: usize) -> (r: Result<usize, Error>)
    requires
        run_ranges(sizes@, default, start as nat, 0) is Some,
    ensures
        match run_ranges(sizes@, default, start as nat, 0) {
            Some(Ok((rs, end))) => r == Ok::<usize, Error>(end as usize) && end <= usize::MAX && final(out)@ == old(out)@ + rs,
            Some(Err(e)) => r == Err::<usize, Error>(e),
            None => false,
        },
{
    let mut cursor = start;
    let mut i: usize = 0;
    let ghost o0 = out@;
    assert(o0 + Seq::<(usize, usize)>::empty() =~= o0);
    while i < sizes.len()
        invariant
            i <= sizes@.len(),
            run_ranges(sizes@, default, cursor as nat, i as nat) is Some,
            match run_ranges(sizes@, default, start as nat, 0) {
                Some(Ok((rs, end))) => run_ranges(sizes@, default, cursor as nat, i as nat) matches Some(Ok((rest, e2)))
                    && e2 == end && rs == (out@.subrange(o0.len() as int, out@.len() as int)) + rest,
                other => other == run_ranges(sizes@, default, cursor as nat, i as nat),
            },
            out@.len() >= o0.len(),
            out@.subrange(0, o0.len() as int) == o0,
        decreases sizes@.len() - i,
    {
        let size = match sizes[i] {
            Some(s) => s,
            None => match default {
                Some(s) => s,
                None => {
                    return Err(Error::MissingSampleSize);
                },
            },
        };
        let ghost before = out@;
        out.push((cursor, size as usize));
        proof {
            assert(out@.subrange(0, o0.len() as int) =~= before.subrange(0, o0.len() as int));
            assert(out@.subrange(o0.len() as int, out@.len() as int) =~= before.subrange(o0.len() as int, before.len() as int).push((cursor, size as usize)));
            match run_ranges(sizes@, default, start as nat, 0) {
                Some(Ok((rs, end))) => {
                    let rest = run_ranges(sizes@, default, (cursor + size) as nat, i as nat + 1)->Some_0->Ok_0.0;
                    assert(before.subrange(o0.len() as int, before.len() as int) + (seq![(cursor, size as usize)] + rest)
                        =~= before.subrange(o0.len() as int, before.len() as int).push((cursor, size as usize)) + rest);
                },
                _ => {},
            }
        }
        cursor = cursor + size as usize;
        i = i + 1;
    }
    assert(out@ =~= o0 + out@.subrange(o0.len() as int, out@.len() as int));
    proof {
        match run_ranges(sizes@, default, start as nat, 0) {
            Some(Ok((rs, end))) => {
                assert(rs =~= out@.subrange(o0.len() as int, out@.len() as int));
            },
            _ => {},
        }
    }
    Ok(cursor)
}

/// The range `(start, size)` in the media data payload of every sample of
/// a track fragment, run by run, where the payload starts at
/// `mdat_payload_pos` bytes from the fragment's start.
pub fn sample_ranges(traf: &Traf, mdat_payload_pos: u64) -> (r: Result<Vec<(usize, usize)>, Error>)
    requires
        sample_ranges_spec(*traf, mdat_payload_pos) is Some,
    ensures
        match sample_ranges_spec(*traf, mdat_payload_pos) {
            Some(Ok(v)) => r matches Ok(x) && x@ == v,
            Some(Err(e)) => r == Err::<Vec<(usize, usize)>, Error>(e),
            None => false,
        },
{
    let base: u64 = match traf.base_data_offset {
        Some(b) => b,
        None => 0,
    };
    let ghost ts = truns_view(traf.truns@);
    let ghost total = traf_ranges(ts, 0, base, base as nat, mdat_payload_pos, traf.default_sample_size);
    let mut out: Vec<(usize, usize)> = Vec::new();
    let mut running_abs: u64 = base;
    let mut k: usize = 0;
    assert(total == sample_ranges_spec(*traf, mdat_payload_pos));
    assert(total == prepend_ranges(out@, total)) by {
        match total {
            Some(Ok(rest)) => { assert(out@ + rest =~= rest); },
            _ => {},
        }
    }
    while k < traf.truns.len()
        invariant
            k <= traf.truns@.len(),
            ts == truns_view(traf.truns@),
            total == traf_ranges(ts, 0, base, base as nat, mdat_payload_pos, traf.default_sample_size),
            total is Some,
            total == sample_ranges_spec(*traf, mdat_payload_pos),
            total == prepend_ranges(out@, traf_ranges(ts, k as nat, base, running_abs as nat, mdat_payload_pos, traf.default_sample_size)),
        decreases traf.truns@.len() - k,
    {
        let trun = &traf.truns[k];
        assert(ts[k as int] == trun@);
        let abs_start: u64 = match trun.data_offset {
            Some(off) => {
                let v: i128 = base as i128 + off as i128;
                if v < 0 || v > u64::MAX as i128 {
                    return Err(Error::SampleOutOfBounds { end: 0, mdat_len: mdat_payload_pos as usize });
                }
                v as u64
            },
            None => running_abs,
        };
        if abs_start < mdat_payload_pos {
            return Err(Error::SampleOutOfBounds { end: abs_start as usize, mdat_len: mdat_payload_pos as usize });
        }
        let cursor = (abs_start - mdat_payload_pos) as usize;
        let ghost before = out@;
        let end = push_run(&mut out, &trun.sample_sizes, traf.default_sample_size, cursor)?;
        assert(end + mdat_payload_pos <= u64::MAX);
        running_abs = mdat_payload_pos + end as u64;
        proof {
            let rs = run_ranges(trun.sample_sizes@, traf.default_sample_size, cursor as nat, 0)->Some_0->Ok_0.0;
            let rest = traf_ranges(ts, k as nat + 1, base, running_abs as nat, mdat_payload_pos, traf.default_sample_size);
            match rest {
                Some(Ok(rr)) => {
                    assert(before + (rs + rr) =~= (before + rs) + rr);
                },
                _ => {},
            }
        }
        k = k + 1;
    }
    assert(out@ + Seq::<(usize, usize)>::empty() =~= out@);
    Ok(out)
}

} // verus!
