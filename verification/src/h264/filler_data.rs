//! Filler data: a run of `0xFF` bytes followed by the RBSP trailing bits.

use vstd::prelude::*;

verus! {

/// Filler data RBSP, described by its number of `0xFF` bytes.
#[derive(Debug)]
pub struct FillerData {
    pub ff_byte_count: usize,
}

/// Number of `0xFF` bytes at the start of `d`.
pub open spec fn leading_ff(d: Seq<u8>) -> nat
    decreases d.len(),
{
    if d.len() > 0 && d[0] == 0xFF {
        1 + leading_ff(d.subrange(1, d.len() as int))
    } else {
        0
    }
}

/// The bytes of filler data: `n` times `0xFF`, then `0x80`.
pub open spec fn filler_bytes(n: nat) -> Seq<u8> {
    Seq::new(n, |i: int| 0xFFu8).push(0x80u8)
}

proof fn lemma_leading_ff_run(d: Seq<u8>, i: nat)
    requires
        i <= d.len(),
        forall|j: int| 0 <= j < i ==> d[j] == 0xFF,
    ensures
        leading_ff(d) == i + leading_ff(d.subrange(i as int, d.len() as int)),
    decreases i,
{
    if i > 0 {
        let t = d.subrange(1, d.len() as int);
        lemma_leading_ff_run(t, (i - 1) as nat);
        assert(t.subrange((i - 1) as int, t.len() as int) =~= d.subrange(i as int, d.len() as int));
    } else {
        assert(d.subrange(0, d.len() as int) =~= d);
    }
}

/// Parsing the bytes of filler data gives back its count.
pub proof fn lemma_filler_roundtrip(n: nat)
    ensures
        leading_ff(filler_bytes(n)) == n,
{
    let d = filler_bytes(n);
    lemma_leading_ff_run(d, n);
    assert(d.subrange(n as int, d.len() as int) =~= seq![0x80u8]);
    assert(leading_ff(seq![0x80u8]) == 0);
}

impl FillerData {
    /// Serialize: `ff_byte_count` bytes `0xFF`, then the trailing byte `0x80`.
    pub fn to_bytes(&self) -> (r: Vec<u8>)
        requires
            self.ff_byte_count < usize::MAX,
        ensures
            r@ == filler_bytes(self.ff_byte_count as nat),
    {
        let mut buf: Vec<u8> = Vec::new();
        let mut i: usize = 0;
        while i < self.ff_byte_count
            invariant
                i <= self.ff_byte_count,
                buf@ == Seq::new(i as nat, |k: int| 0xFFu8),
            decreases self.ff_byte_count - i,
        {
            buf.push(0xFF);
            i = i + 1;
            assert(buf@ =~= Seq::new(i as nat, |k: int| 0xFFu8));
        }
        buf.push(0x80);
        buf
    }

    /// Parse: count the `0xFF` bytes at the start of the data.
    pub fn parse(data: &[u8]) -> (r: Self)
        ensures
            r.ff_byte_count == leading_ff(data@),
    {
        let mut i: usize = 0;
        while i < data.len() && data[i] == 0xFF
            invariant
                i <= data@.len(),
                forall|j: int| 0 <= j < i ==> data@[j] == 0xFF,
            decreases data@.len() - i,
        {
            i = i + 1;
        }
        proof {
            lemma_leading_ff_run(data@, i as nat);
            let t = data@.subrange(i as int, data@.len() as int);
            assert(leading_ff(t) == 0);
        }
        FillerData { ff_byte_count: i }
    }
}

} // verus!
