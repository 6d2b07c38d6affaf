//! Bit allocation: the bit allocation pointers of a range of bins from
//! their exponents and the bit allocation parameters, following the
//! parametric algorithm of the AC-3 standard (power spectral density,
//! banded integration, excitation with fast and slow leak, masking curve
//! with hearing threshold and delta bit allocation, pointer lookup).

use vstd::prelude::*;

verus! {

/// Slow decay, by `sdcycod`.
pub const SLOWDEC: [u16; 4] = [0x0F, 0x11, 0x13, 0x15];

/// Fast decay, by `fdcycod`.
pub const FASTDEC: [u16; 4] = [0x3F, 0x53, 0x67, 0x7B];

/// Slow gain, by `sgaincod`.
pub const SLOWGAIN: [u16; 4] = [0x540, 0x4D8, 0x478, 0x410];

/// dB per bit, by `dbpbcod`.
pub const DBPBTAB: [u16; 4] = [0x000, 0x0700, 0x0900, 0x0B00];

/// Floor, by `floorcod`.
pub const FLOORTAB: [i16; 8] = [0x2F0, 0x2B0, 0x270, 0x230, 0x1F0, 0x170, 0x0F0, -0x0800];

/// Fast gain, by `fgaincod`.
pub const FASTGAIN: [u16; 8] = [0x080, 0x100, 0x180, 0x200, 0x280, 0x300, 0x380, 0x400];

/// Hearing threshold by sample rate code and band.
pub const HTH: [[i16; 50]; 3] = [
    [
        0x04D0, 0x04D0, 0x0440, 0x0400, 0x03E0, 0x03C0, 0x03B0, 0x03B0, 0x03A0, 0x03A0, 0x03A0,
        0x03A0, 0x03A0, 0x0390, 0x0390, 0x0390, 0x0380, 0x0380, 0x0370, 0x0370, 0x0360, 0x0360,
        0x0350, 0x0350, 0x0340, 0x0340, 0x0330, 0x0320, 0x0310, 0x0300, 0x02F0, 0x02F0, 0x02F0,
        0x02F0, 0x0300, 0x0310, 0x0340, 0x0390, 0x03E0, 0x0420, 0x0460, 0x0490, 0x04A0, 0x0460,
        0x0440, 0x0440, 0x0520, 0x0800, 0x0840, 0x0840,
    ],
    [
        0x04F0, 0x04F0, 0x0460, 0x0410, 0x03E0, 0x03D0, 0x03C0, 0x03B0, 0x03B0, 0x03A0, 0x03A0,
        0x03A0, 0x03A0, 0x03A0, 0x0390, 0x0390, 0x0390, 0x0380, 0x0380, 0x0380, 0x0370, 0x0370,
        0x0360, 0x0360, 0x0350, 0x0350, 0x0340, 0x0340, 0x0320, 0x0310, 0x0300, 0x02F0, 0x02F0,
        0x02F0, 0x02F0, 0x0300, 0x0320, 0x0350, 0x0390, 0x03E0, 0x0420, 0x0450, 0x04A0, 0x0490,
        0x0460, 0x0440, 0x0480, 0x0630, 0x0840, 0x0840,
    ],
    [
        0x0580, 0x0580, 0x04B0, 0x0450, 0x0420, 0x03F0, 0x03E0, 0x03D0, 0x03C0, 0x03B0, 0x03B0,
        0x03B0, 0x03A0, 0x03A0, 0x03A0, 0x03A0, 0x03A0, 0x03A0, 0x03A0, 0x03A0, 0x0390, 0x0390,
        0x0390, 0x0390, 0x0380, 0x0380, 0x0380, 0x0370, 0x0360, 0x0350, 0x0340, 0x0330, 0x0320,
        0x0310, 0x0300, 0x02F0, 0x02F0, 0x02F0, 0x0300, 0x0310, 0x0330, 0x0350, 0x03C0, 0x0410,
        0x0470, 0x04A0, 0x0460, 0x0440, 0x0450, 0x04E0,
    ],
];

/// First bin of each band.
pub const BNDTAB: [usize; 50] = [
    0, 1, 2, 3, 4, 5, 6, 7, 8, 9, 10, 11, 12, 13, 14, 15, 16, 17, 18, 19, 20, 21, 22, 23, 24, 25,
    26, 27, 28, 31, 34, 37, 40, 43, 46, 49, 55, 61, 67, 73, 79, 85, 97, 109, 121, 133, 157, 181,
    205, 229,
];

/// Width of each band in bins.
pub const BNDSZ: [usize; 50] = [
    1, 1, 1, 1, 1, 1, 1, 1, 1, 1, 1, 1, 1, 1, 1, 1, 1, 1, 1, 1, 1, 1, 1, 1, 1, 1, 1, 1, 3, 3, 3, 3,
    3, 3, 3, 6, 6, 6, 6, 6, 6, 12, 12, 12, 12, 24, 24, 24, 24, 24,
];

/// Bit allocation pointer by address.
pub const BAPTAB: [u8; 64] = [
    0, 1, 1, 1, 1, 1, 2, 2, 3, 3, 3, 4, 4, 5, 5, 6, 6, 6, 6, 7, 7, 7, 7, 8, 8, 8, 8, 9, 9, 9, 9,
    10, 10, 10, 10, 11, 11, 11, 11, 12, 12, 12, 12, 13, 13, 13, 13, 14, 14, 14, 14, 14, 14, 14, 14,
    15, 15, 15, 15, 15, 15, 15, 15, 15,
];

/// Band of each bin.
pub const MASKTAB: [u8; 256] = [
    0, 1, 2, 3, 4, 5, 6, 7, 8, 9, 10, 11, 12, 13, 14, 15, 16, 17, 18, 19, 20, 21, 22, 23, 24, 25,
    26, 27, 28, 28, 28, 29, 29, 29, 30, 30, 30, 31, 31, 31, 32, 32, 32, 33, 33, 33, 34, 34, 34, 35,
    35, 35, 35, 35, 35, 36, 36, 36, 36, 36, 36, 37, 37, 37, 37, 37, 37, 38, 38, 38, 38, 38, 38, 39,
    39, 39, 39, 39, 39, 40, 40, 40, 40, 40, 40, 41, 41, 41, 41, 41, 41, 41, 41, 41, 41, 41, 41, 42,
    42, 42, 42, 42, 42, 42, 42, 42, 42, 42, 42, 43, 43, 43, 43, 43, 43, 43, 43, 43, 43, 43, 43, 44,
    44, 44, 44, 44, 44, 44, 44, 44, 44, 44, 44, 45, 45, 45, 45, 45, 45, 45, 45, 45, 45, 45, 45, 45,
    45, 45, 45, 45, 45, 45, 45, 45, 45, 45, 45, 46, 46, 46, 46, 46, 46, 46, 46, 46, 46, 46, 46, 46,
    46, 46, 46, 46, 46, 46, 46, 46, 46, 46, 46, 47, 47, 47, 47, 47, 47, 47, 47, 47, 47, 47, 47, 47,
    47, 47, 47, 47, 47, 47, 47, 47, 47, 47, 47, 48, 48, 48, 48, 48, 48, 48, 48, 48, 48, 48, 48, 48,
    48, 48, 48, 48, 48, 48, 48, 48, 48, 48, 48, 49, 49, 49, 49, 49, 49, 49, 49, 49, 49, 49, 49, 49,
    49, 49, 49, 49, 49, 49, 49, 49, 49, 49, 49, 0, 0, 0,
];

/// Log addition table, by `min(|c| / 2, 255)`.
pub const LATAB: [u8; 256] = [
    0x40, 0x3F, 0x3E, 0x3D, 0x3C, 0x3B, 0x3A, 0x39, 0x38, 0x37, 0x36, 0x35, 0x34, 0x34, 0x33, 0x32,
    0x31, 0x30, 0x2F, 0x2F, 0x2E, 0x2D, 0x2C, 0x2C, 0x2B, 0x2A, 0x29, 0x29, 0x28, 0x27, 0x26, 0x26,
    0x25, 0x24, 0x24, 0x23, 0x23, 0x22, 0x21, 0x21, 0x20, 0x20, 0x1F, 0x1E, 0x1E, 0x1D, 0x1D, 0x1C,
    0x1C, 0x1B, 0x1B, 0x1A, 0x1A, 0x19, 0x19, 0x18, 0x18, 0x17, 0x17, 0x16, 0x16, 0x15, 0x15, 0x15,
    0x14, 0x14, 0x13, 0x13, 0x13, 0x12, 0x12, 0x12, 0x11, 0x11, 0x11, 0x10, 0x10, 0x10, 0x0F, 0x0F,
    0x0F, 0x0E, 0x0E, 0x0E, 0x0D, 0x0D, 0x0D, 0x0D, 0x0C, 0x0C, 0x0C, 0x0C, 0x0B, 0x0B, 0x0B, 0x0B,
    0x0A, 0x0A, 0x0A, 0x0A, 0x0A, 0x09, 0x09, 0x09, 0x09, 0x09, 0x08, 0x08, 0x08, 0x08, 0x08, 0x08,
    0x07, 0x07, 0x07, 0x07, 0x07, 0x07, 0x06, 0x06, 0x06, 0x06, 0x06, 0x06, 0x06, 0x06, 0x05, 0x05,
    0x05, 0x05, 0x05, 0x05, 0x05, 0x05, 0x04, 0x04, 0x04, 0x04, 0x04, 0x04, 0x04, 0x04, 0x04, 0x04,
    0x04, 0x03, 0x03, 0x03, 0x03, 0x03, 0x03, 0x03, 0x03, 0x03, 0x03, 0x03, 0x03, 0x03, 0x03, 0x02,
    0x02, 0x02, 0x02, 0x02, 0x02, 0x02, 0x02, 0x02, 0x02, 0x02, 0x02, 0x02, 0x02, 0x02, 0x02, 0x02,
    0x02, 0x02, 0x01, 0x01, 0x01, 0x01, 0x01, 0x01, 0x01, 0x01, 0x01, 0x01, 0x01, 0x01, 0x01, 0x01,
    0x01, 0x01, 0x01, 0x01, 0x01, 0x01, 0x01, 0x01, 0x01, 0x01, 0x01, 0x01, 0x01, 0x01, 0x01, 0x01,
    0x01, 0x01, 0x00, 0x00, 0x00, 0x00, 0x00, 0x00, 0x00, 0x00, 0x00, 0x00, 0x00, 0x00, 0x00, 0x00,
    0x00, 0x00, 0x00, 0x00, 0x00, 0x00, 0x00, 0x00, 0x00, 0x00, 0x00, 0x00, 0x00, 0x00, 0x00, 0x00,
    0x00, 0x00, 0x00, 0x00, 0x00, 0x00, 0x00, 0x00, 0x00, 0x00, 0x00, 0x00, 0x00, 0x00, 0x00, 0x00,
];


/// Bounds of the tables that the algorithm relies on.
pub proof fn lemma_tables()
    ensures
        forall|i: int| 0 <= i < 256 ==> #[trigger] MASKTAB[i] <= 49,
        forall|i: int| 0 <= i < 256 ==> #[trigger] LATAB[i] <= 64,
        forall|i: int| 0 <= i < 64 ==> #[trigger] BAPTAB[i] <= 15,
        forall|k: int| 0 <= k < 50 ==> 1 <= #[trigger] BNDSZ[k] <= 24 && BNDTAB[k] + BNDSZ[k] <= 253,
        BNDTAB[49] + BNDSZ[49] == 253,
        forall|f: int, k: int| 0 <= f < 3 && 0 <= k < 50 ==> 0 <= #[trigger] HTH[f][k] <= 0x0840,
        forall|k: int| 0 <= k < 49 ==> #[trigger] BNDTAB[k] + BNDSZ[k] == BNDTAB[k + 1],
        forall|b: int| 0 <= b < 253 ==> BNDTAB[#[trigger] MASKTAB[b] as int] <= b < BNDTAB[MASKTAB[b] as int] + BNDSZ[MASKTAB[b] as int],
{
    assert(forall|k: int| 0 <= k < 49 ==> #[trigger] BNDTAB[k] + BNDSZ[k] == BNDTAB[k + 1]);
    assert(forall|b: int| 0 <= b < 253 ==> BNDTAB[#[trigger] MASKTAB[b] as int] <= b < BNDTAB[MASKTAB[b] as int] + BNDSZ[MASKTAB[b] as int]);
    assert(forall|i: int| 0 <= i < 256 ==> #[trigger] MASKTAB[i] <= 49);
    assert(forall|i: int| 0 <= i < 256 ==> #[trigger] LATAB[i] <= 64);
    assert(forall|i: int| 0 <= i < 64 ==> #[trigger] BAPTAB[i] <= 15);
    assert(forall|k: int| 0 <= k < 50 ==> 1 <= #[trigger] BNDSZ[k] <= 24 && BNDTAB[k] + BNDSZ[k] <= 253);
    assert(forall|f: int, k: int| 0 <= f < 3 && 0 <= k < 50 ==> 0 <= #[trigger] HTH[f][k] <= 0x0840);
}

/// The shape of the allocation tables: the pointer table grows with the
/// margin of a bin's density over its masking level and starts and ends
/// at 0 and 15; the log-addition table falls as the two values move
/// apart, from 64 to 0; the band sizes never shrink from one band to the
/// next.
pub proof fn lemma_table_shapes()
    ensures
        forall|i: int| 0 <= i < 63 ==> #[trigger] BAPTAB[i] <= BAPTAB[i + 1],
        BAPTAB[0] == 0 && BAPTAB[63] == 15,
        forall|i: int| 0 <= i < 255 ==> #[trigger] LATAB[i] >= LATAB[i + 1],
        LATAB[0] == 64 && LATAB[255] == 0,
        forall|k: int| 0 <= k < 49 ==> #[trigger] BNDSZ[k] <= BNDSZ[k + 1],
{
    assert(forall|i: int| 0 <= i < 63 ==> #[trigger] BAPTAB[i] <= BAPTAB[i + 1]);
    assert(forall|i: int| 0 <= i < 255 ==> #[trigger] LATAB[i] >= LATAB[i + 1]);
    assert(forall|k: int| 0 <= k < 49 ==> #[trigger] BNDSZ[k] <= BNDSZ[k + 1]);
}

/// Log-domain addition: the larger value plus the table entry for half
/// their difference (at most 255).
pub open spec fn logadd_spec(a: int, b: int) -> int {
    let c = a - b;
    let half = if c < 0 { (-c) / 2 } else { c / 2 };
    let address = if half > 255 { 255 } else { half };
    if c >= 0 { a + LATAB[address] } else { b + LATAB[address] }
}

/// `max(x, 0)`.
pub open spec fn nonneg(x: int) -> int {
    if x < 0 { 0 } else { x }
}

/// Low-frequency compensation for band `bin` from the previous value `a`
/// and the band powers `b0` (this band) and `b1` (the next).
pub open spec fn lowcomp_spec(a: int, b0: int, b1: int, bin: int) -> int {
    if bin < 7 {
        if b0 + 256 == b1 { 384 } else if b0 > b1 { nonneg(a - 64) } else { a }
    } else if bin < 20 {
        if b0 + 256 == b1 { 320 } else if b0 > b1 { nonneg(a - 64) } else { a }
    } else {
        nonneg(a - 128)
    }
}

/// Log-domain addition.
fn logadd(a: i32, b: i32) -> (r: i32)
    requires
        -0x1000_0000 <= a <= 0x1000_0000,
        -0x1000_0000 <= b <= 0x1000_0000,
    ensures
        r == logadd_spec(a as int, b as int),
        (if a >= b { a as int } else { b as int }) <= r <= (if a >= b { a as int } else { b as int }) + 64,
{
    proof {
        lemma_tables();
    }
    let c = a - b;
    let half = if c < 0 { (-c) / 2 } else { c / 2 };
    let address: usize = if half > 255 { 255 } else { half as usize };
    if c >= 0 {
        a + LATAB[address] as i32
    } else {
        b + LATAB[address] as i32
    }
}

/// Low-frequency compensation.
fn calc_lowcomp(a: i32, b0: i32, b1: i32, bin: usize) -> (r: i32)
    requires
        0 <= a <= 384,
        -0x1000_0000 <= b0 <= 0x1000_0000,
        -0x1000_0000 <= b1 <= 0x1000_0000,
    ensures
        r == lowcomp_spec(a as int, b0 as int, b1 as int, bin as int),
        0 <= r <= 384,
{
    if bin < 7 {
        if b0 + 256 == b1 {
            384
        } else if b0 > b1 {
            if a - 64 < 0 { 0 } else { a - 64 }
        } else {
            a
        }
    } else if bin < 20 {
        if b0 + 256 == b1 {
            320
        } else if b0 > b1 {
            if a - 64 < 0 { 0 } else { a - 64 }
        } else {
            a
        }
    } else {
        if a - 128 < 0 { 0 } else { a - 128 }
    }
}

/// The integers of an array.
pub open spec fn ints<const N: usize>(a: [i32; N]) -> Seq<int> {
    a@.map_values(|x: i32| x as int)
}

/// Power spectral density of bin `i` (for bins `start..end`): `3072` less
/// 128 times its exponent; 0 elsewhere.
pub open spec fn psd_spec(exps: Seq<u8>, start: int, end: int) -> Seq<int> {
    Seq::new(256, |i: int| if start <= i < end { 3072 - exps[i - start] * 128 } else { 0 })
}

/// Log-adding the densities of bins `j..last` to `acc`.
pub open spec fn band_fold(psd: Seq<int>, j: int, last: int, acc: int) -> int
    decreases last - j,
{
    if j >= last {
        acc
    } else {
        band_fold(psd, j + 1, last, logadd_spec(acc, psd[j]))
    }
}

/// Integrating the densities into bands, from band `k` whose bins start at
/// `j`: each band gets the log-sum of its bins up to `end`, until a band
/// reaches `end`.
pub open spec fn bnd_loop(psd: Seq<int>, end: int, k: int, j: int, bnd: Seq<int>) -> Seq<int>
    decreases 50 - k,
{
    if k < 0 || k >= 50 {
        bnd
    } else {
        let lastbin = if BNDTAB[k] + BNDSZ[k] < end { BNDTAB[k] + BNDSZ[k] } else { end };
        let bnd2 = bnd.update(k, band_fold(psd, j + 1, lastbin, psd[j]));
        if end <= lastbin {
            bnd2
        } else {
            bnd_loop(psd, end, k + 1, if j + 1 < lastbin { lastbin as int } else { j + 1 }, bnd2)
        }
    }
}

/// Write the power spectral density of bins `start..start + nbins`.
fn psd_array(exps: &[u8], start: usize, nbins: usize) -> (r: [i32; 256])
    requires
        start + nbins <= 256,
        nbins <= exps@.len(),
    ensures
        ints(r) == psd_spec(exps@, start as int, (start + nbins) as int),
        forall|i: int| 0 <= i < 256 ==> -29568 <= #[trigger] r@[i] <= 3072,
{
    let mut psd = [0i32; 256];
    let mut i: usize = 0;
    while i < nbins
        invariant
            i <= nbins,
            start + nbins <= 256,
            nbins <= exps@.len(),
            forall|x: int| 0 <= x < 256 ==> #[trigger] psd@[x] as int == (if start <= x < start + i { 3072 - exps@[x - start] * 128 } else { 0 }),
        decreases nbins - i,
    {
        psd[start + i] = 3072 - (exps[i] as i32) * 128;
        i = i + 1;
    }
    assert(ints(psd) =~= psd_spec(exps@, start as int, (start + nbins) as int));
    psd
}

/// Integrate the densities of bins `start..end` into bands.
fn band_power(psd: &[i32; 256], start: usize, end: usize) -> (r: [i32; 50])
    requires
        start < end <= 253,
        forall|i: int| 0 <= i < 256 ==> -29568 <= #[trigger] psd@[i] <= 3072,
    ensures
        ints(r) == bnd_loop(ints(*psd), end as int, MASKTAB[start as int] as int, start as int, Seq::new(50, |i: int| 0int)),
        forall|k: int| 0 <= k < 50 ==> -29568 <= #[trigger] r@[k] <= 0x100_0000,
{
    proof {
        lemma_tables();
    }
    let ghost ps = ints(*psd);
    let mut bndpsd = [0i32; 50];
    let mut j: usize = start;
    let mut k: usize = MASKTAB[start] as usize;
    assert(ints(bndpsd) =~= Seq::new(50, |i: int| 0int));
    loop
        invariant
            k < 50,
            start <= j < end <= 253,
            BNDTAB[k as int] <= j < BNDTAB[k as int] + BNDSZ[k as int],
            ps == ints(*psd),
            forall|i: int| 0 <= i < 256 ==> -29568 <= #[trigger] psd@[i] <= 3072,
            forall|x: int| 0 <= x < 50 ==> -29568 <= #[trigger] bndpsd@[x] <= 0x100_0000,
            bnd_loop(ps, end as int, MASKTAB[start as int] as int, start as int, Seq::new(50, |i: int| 0int))
                == bnd_loop(ps, end as int, k as int, j as int, ints(bndpsd)),
            forall|kk: int| 0 <= kk < 50 ==> 1 <= #[trigger] BNDSZ[kk] <= 24 && BNDTAB[kk] + BNDSZ[kk] <= 253,
            BNDTAB[49] + BNDSZ[49] == 253,
            forall|kk: int| 0 <= kk < 49 ==> #[trigger] BNDTAB[kk] + BNDSZ[kk] == BNDTAB[kk + 1],
        decreases 50 - k,
    {
        let ghost before = ints(bndpsd);
        let ghost j0 = j;
        let lastbin: usize = if BNDTAB[k] + BNDSZ[k] < end { BNDTAB[k] + BNDSZ[k] } else { end };
        let mut acc = psd[j];
        assert(acc as int == ps[j as int]);
        j = j + 1;
        while j < lastbin
            invariant
                j0 < j <= lastbin <= 253,
                ps == ints(*psd),
                forall|i: int| 0 <= i < 256 ==> -29568 <= #[trigger] psd@[i] <= 3072,
                -29568 <= acc <= 3072 + 64 * (j - j0 - 1),
                band_fold(ps, j0 + 1, lastbin as int, ps[j0 as int]) == band_fold(ps, j as int, lastbin as int, acc as int),
            decreases lastbin - j,
        {
            assert(psd@[j as int] as int == ps[j as int]);
            acc = logadd(acc, psd[j]);
            j = j + 1;
        }
        bndpsd[k] = acc;
        proof {
            assert(ints(bndpsd) =~= before.update(k as int, band_fold(ps, j0 + 1, lastbin as int, ps[j0 as int])));
        }
        if end <= lastbin {
            return bndpsd;
        }
        k = k + 1;
    }
}

/// `max(x, y)`.
pub open spec fn imax(x: int, y: int) -> int {
    if x >= y { x } else { y }
}

/// The gains and decays of the excitation.
pub struct Leaks {
    pub fgain: int,
    pub sgain: int,
    pub fdecay: int,
    pub sdecay: int,
}

/// Bands 2 to 6 of a full-bandwidth or effects channel, up to the first
/// band whose power does not exceed the next one's (band 6 of the effects
/// channel excepted): low-frequency compensation, leaks reset from the
/// band power, excitation. Returns the compensation, the leaks, the
/// excitation and the band where the next stage begins.
pub open spec fn early_loop(b: Seq<int>, bin: int, lc: int, fl: int, sl: int, ex: Seq<int>, is_lfe: bool, g: Leaks)
    -> (int, int, int, Seq<int>, int)
    decreases 7 - bin,
{
    if bin >= 7 {
        (lc, fl, sl, ex, 7)
    } else {
        let lc2 = if !is_lfe || bin != 6 { lowcomp_spec(lc, b[bin], b[bin + 1], bin) } else { lc };
        let fl2 = b[bin] - g.fgain;
        let sl2 = b[bin] - g.sgain;
        let ex2 = ex.update(bin, fl2 - lc2);
        if (!is_lfe || bin != 6) && b[bin] <= b[bin + 1] {
            (lc2, fl2, sl2, ex2, bin + 1)
        } else {
            early_loop(b, bin + 1, lc2, fl2, sl2, ex2, is_lfe, g)
        }
    }
}

/// Bands `bin..end1` (below 22): compensation, decaying leaks, and the
/// excitation as the larger of the compensated fast leak and the slow leak.
pub open spec fn mid_loop(b: Seq<int>, bin: int, end1: int, lc: int, fl: int, sl: int, ex: Seq<int>, is_lfe: bool, g: Leaks)
    -> (int, int, Seq<int>)
    decreases end1 - bin,
{
    if bin >= end1 {
        (fl, sl, ex)
    } else {
        let lc2 = if !is_lfe || bin != 6 { lowcomp_spec(lc, b[bin], b[bin + 1], bin) } else { lc };
        let fl2 = imax(fl - g.fdecay, b[bin] - g.fgain);
        let sl2 = imax(sl - g.sdecay, b[bin] - g.sgain);
        mid_loop(b, bin + 1, end1, lc2, fl2, sl2, ex.update(bin, imax(fl2 - lc2, sl2)), is_lfe, g)
    }
}

/// Bands `bin..bndend`: decaying leaks, excitation the larger leak.
pub open spec fn tail_loop(b: Seq<int>, bin: int, bndend: int, fl: int, sl: int, ex: Seq<int>, g: Leaks) -> Seq<int>
    decreases bndend - bin,
{
    if bin >= bndend {
        ex
    } else {
        let fl2 = imax(fl - g.fdecay, b[bin] - g.fgain);
        let sl2 = imax(sl - g.sdecay, b[bin] - g.sgain);
        tail_loop(b, bin + 1, bndend, fl2, sl2, ex.update(bin, imax(fl2, sl2)), g)
    }
}

/// The excitation of bands `bndstrt..bndend` from the band powers `b`:
/// from band 0, with the low-frequency stages (the effects channel ends at
/// band 7); otherwise (coupling) from the given leak start values.
pub open spec fn excite_spec(b: Seq<int>, bndstrt: int, bndend: int, g: Leaks, cplleak: Option<(u8, u8)>) -> Seq<int> {
    let fl0 = match cplleak { Some((f, s)) => f * 256 + 768, None => 0 };
    let sl0 = match cplleak { Some((f, s)) => s * 256 + 768, None => 0 };
    let zero = Seq::new(50, |i: int| 0int);
    if bndstrt == 0 {
        let is_lfe = bndend == 7;
        let lc0 = lowcomp_spec(0, b[0], b[1], 0);
        let ex0 = zero.update(0, b[0] - g.fgain - lc0);
        let lc1 = lowcomp_spec(lc0, b[1], b[2], 1);
        let ex1 = ex0.update(1, b[1] - g.fgain - lc1);
        let (lc2, fl2, sl2, ex2, begin) = early_loop(b, 2, lc1, fl0, sl0, ex1, is_lfe, g);
        let end1 = if bndend < 22 { bndend } else { 22 };
        let (fl3, sl3, ex3) = mid_loop(b, begin, end1, lc2, fl2, sl2, ex2, is_lfe, g);
        tail_loop(b, 22, bndend, fl3, sl3, ex3, g)
    } else {
        tail_loop(b, bndstrt, bndend, fl0, sl0, zero, g)
    }
}

/// Values within the bounds that the excitation keeps.
pub open spec fn in_range(x: int) -> bool {
    -0x200_0000 <= x <= 0x200_0000
}

/// Compute the excitation.
fn excitation(b: &[i32; 50], bndstrt: usize, bndend: usize, fgain: i32, sgain: i32, fdecay: i32, sdecay: i32,
    cplleak: Option<(u8, u8)>) -> (r: [i32; 50])
    requires
        bndstrt < bndend <= 50,
        forall|k: int| 0 <= k < 50 ==> -29568 <= #[trigger] b@[k] <= 0x100_0000,
        0 <= fgain <= 1024,
        0 <= sgain <= 1344,
        0 <= fdecay <= 123,
        0 <= sdecay <= 21,
    ensures
        ints(r) == excite_spec(ints(*b), bndstrt as int, bndend as int,
            Leaks { fgain: fgain as int, sgain: sgain as int, fdecay: fdecay as int, sdecay: sdecay as int }, cplleak),
        forall|k: int| 0 <= k < 50 ==> in_range(#[trigger] r@[k] as int),
{
    let ghost bs = ints(*b);
    let ghost g = Leaks { fgain: fgain as int, sgain: sgain as int, fdecay: fdecay as int, sdecay: sdecay as int };
    let mut excite = [0i32; 50];
    assert(ints(excite) =~= Seq::new(50, |i: int| 0int));
    let (mut fastleak, mut slowleak): (i32, i32) = match cplleak {
        Some((f, s)) => ((f as i32) * 256 + 768, (s as i32) * 256 + 768),
        None => (0, 0),
    };
    let mut begin: usize;
    if bndstrt == 0 {
        let is_lfe = bndend == 7;
        let mut lowcomp: i32 = calc_lowcomp(0, b[0], b[1], 0);
        excite[0] = b[0] - fgain - lowcomp;
        lowcomp = calc_lowcomp(lowcomp, b[1], b[2], 1);
        excite[1] = b[1] - fgain - lowcomp;
        let ghost ex1 = ints(excite);
        proof {
            assert(ex1 =~= Seq::new(50, |i: int| 0int).update(0, bs[0] - g.fgain - lowcomp_spec(0, bs[0], bs[1], 0)).update(1, bs[1] - g.fgain - lowcomp as int));
        }
        let ghost lc1 = lowcomp as int;
        let ghost fl0 = fastleak as int;
        let ghost sl0 = slowleak as int;
        begin = 7;
        let mut bin: usize = 2;
        let mut stop = false;
        while bin < 7 && !stop
            invariant
                2 <= bin <= 7,
                bs == ints(*b),
                forall|k: int| 0 <= k < 50 ==> -29568 <= #[trigger] b@[k] <= 0x100_0000,
                0 <= fgain <= 1024,
                0 <= sgain <= 1344,
                0 <= lowcomp <= 384,
                g == (Leaks { fgain: fgain as int, sgain: sgain as int, fdecay: fdecay as int, sdecay: sdecay as int }),
                in_range(fastleak as int),
                in_range(slowleak as int),
                forall|k: int| 0 <= k < 50 ==> in_range(#[trigger] excite@[k] as int),
                is_lfe == (bndend == 7),
                early_loop(bs, 2, lc1, fl0, sl0, ex1, is_lfe, g) == (if stop {
                    (lowcomp as int, fastleak as int, slowleak as int, ints(excite), begin as int)
                } else {
                    early_loop(bs, bin as int, lowcomp as int, fastleak as int, slowleak as int, ints(excite), is_lfe, g)
                }),
                !stop ==> begin == 7,
                begin <= 7,
            decreases 7 - bin + (if stop { 0int } else { 1int }),
        {
            let ghost before = ints(excite);
            assert(bs[bin as int] == b@[bin as int] as int && bs[bin + 1] == b@[bin + 1] as int);
            if !is_lfe || bin != 6 {
                lowcomp = calc_lowcomp(lowcomp, b[bin], b[bin + 1], bin);
            }
            fastleak = b[bin] - fgain;
            slowleak = b[bin] - sgain;
            excite[bin] = fastleak - lowcomp;
            assert(ints(excite) =~= before.update(bin as int, fastleak - lowcomp));
            if (!is_lfe || bin != 6) && b[bin] <= b[bin + 1] {
                begin = bin + 1;
                stop = true;
            } else {
                bin = bin + 1;
            }
        }
        let end1: usize = if bndend < 22 { bndend } else { 22 };
        let ghost lc2 = lowcomp as int;
        let ghost fl2 = fastleak as int;
        let ghost sl2 = slowleak as int;
        let ghost ex2 = ints(excite);
        let ghost bg = begin as int;
        let mut bin: usize = begin;
        while bin < end1
            invariant
                bg <= bin,
                end1 <= 22,
                bs == ints(*b),
                forall|k: int| 0 <= k < 50 ==> -29568 <= #[trigger] b@[k] <= 0x100_0000,
                0 <= fgain <= 1024,
                0 <= sgain <= 1344,
                0 <= fdecay <= 123,
                0 <= sdecay <= 21,
                0 <= lowcomp <= 384,
                g == (Leaks { fgain: fgain as int, sgain: sgain as int, fdecay: fdecay as int, sdecay: sdecay as int }),
                in_range(fastleak as int),
                in_range(slowleak as int),
                forall|k: int| 0 <= k < 50 ==> in_range(#[trigger] excite@[k] as int),
                mid_loop(bs, bg, end1 as int, lc2, fl2, sl2, ex2, is_lfe, g)
                    == mid_loop(bs, bin as int, end1 as int, lowcomp as int, fastleak as int, slowleak as int, ints(excite), is_lfe, g),
            decreases end1 - bin,
        {
            let ghost before = ints(excite);
            assert(bs[bin as int] == b@[bin as int] as int && bs[bin + 1] == b@[bin + 1] as int);
            if !is_lfe || bin != 6 {
                lowcomp = calc_lowcomp(lowcomp, b[bin], b[bin + 1], bin);
            }
            let f1 = fastleak - fdecay;
            let f2 = b[bin] - fgain;
            fastleak = if f1 >= f2 { f1 } else { f2 };
            let s1 = slowleak - sdecay;
            let s2 = b[bin] - sgain;
            slowleak = if s1 >= s2 { s1 } else { s2 };
            let e1 = fastleak - lowcomp;
            excite[bin] = if e1 >= slowleak { e1 } else { slowleak };
            assert(ints(excite) =~= before.update(bin as int, imax(fastleak - lowcomp, slowleak as int)));
            bin = bin + 1;
        }
        begin = 22;
    } else {
        begin = bndstrt;
    }
    let ghost fl3 = fastleak as int;
    let ghost sl3 = slowleak as int;
    let ghost ex3 = ints(excite);
    let ghost bg = begin as int;
    let mut bin: usize = begin;
    while bin < bndend
        invariant
            bg <= bin,
            bndend <= 50,
            bs == ints(*b),
            forall|k: int| 0 <= k < 50 ==> -29568 <= #[trigger] b@[k] <= 0x100_0000,
            0 <= fgain <= 1024,
            0 <= sgain <= 1344,
            0 <= fdecay <= 123,
            0 <= sdecay <= 21,
            g == (Leaks { fgain: fgain as int, sgain: sgain as int, fdecay: fdecay as int, sdecay: sdecay as int }),
            in_range(fastleak as int),
            in_range(slowleak as int),
            forall|k: int| 0 <= k < 50 ==> in_range(#[trigger] excite@[k] as int),
            tail_loop(bs, bg, bndend as int, fl3, sl3, ex3, g)
                == tail_loop(bs, bin as int, bndend as int, fastleak as int, slowleak as int, ints(excite), g),
        decreases bndend - bin,
    {
        let ghost before = ints(excite);
        assert(bs[bin as int] == b@[bin as int] as int);
        let f1 = fastleak - fdecay;
        let f2 = b[bin] - fgain;
        fastleak = if f1 >= f2 { f1 } else { f2 };
        let s1 = slowleak - sdecay;
        let s2 = b[bin] - sgain;
        slowleak = if s1 >= s2 { s1 } else { s2 };
        excite[bin] = if fastleak >= slowleak { fastleak } else { slowleak };
        assert(ints(excite) =~= before.update(bin as int, imax(fastleak as int, slowleak as int)));
        bin = bin + 1;
    }
    excite
}

/// The masking curve of bands `bndstrt..bndend`: the excitation raised by
/// a quarter of the power's distance below `dbknee`, and at least the
/// hearing threshold.
pub open spec fn mask_spec(ex: Seq<int>, b: Seq<int>, bndstrt: int, bndend: int, dbknee: int, fscod: int) -> Seq<int> {
    Seq::new(50, |bin: int| if bndstrt <= bin < bndend {
        imax(if b[bin] < dbknee { ex[bin] + (dbknee - b[bin]) / 4 } else { ex[bin] }, HTH[fscod][bin] as int)
    } else {
        0
    })
}

/// The mask change of a delta bit allocation value.
pub open spec fn delta_of(v: u8) -> int {
    if v >= 4 { (v - 3) * 128 } else { (v - 4) * 128 }
}

/// Adding `delta` to the mask of `cnt` bands from `band` (bands from
/// `bndend` on are skipped); the mask and the band after.
pub open spec fn len_loop(mask: Seq<int>, band: int, cnt: int, delta: int, bndend: int) -> (Seq<int>, int)
    decreases cnt,
{
    if cnt <= 0 {
        (mask, band)
    } else {
        let m2 = if band < bndend { mask.update(band, mask[band] + delta) } else { mask };
        len_loop(m2, band + 1, cnt - 1, delta, bndend)
    }
}

/// Applying delta bit allocation segments `i..` from band `band`: each
/// segment moves `deltoffst` bands on, then changes `deltlen` bands.
pub open spec fn seg_loop(segs: Seq<(u8, u8, u8)>, i: int, band: int, mask: Seq<int>, bndend: int) -> Seq<int>
    decreases segs.len() - i,
{
    if i < 0 || i >= segs.len() {
        mask
    } else {
        let (o, l, v) = segs[i];
        let (m2, band2) = len_loop(mask, band + o, l as int, delta_of(v), bndend);
        seg_loop(segs, i + 1, band2, m2, bndend)
    }
}

/// The masking level of a band: mask less the SNR offset and floor (at
/// least 0), rounded down to a multiple of 32 below 8192, plus the floor.
pub open spec fn mask_level(mask_j: int, snroffset: int, floor: int) -> int {
    (((imax(mask_j - snroffset - floor, 0)) as i32) & 0x1FE0i32) + floor
}

/// The pointer table address of a density against a masking level:
/// their difference divided by 32, clamped to `0..=63`.
pub open spec fn bap_address(psd: int, m: int) -> int {
    let d = psd - m;
    if d < 0 { 0 } else if d / 32 > 63 { 63 } else { d / 32 }
}

/// Looking up the pointers of bins `i..`, band `j` on: each bin's pointer
/// is the table entry for its density against its band's masking level.
pub open spec fn bap_loop(psd: Seq<int>, mask: Seq<int>, start: int, end: int, j: int, i: int, bap: Seq<u8>,
    snroffset: int, floor: int) -> Seq<u8>
    decreases 50 - j,
{
    if j < 0 || j >= 50 {
        bap
    } else {
        let lastbin = if BNDTAB[j] + BNDSZ[j] < end { BNDTAB[j] + BNDSZ[j] } else { end };
        let m = mask_level(mask[j], snroffset, floor);
        let bap2 = Seq::new(bap.len(), |x: int| if i <= x + start < lastbin {
            BAPTAB[bap_address(psd[x + start], m)]
        } else {
            bap[x]
        });
        if end <= lastbin {
            bap2
        } else {
            bap_loop(psd, mask, start, end, j + 1, if i < lastbin { lastbin as int } else { i }, bap2, snroffset, floor)
        }
    }
}

/// Compute the masking curve.
fn masking(ex: &[i32; 50], b: &[i32; 50], bndstrt: usize, bndend: usize, dbknee: i32, fscod: usize) -> (r: [i32; 50])
    requires
        bndstrt < bndend <= 50,
        fscod < 3,
        0 <= dbknee <= 2816,
        forall|k: int| 0 <= k < 50 ==> -29568 <= #[trigger] b@[k] <= 0x100_0000,
        forall|k: int| 0 <= k < 50 ==> in_range(#[trigger] ex@[k] as int),
    ensures
        ints(r) == mask_spec(ints(*ex), ints(*b), bndstrt as int, bndend as int, dbknee as int, fscod as int),
        forall|k: int| 0 <= k < 50 ==> 0 <= #[trigger] r@[k] <= 0x200_0000 + 9000,
{
    proof {
        lemma_tables();
    }
    let mut mask = [0i32; 50];
    let mut bin: usize = bndstrt;
    while bin < bndend
        invariant
            bndstrt <= bin <= bndend <= 50,
            fscod < 3,
            0 <= dbknee <= 2816,
            forall|k: int| 0 <= k < 50 ==> -29568 <= #[trigger] b@[k] <= 0x100_0000,
            forall|k: int| 0 <= k < 50 ==> in_range(#[trigger] ex@[k] as int),
            forall|f: int, k: int| 0 <= f < 3 && 0 <= k < 50 ==> 0 <= #[trigger] HTH[f][k] <= 0x0840,
            forall|k: int| 0 <= k < 50 ==> 0 <= #[trigger] mask@[k] <= 0x200_0000 + 9000,
            forall|k: int| 0 <= k < 50 ==> #[trigger] mask@[k] as int == (if bndstrt <= k < bin {
                mask_spec(ints(*ex), ints(*b), bndstrt as int, bndend as int, dbknee as int, fscod as int)[k]
            } else {
                0
            }),
        decreases bndend - bin,
    {
        let e = if b[bin] < dbknee { ex[bin] + (dbknee - b[bin]) / 4 } else { ex[bin] };
        let h = HTH[fscod][bin] as i32;
        assert(0 <= HTH[fscod as int][bin as int] <= 0x0840);
        mask[bin] = if e >= h { e } else { h };
        bin = bin + 1;
    }
    assert(ints(mask) =~= mask_spec(ints(*ex), ints(*b), bndstrt as int, bndend as int, dbknee as int, fscod as int));
    mask
}

/// Each band starts where the one before it ends.
proof fn lemma_bnd_step()
    ensures
        forall|k: int| 0 <= k < 49 ==> #[trigger] BNDTAB[k] + BNDSZ[k] == BNDTAB[k + 1],
{
    assert(forall|k: int| 0 <= k < 49 ==> #[trigger] BNDTAB[k] + BNDSZ[k] == BNDTAB[k + 1]);
}

/// Band starts grow with the band.
#[verifier::rlimit(60)]
proof fn lemma_bndtab_monotone(a: int, b: int)
    requires
        0 <= a < b < 50,
    ensures
        BNDTAB[a] + BNDSZ[a] <= BNDTAB[b],
    decreases b - a,
{
    lemma_bnd_step();
    assert(BNDTAB[b - 1] + BNDSZ[b - 1] == BNDTAB[b]);
    if a < b - 1 {
        lemma_bndtab_monotone(a, b - 1);
    }
}

/// Each bin below 253 lies in the band that the mask table gives it.
proof fn lemma_masktab_bounds()
    ensures
        forall|b: int| 0 <= b < 253 ==> #[trigger] MASKTAB[b] < 50 && BNDTAB[MASKTAB[b] as int] <= b < BNDTAB[MASKTAB[b] as int] + BNDSZ[MASKTAB[b] as int],
{
    assert(forall|b: int| 0 <= b < 253 ==> #[trigger] MASKTAB[b] < 50 && BNDTAB[MASKTAB[b] as int] <= b < BNDTAB[MASKTAB[b] as int] + BNDSZ[MASKTAB[b] as int]);
}

/// The band of a bin does not decrease with the bin.
proof fn lemma_masktab_monotone(a: int, b: int)
    requires
        0 <= a <= b < 253,
    ensures
        MASKTAB[a] <= MASKTAB[b],
    decreases b - a,
{
    if a < b {
        lemma_masktab_bounds();
        lemma_masktab_monotone(a, b - 1);
        assert(BNDTAB[MASKTAB[b - 1] as int] <= b - 1);
        assert(BNDTAB[MASKTAB[b] as int] <= b);
        if MASKTAB[b] < MASKTAB[b - 1] {
            lemma_bndtab_monotone(MASKTAB[b] as int, MASKTAB[b - 1] as int);
        }
    }
}

/// Past `bndend` a run of delta bands changes nothing, and it ends
/// `cnt` bands on.
proof fn lemma_len_loop(mask: Seq<int>, band: int, cnt: int, delta: int, bndend: int)
    ensures
        len_loop(mask, band, cnt, delta, bndend).1 == band + (if cnt > 0 { cnt } else { 0 }),
        band >= bndend ==> len_loop(mask, band, cnt, delta, bndend).0 == mask,
    decreases cnt,
{
    if cnt > 0 {
        let m2 = if band < bndend { mask.update(band, mask[band] + delta) } else { mask };
        lemma_len_loop(m2, band + 1, cnt - 1, delta, bndend);
    }
}

/// Segments that start past `bndend` change nothing.
proof fn lemma_seg_loop_past(segs: Seq<(u8, u8, u8)>, i: int, band: int, mask: Seq<int>, bndend: int)
    requires
        0 <= i,
        band >= bndend,
    ensures
        seg_loop(segs, i, band, mask, bndend) == mask,
    decreases segs.len() - i,
{
    if i < segs.len() {
        let (o, l, v) = segs[i];
        lemma_len_loop(mask, band + o, l as int, delta_of(v), bndend);
        let (m2, band2) = len_loop(mask, band + o, l as int, delta_of(v), bndend);
        lemma_seg_loop_past(segs, i + 1, band2, m2, bndend);
    }
}

/// Apply the delta bit allocation segments to the mask. The band only
/// moves forward, so each band changes at most once.
fn apply_deltba(mask: &mut [i32; 50], segs: &[(u8, u8, u8)], bndend: usize)
    requires
        bndend <= 50,
        forall|k: int| 0 <= k < 50 ==> 0 <= #[trigger] old(mask)@[k] <= 0x200_0000 + 9000,
    ensures
        ints(*final(mask)) == seg_loop(segs@, 0, 0, ints(*old(mask)), bndend as int),
        forall|k: int| 0 <= k < 50 ==> -512 <= #[trigger] final(mask)@[k] <= 0x200_0000 + 9000 + 32256,
{
    let ghost m0 = ints(*mask);
    let mut band: usize = 0;
    let mut si: usize = 0;
    while si < segs.len() && band < bndend
        invariant
            si <= segs@.len(),
            bndend <= 50,
            m0.len() == 50,
            forall|k: int| 0 <= k < 50 ==> 0 <= #[trigger] m0[k] <= 0x200_0000 + 9000,
            forall|k: int| 0 <= k < 50 ==> m0[k] - 512 <= #[trigger] mask@[k] <= m0[k] + 32256,
            forall|k: int| band <= k < 50 ==> #[trigger] mask@[k] == m0[k],
            seg_loop(segs@, 0, 0, m0, bndend as int) == seg_loop(segs@, si as int, band as int, ints(*mask), bndend as int),
        decreases segs@.len() - si,
    {
        let (o, l, v) = segs[si];
        let ghost b_in = band as int;
        band = band + o as usize;
        let delta: i32 = if v >= 4 { (v as i32 - 3) * 128 } else { (v as i32 - 4) * 128 };
        assert(delta as int == delta_of(v));
        let ghost ms = ints(*mask);
        let ghost bs = band as int;
        let mut c: u8 = 0;
        while c < l
            invariant
                c <= l,
                bndend <= 50,
                band == bs + c,
                b_in <= bs < 50 + 255,
                -512 <= delta <= 32256,
                ms.len() == 50,
                m0.len() == 50,
                forall|k: int| 0 <= k < 50 ==> #[trigger] mask@[k] as int == ms[k] + (if bs <= k < band && k < bndend { delta as int } else { 0 }),
                forall|k: int| 0 <= k < 50 ==> m0[k] - 512 <= #[trigger] ms[k] <= m0[k] + 32256,
                forall|k: int| b_in <= k < 50 ==> #[trigger] ms[k] == m0[k],
                forall|k: int| 0 <= k < 50 ==> 0 <= #[trigger] m0[k] <= 0x200_0000 + 9000,
                len_loop(ms, bs, l as int, delta as int, bndend as int) == len_loop(ints(*mask), band as int, (l - c) as int, delta as int, bndend as int),
            decreases l - c,
        {
            let ghost before = ints(*mask);
            if band < bndend {
                assert(mask@[band as int] as int == ms[band as int]);
                assert(ms[band as int] == m0[band as int]);
                assert(0 <= m0[band as int] <= 0x200_0000 + 9000);
                mask[band] = mask[band] + delta;
                assert(ints(*mask) =~= before.update(band as int, before[band as int] + delta));
            }
            band = band + 1;
            c = c + 1;
        }
        proof {
            assert(segs@[si as int] == (o, l, v));
            assert forall|k: int| band <= k < 50 implies #[trigger] mask@[k] == m0[k] by {
                assert(mask@[k] as int == ms[k]);
            }
        }
        si = si + 1;
    }
    proof {
        if band >= bndend {
            lemma_seg_loop_past(segs@, si as int, band as int, ints(*mask), bndend as int);
        }
    }
}

/// Look up the pointers of bins `start..end`.
fn bap_lookup(psd: &[i32; 256], mask: &[i32; 50], start: usize, end: usize, snroffset: i32, floor: i32, mb: i32) -> (r: Vec<u8>)
    requires
        start < end <= 253,
        forall|i: int| 0 <= i < 256 ==> -29568 <= #[trigger] psd@[i] <= 3072,
        0 <= mb <= 0x7800_0000,
        forall|k: int| 0 <= k < 50 ==> -mb <= #[trigger] mask@[k] <= mb,
        -960 <= snroffset <= 16380,
        -2048 <= floor <= 752,
    ensures
        r@ == bap_loop(ints(*psd), ints(*mask), start as int, end as int, MASKTAB[start as int] as int, start as int,
            Seq::new((end - start) as nat, |x: int| 0u8), snroffset as int, floor as int),
{
    proof {
        lemma_tables();
    }
    let ghost ps = ints(*psd);
    let ghost ms = ints(*mask);
    let nbins = end - start;
    let mut bap: Vec<u8> = Vec::new();
    while bap.len() < nbins
        invariant
            bap@.len() <= nbins,
            forall|x: int| 0 <= x < bap@.len() ==> #[trigger] bap@[x] == 0u8,
        decreases nbins - bap@.len(),
    {
        bap.push(0);
    }
    assert(bap@ =~= Seq::new((end - start) as nat, |x: int| 0u8));
    let mut i: usize = start;
    let mut j: usize = MASKTAB[start] as usize;
    loop
        invariant
            j < 50,
            start <= i < end <= 253,
            nbins == end - start,
            BNDTAB[j as int] <= i < BNDTAB[j as int] + BNDSZ[j as int],
            ps == ints(*psd),
            ms == ints(*mask),
            forall|x: int| 0 <= x < 256 ==> -29568 <= #[trigger] psd@[x] <= 3072,
            forall|k: int| 0 <= k < 50 ==> -mb <= #[trigger] mask@[k] <= mb,
            0 <= mb <= 0x7800_0000,
            -960 <= snroffset <= 16380,
            -2048 <= floor <= 752,
            bap@.len() == nbins,
            bap_loop(ps, ms, start as int, end as int, MASKTAB[start as int] as int, start as int,
                Seq::new((end - start) as nat, |x: int| 0u8), snroffset as int, floor as int)
                == bap_loop(ps, ms, start as int, end as int, j as int, i as int, bap@, snroffset as int, floor as int),
            forall|kk: int| 0 <= kk < 50 ==> 1 <= #[trigger] BNDSZ[kk] <= 24 && BNDTAB[kk] + BNDSZ[kk] <= 253,
            BNDTAB[49] + BNDSZ[49] == 253,
            forall|kk: int| 0 <= kk < 49 ==> #[trigger] BNDTAB[kk] + BNDSZ[kk] == BNDTAB[kk + 1],
            forall|x: int| 0 <= x < 64 ==> #[trigger] BAPTAB[x] <= 15,
        decreases 50 - j,
    {
        let ghost b0 = bap@;
        let ghost i0 = i as int;
        let lastbin: usize = if BNDTAB[j] + BNDSZ[j] < end { BNDTAB[j] + BNDSZ[j] } else { end };
        let mut m = mask[j] - snroffset - floor;
        if m < 0 {
            m = 0;
        }
        let mm = m;
        assert(0 <= (mm & 0x1FE0i32) <= 0x1FE0) by (bit_vector)
            requires mm >= 0i32;
        m = (m & 0x1FE0) + floor;
        assert(m as int == mask_level(ms[j as int], snroffset as int, floor as int));
        let ghost target = Seq::new(b0.len(), |x: int| if i0 <= x + start < lastbin {
            BAPTAB[bap_address(ps[x + start], m as int)]
        } else {
            b0[x]
        });
        while i < lastbin
            invariant
                i0 <= i <= lastbin <= end <= 253,
                start <= i0,
                nbins == end - start,
                bap@.len() == nbins,
                b0.len() == nbins,
                ps == ints(*psd),
                forall|x: int| 0 <= x < 256 ==> -29568 <= #[trigger] psd@[x] <= 3072,
                -2048 <= m <= 0x1FE0 + 752,
                forall|x: int| 0 <= x < 64 ==> #[trigger] BAPTAB[x] <= 15,
                forall|x: int| 0 <= x < nbins ==> #[trigger] bap@[x] == (if i0 <= x + start < i {
                    BAPTAB[bap_address(ps[x + start], m as int)]
                } else {
                    b0[x]
                }),
            decreases lastbin - i,
        {
            let d = psd[i] - m;
            let address: usize = if d < 0 { 0 } else if d / 32 > 63 { 63 } else { (d / 32) as usize };
            assert(address as int == bap_address(ps[i as int], m as int));
            bap.set(i - start, BAPTAB[address]);
            i = i + 1;
        }
        assert(bap@ =~= target);
        if end <= lastbin {
            return bap;
        }
        j = j + 1;
    }
}

/// Looking up pointers keeps the length, and every pointer is at most 15.
proof fn bap_loop_bounded(psd: Seq<int>, mask: Seq<int>, start: int, end: int, j: int, i: int, bap: Seq<u8>,
    snroffset: int, floor: int)
    requires
        forall|x: int| 0 <= x < bap.len() ==> #[trigger] bap[x] <= 15,
    ensures
        bap_loop(psd, mask, start, end, j, i, bap, snroffset, floor).len() == bap.len(),
        forall|x: int| 0 <= x < bap.len() ==> #[trigger] bap_loop(psd, mask, start, end, j, i, bap, snroffset, floor)[x] <= 15,
    decreases 50 - j,
{
    lemma_baptab();
    if 0 <= j < 50 {
        let lastbin = if BNDTAB[j] + BNDSZ[j] < end { BNDTAB[j] + BNDSZ[j] } else { end };
        let m = mask_level(mask[j], snroffset, floor);
        let bap2 = Seq::new(bap.len(), |x: int| if i <= x + start < lastbin {
            BAPTAB[bap_address(psd[x + start], m)]
        } else {
            bap[x]
        });
        assert forall|x: int| 0 <= x < bap2.len() implies #[trigger] bap2[x] <= 15 by {
            if i <= x + start < lastbin {
                let a = bap_address(psd[x + start], m);
                assert(0 <= a < 64);
            }
        }
        if end > lastbin {
            bap_loop_bounded(psd, mask, start, end, j + 1, if i < lastbin { lastbin as int } else { i }, bap2, snroffset, floor);
        }
    }
}

/// Every pointer in the table is at most 15.
proof fn lemma_baptab()
    ensures
        forall|i: int| 0 <= i < 64 ==> #[trigger] BAPTAB[i] <= 15,
{
    assert(forall|i: int| 0 <= i < 64 ==> #[trigger] BAPTAB[i] <= 15);
}

/// Bit allocation parameters from the bitstream.
pub struct BapParams {
    /// Slow decay code.
    pub sdcycod: u8,
    /// Fast decay code.
    pub fdcycod: u8,
    /// Slow gain code.
    pub sgaincod: u8,
    /// dB per bit code.
    pub dbpbcod: u8,
    /// Floor code.
    pub floorcod: u8,
    /// Fast gain code.
    pub fgaincod: u8,
    /// Coarse SNR offset.
    pub csnroffst: u8,
    /// Fine SNR offset.
    pub fsnroffst: u8,
    /// Sample rate code.
    pub fscod: u8,
}

impl BapParams {
    /// Each code indexes its table.
    pub open spec fn codes_valid(&self) -> bool {
        &&& self.sdcycod < 4
        &&& self.fdcycod < 4
        &&& self.sgaincod < 4
        &&& self.dbpbcod < 4
        &&& self.floorcod < 8
        &&& self.fgaincod < 8
        &&& self.fscod < 3
    }

    /// The SNR offset: `((csnroffst - 15) * 16 + fsnroffst) * 4`.
    pub open spec fn snroffset(&self) -> int {
        ((self.csnroffst - 15) * 16 + self.fsnroffst) * 4
    }

    /// The gains and decays that the codes select.
    pub open spec fn leaks(&self) -> Leaks {
        Leaks {
            fgain: FASTGAIN[self.fgaincod as int] as int,
            sgain: SLOWGAIN[self.sgaincod as int] as int,
            fdecay: FASTDEC[self.fdcycod as int] as int,
            sdecay: SLOWDEC[self.sdcycod as int] as int,
        }
    }
}

/// The band of a bin.
pub fn masktab(bin: usize) -> (r: usize)
    requires
        bin < 256,
    ensures
        r == MASKTAB[bin as int],
{
    MASKTAB[bin] as usize
}

/// The bit allocation pointers of bins `start..end`: none for an empty
/// range, all 0 past bin 256; otherwise the densities of the exponents,
/// integrated into bands, spread into an excitation, turned into a
/// masking curve (changed by the delta segments where there are any), and
/// each bin's pointer looked up against its band's masking level.
pub open spec fn compute_bap_spec(exps: Seq<u8>, start: int, end: int, params: BapParams,
    deltba: Option<Seq<(u8, u8, u8)>>, cplleak: Option<(u8, u8)>) -> Seq<u8> {
    let nbins = end - start;
    if nbins == 0 || end > 256 {
        Seq::new(nbins as nat, |i: int| 0u8)
    } else {
        let psd = psd_spec(exps, start, end);
        let bndstrt = MASKTAB[start] as int;
        let bndend = MASKTAB[end - 1] + 1;
        let b = bnd_loop(psd, end, bndstrt, start, Seq::new(50, |i: int| 0int));
        let ex = excite_spec(b, bndstrt, bndend, params.leaks(), cplleak);
        let m = mask_spec(ex, b, bndstrt, bndend, DBPBTAB[params.dbpbcod as int] as int, params.fscod as int);
        let m2 = match deltba {
            Some(segs) => seg_loop(segs, 0, 0, m, bndend),
            None => m,
        };
        bap_loop(psd, m2, start, end, bndstrt, start, Seq::new(nbins as nat, |i: int| 0u8),
            params.snroffset(), FLOORTAB[params.floorcod as int] as int)
    }
}

/// Compute the bit allocation pointers (`bap[]`) of bins `start..end`.
pub fn compute_bap(
    exps: &[u8],
    start: usize,
    end: usize,
    params: &BapParams,
    deltba: Option<&[(u8, u8, u8)]>,
    cplleak: Option<(u8, u8)>,
) -> (r: Vec<u8>)
    requires
        start <= end,
        start < end <= 256 ==> end <= 253 && end - start <= exps@.len() && params.codes_valid(),
    ensures
        r@ == compute_bap_spec(exps@, start as int, end as int, *params,
            match deltba { Some(s) => Some(s@), None => None }, cplleak),
        r@.len() == end - start,
        forall|i: int| 0 <= i < r@.len() ==> #[trigger] r@[i] <= 15,
{
    let nbins = end - start;
    if nbins == 0 || end > 256 {
        let mut z: Vec<u8> = Vec::new();
        while z.len() < nbins
            invariant
                z@.len() <= nbins,
                forall|x: int| 0 <= x < z@.len() ==> #[trigger] z@[x] == 0u8,
            decreases nbins - z@.len(),
        {
            z.push(0);
        }
        assert(z@ =~= Seq::new(nbins as nat, |i: int| 0u8));
        return z;
    }
    proof {
        lemma_tables();
        lemma_masktab_monotone(start as int, end - 1);
        lemma_masktab_bounds();
    }
    let sdecay = SLOWDEC[params.sdcycod as usize] as i32;
    let fdecay = FASTDEC[params.fdcycod as usize] as i32;
    let sgain = SLOWGAIN[params.sgaincod as usize] as i32;
    let dbknee = DBPBTAB[params.dbpbcod as usize] as i32;
    let floor = FLOORTAB[params.floorcod as usize] as i32;
    let fgain = FASTGAIN[params.fgaincod as usize] as i32;
    let snroffset = (((params.csnroffst as i32 - 15) * 16) + params.fsnroffst as i32) * 4;

    let psd = psd_array(exps, start, nbins);
    let bndstrt = masktab(start);
    let bndend = masktab(end - 1) + 1;
    let bndpsd = band_power(&psd, start, end);
    let excite = excitation(&bndpsd, bndstrt, bndend, fgain, sgain, fdecay, sdecay, cplleak);
    let mut mask = masking(&excite, &bndpsd, bndstrt, bndend, dbknee, params.fscod as usize);
    match deltba {
        Some(segs) => apply_deltba(&mut mask, segs, bndend),
        None => {},
    }
    let bap = bap_lookup(&psd, &mask, start, end, snroffset, floor, 0x200_0000 + 9000 + 32256);
    proof {
        bap_loop_bounded(ints(psd), ints(mask), start as int, end as int, bndstrt as int, start as int,
            Seq::new(nbins as nat, |i: int| 0u8), snroffset as int, floor as int);
    }
    bap
}

} // verus!
