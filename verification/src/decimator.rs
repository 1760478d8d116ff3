//! Integer core of the byte-precalc decimator: the ring of recent DSD bytes,
//! the output boundaries, and which bytes index which precomputed table.
//!
//! A filter given by its right-half taps is cut into 8-tap tables; each output
//! sums, per table `i`, the entry for the byte `i` places back from the newest
//! byte and the entry for the bit-reversed byte `span - i` places back (the
//! mirrored half of the linear-phase filter).
use vstd::arithmetic::power2::{pow2, lemma_pow2_unfold, lemma_pow2_pos};
use vstd::arithmetic::div_mod::lemma_fundamental_div_mod_converse;
use vstd::prelude::*;
use crate::bits::{reverse_bits, reversed_byte};
use crate::buffer::FilterType;

verus! {

/// The value every history slot holds before any byte has been pushed: the
/// DSD idle pattern.
pub const DSD_SILENCE: u8 = 0x69u8;

/// `b`, bit-reversed when `rev` holds.
pub open spec fn maybe_reversed(b: u8, rev: bool) -> u8 {
    if rev {
        reversed_byte(b)
    } else {
        b
    }
}

/// A reversed byte has its bits in mirror order; an unreversed one is the
/// byte itself.
pub proof fn lemma_maybe_reversed(b: u8, rev: bool)
    ensures
        rev ==> crate::bits::is_bit_reversal(maybe_reversed(b, rev), b),
        !rev ==> maybe_reversed(b, rev) == b,
{
    crate::bits::lemma_reversed_byte(b);
}

/// How many of the indices `start, start + stride, start + 2 * stride, ...`
/// lie below `len`.
pub open spec fn strided_len(len: int, start: int, stride: int) -> nat
    decreases len - start,
{
    if stride <= 0 || start >= len {
        0
    } else if start + stride >= len {
        1
    } else {
        1 + strided_len(len, start + stride, stride)
    }
}

/// The bytes `src[start]`, `src[start + stride]`, ... (one channel of an
/// interleaved stream), each bit-reversed when `rev` holds.
pub open spec fn strided(src: Seq<u8>, start: int, stride: int, rev: bool) -> Seq<u8> {
    Seq::new(
        strided_len(src.len() as int, start, stride),
        |m: int| maybe_reversed(src[start + m * stride], rev),
    )
}

/// The number of output boundaries after which a call stops reading input:
/// it stops once it has filled `out_len` outputs, and at the first boundary
/// when it has room for none.
pub open spec fn stop_frames(out_len: nat) -> nat {
    if out_len == 0 {
        1
    } else {
        out_len
    }
}

/// How many of `n` offered bytes a call pushes into the history, with one
/// output every `bpo` bytes and room for `out_len` outputs.
pub open spec fn consumed_count(n: nat, bpo: nat, out_len: nat) -> nat {
    if bpo == 0 {
        0
    } else if n / bpo >= stop_frames(out_len) {
        stop_frames(out_len) * bpo
    } else {
        n
    }
}

/// How many outputs a call produces from `n` offered bytes.
pub open spec fn produced_count(n: nat, bpo: nat, out_len: nat) -> nat {
    if bpo == 0 {
        0
    } else if n / bpo < out_len {
        n / bpo
    } else {
        out_len
    }
}

/// For a stream `s` whose newest byte sits at index `newest`: per table `i`,
/// the byte `i` places back and the bit-reversed byte `span - i` places back.
pub open spec fn lookups_at(s: Seq<u8>, newest: int, num_tables: nat, span: nat) -> Seq<(u8, u8)> {
    Seq::new(
        num_tables,
        |i: int| (s[newest - i], reversed_byte(s[newest - (span - i)])),
    )
}

/// The precomputed right-half filter tables a single-stage decimator can be
/// driven with, named by source design, DSD rate and decimation.
#[derive(Debug, Clone, Copy, PartialEq, Eq, Structural)]
pub enum PrecalcTaps {
    D2p,
    Xld,
    Xld16To1,
    Xld32To1,
    Dsd64Eq8To1,
    Dsd64Eq16To1,
    Dsd64Eq32To1,
    DdrEq8To1,
    DdrEq16To1,
    DdrEq32To1,
    DdrEq64To1,
    DdrCheb16To1,
    DdrCheb32To1,
    DdrCheb64To1,
    Dsd256Eq8To1,
    Dsd256Eq16To1,
    Dsd256Eq32To1,
    Dsd256Eq64To1,
    Dsd256Eq128To1,
    Dsd512Eq64To1,
}

/// Which table drives filter `filt` at DSD rate multiple `dsd_rate` with
/// integer decimation `decim`, if any.
pub open spec fn spec_precalc_taps(filt: FilterType, dsd_rate: int, decim: int) -> Option<PrecalcTaps> {
    if decim == 128 {
        if filt == FilterType::Equiripple && dsd_rate == 4 {
            Some(PrecalcTaps::Dsd256Eq128To1)
        } else {
            None
        }
    } else if decim == 8 {
        if dsd_rate == 1 {
            match filt {
                FilterType::Dsd2Pcm => Some(PrecalcTaps::D2p),
                FilterType::XLD => Some(PrecalcTaps::Xld),
                FilterType::Equiripple => Some(PrecalcTaps::Dsd64Eq8To1),
                _ => None,
            }
        } else if dsd_rate == 2 && filt == FilterType::Equiripple {
            Some(PrecalcTaps::DdrEq8To1)
        } else if dsd_rate == 4 && filt == FilterType::Equiripple {
            Some(PrecalcTaps::Dsd256Eq8To1)
        } else {
            None
        }
    } else if decim == 16 {
        match filt {
            FilterType::XLD => Some(PrecalcTaps::Xld16To1),
            FilterType::Equiripple => if dsd_rate == 1 {
                Some(PrecalcTaps::Dsd64Eq16To1)
            } else if dsd_rate == 2 {
                Some(PrecalcTaps::DdrEq16To1)
            } else if dsd_rate == 4 {
                Some(PrecalcTaps::Dsd256Eq16To1)
            } else {
                None
            },
            FilterType::Chebyshev => if dsd_rate == 2 {
                Some(PrecalcTaps::DdrCheb16To1)
            } else {
                None
            },
            _ => None,
        }
    } else if decim == 32 {
        match filt {
            FilterType::XLD => Some(PrecalcTaps::Xld32To1),
            FilterType::Equiripple => if dsd_rate == 1 {
                Some(PrecalcTaps::Dsd64Eq32To1)
            } else if dsd_rate == 4 {
                Some(PrecalcTaps::Dsd256Eq32To1)
            } else {
                Some(PrecalcTaps::DdrEq32To1)
            },
            FilterType::Chebyshev => Some(PrecalcTaps::DdrCheb32To1),
            _ => None,
        }
    } else if decim == 64 {
        match filt {
            FilterType::Equiripple => if dsd_rate == 4 {
                Some(PrecalcTaps::Dsd256Eq64To1)
            } else if dsd_rate == 8 {
                Some(PrecalcTaps::Dsd512Eq64To1)
            } else {
                Some(PrecalcTaps::DdrEq64To1)
            },
            FilterType::Chebyshev => Some(PrecalcTaps::DdrCheb64To1),
            _ => None,
        }
    } else {
        None
    }
}

/// The precomputed table for filter `filt` at DSD rate multiple `dsd_rate`
/// and decimation ratio `decim_ratio`; `None` when that combination needs
/// more than a single-stage table decimator.
pub fn select_precalc_taps(filt: FilterType, dsd_rate: i32, decim_ratio: i32) -> (r: Option<PrecalcTaps>)
    ensures
        r == spec_precalc_taps(filt, dsd_rate as int, decim_ratio as int),
{
    match decim_ratio {
        128 => {
            if filt == FilterType::Equiripple && dsd_rate == 4 {
                Some(PrecalcTaps::Dsd256Eq128To1)
            } else {
                None
            }
        },
        8 => {
            if dsd_rate == 1 {
                match filt {
                    FilterType::Dsd2Pcm => Some(PrecalcTaps::D2p),
                    FilterType::XLD => Some(PrecalcTaps::Xld),
                    FilterType::Equiripple => Some(PrecalcTaps::Dsd64Eq8To1),
                    _ => None,
                }
            } else if dsd_rate == 2 {
                match filt {
                    FilterType::Equiripple => Some(PrecalcTaps::DdrEq8To1),
                    _ => None,
                }
            } else if dsd_rate == 4 {
                match filt {
                    FilterType::Equiripple => Some(PrecalcTaps::Dsd256Eq8To1),
                    _ => None,
                }
            } else {
                None
            }
        },
        16 => match filt {
            FilterType::XLD => Some(PrecalcTaps::Xld16To1),
            FilterType::Equiripple => {
                if dsd_rate == 1 {
                    Some(PrecalcTaps::Dsd64Eq16To1)
                } else if dsd_rate == 2 {
                    Some(PrecalcTaps::DdrEq16To1)
                } else if dsd_rate == 4 {
                    Some(PrecalcTaps::Dsd256Eq16To1)
                } else {
                    None
                }
            },
            FilterType::Chebyshev => {
                if dsd_rate == 2 {
                    Some(PrecalcTaps::DdrCheb16To1)
                } else {
                    None
                }
            },
            _ => None,
        },
        32 => match filt {
            FilterType::XLD => Some(PrecalcTaps::Xld32To1),
            FilterType::Equiripple => {
                if dsd_rate == 1 {
                    Some(PrecalcTaps::Dsd64Eq32To1)
                } else if dsd_rate == 4 {
                    Some(PrecalcTaps::Dsd256Eq32To1)
                } else {
                    Some(PrecalcTaps::DdrEq32To1)
                }
            },
            FilterType::Chebyshev => Some(PrecalcTaps::DdrCheb32To1),
            _ => None,
        },
        64 => match filt {
            FilterType::Equiripple => {
                if dsd_rate == 4 {
                    Some(PrecalcTaps::Dsd256Eq64To1)
                } else if dsd_rate == 8 {
                    Some(PrecalcTaps::Dsd512Eq64To1)
                } else {
                    Some(PrecalcTaps::DdrEq64To1)
                }
            },
            FilterType::Chebyshev => Some(PrecalcTaps::DdrCheb64To1),
            _ => None,
        },
        _ => None,
    }
}

/// The decimation ratio a table is designed for, as its name says.
pub open spec fn table_decimation(t: PrecalcTaps) -> int {
    match t {
        PrecalcTaps::D2p => 8,
        PrecalcTaps::Xld => 8,
        PrecalcTaps::Xld16To1 => 16,
        PrecalcTaps::Xld32To1 => 32,
        PrecalcTaps::Dsd64Eq8To1 => 8,
        PrecalcTaps::Dsd64Eq16To1 => 16,
        PrecalcTaps::Dsd64Eq32To1 => 32,
        PrecalcTaps::DdrEq8To1 => 8,
        PrecalcTaps::DdrEq16To1 => 16,
        PrecalcTaps::DdrEq32To1 => 32,
        PrecalcTaps::DdrEq64To1 => 64,
        PrecalcTaps::DdrCheb16To1 => 16,
        PrecalcTaps::DdrCheb32To1 => 32,
        PrecalcTaps::DdrCheb64To1 => 64,
        PrecalcTaps::Dsd256Eq8To1 => 8,
        PrecalcTaps::Dsd256Eq16To1 => 16,
        PrecalcTaps::Dsd256Eq32To1 => 32,
        PrecalcTaps::Dsd256Eq64To1 => 64,
        PrecalcTaps::Dsd256Eq128To1 => 128,
        PrecalcTaps::Dsd512Eq64To1 => 64,
    }
}

/// The filter design a table belongs to, as its name says.
pub open spec fn table_filter(t: PrecalcTaps) -> FilterType {
    match t {
        PrecalcTaps::D2p => FilterType::Dsd2Pcm,
        PrecalcTaps::Xld | PrecalcTaps::Xld16To1 | PrecalcTaps::Xld32To1 => FilterType::XLD,
        PrecalcTaps::DdrCheb16To1 | PrecalcTaps::DdrCheb32To1 | PrecalcTaps::DdrCheb64To1 => {
            FilterType::Chebyshev
        },
        _ => FilterType::Equiripple,
    }
}

/// The DSD rate multiples a table serves: a table named for DSD64, DSD256 or
/// DSD512 serves only that rate; the DSD128 ("DDR") equiripple tables at
/// 32:1 and 64:1 also stand in for every rate without a dedicated table;
/// the XLD 16:1 and 32:1 and the Chebyshev 32:1 and 64:1 tables serve every
/// rate.
pub open spec fn table_serves_rate(t: PrecalcTaps, r: int) -> bool {
    match t {
        PrecalcTaps::D2p | PrecalcTaps::Xld => r == 1,
        PrecalcTaps::Dsd64Eq8To1 | PrecalcTaps::Dsd64Eq16To1 | PrecalcTaps::Dsd64Eq32To1 => r == 1,
        PrecalcTaps::DdrEq8To1 | PrecalcTaps::DdrEq16To1 | PrecalcTaps::DdrCheb16To1 => r == 2,
        PrecalcTaps::DdrEq32To1 => r != 1 && r != 4,
        PrecalcTaps::DdrEq64To1 => r != 4 && r != 8,
        PrecalcTaps::Dsd256Eq8To1 | PrecalcTaps::Dsd256Eq16To1 | PrecalcTaps::Dsd256Eq32To1
        | PrecalcTaps::Dsd256Eq64To1 | PrecalcTaps::Dsd256Eq128To1 => r == 4,
        PrecalcTaps::Dsd512Eq64To1 => r == 8,
        PrecalcTaps::Xld16To1 | PrecalcTaps::Xld32To1 | PrecalcTaps::DdrCheb32To1
        | PrecalcTaps::DdrCheb64To1 => true,
    }
}

/// The table chosen for a filter, DSD rate multiple and decimation is
/// exactly the table of that filter design and decimation that serves that
/// rate: in particular a rate with a dedicated table always gets it (DSD256
/// equiripple at 64:1 gets `Dsd256Eq64To1`), and at most one table fits.
pub proof fn lemma_precalc_table_characterized(filt: FilterType, dsd_rate: int, decim: int, t: PrecalcTaps)
    ensures
        spec_precalc_taps(filt, dsd_rate, decim) == Some(t) <==> (table_decimation(t) == decim
            && table_filter(t) == filt && table_serves_rate(t, dsd_rate)),
{
}

/// A table is only ever chosen for a decimation that is a whole number of
/// bytes, so the table decimator built for it always accepts it.
pub proof fn lemma_selected_decimation_is_whole_bytes(filt: FilterType, dsd_rate: int, decim: int)
    requires
        spec_precalc_taps(filt, dsd_rate, decim) is Some,
    ensures
        decim == 8 || decim == 16 || decim == 32 || decim == 64 || decim == 128,
        decim % 8 == 0,
        decim > 0,
{
}

/// The smallest power of two that is at least `n`, with its exponent.
pub open spec fn is_next_power_of_two(p: nat, n: nat) -> bool {
    &&& exists|k: nat| p == pow2(k)
    &&& n <= p
    &&& (p == 1 || p / 2 < n)
}

/// The smallest power of two that is at least `n` is unique.
pub proof fn lemma_next_power_unique(p: nat, q: nat, n: nat)
    requires
        is_next_power_of_two(p, n),
        is_next_power_of_two(q, n),
    ensures
        p == q,
{
    let i = choose|k: nat| p == pow2(k);
    let j = choose|k: nat| q == pow2(k);
    if i < j {
        lemma_doubling_below(i, j);
    } else if j < i {
        lemma_doubling_below(j, i);
    }
}

/// A larger power of two is at least twice a smaller one.
proof fn lemma_doubling_below(i: nat, j: nat)
    requires
        i < j,
    ensures
        pow2(j) >= 2 * pow2(i),
        pow2(j) != 1,
{
    vstd::arithmetic::power2::lemma_pow2_adds(i + 1, (j - i - 1) as nat);
    lemma_pow2_unfold(i + 1);
    lemma_pow2_pos((j - i - 1) as nat);
    lemma_pow2_pos(i);
    assert(pow2(i + 1) * pow2((j - i - 1) as nat) >= pow2(i + 1)) by (nonlinear_arith)
        requires
            pow2((j - i - 1) as nat) >= 1,
            pow2(i + 1) >= 0,
    ;
    assert((i + 1) + (j - i - 1) as nat == j);
}

/// The smallest power of two that is at least `n`.
pub fn next_power_of_two(n: usize) -> (p: usize)
    requires
        n <= usize::MAX / 2,
    ensures
        is_next_power_of_two(p as nat, n as nat),
{
    let mut p: usize = 1;
    let ghost mut k: nat = 0;
    proof {
        assert(pow2(0) == 1) by {
            vstd::arithmetic::power2::lemma2_to64();
        }
    }
    while p < n
        invariant
            n <= usize::MAX / 2,
            p == pow2(k),
            p >= 1,
            p == 1 || p / 2 < n,
            p <= 2 * n || p == 1,
        decreases 2 * n + 1 - p,
    {
        proof {
            lemma_pow2_unfold(k + 1);
        }
        p = p * 2;
        proof {
            k = k + 1;
        }
    }
    p
}

/// `x` reduced once into `0..len`.
pub open spec fn wrap(x: int, len: int) -> int {
    if x < len {
        x
    } else {
        x - len
    }
}

/// Integer state of a byte-precalc decimator: a ring holding the most recent
/// DSD bytes, how many tables the filter has, and how many bytes make one
/// output.
pub struct DecimatorState {
    num_tables: usize,
    bytes_per_out: u32,
    fifo: Vec<u8>,
    fifo_pos: usize,
    table_span: usize,
}

impl DecimatorState {
    /// The state's own consistency: at least one table, a ring long enough
    /// that the mirrored window never wraps onto itself, and a position in it.
    pub closed spec fn wf(&self) -> bool {
        &&& self.num_tables >= 1
        &&& self.table_span == 2 * self.num_tables - 1
        &&& self.fifo.len() >= 2 * self.num_tables + 8
        &&& self.fifo_pos < self.fifo.len()
        &&& exists|k: nat| self.fifo.len() == pow2(k)
    }

    /// Number of 8-tap tables the half filter is cut into.
    pub closed spec fn tables(&self) -> nat {
        self.num_tables as nat
    }

    /// Input bytes per output sample.
    pub closed spec fn bytes_per_output(&self) -> nat {
        self.bytes_per_out as nat
    }

    /// Distance, in bytes, between the newest byte and the mirror of table 0.
    pub closed spec fn span(&self) -> nat {
        self.table_span as nat
    }

    /// Number of bytes the ring remembers.
    pub closed spec fn history_len(&self) -> nat {
        self.fifo.len() as nat
    }

    /// The remembered bytes, oldest first, newest last.
    pub closed spec fn recent(&self) -> Seq<u8> {
        Seq::new(
            self.fifo.len() as nat,
            |j: int| self.fifo[wrap(self.fifo_pos + j, self.fifo.len() as int)],
        )
    }

    /// The remembered bytes fill the whole history, which is longer than the
    /// mirrored window of the tables.
    pub proof fn lemma_history(&self)
        requires
            self.wf(),
        ensures
            self.recent().len() == self.history_len(),
            self.history_len() >= self.span() + 9,
            self.span() == 2 * self.tables() - 1,
            self.tables() >= 1,
    {
    }

    /// Builds the state for a filter of `half_taps_len` right-half taps and
    /// decimation by `decim` bits. Fails when `decim` is not a whole number
    /// of bytes or the filter is empty.
    pub fn new(half_taps_len: usize, decim: u32) -> (res: Option<Self>)
        requires
            half_taps_len <= usize::MAX / 16,
        ensures
            res is None <==> (decim % 8 != 0 || half_taps_len == 0),
            res matches Some(s) ==> {
                &&& s.wf()
                &&& s.tables() == (half_taps_len + 7) / 8
                &&& s.bytes_per_output() == decim / 8
                &&& s.span() == 2 * s.tables() - 1
                &&& is_next_power_of_two(s.history_len(), 2 * s.tables() + 8)
                &&& s.recent() == Seq::new(s.history_len(), |j: int| DSD_SILENCE)
            },
    {
        if decim % 8 != 0 {
            return None;
        }
        if half_taps_len == 0 {
            return None;
        }
        let num_tables = (half_taps_len + 7) / 8;
        let len = next_power_of_two(num_tables * 2 + 8);
        let mut fifo: Vec<u8> = Vec::new();
        while fifo.len() < len
            invariant
                fifo.len() <= len,
                forall|j: int| 0 <= j < fifo.len() ==> fifo[j] == DSD_SILENCE,
            decreases len - fifo.len(),
        {
            fifo.push(DSD_SILENCE);
        }
        let s = DecimatorState {
            num_tables,
            bytes_per_out: decim / 8,
            fifo,
            fifo_pos: 0,
            table_span: num_tables * 2 - 1,
        };
        assert(s.recent() =~= Seq::new(s.history_len(), |j: int| DSD_SILENCE));
        Some(s)
    }

    /// Start index into the right-half taps, and number of taps, that table
    /// `i` covers: tables run from the far end of the half filter inward, 8
    /// taps each, the last one possibly shorter.
    pub fn table_taps(&self, half_taps_len: usize, i: usize) -> (r: (usize, usize))
        requires
            self.wf(),
            i < self.tables(),
            self.tables() == (half_taps_len + 7) / 8,
        ensures
            r.0 == (self.tables() - 1 - i) * 8,
            r.1 == if half_taps_len - r.0 < 8 {
                half_taps_len - r.0
            } else {
                8
            },
            r.0 + r.1 <= half_taps_len,
            r.1 >= 1,
    {
        let t = (self.num_tables - 1 - i) * 8;
        let rest = half_taps_len - t;
        let count = if rest < 8 {
            rest
        } else {
            8
        };
        (t, count)
    }

    /// Number of input bytes per output sample.
    pub fn bytes_per_out(&self) -> (r: u32)
        ensures
            r == self.bytes_per_output(),
    {
        self.bytes_per_out
    }

    /// Number of tables.
    pub fn num_tables(&self) -> (r: usize)
        ensures
            r == self.tables(),
    {
        self.num_tables
    }

    /// The byte `d` places back from the newest one.
    fn back(&self, d: usize) -> (b: u8)
        requires
            self.wf(),
            d < self.history_len(),
        ensures
            b == self.recent()[self.history_len() - 1 - d],
    {
        let len = self.fifo.len();
        let idx = if d + 1 <= self.fifo_pos {
            self.fifo_pos - 1 - d
        } else {
            self.fifo_pos + (len - 1 - d)
        };
        self.fifo[idx]
    }

    /// Remembers one more byte, forgetting the oldest.
    fn push(&mut self, b: u8)
        requires
            old(self).wf(),
        ensures
            final(self).wf(),
            final(self).tables() == old(self).tables(),
            final(self).bytes_per_output() == old(self).bytes_per_output(),
            final(self).span() == old(self).span(),
            final(self).history_len() == old(self).history_len(),
            final(self).recent() == old(self).recent().drop_first().push(b),
    {
        let ghost before = self.recent();
        let pos = self.fifo_pos;
        self.fifo.set(pos, b);
        if pos + 1 == self.fifo.len() {
            self.fifo_pos = 0;
        } else {
            self.fifo_pos = pos + 1;
        }
        assert(self.recent() =~= before.drop_first().push(b));
    }

    /// The table lookups for the current newest byte.
    fn lookups(&self) -> (r: Vec<(u8, u8)>)
        requires
            self.wf(),
        ensures
            r@ == lookups_at(
                self.recent(),
                self.history_len() - 1,
                self.tables(),
                self.span(),
            ),
    {
        let mut r: Vec<(u8, u8)> = Vec::new();
        let mut i: usize = 0;
        while i < self.num_tables
            invariant
                self.wf(),
                i <= self.num_tables,
                r@ =~= lookups_at(
                    self.recent(),
                    self.history_len() - 1,
                    self.tables(),
                    self.span(),
                ).take(i as int),
            decreases self.num_tables - i,
        {
            let near = self.back(i);
            let far = self.back(self.table_span - i);
            let far_rev = reverse_bits(far);
            r.push((near, far_rev));
            i = i + 1;
        }
        r
    }
}

/// `after` is `before` fed `stream` with room for `out_len` outputs, and
/// `outs` are the outputs: the history moved past exactly the bytes the call
/// consumed, and output `j` looks up the tables at the byte that completed
/// it.
pub open spec fn fed(
    before: DecimatorState,
    after: DecimatorState,
    stream: Seq<u8>,
    out_len: nat,
    outs: Seq<Vec<(u8, u8)>>,
) -> bool {
    let s = before.recent() + stream;
    let len = before.history_len();
    let bpo = before.bytes_per_output();
    let c = consumed_count(stream.len(), bpo, out_len);
    &&& after.wf()
    &&& after.tables() == before.tables()
    &&& after.bytes_per_output() == bpo
    &&& after.span() == before.span()
    &&& after.history_len() == len
    &&& after.recent() == s.subrange(c as int, (c + len) as int)
    &&& outs.len() == produced_count(stream.len(), bpo, out_len)
    &&& forall|j: int|
        0 <= j < outs.len() ==> (#[trigger] outs[j])@ == lookups_at(
            s,
            len + (j + 1) * bpo - 1,
            before.tables(),
            before.span(),
        )
}

/// The mirrored lookup of every output: for table `i`, the near byte is the
/// byte `i` places back from the byte that completed the output, and the far
/// byte, bit-reversed, is the one `2 * tables - 1 - i` places back, so the
/// near and far offsets of every table add up to `2 * tables - 1`, the
/// mirror of a linear-phase filter of `2 * tables` bytes.
pub proof fn lemma_lookup_offsets(
    before: DecimatorState,
    after: DecimatorState,
    stream: Seq<u8>,
    out_len: nat,
    outs: Seq<Vec<(u8, u8)>>,
    j: int,
    i: int,
)
    requires
        before.wf(),
        fed(before, after, stream, out_len, outs),
        0 <= j < outs.len(),
        0 <= i < before.tables(),
    ensures
        ({
            let s = before.recent() + stream;
            let newest = before.history_len() + (j + 1) * before.bytes_per_output() - 1;
            &&& outs[j]@.len() == before.tables()
            &&& 2 * before.tables() - 1 - i <= newest
            &&& newest < s.len()
            &&& outs[j]@[i].0 == s[newest - i]
            &&& outs[j]@[i].1 == reversed_byte(s[newest - (2 * before.tables() - 1 - i)])
        }),
{
    before.lemma_history();
    let bpo = before.bytes_per_output();
    let c = consumed_count(stream.len(), bpo, out_len);
    assert(outs[j]@ == lookups_at(
        before.recent() + stream,
        before.history_len() + (j + 1) * bpo - 1,
        before.tables(),
        before.span(),
    ));
    assert((j + 1) * bpo >= 1) by (nonlinear_arith)
        requires
            j >= 0,
            bpo >= 1,
    ;
    assert((j + 1) * bpo <= stream.len()) by {
        lemma_produced_fit(stream.len(), bpo, out_len, j);
    }
}

/// Output `j` of a call completes within the bytes it was offered.
proof fn lemma_produced_fit(n: nat, bpo: nat, out_len: nat, j: int)
    requires
        0 <= j < produced_count(n, bpo, out_len),
    ensures
        bpo >= 1,
        (j + 1) * bpo <= n,
{
    let q = n / bpo;
    vstd::arithmetic::div_mod::lemma_fundamental_div_mod(n as int, bpo as int);
    vstd::arithmetic::div_mod::lemma_mod_bound(n as int, bpo as int);
    assert(j + 1 <= q);
    assert((j + 1) * bpo <= q * bpo) by (nonlinear_arith)
        requires
            j + 1 <= q,
            bpo >= 1,
    ;
    assert(q * bpo <= n) by (nonlinear_arith)
        requires
            n == bpo * q + n % bpo,
            n % bpo >= 0,
    ;
}

/// With room for every output, a call consumes all the bytes it is offered
/// and produces one output per `bpo` of them, dropping a final partial one.
pub proof fn lemma_one_output_per_bpo_bytes(n: nat, bpo: nat, out_len: nat)
    requires
        bpo > 0,
        out_len > 0,
        n / bpo < out_len,
    ensures
        consumed_count(n, bpo, out_len) == n,
        produced_count(n, bpo, out_len) == n / bpo,
{
}

/// Two decimator states that no caller can tell apart: the same history and
/// the same table geometry.
pub open spec fn alike(a: DecimatorState, b: DecimatorState) -> bool {
    &&& a.recent() == b.recent()
    &&& a.tables() == b.tables()
    &&& a.bytes_per_output() == b.bytes_per_output()
    &&& a.span() == b.span()
    &&& a.history_len() == b.history_len()
}

/// Feeding is deterministic: decimators that are alike, fed the same stream
/// with the same room, stay alike and yield the same outputs.
pub proof fn lemma_fed_deterministic(
    b1: DecimatorState,
    b2: DecimatorState,
    a1: DecimatorState,
    a2: DecimatorState,
    stream: Seq<u8>,
    out_len: nat,
    o1: Seq<Vec<(u8, u8)>>,
    o2: Seq<Vec<(u8, u8)>>,
)
    requires
        alike(b1, b2),
        fed(b1, a1, stream, out_len, o1),
        fed(b2, a2, stream, out_len, o2),
    ensures
        alike(a1, a2),
        o1.len() == o2.len(),
        forall|j: int| 0 <= j < o1.len() ==> (#[trigger] o1[j])@ == o2[j]@,
{
    assert forall|j: int| 0 <= j < o1.len() implies (#[trigger] o1[j])@ == o2[j]@ by {
        assert(o2[j]@ == lookups_at(
            b2.recent() + stream,
            b2.history_len() + (j + 1) * b2.bytes_per_output() - 1,
            b2.tables(),
            b2.span(),
        ));
    }
}

/// With `bpo` dividing `n` and room for `n / bpo` outputs, a call consumes
/// all `n` bytes and produces `n / bpo` outputs.
pub proof fn lemma_whole_frames_consumed(n: nat, bpo: nat, out_len: nat)
    requires
        bpo > 0,
        n % bpo == 0,
        out_len >= n / bpo,
    ensures
        consumed_count(n, bpo, out_len) == n,
        produced_count(n, bpo, out_len) == n / bpo,
{
    if n / bpo >= stop_frames(out_len) {
        assert(out_len == n / bpo);
        assert(n / bpo > 0);
        vstd::arithmetic::div_mod::lemma_fundamental_div_mod(n as int, bpo as int);
        assert(stop_frames(out_len) * bpo == n) by (nonlinear_arith)
            requires
                stop_frames(out_len) == n / bpo,
                n == bpo * (n / bpo) + n % bpo,
                n % bpo == 0,
        ;
    }
}

/// Splitting a stream at an output boundary changes nothing: feeding `a`
/// then `b` to one decimator, or `a + b` in one call to a decimator alike
/// it, ends alike and yields the outputs of `a` followed by those of `b`,
/// when every call has room for all its outputs.
pub proof fn lemma_split_at_boundary(
    d: DecimatorState,
    d1: DecimatorState,
    d2: DecimatorState,
    e: DecimatorState,
    e1: DecimatorState,
    a: Seq<u8>,
    b: Seq<u8>,
    n1: nat,
    n2: nat,
    n: nat,
    r1: Seq<Vec<(u8, u8)>>,
    r2: Seq<Vec<(u8, u8)>>,
    r: Seq<Vec<(u8, u8)>>,
)
    requires
        d.bytes_per_output() > 0,
        a.len() % d.bytes_per_output() == 0,
        b.len() % d.bytes_per_output() == 0,
        n1 >= a.len() / d.bytes_per_output(),
        n2 >= b.len() / d.bytes_per_output(),
        n >= (a.len() + b.len()) / d.bytes_per_output(),
        alike(d, e),
        fed(d, d1, a, n1, r1),
        fed(d1, d2, b, n2, r2),
        fed(e, e1, a + b, n, r),
    ensures
        alike(d2, e1),
        r.len() == r1.len() + r2.len(),
        forall|j: int| 0 <= j < r1.len() ==> (#[trigger] r[j])@ == r1[j]@,
        forall|j: int| 0 <= j < r2.len() ==> (#[trigger] r[r1.len() + j])@ == r2[j]@,
{
    let bpo = d.bytes_per_output();
    let len = d.history_len();
    let la = a.len();
    let lb = b.len();
    let ka = la / bpo;
    let kb = lb / bpo;
    vstd::arithmetic::div_mod::lemma_fundamental_div_mod(la as int, bpo as int);
    vstd::arithmetic::div_mod::lemma_fundamental_div_mod(lb as int, bpo as int);
    assert(la == ka * bpo) by (nonlinear_arith)
        requires
            la == bpo * (la / bpo) + la % bpo,
            la % bpo == 0,
            ka == la / bpo,
    ;
    assert(lb == kb * bpo) by (nonlinear_arith)
        requires
            lb == bpo * (lb / bpo) + lb % bpo,
            lb % bpo == 0,
            kb == lb / bpo,
    ;
    assert((la + lb) == (ka + kb) * bpo) by (nonlinear_arith)
        requires
            la == ka * bpo,
            lb == kb * bpo,
    ;
    assert((la + lb) % bpo == 0 && (la + lb) / bpo == ka + kb) by {
        vstd::arithmetic::div_mod::lemma_fundamental_div_mod_converse(
            (la + lb) as int,
            bpo as int,
            (ka + kb) as int,
            0,
        );
    }
    lemma_whole_frames_consumed(la, bpo, n1);
    lemma_whole_frames_consumed(lb, bpo, n2);
    lemma_whole_frames_consumed((a + b).len(), bpo, n);
    let s = d.recent() + a;
    let t = d1.recent() + b;
    let u = e.recent() + (a + b);
    assert(d.recent().len() == len);
    assert(t =~= u.subrange(la as int, (la + len + lb) as int));
    assert(d2.recent() =~= e1.recent()) by {
        assert(d2.recent() == t.subrange(lb as int, (lb + len) as int));
        assert(e1.recent() == u.subrange((la + lb) as int, (la + lb + len) as int));
    }
    assert forall|j: int| 0 <= j < r1.len() implies (#[trigger] r[j])@ == r1[j]@ by {
        assert(s =~= u.subrange(0, (len + la) as int));
        assert((j + 1) * bpo <= la) by (nonlinear_arith)
            requires
                0 <= j < ka,
                la == ka * bpo,
                bpo > 0,
        ;
        assert(lookups_at(s, len + (j + 1) * bpo - 1, d.tables(), d.span()) =~= lookups_at(
            u,
            len + (j + 1) * bpo - 1,
            d.tables(),
            d.span(),
        ));
    }
    assert forall|j: int| 0 <= j < r2.len() implies (#[trigger] r[r1.len() + j])@ == r2[j]@ by {
        let k = r1.len() + j;
        assert((k + 1) * bpo == la + (j + 1) * bpo) by (nonlinear_arith)
            requires
                k == ka + j,
                la == ka * bpo,
        ;
        assert((j + 1) * bpo <= lb) by (nonlinear_arith)
            requires
                0 <= j < kb,
                lb == kb * bpo,
                bpo > 0,
        ;
        d1.lemma_history();
        let x = len + (j + 1) * bpo - 1;
        assert(x < len + lb);
        assert(x - d.span() >= 0);
        assert(lookups_at(t, len + (j + 1) * bpo - 1, d.tables(), d.span()) =~= lookups_at(
            u,
            len + (k + 1) * bpo - 1,
            d.tables(),
            d.span(),
        ));
    }
}

/// The lookups taken from a ring that holds `s[k..k + len]` are those of `s`
/// at newest index `k + len - 1`.
proof fn lemma_lookups_shift(s: Seq<u8>, k: int, len: int, nt: nat, span: nat)
    requires
        0 <= k,
        k + len <= s.len(),
        span + 1 <= len,
        nt <= span + 1,
    ensures
        lookups_at(s.subrange(k, k + len), len - 1, nt, span) == lookups_at(
            s,
            k + len - 1,
            nt,
            span,
        ),
{
    assert(lookups_at(s.subrange(k, k + len), len - 1, nt, span) =~= lookups_at(
        s,
        k + len - 1,
        nt,
        span,
    ));
}

/// Peeling one index off the front of a strided walk.
proof fn lemma_strided_len_step(len: int, pos: int, stride: int)
    requires
        stride > 0,
        pos < len,
    ensures
        strided_len(len, pos, stride) == 1 + strided_len(len, pos + stride, stride),
        pos + stride >= len ==> strided_len(len, pos + stride, stride) == 0,
{
}

/// A strided walk visits no more indices than there are below `len`.
proof fn lemma_strided_len_bound(len: int, pos: int, stride: int)
    requires
        0 <= pos,
    ensures
        strided_len(len, pos, stride) <= if pos < len {
            len - pos
        } else {
            0
        },
    decreases len - pos,
{
    if stride > 0 && pos < len && pos + stride < len {
        lemma_strided_len_bound(len, pos + stride, stride);
    }
}

/// A walk of stride 1 from 0 visits every byte.
pub proof fn lemma_strided_len_unit(len: int, pos: int)
    requires
        0 <= pos <= len,
    ensures
        strided_len(len, pos, 1) == len - pos,
    decreases len - pos,
{
    if pos < len {
        lemma_strided_len_unit(len, pos + 1);
    }
}

/// Every index a strided walk visits lies below `len`.
pub proof fn lemma_strided_index(len: int, start: int, stride: int, m: int)
    requires
        stride > 0,
        0 <= start,
        0 <= m < strided_len(len, start, stride),
    ensures
        start + m * stride < len,
    decreases m,
{
    if m == 0 {
        assert(m * stride == 0);
    } else {
        lemma_strided_index(len, start + stride, stride, m - 1);
        assert(start + m * stride == (start + stride) + (m - 1) * stride) by (nonlinear_arith);
    }
}

/// Taking a channel's raw bytes out of an interleaved stream and then reading
/// them one by one, bit-reversed when `rev` holds, reads that channel.
pub proof fn lemma_lane_restride(src: Seq<u8>, channel: int, channels: int, rev: bool)
    requires
        channels > 0,
        0 <= channel,
    ensures
        strided(strided(src, channel, channels, false), 0, 1, rev) == strided(
            src,
            channel,
            channels,
            rev,
        ),
{
    let lane = strided(src, channel, channels, false);
    lemma_strided_len_unit(lane.len() as int, 0);
    assert(strided(lane, 0, 1, rev) =~= strided(src, channel, channels, rev));
}

/// With stride 1, start 0 and no reversal, the strided stream is the input.
pub proof fn lemma_strided_whole(src: Seq<u8>)
    ensures
        strided(src, 0, 1, false) == src,
{
    lemma_strided_len_unit(src.len() as int, 0);
    assert(strided(src, 0, 1, false) =~= src);
}

/// `q * b <= n` gives `q <= n / b`.
proof fn lemma_div_lower_bound(n: int, b: int, q: int)
    requires
        b > 0,
        q >= 0,
        q * b <= n,
    ensures
        q <= n / b,
{
    assert(q <= n / b) by (nonlinear_arith)
        requires
            b > 0,
            q >= 0,
            q * b <= n,
    ;
}

impl DecimatorState {
    /// Feeds the bytes `src[start]`, `src[start + stride]`, ... (bit-reversed
    /// when `rev` holds) and collects the table lookups of each output.
    fn run(&mut self, src: &[u8], start: usize, stride: usize, rev: bool, out_len: usize) -> (outs:
        Vec<Vec<(u8, u8)>>)
        requires
            old(self).wf(),
            stride > 0,
        ensures
            fed(
                *old(self),
                *final(self),
                strided(src@, start as int, stride as int, rev),
                out_len as nat,
                outs@,
            ),
            consumed_count(
                strided(src@, start as int, stride as int, rev).len(),
                old(self).bytes_per_output(),
                out_len as nat,
            ) == 0 ==> *final(self) == *old(self),
    {
        let ghost stream = strided(src@, start as int, stride as int, rev);
        let ghost s = self.recent() + stream;
        let ghost len = self.history_len();
        let ghost nt = self.tables();
        let ghost span = self.span();
        let bpo = self.bytes_per_out;
        let mut outs: Vec<Vec<(u8, u8)>> = Vec::new();
        if bpo == 0 {
            assert(self.recent() =~= s.subrange(0, len as int));
            return outs;
        }
        let mut pos = start;
        let mut m: usize = 0;
        let mut count: u32 = 0;
        let ghost mut frames: nat = 0;
        let mut exhausted = start >= src.len();
        let mut stopped = false;
        assert(self.recent() =~= s.subrange(0, len as int));
        proof {
            lemma_strided_len_bound(src@.len() as int, start as int, stride as int);
        }
        let ghost entry = *self;
        while !exhausted && !stopped
            invariant
                entry == *old(self),
                m == 0 ==> *self == entry,
                self.wf(),
                self.tables() == nt,
                self.bytes_per_output() == bpo,
                self.span() == span,
                self.history_len() == len,
                stride > 0,
                bpo > 0,
                s == old(self).recent() + stream,
                len == old(self).recent().len(),
                stream == strided(src@, start as int, stride as int, rev),
                !exhausted ==> pos == start + m * stride,
                !exhausted ==> pos < src.len(),
                exhausted ==> m == stream.len(),
                !exhausted ==> m + strided_len(src@.len() as int, pos as int, stride as int)
                    == stream.len(),
                m <= stream.len(),
                stream.len() <= src@.len(),
                self.recent() == s.subrange(m as int, m + len),
                m == frames * bpo + count,
                count < bpo,
                stopped ==> frames == stop_frames(out_len as nat) && count == 0,
                !stopped ==> frames < stop_frames(out_len as nat),
                outs.len() == (if frames < out_len {
                    frames
                } else {
                    out_len as nat
                }),
                forall|j: int|
                    0 <= j < outs.len() ==> (#[trigger] outs[j])@ == lookups_at(
                        s,
                        len + (j + 1) * bpo - 1,
                        nt,
                        span,
                    ),
            decreases stream.len() - m, (if stopped {
                0int
            } else {
                1int
            }),
        {
            proof {
                lemma_strided_len_step(src@.len() as int, pos as int, stride as int);
            }
            let raw = src[pos];
            let b = if rev {
                reverse_bits(raw)
            } else {
                raw
            };
            assert(stream[m as int] == b);
            let ghost prev = self.recent();
            self.push(b);
            assert(self.recent() =~= s.subrange(m + 1, m + 1 + len)) by {
                assert(prev == s.subrange(m as int, m + len));
                assert(s[m + len] == b);
            }
            m = m + 1;
            count = count + 1;
            if count == bpo {
                count = 0;
                proof {
                    assert((frames + 1) * bpo == frames * bpo + bpo) by (nonlinear_arith);
                    frames = frames + 1;
                }
                if outs.len() < out_len {
                    let ghost j = outs.len() as int;
                    let l = self.lookups();
                    proof {
                        lemma_lookups_shift(s, m as int, len as int, nt, span);
                        assert(m == (j + 1) * bpo);
                    }
                    outs.push(l);
                }
                if outs.len() == out_len {
                    stopped = true;
                }
            }
            if src.len() - pos <= stride {
                exhausted = true;
            } else {
                assert(pos + stride == start + m * stride) by (nonlinear_arith)
                    requires
                        pos == start + (m - 1) * stride,
                ;
                pos = pos + stride;
            }
        }
        proof {
            let n = stream.len();
            if stopped {
                lemma_div_lower_bound(n as int, bpo as int, frames as int);
            } else {
                lemma_fundamental_div_mod_converse(n as int, bpo as int, frames as int, count as int);
            }
            assert(m == consumed_count(n, bpo as nat, out_len as nat));
        }
        outs
    }

    /// Feeds a block of DSD bytes and returns, for each output sample it
    /// completes (at most `out_len`), the table lookups that make it up.
    pub fn process_bytes(&mut self, bytes: &[u8], out_len: usize) -> (outs: Vec<Vec<(u8, u8)>>)
        requires
            old(self).wf(),
        ensures
            fed(*old(self), *final(self), bytes@, out_len as nat, outs@),
            consumed_count(bytes@.len(), old(self).bytes_per_output(), out_len as nat) == 0
                ==> *final(self) == *old(self),
    {
        proof {
            lemma_strided_whole(bytes@);
        }
        self.run(bytes, 0, 1, false, out_len)
    }

    /// Feeds channel `channel` of a stream interleaved over `channels`
    /// channels, reversing the bits of each byte when `reverse_bits` holds,
    /// without first copying the channel out.
    pub fn process_interleaved_bytes(
        &mut self,
        bytes: &[u8],
        channel: usize,
        channels: usize,
        reverse_bits: bool,
        out_len: usize,
    ) -> (outs: Vec<Vec<(u8, u8)>>)
        requires
            old(self).wf(),
        ensures
            channels == 0 ==> outs.len() == 0 && *final(self) == *old(self),
            channels > 0 ==> fed(
                *old(self),
                *final(self),
                strided(bytes@, channel as int, channels as int, reverse_bits),
                out_len as nat,
                outs@,
            ),
            channels > 0 && consumed_count(
                strided(bytes@, channel as int, channels as int, reverse_bits).len(),
                old(self).bytes_per_output(),
                out_len as nat,
            ) == 0 ==> *final(self) == *old(self),
    {
        if channels == 0 {
            return Vec::new();
        }
        self.run(bytes, channel, channels, reverse_bits, out_len)
    }
}

} // verus!
