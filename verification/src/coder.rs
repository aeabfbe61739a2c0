//! The MQ binary arithmetic decoder (ITU-T T.800 Annex C).
//!
//! The decoder turns a code-block's byte segment into a stream of binary
//! decisions, one per call, driven by 19 adaptive contexts. Each context
//! carries a probability-state index into a fixed 47-entry table and a
//! more-probable-symbol value; renormalization events move both along the
//! table's transitions.
//!
//! Byte stuffing: a 0xFF byte in the input announces that the following byte
//! contributes only seven bits; past the end of the segment the decoder
//! behaves as if an endless run of 0xFF bytes followed. The 32-bit register
//! arithmetic follows the standard's software conventions, with the
//! register additions taken modulo 2^32.
//!
//! Decoding is a pure function of the decoder state: the contract of
//! `decode` pins the returned bit and the successor state exactly, so one
//! byte segment and one context initialization always yield one bit
//! sequence.

use vstd::prelude::*;

verus! {

/// Context index reserved for the run-length decision of the cleanup pass.
pub const RUN_LEN: usize = 17;

/// Context index of the non-adaptive uniform distribution.
pub const UNIFORM: usize = 18;

/// Number of adaptive contexts.
pub const NUM_CONTEXTS: usize = 19;

/// One row of the probability state table: the probability estimate Qe, the
/// next state after an MPS renormalization, the next state after an LPS
/// renormalization, and whether an LPS exchanges the sense of the MPS.
pub open spec fn spec_state(i: int) -> (u16, u8, u8, bool) {
    if i == 0 {
        (0x5601, 1, 1, true)
    } else if i == 1 {
        (0x3401, 2, 6, false)
    } else if i == 2 {
        (0x1801, 3, 9, false)
    } else if i == 3 {
        (0x0AC1, 4, 12, false)
    } else if i == 4 {
        (0x0521, 5, 29, false)
    } else if i == 5 {
        (0x0221, 38, 33, false)
    } else if i == 6 {
        (0x5601, 7, 6, true)
    } else if i == 7 {
        (0x5401, 8, 14, false)
    } else if i == 8 {
        (0x4801, 9, 14, false)
    } else if i == 9 {
        (0x3801, 10, 14, false)
    } else if i == 10 {
        (0x3001, 11, 17, false)
    } else if i == 11 {
        (0x2401, 12, 18, false)
    } else if i == 12 {
        (0x1C01, 13, 20, false)
    } else if i == 13 {
        (0x1601, 29, 21, false)
    } else if i == 14 {
        (0x5601, 15, 14, true)
    } else if i == 15 {
        (0x5401, 16, 14, false)
    } else if i == 16 {
        (0x5101, 17, 15, false)
    } else if i == 17 {
        (0x4801, 18, 16, false)
    } else if i == 18 {
        (0x3801, 19, 17, false)
    } else if i == 19 {
        (0x3401, 20, 18, false)
    } else if i == 20 {
        (0x3001, 21, 19, false)
    } else if i == 21 {
        (0x2801, 22, 19, false)
    } else if i == 22 {
        (0x2401, 23, 20, false)
    } else if i == 23 {
        (0x2201, 24, 21, false)
    } else if i == 24 {
        (0x1C01, 25, 22, false)
    } else if i == 25 {
        (0x1801, 26, 23, false)
    } else if i == 26 {
        (0x1601, 27, 24, false)
    } else if i == 27 {
        (0x1401, 28, 25, false)
    } else if i == 28 {
        (0x1201, 29, 26, false)
    } else if i == 29 {
        (0x1101, 30, 27, false)
    } else if i == 30 {
        (0x0AC1, 31, 28, false)
    } else if i == 31 {
        (0x09C1, 32, 29, false)
    } else if i == 32 {
        (0x08A1, 33, 30, false)
    } else if i == 33 {
        (0x0521, 34, 31, false)
    } else if i == 34 {
        (0x0441, 35, 32, false)
    } else if i == 35 {
        (0x02A1, 36, 33, false)
    } else if i == 36 {
        (0x0221, 37, 34, false)
    } else if i == 37 {
        (0x0141, 38, 35, false)
    } else if i == 38 {
        (0x0111, 39, 36, false)
    } else if i == 39 {
        (0x0085, 40, 37, false)
    } else if i == 40 {
        (0x0049, 41, 38, false)
    } else if i == 41 {
        (0x0025, 42, 39, false)
    } else if i == 42 {
        (0x0015, 43, 40, false)
    } else if i == 43 {
        (0x0009, 44, 41, false)
    } else if i == 44 {
        (0x0005, 45, 42, false)
    } else if i == 45 {
        (0x0001, 45, 43, false)
    } else {
        (0x5601, 46, 46, false)
    }
}

/// Qe lies in `[1, 0x5601]` and both transitions stay inside the table.
pub proof fn lemma_state_bounds(i: int)
    ensures
        1 <= spec_state(i).0 <= 0x5601,
        spec_state(i).1 < 47,
        spec_state(i).2 < 47,
{
}

/// Executable copy of the probability state table.
fn state_of(i: u8) -> (r: (u16, u8, u8, bool))
    requires
        i < 47,
    ensures
        r == spec_state(i as int),
{
    match i {
        0 => (0x5601, 1, 1, true),
        1 => (0x3401, 2, 6, false),
        2 => (0x1801, 3, 9, false),
        3 => (0x0AC1, 4, 12, false),
        4 => (0x0521, 5, 29, false),
        5 => (0x0221, 38, 33, false),
        6 => (0x5601, 7, 6, true),
        7 => (0x5401, 8, 14, false),
        8 => (0x4801, 9, 14, false),
        9 => (0x3801, 10, 14, false),
        10 => (0x3001, 11, 17, false),
        11 => (0x2401, 12, 18, false),
        12 => (0x1C01, 13, 20, false),
        13 => (0x1601, 29, 21, false),
        14 => (0x5601, 15, 14, true),
        15 => (0x5401, 16, 14, false),
        16 => (0x5101, 17, 15, false),
        17 => (0x4801, 18, 16, false),
        18 => (0x3801, 19, 17, false),
        19 => (0x3401, 20, 18, false),
        20 => (0x3001, 21, 19, false),
        21 => (0x2801, 22, 19, false),
        22 => (0x2401, 23, 20, false),
        23 => (0x2201, 24, 21, false),
        24 => (0x1C01, 25, 22, false),
        25 => (0x1801, 26, 23, false),
        26 => (0x1601, 27, 24, false),
        27 => (0x1401, 28, 25, false),
        28 => (0x1201, 29, 26, false),
        29 => (0x1101, 30, 27, false),
        30 => (0x0AC1, 31, 28, false),
        31 => (0x09C1, 32, 29, false),
        32 => (0x08A1, 33, 30, false),
        33 => (0x0521, 34, 31, false),
        34 => (0x0441, 35, 32, false),
        35 => (0x02A1, 36, 33, false),
        36 => (0x0221, 37, 34, false),
        37 => (0x0141, 38, 35, false),
        38 => (0x0111, 39, 36, false),
        39 => (0x0085, 40, 37, false),
        40 => (0x0049, 41, 38, false),
        41 => (0x0025, 42, 39, false),
        42 => (0x0015, 43, 40, false),
        43 => (0x0009, 44, 41, false),
        44 => (0x0005, 45, 42, false),
        45 => (0x0001, 45, 43, false),
        _ => (0x5601, 46, 46, false),
    }
}

/// Starting probability state of each context: the first significance
/// context, the run-length context and the uniform context have dedicated
/// entries; every other context starts at state 0.
pub open spec fn spec_init_index(i: int) -> u8 {
    if i == 0 {
        4
    } else if i == 17 {
        3
    } else if i == 18 {
        46
    } else {
        0
    }
}

/// The byte the decoder sees at position `p`: input bytes while they last,
/// then an endless run of 0xFF.
pub open spec fn spec_byte_at(bytes: Seq<u8>, p: int) -> u8 {
    if 0 <= p < bytes.len() {
        bytes[p]
    } else {
        0xFF
    }
}

/// The decoder's abstract state: the byte segment, the byte cursor, the
/// 32-bit code and interval registers, the pending-bit counter, and the
/// per-context probability-state indices and MPS values.
pub ghost struct MqModel {
    pub bytes: Seq<u8>,
    pub bp: int,
    pub c: u32,
    pub a: u32,
    pub ct: u32,
    pub idx: Seq<u8>,
    pub mps: Seq<u8>,
}

impl MqModel {
    /// The state a decoder holds between `decode` calls.
    pub open spec fn wf(self) -> bool {
        &&& 0 <= self.bp <= self.bytes.len()
        &&& 0x8000 <= self.a <= 0xFFFF
        &&& self.idx.len() == 19
        &&& self.mps.len() == 19
        &&& forall|i: int| 0 <= i < 19 ==> self.idx[i] < 47
        &&& forall|i: int| 0 <= i < 19 ==> self.mps[i] <= 1
    }
}

/// One BYTEIN step: feeds the next input byte into the low bits of the code
/// register, honouring the 0xFF stuffing rule.
pub open spec fn spec_bytein(m: MqModel) -> MqModel {
    let b = spec_byte_at(m.bytes, m.bp);
    if b == 0xFF {
        if spec_byte_at(m.bytes, m.bp + 1) > 0x8F {
            MqModel { c: vstd::wrapping::u32_specs::wrapping_add(m.c, 0xFF00), ct: 8, ..m }
        } else {
            MqModel {
                bp: m.bp + 1,
                c: vstd::wrapping::u32_specs::wrapping_add(
                    m.c,
                    (spec_byte_at(m.bytes, m.bp + 1) as u32) << 9u32,
                ),
                ct: 7,
                ..m
            }
        }
    } else {
        MqModel {
            bp: m.bp + 1,
            c: vstd::wrapping::u32_specs::wrapping_add(
                m.c,
                (spec_byte_at(m.bytes, m.bp + 1) as u32) << 8u32,
            ),
            ct: 8,
            ..m
        }
    }
}

/// Renormalization: doubles the interval and code registers, pulling in a
/// fresh byte whenever the pending-bit counter runs out, until the interval
/// register regains its top bit.
pub open spec fn spec_renorm(m: MqModel) -> MqModel
    decreases 0x10000int - m.a,
{
    if m.a >= 0x8000 || m.a == 0 {
        m
    } else {
        let m1 = if m.ct == 0 {
            spec_bytein(m)
        } else {
            m
        };
        let m2 = MqModel { a: (m1.a * 2) as u32, c: m1.c << 1u32, ct: (m1.ct - 1) as u32, ..m1 };
        spec_renorm(m2)
    }
}

/// One decision of the MQ decoder for context `cx`: the successor state and
/// the decoded bit.
pub open spec fn spec_decode(m: MqModel, cx: int) -> (MqModel, u8) {
    let i = m.idx[cx] as int;
    let mps = m.mps[cx];
    let st = spec_state(i);
    let qe = st.0 as u32;
    let a1 = (m.a - qe) as u32;
    let chigh = m.c >> 16u32;
    if chigh < qe {
        // The less probable sub-interval was hit (up to conditional
        // exchange when the intervals have crossed).
        if a1 < qe {
            let m2 = MqModel { a: qe, idx: m.idx.update(cx, st.1), ..m };
            (spec_renorm(m2), mps)
        } else {
            let mps2 = if st.3 {
                m.mps.update(cx, (1 - mps) as u8)
            } else {
                m.mps
            };
            let m2 = MqModel { a: qe, idx: m.idx.update(cx, st.2), mps: mps2, ..m };
            (spec_renorm(m2), (1 - mps) as u8)
        }
    } else {
        let c1 = (m.c - (qe << 16u32)) as u32;
        if a1 & 0x8000 == 0 {
            if a1 < qe {
                let mps2 = if st.3 {
                    m.mps.update(cx, (1 - mps) as u8)
                } else {
                    m.mps
                };
                let m2 = MqModel { a: a1, c: c1, idx: m.idx.update(cx, st.2), mps: mps2, ..m };
                (spec_renorm(m2), (1 - mps) as u8)
            } else {
                let m2 = MqModel { a: a1, c: c1, idx: m.idx.update(cx, st.1), ..m };
                (spec_renorm(m2), mps)
            }
        } else {
            (MqModel { a: a1, c: c1, ..m }, mps)
        }
    }
}

/// The decoder state right after initialization on `bytes`.
pub open spec fn spec_init(bytes: Seq<u8>) -> MqModel {
    let m0 = MqModel {
        bytes: bytes,
        bp: 0,
        c: (spec_byte_at(bytes, 0) as u32) << 16u32,
        a: 0,
        ct: 0,
        idx: Seq::new(19, |i: int| spec_init_index(i)),
        mps: Seq::new(19, |i: int| 0u8),
    };
    let m1 = spec_bytein(m0);
    MqModel { c: m1.c << 7u32, ct: (m1.ct - 7) as u32, a: 0x8000, ..m1 }
}

/// The bit sequence produced by decoding the contexts `cxs` in order from
/// state `m`.
pub open spec fn spec_run(m: MqModel, cxs: Seq<int>) -> Seq<u8>
    decreases cxs.len(),
{
    if cxs.len() == 0 {
        Seq::empty()
    } else {
        let step = spec_decode(m, cxs[0]);
        seq![step.1] + spec_run(step.0, cxs.skip(1))
    }
}

/// For a given byte segment and the standard context-state initialization,
/// decoding any sequence of contexts yields one and the same bit sequence:
/// the decoder state is a function of the bytes alone, and every decision is
/// a function of the state.
pub proof fn lemma_mq_deterministic(bytes1: Seq<u8>, bytes2: Seq<u8>, cxs: Seq<int>)
    requires
        bytes1 == bytes2,
    ensures
        spec_run(spec_init(bytes1), cxs) == spec_run(spec_init(bytes2), cxs),
{
}

/// `spec_bytein` only feeds the code register: the byte cursor stays inside
/// the segment and everything else is untouched.
proof fn lemma_bytein_frame(m: MqModel)
    requires
        0 <= m.bp <= m.bytes.len(),
    ensures
        spec_bytein(m).bytes == m.bytes,
        spec_bytein(m).a == m.a,
        spec_bytein(m).idx == m.idx,
        spec_bytein(m).mps == m.mps,
        0 <= spec_bytein(m).bp <= m.bytes.len(),
        spec_bytein(m).ct == 7 || spec_bytein(m).ct == 8,
{
}

/// After renormalization the interval register sits in `[0x8000, 0xFFFF]`
/// and everything but the registers and the byte cursor is untouched.
proof fn lemma_renorm_props(m: MqModel)
    requires
        0 <= m.bp <= m.bytes.len(),
        1 <= m.a <= 0xFFFF,
    ensures
        spec_renorm(m).bytes == m.bytes,
        spec_renorm(m).idx == m.idx,
        spec_renorm(m).mps == m.mps,
        0 <= spec_renorm(m).bp <= m.bytes.len(),
        0x8000 <= spec_renorm(m).a <= 0xFFFF,
    decreases 0x10000int - m.a,
{
    if m.a < 0x8000 {
        let m1 = if m.ct == 0 {
            spec_bytein(m)
        } else {
            m
        };
        if m.ct == 0 {
            lemma_bytein_frame(m);
        }
        let m2 = MqModel { a: (m1.a * 2) as u32, c: m1.c << 1u32, ct: (m1.ct - 1) as u32, ..m1 };
        lemma_renorm_props(m2);
    }
}

/// A decoder for one code-block's compressed byte segment.
///
/// Every operation is a pure function of the held state, so decoding the
/// same segment twice produces the same bit sequence.
pub struct MqDecoder {
    data: Vec<u8>,
    bp: usize,
    c: u32,
    a: u32,
    ct: u32,
    ctx_index: Vec<u8>,
    ctx_mps: Vec<u8>,
}

impl View for MqDecoder {
    type V = MqModel;

    closed spec fn view(&self) -> MqModel {
        MqModel {
            bytes: self.data@,
            bp: self.bp as int,
            c: self.c,
            a: self.a,
            ct: self.ct,
            idx: self.ctx_index@,
            mps: self.ctx_mps@,
        }
    }
}

impl MqDecoder {
    /// Builds a decoder over `data`, with the registers primed from the
    /// first bytes and all 19 contexts at their standard starting states.
    pub fn new(data: Vec<u8>) -> (r: MqDecoder)
        ensures
            r@ == spec_init(data@),
            r@.wf(),
            r@.bytes == data@,
    {
        let ghost bytes = data@;
        let mut ctx_index: Vec<u8> = Vec::new();
        let mut ctx_mps: Vec<u8> = Vec::new();
        let mut i: usize = 0;
        while i < 19
            invariant
                ctx_index@.len() == i,
                ctx_mps@.len() == i,
                i <= 19,
                forall|j: int| 0 <= j < i ==> ctx_index@[j] == spec_init_index(j),
                forall|j: int| 0 <= j < i ==> ctx_mps@[j] == 0u8,
            decreases 19 - i,
        {
            let v: u8 = if i == 0 {
                4
            } else if i == 17 {
                3
            } else if i == 18 {
                46
            } else {
                0
            };
            ctx_index.push(v);
            ctx_mps.push(0);
            i = i + 1;
        }
        proof {
            assert(ctx_index@ =~= Seq::new(19, |j: int| spec_init_index(j)));
            assert(ctx_mps@ =~= Seq::new(19, |j: int| 0u8));
        }
        let b0: u8 = if data.len() > 0 {
            data[0]
        } else {
            0xFF
        };
        let mut r = MqDecoder {
            data,
            bp: 0,
            c: (b0 as u32) << 16u32,
            a: 0,
            ct: 0,
            ctx_index,
            ctx_mps,
        };
        let ghost m0 = r@;
        r.bytein();
        proof {
            lemma_bytein_frame(m0);
        }
        r.c = r.c << 7u32;
        r.ct = r.ct - 7;
        r.a = 0x8000;
        proof {
            assert(r@ == spec_init(bytes));
        }
        r
    }

    /// One BYTEIN step on the concrete registers.
    fn bytein(&mut self)
        requires
            old(self)@.bp <= old(self)@.bytes.len(),
        ensures
            final(self)@ == spec_bytein(old(self)@),
    {
        let len = self.data.len();
        let b: u8 = if self.bp < len {
            self.data[self.bp]
        } else {
            0xFF
        };
        if b == 0xFF {
            let b1: u8 = if len - self.bp > 1 {
                self.data[self.bp + 1]
            } else {
                0xFF
            };
            if b1 > 0x8F {
                self.c = self.c.wrapping_add(0xFF00);
                self.ct = 8;
            } else {
                self.bp = self.bp + 1;
                self.c = self.c.wrapping_add((b1 as u32) << 9u32);
                self.ct = 7;
            }
        } else {
            proof {
                assert(self.bp < len);
            }
            self.bp = self.bp + 1;
            let nb: u8 = if self.bp < len {
                self.data[self.bp]
            } else {
                0xFF
            };
            self.c = self.c.wrapping_add((nb as u32) << 8u32);
            self.ct = 8;
        }
    }

    /// Renormalizes the concrete registers until the interval register
    /// regains its top bit.
    fn renorm(&mut self)
        requires
            old(self)@.bp <= old(self)@.bytes.len(),
            1 <= old(self)@.a <= 0xFFFF,
        ensures
            final(self)@ == spec_renorm(old(self)@),
    {
        while self.a < 0x8000
            invariant
                0 <= self@.bp <= self@.bytes.len(),
                1 <= self@.a <= 0xFFFF,
                spec_renorm(self@) == spec_renorm(old(self)@),
            decreases 0x10000int - self@.a,
        {
            let ghost pre = self@;
            if self.ct == 0 {
                self.bytein();
                proof {
                    lemma_bytein_frame(pre);
                }
            }
            let ghost m1 = self@;
            self.a = self.a * 2;
            self.c = self.c << 1u32;
            self.ct = self.ct - 1;
            proof {
                assert(self@ == (MqModel {
                    a: (m1.a * 2) as u32,
                    c: m1.c << 1u32,
                    ct: (m1.ct - 1) as u32,
                    ..m1
                }));
                assert(spec_renorm(pre) == spec_renorm(self@));
            }
        }
    }

    /// Decodes one binary decision for context `cx`. The returned bit and
    /// the successor state are exactly `spec_decode` of the prior state.
    pub fn decode(&mut self, cx: usize) -> (r: u8)
        requires
            old(self)@.wf(),
            cx < NUM_CONTEXTS,
        ensures
            final(self)@ == spec_decode(old(self)@, cx as int).0,
            r == spec_decode(old(self)@, cx as int).1,
            final(self)@.wf(),
            final(self)@.bytes == old(self)@.bytes,
            r <= 1,
    {
        let i = self.ctx_index[cx];
        let mps = self.ctx_mps[cx];
        let (qe16, nmps, nlps, sw) = state_of(i);
        proof {
            lemma_state_bounds(i as int);
        }
        let qe: u32 = qe16 as u32;
        let chigh = self.c >> 16u32;
        self.a = self.a - qe;
        let d: u8;
        let ghost m0 = old(self)@;
        if chigh < qe {
            if self.a < qe {
                d = mps;
                self.ctx_index[cx] = nmps;
            } else {
                d = 1 - mps;
                if sw {
                    self.ctx_mps[cx] = 1 - mps;
                }
                self.ctx_index[cx] = nlps;
            }
            self.a = qe;
            let ghost pre = self@;
            self.renorm();
            proof {
                lemma_renorm_props(pre);
            }
        } else {
            proof {
                let c0 = self.c;
                let q0 = qe;
                assert(c0 >= (q0 << 16u32)) by (bit_vector)
                    requires
                        (c0 >> 16u32) >= q0,
                        q0 < 0x10000,
                ;
            }
            self.c = self.c - (qe << 16u32);
            if self.a & 0x8000 == 0 {
                if self.a < qe {
                    d = 1 - mps;
                    if sw {
                        self.ctx_mps[cx] = 1 - mps;
                    }
                    self.ctx_index[cx] = nlps;
                } else {
                    d = mps;
                    self.ctx_index[cx] = nmps;
                }
                let ghost pre = self@;
                self.renorm();
                proof {
                    lemma_renorm_props(pre);
                }
            } else {
                d = mps;
                proof {
                    let av = self.a;
                    assert(av >= 0x8000) by (bit_vector)
                        requires
                            av & 0x8000 != 0u32,
                    ;
                }
            }
        }
        d
    }

    /// Whether the held state is a well-formed decoder state; true for every
    /// decoder this module constructs.
    fn check_wf(&self) -> (r: bool)
        ensures
            r == self@.wf(),
    {
        if !(self.bp <= self.data.len() && 0x8000 <= self.a && self.a <= 0xFFFF
            && self.ctx_index.len() == 19 && self.ctx_mps.len() == 19) {
            return false;
        }
        let mut i: usize = 0;
        while i < 19
            invariant
                i <= 19,
                self.ctx_index@.len() == 19,
                self.ctx_mps@.len() == 19,
                forall|j: int| 0 <= j < i ==> self.ctx_index@[j] < 47,
                forall|j: int| 0 <= j < i ==> self.ctx_mps@[j] <= 1,
            decreases 19 - i,
        {
            if self.ctx_index[i] >= 47 || self.ctx_mps[i] > 1 {
                return false;
            }
            i = i + 1;
        }
        true
    }
}

/// A source of binary decisions indexed by context, as the bit-plane coder
/// consumes them. The arithmetic decoder implements it; tests may substitute
/// scripted sources.
pub trait Decoder {
    /// Decodes one binary decision for context `cx`.
    fn decode_bit(&mut self, cx: usize) -> (r: u8)
        requires
            cx < NUM_CONTEXTS,
        ensures
            r <= 1,
    ;
}

impl Decoder for MqDecoder {
    fn decode_bit(&mut self, cx: usize) -> (r: u8) {
        if self.check_wf() {
            self.decode(cx)
        } else {
            0
        }
    }
}

} // verus!
