//! The EBCOT bit-plane coder: decodes one code-block's quantized coefficient
//! plane from a stream of binary decisions.
//!
//! Coefficients are signed magnitudes with an "is significant" flag. The
//! decoder executes coding passes in the prescribed order — cleanup on the
//! most significant non-zero bit-plane, then significance-propagation,
//! magnitude-refinement and cleanup cycling per lower bit-plane — scanning
//! the block in strips of four rows, column by column.
//!
//! A coefficient becomes significant at most once, with magnitude exactly
//! one bit at the plane where its first 1-bit is decoded, and its sign is
//! decoded immediately on that transition and never touched again; later
//! passes can only add lower-order magnitude bits.

use vstd::prelude::*;

use crate::coder::Decoder;
use crate::coder::RUN_LEN;
use crate::coder::UNIFORM;

verus! {

/// Subband orientation of a code-block; selects the context-map variant.
#[derive(Debug, Clone, Copy, PartialEq, Eq, Structural)]
pub enum SubBand {
    LL,
    HL,
    LH,
    HH,
}

/// Decoding state of one coefficient.
#[derive(Debug, Clone, Copy, PartialEq, Eq, Structural)]
pub enum Coeff {
    /// Already significant, with the magnitude decoded so far and the sign.
    Significant { value: i32, is_negative: bool },
    /// Insignificant; remembers the bit-plane shift at which its last
    /// significance bit was coded, so one plane codes it at most once.
    Insignificant(u8),
}

/// A code-block decode failed.
#[derive(Debug, Clone, Copy, PartialEq, Eq, Structural)]
pub struct CodeBlockDecodeError {}

/// A column/row coordinate inside (or just outside) a code-block.
#[derive(Debug, Clone, Copy, PartialEq, Eq, Structural)]
pub struct CoeffIndex {
    pub y: i32,
    pub x: i32,
}

/// Decodes one code-block's coefficients from a context-driven source of
/// binary decisions.
pub struct CodeBlockDecoder {
    width: i32,
    height: i32,
    subband: SubBand,
    no_passes: u8,
    bit_plane_shift: u8,
    rows: Vec<Vec<Coeff>>,
}

impl CodeBlockDecoder {
    /// Code-block width.
    pub closed spec fn w(self) -> int {
        self.width as int
    }

    /// Code-block height.
    pub closed spec fn h(self) -> int {
        self.height as int
    }

    /// The subband orientation the block was created with.
    pub closed spec fn band(self) -> SubBand {
        self.subband
    }

    /// The current bit-plane shift: magnitude bits decoded now carry weight
    /// `2^shift`.
    pub closed spec fn shift(self) -> int {
        self.bit_plane_shift as int
    }

    /// Number of coding passes the block will execute.
    pub closed spec fn passes(self) -> int {
        self.no_passes as int
    }

    /// The coefficient state at column `x`, row `y`.
    pub closed spec fn coeff(self, x: int, y: int) -> Coeff {
        self.rows@[y]@[x]
    }

    /// `(x, y)` lies inside the block.
    pub open spec fn in_bounds(self, x: int, y: int) -> bool {
        0 <= x < self.w() && 0 <= y < self.h()
    }

    /// The coefficient at `(x, y)` is significant; positions outside the
    /// block count as insignificant.
    pub open spec fn sig(self, x: int, y: int) -> bool {
        self.in_bounds(x, y) && self.coeff(x, y) is Significant
    }

    /// Structural well-formedness: a `width` x `height` grid of rows, the
    /// bit-plane shift small enough for the 32-bit magnitudes, and all
    /// decoded magnitudes non-negative.
    pub closed spec fn wf(self) -> bool {
        &&& 1 <= self.width <= 4096
        &&& 1 <= self.height <= 4096
        &&& self.bit_plane_shift < 31
        &&& self.rows@.len() == self.height
        &&& forall|y: int| 0 <= y < self.rows@.len() ==> (#[trigger] self.rows@[y])@.len() == self.width
        &&& forall|x: int, y: int|
            0 <= x < self.width && 0 <= y < self.height ==> match #[trigger] self.coeff(x, y) {
                Coeff::Significant { value, .. } => value >= 0,
                Coeff::Insignificant(_) => true,
            }
    }

    /// Blocks `a` and `b` have the same dimensions and coding parameters,
    /// apart from the bit-plane shift.
    pub open spec fn same_frame(a: CodeBlockDecoder, b: CodeBlockDecoder) -> bool {
        &&& a.w() == b.w()
        &&& a.h() == b.h()
        &&& a.band() == b.band()
        &&& a.passes() == b.passes()
    }

    /// Significance only advances from `a` to `b`: a significant coefficient
    /// stays significant, keeps its sign, and its magnitude never shrinks.
    pub open spec fn sig_monotone(a: CodeBlockDecoder, b: CodeBlockDecoder) -> bool {
        forall|x: int, y: int|
            0 <= x < a.w() && 0 <= y < a.h() ==> match #[trigger] a.coeff(x, y) {
                Coeff::Significant { value: v, is_negative: n } => match b.coeff(x, y) {
                    Coeff::Significant { value: v2, is_negative: n2 } => n2 == n && v <= v2,
                    Coeff::Insignificant(_) => false,
                },
                Coeff::Insignificant(_) => true,
            }
    }

    /// Every coefficient significant in `a` is untouched in `b`.
    pub open spec fn keeps_significant(a: CodeBlockDecoder, b: CodeBlockDecoder) -> bool {
        forall|x: int, y: int|
            0 <= x < a.w() && 0 <= y < a.h() && (#[trigger] a.coeff(x, y)) is Significant
                ==> b.coeff(x, y) == a.coeff(x, y)
    }

    /// Every coefficient insignificant in `a` either stays insignificant in
    /// `b` or has become significant with exactly one magnitude bit, at the
    /// bit-plane `shift`.
    pub open spec fn fresh_significance_at(
        a: CodeBlockDecoder,
        b: CodeBlockDecoder,
        shift: int,
    ) -> bool {
        forall|x: int, y: int|
            0 <= x < a.w() && 0 <= y < a.h() && (#[trigger] a.coeff(x, y)) is Insignificant
                ==> match b.coeff(x, y) {
                Coeff::Significant { value: v, .. } => v == crate::bit_reader::two_pow(
                    shift as nat,
                ),
                Coeff::Insignificant(_) => true,
            }
    }

    /// `sig_monotone` composes across passes.
    pub proof fn lemma_sig_monotone_trans(
        a: CodeBlockDecoder,
        b: CodeBlockDecoder,
        c: CodeBlockDecoder,
    )
        requires
            CodeBlockDecoder::same_frame(a, b),
            CodeBlockDecoder::sig_monotone(a, b),
            CodeBlockDecoder::sig_monotone(b, c),
        ensures
            CodeBlockDecoder::sig_monotone(a, c),
    {
        assert forall|x: int, y: int|
            0 <= x < a.w() && 0 <= y < a.h() implies match #[trigger] a.coeff(x, y) {
            Coeff::Significant { value: v, is_negative: n } => match c.coeff(x, y) {
                Coeff::Significant { value: v2, is_negative: n2 } => n2 == n && v <= v2,
                Coeff::Insignificant(_) => false,
            },
            Coeff::Insignificant(_) => true,
        } by {
            if a.coeff(x, y) is Significant {
                assert(match a.coeff(x, y) {
                    Coeff::Significant { value: v, is_negative: n } => match b.coeff(x, y) {
                        Coeff::Significant { value: v2, is_negative: n2 } => n2 == n && v <= v2,
                        Coeff::Insignificant(_) => false,
                    },
                    Coeff::Insignificant(_) => true,
                });
            }
        }
    }

    /// Creates a decoder for a `width` x `height` block of the given subband
    /// with `no_passes` coding passes and `mb` decodable bit-planes; all
    /// coefficients start insignificant.
    pub fn new(width: i32, height: i32, subband: SubBand, no_passes: u8, mb: u8) -> (r:
        CodeBlockDecoder)
        requires
            1 <= width <= 4096,
            1 <= height <= 4096,
            1 <= mb <= 31,
        ensures
            r.wf(),
            r.w() == width,
            r.h() == height,
            r.band() == subband,
            r.passes() == no_passes,
            r.shift() == mb - 1,
            forall|x: int, y: int| r.in_bounds(x, y) ==> #[trigger] r.coeff(x, y) is Insignificant,
    {
        let mut rows: Vec<Vec<Coeff>> = Vec::new();
        let mut y: i32 = 0;
        while y < height
        invariant
                0 <= y <= height,
                1 <= height <= 4096,
                1 <= width <= 4096,
                rows@.len() == y,
                forall|j: int| 0 <= j < y ==> (#[trigger] rows@[j])@.len() == width,
                forall|j: int, x: int|
                    0 <= j < y && 0 <= x < rows@[j]@.len() ==> #[trigger] rows@[j]@[x]
                        == Coeff::Insignificant(255u8),
            decreases height - y,
        {
            let row: Vec<Coeff> = vec![Coeff::Insignificant(255); width as usize];
            rows.push(row);
            y = y + 1;
        }
        CodeBlockDecoder { width, height, subband, no_passes, bit_plane_shift: mb - 1, rows }
    }

    /// Skips `arg` all-zero most-significant bit-planes, as announced by the
    /// packet header at the block's first inclusion.
    pub fn num_zero_bit_plane(&mut self, arg: u8)
        requires
            old(self).wf(),
            arg <= old(self).shift(),
        ensures
            final(self).wf(),
            CodeBlockDecoder::same_frame(*old(self), *final(self)),
            final(self).shift() == old(self).shift() - arg,
            forall|x: int, y: int|
                old(self).in_bounds(x, y) ==> #[trigger] final(self).coeff(x, y) == old(
                    self,
                ).coeff(x, y),
    {
        self.bit_plane_shift = self.bit_plane_shift - arg;
        proof {
            assert(self.rows@ == old(self).rows@);
            assert forall|x: int, y: int|
                0 <= x < self.width && 0 <= y < self.height implies match #[trigger] self.coeff(
                x,
                y,
            ) {
                Coeff::Significant { value, .. } => value >= 0,
                Coeff::Insignificant(_) => true,
            } by {
                assert(self.coeff(x, y) == old(self).coeff(x, y));
            }
        }
    }

    /// The coefficient state at `idx`; positions outside the block read as
    /// insignificant.
    fn coeff_at(&self, idx: CoeffIndex) -> (r: Coeff)
        requires
            self.wf(),
        ensures
            r == if self.in_bounds(idx.x as int, idx.y as int) {
                self.coeff(idx.x as int, idx.y as int)
            } else {
                Coeff::Insignificant(255u8)
            },
    {
        if idx.x < 0 || idx.x >= self.width || idx.y < 0 || idx.y >= self.height {
            Coeff::Insignificant(255)
        } else {
            self.rows[idx.y as usize][idx.x as usize]
        }
    }

    /// Overwrites the coefficient at `idx`, leaving all others untouched.
    fn set_coeff(&mut self, idx: CoeffIndex, c: Coeff)
        requires
            old(self).wf(),
            old(self).in_bounds(idx.x as int, idx.y as int),
            match c {
                Coeff::Significant { value, .. } => value >= 0,
                Coeff::Insignificant(_) => true,
            },
        ensures
            final(self).wf(),
            CodeBlockDecoder::same_frame(*old(self), *final(self)),
            final(self).shift() == old(self).shift(),
            final(self).coeff(idx.x as int, idx.y as int) == c,
            forall|x: int, y: int|
                old(self).in_bounds(x, y) && !(x == idx.x as int && y == idx.y as int)
                    ==> #[trigger] final(self).coeff(x, y) == old(self).coeff(x, y),
    {
        let row_ref = &mut self.rows[idx.y as usize];
        row_ref[idx.x as usize] = c;
        proof {
            assert forall|x: int, y: int|
                old(self).in_bounds(x, y) && !(x == idx.x as int && y == idx.y as int)
                    implies #[trigger] self.coeff(x, y) == old(self).coeff(x, y) by {}
            assert forall|x: int, y: int|
                0 <= x < self.width && 0 <= y < self.height implies match #[trigger] self.coeff(
                x,
                y,
            ) {
                Coeff::Significant { value, .. } => value >= 0,
                Coeff::Insignificant(_) => true,
            } by {
                if !(x == idx.x as int && y == idx.y as int) {
                    assert(self.coeff(x, y) == old(self).coeff(x, y));
                }
            }
        }
    }

    /// Whether the coefficient at `idx` is significant; positions outside
    /// the block are not.
    pub fn is_significant(&self, idx: CoeffIndex) -> (r: bool)
        requires
            self.wf(),
        ensures
            r == self.sig(idx.x as int, idx.y as int),
    {
        let out_bounds = idx.x < 0 || idx.x >= self.width || idx.y < 0 || idx.y >= self.height;
        if out_bounds {
            return false;
        }
        match self.coeff_at(idx) {
            Coeff::Insignificant(_) => false,
            Coeff::Significant { .. } => true,
        }
    }

    /// Number of significant horizontal neighbours of `(x, y)`.
    pub open spec fn spec_hcount(self, x: int, y: int) -> int {
        (if self.sig(x - 1, y) {
            1int
        } else {
            0int
        }) + (if self.sig(x + 1, y) {
            1int
        } else {
            0int
        })
    }

    /// Number of significant vertical neighbours of `(x, y)`.
    pub open spec fn spec_vcount(self, x: int, y: int) -> int {
        (if self.sig(x, y - 1) {
            1int
        } else {
            0int
        }) + (if self.sig(x, y + 1) {
            1int
        } else {
            0int
        })
    }

    /// Number of significant diagonal neighbours of `(x, y)`.
    pub open spec fn spec_dcount(self, x: int, y: int) -> int {
        (if self.sig(x - 1, y - 1) {
            1int
        } else {
            0int
        }) + (if self.sig(x + 1, y - 1) {
            1int
        } else {
            0int
        }) + (if self.sig(x - 1, y + 1) {
            1int
        } else {
            0int
        }) + (if self.sig(x + 1, y + 1) {
            1int
        } else {
            0int
        })
    }

    /// The significance-coding context for neighbour counts `(h, v, d)`,
    /// per subband orientation (the HL map transposes the LL/LH one; HH has
    /// its own, keyed on the diagonal count).
    pub open spec fn spec_ctx_table(sb: SubBand, h: int, v: int, d: int) -> int {
        match sb {
            SubBand::LL | SubBand::LH => {
                if h == 0 && v == 0 && d == 0 {
                    0
                } else if h == 0 && v == 0 && d == 1 {
                    1
                } else if h == 0 && v == 0 {
                    2
                } else if h == 0 && v == 1 {
                    3
                } else if h == 0 {
                    4
                } else if h == 1 && v == 0 && d == 0 {
                    5
                } else if h == 1 && v == 0 {
                    6
                } else if h == 1 {
                    7
                } else {
                    8
                }
            },
            SubBand::HL => {
                if h == 0 && v == 0 && d == 0 {
                    0
                } else if h == 0 && v == 0 && d == 1 {
                    1
                } else if h == 0 && v == 0 {
                    2
                } else if v == 0 && h == 1 {
                    3
                } else if v == 0 {
                    4
                } else if v == 1 && h == 0 && d == 0 {
                    5
                } else if v == 1 && h == 0 {
                    6
                } else if v == 1 {
                    7
                } else {
                    8
                }
            },
            SubBand::HH => {
                if d >= 3 {
                    8
                } else if d == 2 {
                    if h + v >= 1 {
                        7
                    } else {
                        6
                    }
                } else if d == 1 {
                    if h + v >= 2 {
                        5
                    } else if h + v == 1 {
                        4
                    } else {
                        3
                    }
                } else {
                    if h + v >= 2 {
                        2
                    } else if h + v == 1 {
                        1
                    } else {
                        0
                    }
                }
            },
        }
    }

    /// The significance-coding context of `(x, y)` in this block.
    pub open spec fn spec_significance_context(self, x: int, y: int) -> int {
        Self::spec_ctx_table(
            self.band(),
            self.spec_hcount(x, y),
            self.spec_vcount(x, y),
            self.spec_dcount(x, y),
        )
    }

    /// Computes the significance-coding context from the eight neighbours'
    /// significance states; out-of-bounds neighbours count as insignificant.
    pub fn significance_context(&self, idx: CoeffIndex) -> (r: usize)
        requires
            self.wf(),
            self.in_bounds(idx.x as int, idx.y as int),
        ensures
            r == self.spec_significance_context(idx.x as int, idx.y as int),
            r <= 8,
    {
        let x = idx.x;
        let y = idx.y;
        let mut h: u8 = 0;
        let mut v: u8 = 0;
        let mut d: u8 = 0;
        if self.is_significant(CoeffIndex { y, x: x - 1 }) {
            h = h + 1;
        }
        if self.is_significant(CoeffIndex { y, x: x + 1 }) {
            h = h + 1;
        }
        if self.is_significant(CoeffIndex { y: y - 1, x }) {
            v = v + 1;
        }
        if self.is_significant(CoeffIndex { y: y + 1, x }) {
            v = v + 1;
        }
        if self.is_significant(CoeffIndex { y: y - 1, x: x - 1 }) {
            d = d + 1;
        }
        if self.is_significant(CoeffIndex { y: y - 1, x: x + 1 }) {
            d = d + 1;
        }
        if self.is_significant(CoeffIndex { y: y + 1, x: x - 1 }) {
            d = d + 1;
        }
        if self.is_significant(CoeffIndex { y: y + 1, x: x + 1 }) {
            d = d + 1;
        }
        match self.subband {
            SubBand::LL | SubBand::LH => {
                if h == 0 && v == 0 && d == 0 {
                    0
                } else if h == 0 && v == 0 && d == 1 {
                    1
                } else if h == 0 && v == 0 {
                    2
                } else if h == 0 && v == 1 {
                    3
                } else if h == 0 {
                    4
                } else if h == 1 && v == 0 && d == 0 {
                    5
                } else if h == 1 && v == 0 {
                    6
                } else if h == 1 {
                    7
                } else {
                    8
                }
            },
            SubBand::HL => {
                if h == 0 && v == 0 && d == 0 {
                    0
                } else if h == 0 && v == 0 && d == 1 {
                    1
                } else if h == 0 && v == 0 {
                    2
                } else if v == 0 && h == 1 {
                    3
                } else if v == 0 {
                    4
                } else if v == 1 && h == 0 && d == 0 {
                    5
                } else if v == 1 && h == 0 {
                    6
                } else if v == 1 {
                    7
                } else {
                    8
                }
            },
            SubBand::HH => {
                if d >= 3 {
                    8
                } else if d == 2 {
                    if h + v >= 1 {
                        7
                    } else {
                        6
                    }
                } else if d == 1 {
                    if h + v >= 2 {
                        5
                    } else if h + v == 1 {
                        4
                    } else {
                        3
                    }
                } else {
                    if h + v >= 2 {
                        2
                    } else if h + v == 1 {
                        1
                    } else {
                        0
                    }
                }
            },
        }
    }

    /// Sign contribution of the coefficient at `(x, y)`: +1 when positive
    /// significant, -1 when negative significant, 0 otherwise.
    pub open spec fn spec_sign_contrib(self, x: int, y: int) -> int {
        if !self.in_bounds(x, y) {
            0
        } else {
            match self.coeff(x, y) {
                Coeff::Significant { is_negative, .. } => if is_negative {
                    -1
                } else {
                    1
                },
                Coeff::Insignificant(_) => 0,
            }
        }
    }

    /// Clamps a neighbour-pair sum to the range `[-1, 1]`.
    pub open spec fn spec_clamp(t: int) -> int {
        if t > 0 {
            1
        } else if t < 0 {
            -1
        } else {
            0
        }
    }

    /// The sign-coding context and XOR flag for `(x, y)`, from the clamped
    /// horizontal and vertical neighbour sign sums.
    pub open spec fn spec_sign_context(self, x: int, y: int) -> (int, u8) {
        let vc = Self::spec_clamp(
            self.spec_sign_contrib(x, y - 1) + self.spec_sign_contrib(x, y + 1),
        );
        let hc = Self::spec_clamp(
            self.spec_sign_contrib(x - 1, y) + self.spec_sign_contrib(x + 1, y),
        );
        if hc == 1 && vc == 1 {
            (13, 0u8)
        } else if hc == 1 && vc == 0 {
            (12, 0u8)
        } else if hc == 1 {
            (11, 0u8)
        } else if hc == 0 && vc == 1 {
            (10, 0u8)
        } else if hc == 0 && vc == 0 {
            (9, 0u8)
        } else if hc == 0 {
            (10, 1u8)
        } else if vc == 1 {
            (11, 1u8)
        } else if vc == 0 {
            (12, 1u8)
        } else {
            (13, 1u8)
        }
    }

    /// Sign contribution of the coefficient at `idx`.
    fn sign_contrib(&self, idx: CoeffIndex) -> (r: i8)
        requires
            self.wf(),
        ensures
            r == self.spec_sign_contrib(idx.x as int, idx.y as int),
    {
        match self.coeff_at(idx) {
            Coeff::Insignificant(_) => 0,
            Coeff::Significant { is_negative, .. } => if is_negative {
                -1
            } else {
                1
            },
        }
    }

    /// Determines the context and XOR flag for sign-bit decoding.
    pub fn sign_context(&self, idx: CoeffIndex) -> (r: (usize, u8))
        requires
            self.wf(),
            self.in_bounds(idx.x as int, idx.y as int),
        ensures
            r.0 == self.spec_sign_context(idx.x as int, idx.y as int).0,
            r.1 == self.spec_sign_context(idx.x as int, idx.y as int).1,
            9 <= r.0 <= 13,
            r.1 <= 1,
    {
        let x = idx.x;
        let y = idx.y;
        let v0 = self.sign_contrib(CoeffIndex { y: y - 1, x });
        let v1 = self.sign_contrib(CoeffIndex { y: y + 1, x });
        let h0 = self.sign_contrib(CoeffIndex { y, x: x - 1 });
        let h1 = self.sign_contrib(CoeffIndex { y, x: x + 1 });
        let vs: i8 = v0 + v1;
        let hs: i8 = h0 + h1;
        let vc: i8 = if vs > 0 {
            1
        } else if vs < 0 {
            -1
        } else {
            0
        };
        let hc: i8 = if hs > 0 {
            1
        } else if hs < 0 {
            -1
        } else {
            0
        };
        if hc == 1 && vc == 1 {
            (13, 0)
        } else if hc == 1 && vc == 0 {
            (12, 0)
        } else if hc == 1 {
            (11, 0)
        } else if hc == 0 && vc == 1 {
            (10, 0)
        } else if hc == 0 && vc == 0 {
            (9, 0)
        } else if hc == 0 {
            (10, 1)
        } else if vc == 1 {
            (11, 1)
        } else if vc == 0 {
            (12, 1)
        } else {
            (13, 1)
        }
    }

    /// The magnitude-refinement context of `(x, y)`: 16 for a coefficient
    /// refined before, otherwise 15 with significant neighbours and 14
    /// without.
    pub open spec fn spec_magnitude_context(self, x: int, y: int) -> int {
        let refined_before = match self.coeff(x, y) {
            Coeff::Significant { value, .. } => (value >> ((1 + self.shift()) as u32)) != 1,
            Coeff::Insignificant(_) => false,
        };
        if self.in_bounds(x, y) && refined_before {
            16
        } else if self.spec_hcount(x, y) + self.spec_vcount(x, y) + self.spec_dcount(x, y) > 0 {
            15
        } else {
            14
        }
    }

    /// Chooses among the three refinement contexts: first refinement without
    /// significant neighbours, first refinement with them, or any later
    /// refinement.
    pub fn magnitude_context(&self, idx: CoeffIndex) -> (r: usize)
        requires
            self.wf(),
            self.in_bounds(idx.x as int, idx.y as int),
        ensures
            r == self.spec_magnitude_context(idx.x as int, idx.y as int),
            14 <= r <= 16,
    {
        match self.coeff_at(idx) {
            Coeff::Significant { value, .. } => {
                let sv = value >> ((1 + self.bit_plane_shift) as u32);
                if sv != 1 {
                    return 16;
                }
            },
            Coeff::Insignificant(_) => {},
        }
        let x = idx.x;
        let y = idx.y;
        let mut c: u8 = 0;
        if self.is_significant(CoeffIndex { y, x: x - 1 }) {
            c = c + 1;
        }
        if self.is_significant(CoeffIndex { y, x: x + 1 }) {
            c = c + 1;
        }
        if self.is_significant(CoeffIndex { y: y - 1, x }) {
            c = c + 1;
        }
        if self.is_significant(CoeffIndex { y: y + 1, x }) {
            c = c + 1;
        }
        if self.is_significant(CoeffIndex { y: y - 1, x: x - 1 }) {
            c = c + 1;
        }
        if self.is_significant(CoeffIndex { y: y - 1, x: x + 1 }) {
            c = c + 1;
        }
        if self.is_significant(CoeffIndex { y: y + 1, x: x - 1 }) {
            c = c + 1;
        }
        if self.is_significant(CoeffIndex { y: y + 1, x: x + 1 }) {
            c = c + 1;
        }
        if c > 0 {
            15
        } else {
            14
        }
    }

    /// `1 << s` on 32-bit magnitudes equals `2^s` and is positive.
    proof fn lemma_shl_is_two_pow(s: u32)
        requires
            s < 31,
        ensures
            (1i32 << s) as int == crate::bit_reader::two_pow(s as nat),
            1 <= (1i32 << s),
        decreases s,
    {
        if s == 0 {
            assert((1i32 << 0u32) == 1) by (bit_vector);
        } else {
            let s1 = (s - 1) as u32;
            Self::lemma_shl_is_two_pow(s1);
            assert((1i32 << s) == 2 * (1i32 << s1)) by (bit_vector)
                requires
                    s == s1 + 1,
                    s < 31,
            ;
        }
    }

    /// Whether the magnitude bit at the current bit-plane is already set.
    pub fn is_bit_plane_set(&self, idx: CoeffIndex) -> (r: bool)
        requires
            self.wf(),
            self.in_bounds(idx.x as int, idx.y as int),
            self.coeff(idx.x as int, idx.y as int) is Significant,
        ensures
            r == (match self.coeff(idx.x as int, idx.y as int) {
                Coeff::Significant { value, .. } => ((value >> (self.shift() as u32)) & 1) == 1,
                Coeff::Insignificant(_) => false,
            }),
    {
        match self.coeff_at(idx) {
            Coeff::Significant { value, .. } => ((value >> (self.bit_plane_shift as u32)) & 1)
                == 1,
            Coeff::Insignificant(_) => false,
        }
    }

    /// Marks the coefficient at `idx` significant with magnitude `2^shift`
    /// and a positive sign; the sign bit is decoded immediately afterwards.
    /// A coefficient becomes significant at most once: the transition
    /// demands a currently insignificant coefficient.
    pub fn make_significant(&mut self, idx: CoeffIndex)
        requires
            old(self).wf(),
            old(self).in_bounds(idx.x as int, idx.y as int),
            old(self).coeff(idx.x as int, idx.y as int) is Insignificant,
        ensures
            final(self).wf(),
            CodeBlockDecoder::same_frame(*old(self), *final(self)),
            final(self).shift() == old(self).shift(),
            final(self).coeff(idx.x as int, idx.y as int) == (Coeff::Significant {
                value: (crate::bit_reader::two_pow(old(self).shift() as nat)) as i32,
                is_negative: false,
            }),
            forall|x: int, y: int|
                old(self).in_bounds(x, y) && !(x == idx.x as int && y == idx.y as int)
                    ==> #[trigger] final(self).coeff(x, y) == old(self).coeff(x, y),
    {
        proof {
            Self::lemma_shl_is_two_pow(self.bit_plane_shift as u32);
        }
        let value: i32 = 1i32 << (self.bit_plane_shift as u32);
        self.set_coeff(idx, Coeff::Significant { value, is_negative: false });
    }

    /// The coefficient at `(x, y)` went from significant in `pre` to the
    /// same magnitude in `post`, with its sign fixed by the decision `b`
    /// corrected by the sign context's XOR flag.
    pub open spec fn sign_applied(
        pre: CodeBlockDecoder,
        post: CodeBlockDecoder,
        x: int,
        y: int,
        b: u8,
    ) -> bool {
        match (pre.coeff(x, y), post.coeff(x, y)) {
            (
                Coeff::Significant { value: v, .. },
                Coeff::Significant { value: v2, is_negative: n2 },
            ) => v2 == v && n2 == ((b ^ pre.spec_sign_context(x, y).1) != 0),
            _ => false,
        }
    }

    /// The coefficient at `(x, y)` kept its sign from `pre` to `post` and
    /// the decision `b` was OR-ed into its magnitude at `pre`'s bit-plane.
    pub open spec fn refinement_applied(
        pre: CodeBlockDecoder,
        post: CodeBlockDecoder,
        x: int,
        y: int,
        b: u8,
    ) -> bool {
        match (pre.coeff(x, y), post.coeff(x, y)) {
            (
                Coeff::Significant { value: v, is_negative: n },
                Coeff::Significant { value: v2, is_negative: n2 },
            ) => n2 == n && v2 == (v | ((b as i32) << (pre.shift() as u32))),
            _ => false,
        }
    }

    /// Applies one decoded sign decision to a significant coefficient: the
    /// bit, corrected by the context's XOR flag, fixes the sign; the
    /// magnitude is untouched.
    pub fn apply_sign_bit(&mut self, idx: CoeffIndex, sign_bit: u8, xor: u8)
        requires
            old(self).wf(),
            old(self).in_bounds(idx.x as int, idx.y as int),
            old(self).coeff(idx.x as int, idx.y as int) is Significant,
        ensures
            final(self).wf(),
            CodeBlockDecoder::same_frame(*old(self), *final(self)),
            final(self).shift() == old(self).shift(),
            match (old(self).coeff(idx.x as int, idx.y as int), final(self).coeff(
                idx.x as int,
                idx.y as int,
            )) {
                (
                    Coeff::Significant { value: v, .. },
                    Coeff::Significant { value: v2, is_negative: n2 },
                ) => v2 == v && n2 == ((sign_bit ^ xor) != 0),
                _ => false,
            },
            forall|x: int, y: int|
                old(self).in_bounds(x, y) && !(x == idx.x as int && y == idx.y as int)
                    ==> #[trigger] final(self).coeff(x, y) == old(self).coeff(x, y),
    {
        match self.coeff_at(idx) {
            Coeff::Significant { value, .. } => {
                self.set_coeff(
                    idx,
                    Coeff::Significant { value, is_negative: (sign_bit ^ xor) != 0 },
                );
            },
            Coeff::Insignificant(_) => {},
        }
    }

    /// Decodes the sign bit of a coefficient that just became significant
    /// with the sign context of its neighbourhood and applies it through
    /// `apply_sign_bit`, which pins what each decision produces.
    pub fn decode_sign_bit<D: Decoder>(&mut self, idx: CoeffIndex, decoder: &mut D)
        requires
            old(self).wf(),
            old(self).in_bounds(idx.x as int, idx.y as int),
            old(self).coeff(idx.x as int, idx.y as int) is Significant,
        ensures
            final(self).wf(),
            CodeBlockDecoder::same_frame(*old(self), *final(self)),
            final(self).shift() == old(self).shift(),
            // The decision source is an arbitrary implementation, so only
            // the shape of the outcome is fixed here; `apply_sign_bit` says
            // exactly what each bit value produces.
            exists|b: u8|
                b <= 1 && #[trigger] CodeBlockDecoder::sign_applied(
                    *old(self),
                    *final(self),
                    idx.x as int,
                    idx.y as int,
                    b,
                ),
            forall|x: int, y: int|
                old(self).in_bounds(x, y) && !(x == idx.x as int && y == idx.y as int)
                    ==> #[trigger] final(self).coeff(x, y) == old(self).coeff(x, y),
    {
        let (cx, xor) = self.sign_context(idx);
        let sign_bit = decoder.decode_bit(cx);
        self.apply_sign_bit(idx, sign_bit, xor);
        proof {
            assert(CodeBlockDecoder::sign_applied(
                *old(self),
                *self,
                idx.x as int,
                idx.y as int,
                sign_bit,
            ));
        }
    }

    /// Decodes one significance bit with the given context: on a 1-bit the
    /// coefficient becomes significant (exactly once, from insignificant)
    /// with a single magnitude bit at the current plane.
    pub fn significance_decode_ctx<D: Decoder>(
        &mut self,
        cx: usize,
        idx: CoeffIndex,
        decoder: &mut D,
    ) -> (newly: bool)
        requires
            old(self).wf(),
            old(self).in_bounds(idx.x as int, idx.y as int),
            old(self).coeff(idx.x as int, idx.y as int) is Insignificant,
            cx < 19,
        ensures
            final(self).wf(),
            CodeBlockDecoder::same_frame(*old(self), *final(self)),
            final(self).shift() == old(self).shift(),
            newly ==> match final(self).coeff(idx.x as int, idx.y as int) {
                Coeff::Significant { value: v, .. } => v == crate::bit_reader::two_pow(
                    old(self).shift() as nat,
                ),
                Coeff::Insignificant(_) => false,
            },
            !newly ==> final(self).coeff(idx.x as int, idx.y as int) == old(self).coeff(
                idx.x as int,
                idx.y as int,
            ),
            forall|x: int, y: int|
                old(self).in_bounds(x, y) && !(x == idx.x as int && y == idx.y as int)
                    ==> #[trigger] final(self).coeff(x, y) == old(self).coeff(x, y),
    {
        proof {
            crate::bit_reader::lemma_two_pow_pos(old(self).shift() as nat);
            crate::bit_reader::lemma_two_pow_le_2_30(old(self).shift() as nat);
        }
        let sig = decoder.decode_bit(cx);
        self.apply_significance_bit(idx, sig)
    }

    /// Applies one decoded significance decision to an insignificant
    /// coefficient: a 1-bit makes it significant with the single magnitude
    /// bit `2^shift`; a 0-bit leaves it untouched.
    pub fn apply_significance_bit(&mut self, idx: CoeffIndex, sig: u8) -> (newly: bool)
        requires
            old(self).wf(),
            old(self).in_bounds(idx.x as int, idx.y as int),
            old(self).coeff(idx.x as int, idx.y as int) is Insignificant,
        ensures
            final(self).wf(),
            CodeBlockDecoder::same_frame(*old(self), *final(self)),
            final(self).shift() == old(self).shift(),
            newly == (sig == 1),
            newly ==> final(self).coeff(idx.x as int, idx.y as int) == (Coeff::Significant {
                value: (crate::bit_reader::two_pow(old(self).shift() as nat)) as i32,
                is_negative: false,
            }),
            !newly ==> final(self).coeff(idx.x as int, idx.y as int) == old(self).coeff(
                idx.x as int,
                idx.y as int,
            ),
            forall|x: int, y: int|
                old(self).in_bounds(x, y) && !(x == idx.x as int && y == idx.y as int)
                    ==> #[trigger] final(self).coeff(x, y) == old(self).coeff(x, y),
    {
        if sig == 1 {
            proof {
                crate::bit_reader::lemma_two_pow_pos(old(self).shift() as nat);
                crate::bit_reader::lemma_two_pow_le_2_30(old(self).shift() as nat);
            }
            self.make_significant(idx);
            true
        } else {
            false
        }
    }

    /// Decodes the significance of `idx` unless this bit-plane already coded
    /// it (the significance pass records a failed attempt in the
    /// coefficient), computing the context from the neighbourhood.
    pub fn significance_decode<D: Decoder>(&mut self, idx: CoeffIndex, decoder: &mut D) -> (newly:
        bool)
        requires
            old(self).wf(),
            old(self).in_bounds(idx.x as int, idx.y as int),
            old(self).coeff(idx.x as int, idx.y as int) is Insignificant,
        ensures
            final(self).wf(),
            CodeBlockDecoder::same_frame(*old(self), *final(self)),
            final(self).shift() == old(self).shift(),
            newly ==> match final(self).coeff(idx.x as int, idx.y as int) {
                Coeff::Significant { value: v, .. } => v == crate::bit_reader::two_pow(
                    old(self).shift() as nat,
                ),
                Coeff::Insignificant(_) => false,
            },
            !newly ==> final(self).coeff(idx.x as int, idx.y as int) == old(self).coeff(
                idx.x as int,
                idx.y as int,
            ),
            forall|x: int, y: int|
                old(self).in_bounds(x, y) && !(x == idx.x as int && y == idx.y as int)
                    ==> #[trigger] final(self).coeff(x, y) == old(self).coeff(x, y),
    {
        match self.coeff_at(idx) {
            Coeff::Insignificant(bs) => {
                if bs == self.bit_plane_shift {
                    // Already coded at this bit-plane by the significance
                    // pass; the cleanup pass skips it without reading.
                    return false;
                }
            },
            Coeff::Significant { .. } => {},
        }
        let cx = self.significance_context(idx);
        self.significance_decode_ctx(cx, idx, decoder)
    }

    /// Decodes one magnitude-refinement bit for a significant coefficient
    /// and ORs it into the magnitude at the current bit-plane: the magnitude
    /// never shrinks and the sign is untouched.
    pub fn magnitude_decode<D: Decoder>(&mut self, idx: CoeffIndex, decoder: &mut D)
        requires
            old(self).wf(),
            old(self).in_bounds(idx.x as int, idx.y as int),
            old(self).coeff(idx.x as int, idx.y as int) is Significant,
        ensures
            final(self).wf(),
            CodeBlockDecoder::same_frame(*old(self), *final(self)),
            final(self).shift() == old(self).shift(),
            match (old(self).coeff(idx.x as int, idx.y as int), final(self).coeff(
                idx.x as int,
                idx.y as int,
            )) {
                (
                    Coeff::Significant { value: v, is_negative: n },
                    Coeff::Significant { value: v2, is_negative: n2 },
                ) => n2 == n && v <= v2,
                _ => false,
            },
            // Some decoded bit was OR-ed into the magnitude at the current
            // bit-plane; `apply_refinement_bit` says what each bit does.
            exists|b: u8|
                b <= 1 && #[trigger] CodeBlockDecoder::refinement_applied(
                    *old(self),
                    *final(self),
                    idx.x as int,
                    idx.y as int,
                    b,
                ),
            forall|x: int, y: int|
                old(self).in_bounds(x, y) && !(x == idx.x as int && y == idx.y as int)
                    ==> #[trigger] final(self).coeff(x, y) == old(self).coeff(x, y),
    {
        let cx = self.magnitude_context(idx);
        let b = decoder.decode_bit(cx);
        self.apply_refinement_bit(idx, b);
        proof {
            assert(CodeBlockDecoder::refinement_applied(
                *old(self),
                *self,
                idx.x as int,
                idx.y as int,
                b,
            ));
        }
    }

    /// Applies one decoded refinement decision to a significant
    /// coefficient: the bit is OR-ed into the magnitude at the current
    /// bit-plane; the sign is untouched.
    pub fn apply_refinement_bit(&mut self, idx: CoeffIndex, b: u8)
        requires
            old(self).wf(),
            old(self).in_bounds(idx.x as int, idx.y as int),
            old(self).coeff(idx.x as int, idx.y as int) is Significant,
            b <= 1,
        ensures
            final(self).wf(),
            CodeBlockDecoder::same_frame(*old(self), *final(self)),
            final(self).shift() == old(self).shift(),
            match (old(self).coeff(idx.x as int, idx.y as int), final(self).coeff(
                idx.x as int,
                idx.y as int,
            )) {
                (
                    Coeff::Significant { value: v, is_negative: n },
                    Coeff::Significant { value: v2, is_negative: n2 },
                ) => n2 == n && v2 == (v | ((b as i32) << (old(self).shift() as u32))) && v <= v2,
                _ => false,
            },
            forall|x: int, y: int|
                old(self).in_bounds(x, y) && !(x == idx.x as int && y == idx.y as int)
                    ==> #[trigger] final(self).coeff(x, y) == old(self).coeff(x, y),
    {
        match self.coeff_at(idx) {
            Coeff::Significant { value, is_negative } => {
                let bit: i32 = (b as i32) << (self.bit_plane_shift as u32);
                let value2: i32 = value | bit;
                proof {
                    let v = value;
                    let v2 = value2;
                    let bb = b;
                    let s = self.bit_plane_shift as u32;
                    assert(v <= v2 && v2 >= 0) by (bit_vector)
                        requires
                            v2 == v | ((bb as i32) << s),
                            v >= 0,
                            bb <= 1,
                            s < 31,
                    ;
                }
                self.set_coeff(idx, Coeff::Significant { value: value2, is_negative });
            },
            Coeff::Insignificant(_) => {},
        }
    }

    /// Magnitudes only grow from `a` to `b`: insignificant coefficients are
    /// untouched and significant ones keep their sign while their magnitude
    /// never shrinks.
    pub open spec fn refines(a: CodeBlockDecoder, b: CodeBlockDecoder) -> bool {
        forall|x: int, y: int|
            0 <= x < a.w() && 0 <= y < a.h() ==> match #[trigger] a.coeff(x, y) {
                Coeff::Significant { value: v, is_negative: n } => match b.coeff(x, y) {
                    Coeff::Significant { value: v2, is_negative: n2 } => n2 == n && v <= v2,
                    Coeff::Insignificant(_) => false,
                },
                Coeff::Insignificant(_) => b.coeff(x, y) == a.coeff(x, y),
            }
    }

    /// Untouched significant coefficients make the evolution monotone.
    pub proof fn lemma_keeps_implies_monotone(a: CodeBlockDecoder, b: CodeBlockDecoder)
        requires
            CodeBlockDecoder::keeps_significant(a, b),
        ensures
            CodeBlockDecoder::sig_monotone(a, b),
    {
    }

    /// Pure refinement makes the evolution monotone.
    pub proof fn lemma_refines_implies_monotone(a: CodeBlockDecoder, b: CodeBlockDecoder)
        requires
            CodeBlockDecoder::refines(a, b),
        ensures
            CodeBlockDecoder::sig_monotone(a, b),
    {
    }

    /// Composes a one-coefficient step of a significance-coding pass (the
    /// stepped coefficient was insignificant; it stays insignificant or
    /// gains exactly one magnitude bit) onto the pass made so far.
    proof fn lemma_step_compose(
        a: CodeBlockDecoder,
        b: CodeBlockDecoder,
        c: CodeBlockDecoder,
        ix: int,
        iy: int,
    )
        requires
            a.w() == b.w() && a.h() == b.h() && b.w() == c.w() && b.h() == c.h(),
            b.shift() == a.shift(),
            CodeBlockDecoder::keeps_significant(a, b),
            CodeBlockDecoder::fresh_significance_at(a, b, a.shift()),
            a.in_bounds(ix, iy),
            forall|x: int, y: int|
                b.in_bounds(x, y) && !(x == ix && y == iy) ==> #[trigger] c.coeff(x, y) == b.coeff(
                    x,
                    y,
                ),
            b.coeff(ix, iy) is Insignificant,
            match c.coeff(ix, iy) {
                Coeff::Significant { value: v, .. } => v == crate::bit_reader::two_pow(
                    a.shift() as nat,
                ),
                Coeff::Insignificant(_) => true,
            },
        ensures
            CodeBlockDecoder::keeps_significant(a, c),
            CodeBlockDecoder::fresh_significance_at(a, c, a.shift()),
    {
        assert forall|x: int, y: int|
            0 <= x < a.w() && 0 <= y < a.h() && (#[trigger] a.coeff(x, y)) is Significant
                implies c.coeff(x, y) == a.coeff(x, y) by {
            assert(b.coeff(x, y) == a.coeff(x, y));
        }
        assert forall|x: int, y: int|
            0 <= x < a.w() && 0 <= y < a.h() && (#[trigger] a.coeff(x, y)) is Insignificant
                implies match c.coeff(x, y) {
            Coeff::Significant { value: v, .. } => v == crate::bit_reader::two_pow(
                a.shift() as nat,
            ),
            Coeff::Insignificant(_) => true,
        } by {
            if !(x == ix && y == iy) {
                assert(c.coeff(x, y) == b.coeff(x, y));
            }
        }
    }

    /// Composes the sign-bit step right after a fresh significance
    /// transition: the magnitude stays one bit, only the sign is fixed.
    proof fn lemma_sign_step_compose(
        a: CodeBlockDecoder,
        b: CodeBlockDecoder,
        c: CodeBlockDecoder,
        ix: int,
        iy: int,
    )
        requires
            a.w() == b.w() && a.h() == b.h() && b.w() == c.w() && b.h() == c.h(),
            b.shift() == a.shift(),
            CodeBlockDecoder::keeps_significant(a, b),
            CodeBlockDecoder::fresh_significance_at(a, b, a.shift()),
            a.in_bounds(ix, iy),
            a.coeff(ix, iy) is Insignificant,
            forall|x: int, y: int|
                b.in_bounds(x, y) && !(x == ix && y == iy) ==> #[trigger] c.coeff(x, y) == b.coeff(
                    x,
                    y,
                ),
            match (b.coeff(ix, iy), c.coeff(ix, iy)) {
                (Coeff::Significant { value: v, .. }, Coeff::Significant { value: v2, .. }) => v2
                    == v,
                _ => false,
            },
        ensures
            CodeBlockDecoder::keeps_significant(a, c),
            CodeBlockDecoder::fresh_significance_at(a, c, a.shift()),
    {
        assert forall|x: int, y: int|
            0 <= x < a.w() && 0 <= y < a.h() && (#[trigger] a.coeff(x, y)) is Significant
                implies c.coeff(x, y) == a.coeff(x, y) by {
            assert(b.coeff(x, y) == a.coeff(x, y));
        }
        assert forall|x: int, y: int|
            0 <= x < a.w() && 0 <= y < a.h() && (#[trigger] a.coeff(x, y)) is Insignificant
                implies match c.coeff(x, y) {
            Coeff::Significant { value: v, .. } => v == crate::bit_reader::two_pow(
                a.shift() as nat,
            ),
            Coeff::Insignificant(_) => true,
        } by {
            if !(x == ix && y == iy) {
                assert(c.coeff(x, y) == b.coeff(x, y));
            }
        }
    }

    /// Composes a one-coefficient refinement step onto the refinements made
    /// so far.
    proof fn lemma_refine_compose(
        a: CodeBlockDecoder,
        b: CodeBlockDecoder,
        c: CodeBlockDecoder,
        ix: int,
        iy: int,
    )
        requires
            a.w() == b.w() && a.h() == b.h() && b.w() == c.w() && b.h() == c.h(),
            CodeBlockDecoder::refines(a, b),
            a.in_bounds(ix, iy),
            forall|x: int, y: int|
                b.in_bounds(x, y) && !(x == ix && y == iy) ==> #[trigger] c.coeff(x, y) == b.coeff(
                    x,
                    y,
                ),
            match (b.coeff(ix, iy), c.coeff(ix, iy)) {
                (
                    Coeff::Significant { value: v, is_negative: n },
                    Coeff::Significant { value: v2, is_negative: n2 },
                ) => n2 == n && v <= v2,
                _ => false,
            },
        ensures
            CodeBlockDecoder::refines(a, c),
    {
        assert forall|x: int, y: int|
            0 <= x < a.w() && 0 <= y < a.h() implies match #[trigger] a.coeff(x, y) {
            Coeff::Significant { value: v, is_negative: n } => match c.coeff(x, y) {
                Coeff::Significant { value: v2, is_negative: n2 } => n2 == n && v <= v2,
                Coeff::Insignificant(_) => false,
            },
            Coeff::Insignificant(_) => c.coeff(x, y) == a.coeff(x, y),
        } by {
            if !(x == ix && y == iy) {
                assert(c.coeff(x, y) == b.coeff(x, y));
            } else {
                assert(match a.coeff(x, y) {
                    Coeff::Significant { value: v, is_negative: n } => match b.coeff(x, y) {
                        Coeff::Significant { value: v2, is_negative: n2 } => n2 == n && v <= v2,
                        Coeff::Insignificant(_) => false,
                    },
                    Coeff::Insignificant(_) => b.coeff(x, y) == a.coeff(x, y),
                });
            }
        }
    }

    /// The significance-propagation pass: every still-insignificant
    /// coefficient with a non-zero neighbourhood context gets one
    /// significance bit; a transition decodes its sign at once, a
    /// non-transition is recorded so the cleanup pass skips it.
    pub fn pass_significance<D: Decoder>(&mut self, coder: &mut D)
        requires
            old(self).wf(),
        ensures
            final(self).wf(),
            CodeBlockDecoder::same_frame(*old(self), *final(self)),
            final(self).shift() == old(self).shift(),
            CodeBlockDecoder::keeps_significant(*old(self), *final(self)),
            CodeBlockDecoder::fresh_significance_at(*old(self), *final(self), old(self).shift()),
    {
        let mut by: i32 = 0;
        while by < self.height
            invariant
                self.wf(),
                0 <= by,
                CodeBlockDecoder::same_frame(*old(self), *self),
                self.shift() == old(self).shift(),
                CodeBlockDecoder::keeps_significant(*old(self), *self),
                CodeBlockDecoder::fresh_significance_at(*old(self), *self, old(self).shift()),
            decreases self.height + 4 - by,
        {
            let mut x: i32 = 0;
            while x < self.width
                invariant
                    self.wf(),
                    0 <= by < self.height,
                    0 <= x,
                    CodeBlockDecoder::same_frame(*old(self), *self),
                    self.shift() == old(self).shift(),
                    CodeBlockDecoder::keeps_significant(*old(self), *self),
                    CodeBlockDecoder::fresh_significance_at(*old(self), *self, old(self).shift()),
                decreases self.width - x,
            {
                let yend: i32 = if by + 4 < self.height {
                    by + 4
                } else {
                    self.height
                };
                let mut y: i32 = by;
                while y < yend
                    invariant
                        self.wf(),
                        0 <= by <= y,
                        yend <= self.height,
                        0 <= x < self.width,
                        CodeBlockDecoder::same_frame(*old(self), *self),
                        self.shift() == old(self).shift(),
                        CodeBlockDecoder::keeps_significant(*old(self), *self),
                        CodeBlockDecoder::fresh_significance_at(
                            *old(self),
                            *self,
                            old(self).shift(),
                        ),
                    decreases yend - y,
                {
                    let idx = CoeffIndex { y, x };
                    if !self.is_significant(idx) {
                        let sig_ctx = self.significance_context(idx);
                        if sig_ctx != 0 {
                            let ghost pre = *self;
                            let newly = self.significance_decode_ctx(sig_ctx, idx, coder);
                            proof {
                                Self::lemma_step_compose(
                                    *old(self),
                                    pre,
                                    *self,
                                    x as int,
                                    y as int,
                                );
                            }
                            if newly {
                                let ghost mid = *self;
                                self.decode_sign_bit(idx, coder);
                                proof {
                                    Self::lemma_sign_step_compose(
                                        *old(self),
                                        mid,
                                        *self,
                                        x as int,
                                        y as int,
                                    );
                                }
                            } else {
                                let shift = self.bit_plane_shift;
                                let ghost mid = *self;
                                self.set_coeff(idx, Coeff::Insignificant(shift));
                                proof {
                                    Self::lemma_step_compose(
                                        *old(self),
                                        mid,
                                        *self,
                                        x as int,
                                        y as int,
                                    );
                                }
                            }
                        }
                    }
                    y = y + 1;
                }
                x = x + 1;
            }
            by = by + 4;
        }
    }

    /// The magnitude-refinement pass: every coefficient that was significant
    /// before this bit-plane receives one more magnitude bit.
    pub fn pass_refinement<D: Decoder>(&mut self, coder: &mut D)
        requires
            old(self).wf(),
        ensures
            final(self).wf(),
            CodeBlockDecoder::same_frame(*old(self), *final(self)),
            final(self).shift() == old(self).shift(),
            CodeBlockDecoder::refines(*old(self), *final(self)),
    {
        let mut by: i32 = 0;
        while by < self.height
            invariant
                self.wf(),
                0 <= by,
                CodeBlockDecoder::same_frame(*old(self), *self),
                self.shift() == old(self).shift(),
                CodeBlockDecoder::refines(*old(self), *self),
            decreases self.height + 4 - by,
        {
            let mut x: i32 = 0;
            while x < self.width
                invariant
                    self.wf(),
                    0 <= by < self.height,
                    0 <= x,
                    CodeBlockDecoder::same_frame(*old(self), *self),
                    self.shift() == old(self).shift(),
                    CodeBlockDecoder::refines(*old(self), *self),
                decreases self.width - x,
            {
                let yend: i32 = if by + 4 < self.height {
                    by + 4
                } else {
                    self.height
                };
                let mut y: i32 = by;
                while y < yend
                    invariant
                        self.wf(),
                        0 <= by <= y,
                        yend <= self.height,
                        0 <= x < self.width,
                        CodeBlockDecoder::same_frame(*old(self), *self),
                        self.shift() == old(self).shift(),
                        CodeBlockDecoder::refines(*old(self), *self),
                    decreases yend - y,
                {
                    let idx = CoeffIndex { y, x };
                    if self.is_significant(idx) {
                        if !self.is_bit_plane_set(idx) {
                            let ghost pre = *self;
                            self.magnitude_decode(idx, coder);
                            proof {
                                Self::lemma_refine_compose(
                                    *old(self),
                                    pre,
                                    *self,
                                    x as int,
                                    y as int,
                                );
                            }
                        }
                    }
                    y = y + 1;
                }
                x = x + 1;
            }
            by = by + 4;
        }
    }

    /// The cleanup pass: remaining insignificant coefficients not coded by
    /// this plane's significance pass each get one significance bit. A full
    /// column strip of four insignificant coefficients with no significant
    /// neighbour enters run mode first: one run-length bit decides whether
    /// the strip stays entirely insignificant, and if not, two uniform bits
    /// locate its first significant coefficient.
    pub fn pass_cleanup<D: Decoder>(&mut self, coder: &mut D)
        requires
            old(self).wf(),
        ensures
            final(self).wf(),
            CodeBlockDecoder::same_frame(*old(self), *final(self)),
            final(self).shift() == old(self).shift(),
            CodeBlockDecoder::keeps_significant(*old(self), *final(self)),
            CodeBlockDecoder::fresh_significance_at(*old(self), *final(self), old(self).shift()),
    {
        let mut by: i32 = 0;
        while by < self.height
            invariant
                self.wf(),
                0 <= by,
                CodeBlockDecoder::same_frame(*old(self), *self),
                self.shift() == old(self).shift(),
                CodeBlockDecoder::keeps_significant(*old(self), *self),
                CodeBlockDecoder::fresh_significance_at(*old(self), *self, old(self).shift()),
            decreases self.height + 4 - by,
        {
            let mut x: i32 = 0;
            while x < self.width
                invariant
                    self.wf(),
                    0 <= by < self.height,
                    0 <= x,
                    CodeBlockDecoder::same_frame(*old(self), *self),
                    self.shift() == old(self).shift(),
                    CodeBlockDecoder::keeps_significant(*old(self), *self),
                    CodeBlockDecoder::fresh_significance_at(*old(self), *self, old(self).shift()),
                decreases self.width - x,
            {
                let yend: i32 = if by + 4 < self.height {
                    by + 4
                } else {
                    self.height
                };

                // Run mode asks for a full strip of four insignificant
                // coefficients, none with a significant neighbour.
                let mut all_clear: bool = by + 4 <= self.height;
                let mut yy: i32 = by;
                while yy < yend
                    invariant
                        self.wf(),
                        0 <= by <= yy,
                        yend <= self.height,
                        0 <= x < self.width,
                        CodeBlockDecoder::same_frame(*old(self), *self),
                        self.shift() == old(self).shift(),
                        CodeBlockDecoder::keeps_significant(*old(self), *self),
                        CodeBlockDecoder::fresh_significance_at(*old(self), *self, old(self).shift()),
                        all_clear ==> by + 4 <= self.height,
                        all_clear ==> forall|j: int|
                            by <= j < yy ==> !self.sig(x as int, j)
                                && self.spec_significance_context(x as int, j) == 0,
                    decreases yend - yy,
                {
                    let cidx = CoeffIndex { y: yy, x };
                    if self.is_significant(cidx) || self.significance_context(cidx) != 0 {
                        all_clear = false;
                    }
                    yy = yy + 1;
                }

                let mut skip_column = false;
                let mut offset_y: i32 = 0;
                if all_clear {
                    let c4 = coder.decode_bit(RUN_LEN);
                    if c4 == 0 {
                        // The whole strip stays insignificant.
                        skip_column = true;
                    } else {
                        let a = coder.decode_bit(UNIFORM);
                        let b = coder.decode_bit(UNIFORM);
                        let c5: u8 = 2 * a + b;
                        let nsi = CoeffIndex { x, y: by + c5 as i32 };
                        proof {
                            let jx = x as int;
                            let jy = by as int + c5 as int;
                            assert(!self.sig(jx, jy));
                            assert(self.coeff(jx, jy) is Insignificant);
                            if old(self).coeff(jx, jy) is Significant {
                                assert(self.coeff(jx, jy) == old(self).coeff(jx, jy));
                            }
                            crate::bit_reader::lemma_two_pow_pos(self.shift() as nat);
                            crate::bit_reader::lemma_two_pow_le_2_30(self.shift() as nat);
                        }
                        let ghost pre = *self;
                        self.make_significant(nsi);
                        proof {
                            Self::lemma_step_compose(
                                *old(self),
                                pre,
                                *self,
                                nsi.x as int,
                                nsi.y as int,
                            );
                        }
                        let ghost mid = *self;
                        self.decode_sign_bit(nsi, coder);
                        proof {
                            Self::lemma_sign_step_compose(
                                *old(self),
                                mid,
                                *self,
                                nsi.x as int,
                                nsi.y as int,
                            );
                        }
                        offset_y = c5 as i32 + 1;
                    }
                }
                if !skip_column {
                    let mut y: i32 = by + offset_y;
                    while y < yend
                        invariant
                            self.wf(),
                            0 <= by <= y,
                            yend <= self.height,
                            0 <= x < self.width,
                            CodeBlockDecoder::same_frame(*old(self), *self),
                            self.shift() == old(self).shift(),
                            CodeBlockDecoder::keeps_significant(*old(self), *self),
                            CodeBlockDecoder::fresh_significance_at(
                                *old(self),
                                *self,
                                old(self).shift(),
                            ),
                        decreases yend - y,
                    {
                        let idx = CoeffIndex { y, x };
                        if !self.is_significant(idx) {
                            let ghost pre = *self;
                            let newly = self.significance_decode(idx, coder);
                            proof {
                                Self::lemma_step_compose(
                                    *old(self),
                                    pre,
                                    *self,
                                    x as int,
                                    y as int,
                                );
                            }
                            if newly {
                                let ghost mid = *self;
                                self.decode_sign_bit(idx, coder);
                                proof {
                                    Self::lemma_sign_step_compose(
                                        *old(self),
                                        mid,
                                        *self,
                                        x as int,
                                        y as int,
                                    );
                                }
                            }
                        }
                        y = y + 1;
                    }
                }
                x = x + 1;
            }
            by = by + 4;
        }
    }

    /// Runs the block's coding passes in the standard order: cleanup on the
    /// most significant non-zero bit-plane, then significance-propagation,
    /// magnitude-refinement and cleanup per lower plane. Significance only
    /// ever advances: a significant coefficient never reverts, keeps its
    /// sign, and its magnitude never shrinks.
    pub fn decode<D: Decoder>(&mut self, coder: &mut D) -> (r: Result<(), CodeBlockDecodeError>)
        requires
            old(self).wf(),
            old(self).passes() <= 3 * old(self).shift() + 1,
        ensures
            final(self).wf(),
            CodeBlockDecoder::same_frame(*old(self), *final(self)),
            CodeBlockDecoder::sig_monotone(*old(self), *final(self)),
            // One bit-plane is decoded per cycle of three passes after the
            // initial cleanup.
            old(self).passes() == 0 ==> *final(self) == *old(self),
            old(self).passes() >= 1 ==> final(self).shift() == old(self).shift() - (old(
                self,
            ).passes() + 1) / 3,
            r is Ok,
    {
        if self.no_passes == 0 {
            return Ok(());
        }
        let ghost total = self.no_passes;
        let ghost shift0 = self.shift();
        let ghost start = *self;
        self.pass_cleanup(coder);
        proof {
            Self::lemma_keeps_implies_monotone(start, *self);
        }
        let mut remaining: u8 = self.no_passes - 1;
        while remaining > 0
            invariant
                self.wf(),
                CodeBlockDecoder::same_frame(*old(self), *self),
                CodeBlockDecoder::sig_monotone(*old(self), *self),
                remaining <= 3 * self.shift(),
                total == old(self).passes() >= 1,
                shift0 == old(self).shift(),
                remaining > 0 ==> (total - 1 - remaining) % 3 == 0 && self.shift() == shift0 - (
                total - 1 - remaining) / 3,
                remaining == 0 ==> self.shift() == shift0 - (total + 1) / 3,
            decreases remaining,
        {
            // Each cycle of three passes decodes one lower bit-plane.
            self.num_zero_bit_plane(1);
            let ghost s1 = *self;
            self.pass_significance(coder);
            proof {
                Self::lemma_keeps_implies_monotone(s1, *self);
                Self::lemma_sig_monotone_trans(*old(self), s1, *self);
            }
            remaining = remaining - 1;
            if remaining > 0 {
                let ghost s2 = *self;
                self.pass_refinement(coder);
                proof {
                    Self::lemma_refines_implies_monotone(s2, *self);
                    Self::lemma_sig_monotone_trans(*old(self), s2, *self);
                }
                remaining = remaining - 1;
                if remaining > 0 {
                    let ghost s3 = *self;
                    self.pass_cleanup(coder);
                    proof {
                        Self::lemma_keeps_implies_monotone(s3, *self);
                        Self::lemma_sig_monotone_trans(*old(self), s3, *self);
                    }
                    remaining = remaining - 1;
                }
            }
        }
        Ok(())
    }

    /// The signed reconstruction value of one coefficient: the decoded
    /// magnitude, negated for a negative sign; insignificant coefficients
    /// read as zero.
    pub open spec fn spec_signed(c: Coeff) -> i32 {
        match c {
            Coeff::Significant { value, is_negative } => if is_negative {
                (-(value as int)) as i32
            } else {
                value as i32
            },
            Coeff::Insignificant(_) => 0i32,
        }
    }

    /// The block's signed coefficients in raster order.
    pub open spec fn flat_coeffs(self) -> Seq<i32> {
        Seq::new(
            (self.w() * self.h()) as nat,
            |i: int| Self::spec_signed(self.coeff(i % self.w(), i / self.w())),
        )
    }

    /// Returns the signed coefficient values in raster order; decoding may
    /// continue on the block afterwards.
    pub fn coefficients(&self) -> (r: Vec<i32>)
        requires
            self.wf(),
        ensures
            r@ == self.flat_coeffs(),
    {
        let mut out: Vec<i32> = Vec::new();
        let mut y: i32 = 0;
        while y < self.height
            invariant
                self.wf(),
                0 <= y <= self.height,
                out@.len() == y * self.w(),
                out@.len() <= y * self.w(),
                forall|i: int| 0 <= i < out@.len() ==> #[trigger] out@[i] == self.flat_coeffs()[i],
            decreases self.height - y,
        {
            let mut x: i32 = 0;
            proof {
                assert(y * self.w() >= 0 && (y + 1) * self.w() == y * self.w() + self.w()
                    && (y + 1) * self.w() <= self.h() * self.w() && self.h() * self.w()
                    <= 4096 * 4096) by (nonlinear_arith)
                    requires
                        0 <= y < self.h(),
                        1 <= self.w() <= 4096,
                        1 <= self.h() <= 4096,
                ;
            }
            while x < self.width
                invariant
                    self.wf(),
                    0 <= y < self.height,
                    0 <= x <= self.width,
                    out@.len() == y * self.w() + x,
                    y * self.w() >= 0,
                    y * self.w() + self.w() <= 4096 * 4096,
                    forall|i: int|
                        0 <= i < out@.len() ==> #[trigger] out@[i] == self.flat_coeffs()[i],
                decreases self.width - x,
            {
                let c = self.coeff_at(CoeffIndex { y, x });
                let v: i32 = match c {
                    Coeff::Significant { value, is_negative } => {
                        if is_negative {
                            -value
                        } else {
                            value
                        }
                    },
                    Coeff::Insignificant(_) => 0,
                };
                proof {
                    vstd::arithmetic::div_mod::lemma_fundamental_div_mod_converse(
                        y * self.w() + x,
                        self.w(),
                        y as int,
                        x as int,
                    );
                    assert(y * self.w() + x < self.w() * self.h()) by (nonlinear_arith)
                        requires
                            0 <= x < self.w(),
                            0 <= y < self.h(),
                    ;
                }
                out.push(v);
                x = x + 1;
            }
            y = y + 1;
        }
        proof {
            assert(y * self.w() == self.h() * self.w() && self.w() * self.h() == self.h()
                * self.w()) by (nonlinear_arith)
                requires
                    y == self.h(),
            ;
            assert(out@ =~= self.flat_coeffs());
        }
        out
    }
}

} // verus!
