//! The inverse (and forward) discrete wavelet transform, 5-3 reversible
//! variant, as lifting steps on integer samples.
//!
//! The two-dimensional transform interleaves four subbands, then runs the
//! one-dimensional filter over every row and every column. The
//! one-dimensional filter is a predict step on odd positions and an update
//! step on even positions, with whole-sample symmetric extension at the
//! boundaries; position parity is counted on the absolute coordinate, so a
//! signal starting at an odd coordinate swaps the roles of its entries.
//!
//! Register arithmetic is 64-bit, taken modulo 2^64; on samples that fit,
//! it coincides with exact integer arithmetic, and the forward-then-inverse
//! round trip reproduces the input exactly for every 64-bit input.

use vstd::prelude::*;

verus! {

/// The lifting constants of the 9-7 irreversible filter, held as exact
/// decimal fractions over `LIFT_SCALE`. The real-valued 9-7 lifting itself
/// lives outside this crate's transform engine.
pub const LIFT_SCALE: i64 = 1_000_000_000_000_000;

/// Numerator of the first (predict) lifting constant of the 9-7 filter.
pub const ALPHA_NUMERATOR: i64 = -1_586_134_342_059_924;

/// Numerator of the second (update) lifting constant of the 9-7 filter.
pub const BETA_NUMERATOR: i64 = -52_980_118_572_961;

/// Numerator of the third (predict) lifting constant of the 9-7 filter.
pub const GAMMA_NUMERATOR: i64 = 882_911_075_530_934;

/// Numerator of the fourth (update) lifting constant of the 9-7 filter.
pub const DELTA_NUMERATOR: i64 = 443_506_852_043_971;

/// Numerator of the scaling constant of the 9-7 filter.
pub const K_NUMERATOR: i64 = 1_230_174_104_914_001;

/// Filter type selection.
#[derive(Debug, Clone, Copy, PartialEq, Eq, Structural)]
pub enum FilterType {
    /// 5-3 reversible filter for lossless coding.
    Reversible53,
    /// 9-7 irreversible filter for lossy coding; its real-valued lifting is
    /// not implemented by this crate's transform engine.
    Irreversible97,
}

/// Subband types of one decomposition level.
#[derive(Debug, Clone, Copy, PartialEq, Eq, Structural)]
pub enum SubBandType {
    /// Low-pass horizontal, low-pass vertical.
    LL,
    /// High-pass horizontal, low-pass vertical.
    HL,
    /// Low-pass horizontal, high-pass vertical.
    LH,
    /// High-pass horizontal, high-pass vertical.
    HH,
}

/// A two-dimensional sample array with an absolute coordinate offset:
/// column indices run over `[u0, u0 + width)` and row indices over
/// `[v0, v0 + height)`.
pub struct Array2D<T> {
    rows: Vec<Vec<T>>,
    width: usize,
    height: usize,
    /// Offset of the first column index.
    pub u0: i32,
    /// Offset of the first row index.
    pub v0: i32,
}

impl<T: Copy> Array2D<T> {
    /// The stored width.
    pub closed spec fn spec_width(self) -> int {
        self.width as int
    }

    /// The stored height.
    pub closed spec fn spec_height(self) -> int {
        self.height as int
    }

    /// The column offset.
    pub closed spec fn spec_u0(self) -> int {
        self.u0 as int
    }

    /// The row offset.
    pub closed spec fn spec_v0(self) -> int {
        self.v0 as int
    }

    /// The element at 0-based column `c`, row `r`.
    pub closed spec fn at(self, c: int, r: int) -> T {
        self.rows@[r]@[c]
    }

    /// Row `r` as a sequence.
    pub closed spec fn row(self, r: int) -> Seq<T> {
        self.rows@[r]@
    }

    /// Column `c` as a sequence.
    pub open spec fn col(self, c: int) -> Seq<T> {
        Seq::new(self.spec_height() as nat, |r: int| self.at(c, r))
    }

    /// A row reads element-wise through `at`: `row(r)` has the array's
    /// width and `row(r)[c] == at(c, r)`.
    pub proof fn lemma_row_index(self, r: int)
        requires
            self.wf(),
            0 <= r < self.spec_height(),
        ensures
            self.row(r).len() == self.spec_width(),
            forall|c: int| 0 <= c < self.spec_width() ==> #[trigger] self.row(r)[c] == self.at(
                c,
                r,
            ),
    {
    }

    /// A `width` x `height` grid of equal-length rows, with dimensions and
    /// offsets small enough for all coordinate arithmetic.
    pub closed spec fn wf(self) -> bool {
        &&& self.width <= 0x100000
        &&& self.height <= 0x100000
        &&& -0x100000 <= self.u0 <= 0x100000
        &&& -0x100000 <= self.v0 <= 0x100000
        &&& self.rows@.len() == self.height
        &&& forall|r: int| 0 <= r < self.rows@.len() ==> (#[trigger] self.rows@[r])@.len() == self.width
    }

    /// Creates a `width` x `height` array at offset `(0, 0)` whose elements
    /// all carry the element type's default value.
    pub fn new(width: usize, height: usize) -> (r: Array2D<T>) where T: Default
        requires
            width <= 0x100000,
            height <= 0x100000,
        ensures
            r.wf(),
            r.spec_width() == width,
            r.spec_height() == height,
            r.spec_u0() == 0,
            r.spec_v0() == 0,
            forall|c: int, r2: int|
                0 <= c < width && 0 <= r2 < height ==> call_ensures(
                    T::default,
                    (),
                    #[trigger] r.at(c, r2),
                ),
    {
        let mut rows: Vec<Vec<T>> = Vec::new();
        let mut y: usize = 0;
        while y < height
            invariant
                y <= height,
                rows@.len() == y,
                forall|r2: int| 0 <= r2 < y ==> (#[trigger] rows@[r2])@.len() == width,
                forall|c: int, r2: int|
                    0 <= r2 < y && 0 <= c < width ==> call_ensures(
                        T::default,
                        (),
                        #[trigger] rows@[r2]@[c],
                    ),
            decreases height - y,
        {
            let mut row: Vec<T> = Vec::new();
            let mut x: usize = 0;
            while x < width
                invariant
                    x <= width,
                    row@.len() == x,
                    forall|c: int| 0 <= c < x ==> call_ensures(T::default, (), #[trigger] row@[c]),
                decreases width - x,
            {
                row.push(T::default());
                x = x + 1;
            }
            rows.push(row);
            y = y + 1;
        }
        Array2D { rows, width, height, u0: 0, v0: 0 }
    }

    /// Creates a default-filled array with the given coordinate offsets.
    pub fn with_offset(width: usize, height: usize, u0: i32, v0: i32) -> (r: Array2D<T>) where
        T: Default
        requires
            width <= 0x100000,
            height <= 0x100000,
            -0x100000 <= u0 <= 0x100000,
            -0x100000 <= v0 <= 0x100000,
        ensures
            r.wf(),
            r.spec_width() == width,
            r.spec_height() == height,
            r.spec_u0() == u0,
            r.spec_v0() == v0,
            forall|c: int, r2: int|
                0 <= c < width && 0 <= r2 < height ==> call_ensures(
                    T::default,
                    (),
                    #[trigger] r.at(c, r2),
                ),
    {
        let mut a = Array2D::<T>::new(width, height);
        let ghost pre = a;
        a.u0 = u0;
        a.v0 = v0;
        proof {
            assert forall|c: int, r2: int| 0 <= c < width && 0 <= r2 < height implies call_ensures(
                T::default,
                (),
                #[trigger] a.at(c, r2),
            ) by {
                assert(a.at(c, r2) == pre.at(c, r2));
            }
        }
        a
    }

    /// Wraps existing data, given in raster order, as a `width` x `height`
    /// array at offset `(0, 0)`.
    pub fn from_data(data: Vec<T>, width: usize, height: usize) -> (r: Array2D<T>)
        requires
            width <= 0x100000,
            height <= 0x100000,
            data@.len() == width * height,
        ensures
            r.wf(),
            r.spec_width() == width,
            r.spec_height() == height,
            r.spec_u0() == 0,
            r.spec_v0() == 0,
            forall|c: int, r2: int|
                0 <= c < width && 0 <= r2 < height ==> #[trigger] r.at(c, r2) == data@[r2 * width
                    + c],
    {
        let total = data.len();
        let mut rows: Vec<Vec<T>> = Vec::new();
        let mut y: usize = 0;
        while y < height
            invariant
                y <= height,
                width <= 0x100000,
                height <= 0x100000,
                total == data@.len(),
                data@.len() == width * height,
                rows@.len() == y,
                forall|r2: int| 0 <= r2 < y ==> (#[trigger] rows@[r2])@.len() == width,
                forall|c: int, r2: int|
                    0 <= r2 < y && 0 <= c < width ==> #[trigger] rows@[r2]@[c] == data@[r2 * width
                        + c],
            decreases height - y,
        {
            proof {
                assert(y * width + width <= height * width && y * width >= 0 && height * width
                    == width * height) by (nonlinear_arith)
                    requires
                        0 <= y < height,
                        width >= 0,
                ;
            }
            let base = y * width;
            let mut row: Vec<T> = Vec::new();
            let mut x: usize = 0;
            while x < width
                invariant
                    x <= width,
                    row@.len() == x,
                    base == y * width,
                    total == data@.len(),
                    base + width <= data@.len(),
                    forall|c: int| 0 <= c < x ==> #[trigger] row@[c] == data@[y * width + c],
                decreases width - x,
            {
                row.push(data[base + x]);
                x = x + 1;
            }
            rows.push(row);
            y = y + 1;
        }
        Array2D { rows, width, height, u0: 0, v0: 0 }
    }

    /// The width.
    pub fn width(&self) -> (r: usize)
        ensures
            r == self.spec_width(),
    {
        self.width
    }

    /// The height.
    pub fn height(&self) -> (r: usize)
        ensures
            r == self.spec_height(),
    {
        self.height
    }

    /// The element at absolute coordinates `(u, v)`.
    pub fn get(&self, u: i32, v: i32) -> (r: &T)
        requires
            self.wf(),
            self.spec_u0() <= u < self.spec_u0() + self.spec_width(),
            self.spec_v0() <= v < self.spec_v0() + self.spec_height(),
        ensures
            *r == self.at(u - self.spec_u0(), v - self.spec_v0()),
    {
        &self.rows[(v - self.v0) as usize][(u - self.u0) as usize]
    }

    /// A mutable reference to the element at absolute coordinates
    /// `(u, v)`.
    pub fn get_mut(&mut self, u: i32, v: i32) -> (r: &mut T)
        requires
            old(self).wf(),
            old(self).spec_u0() <= u < old(self).spec_u0() + old(self).spec_width(),
            old(self).spec_v0() <= v < old(self).spec_v0() + old(self).spec_height(),
        ensures
            *r == old(self).at(u - old(self).spec_u0(), v - old(self).spec_v0()),
            final(self).wf(),
            final(self).spec_width() == old(self).spec_width(),
            final(self).spec_height() == old(self).spec_height(),
            final(self).spec_u0() == old(self).spec_u0(),
            final(self).spec_v0() == old(self).spec_v0(),
            final(self).at(u - old(self).spec_u0(), v - old(self).spec_v0()) == *final(r),
            forall|c: int, r2: int|
                0 <= c < old(self).spec_width() && 0 <= r2 < old(self).spec_height() && !(c == u
                    - old(self).spec_u0() && r2 == v - old(self).spec_v0())
                    ==> #[trigger] final(self).at(c, r2) == old(self).at(c, r2),
    {
        let row_ref = &mut self.rows[(v - self.v0) as usize];
        &mut row_ref[(u - self.u0) as usize]
    }

    /// Overwrites the element at absolute coordinates `(u, v)`.
    pub fn set(&mut self, u: i32, v: i32, value: T)
        requires
            old(self).wf(),
            old(self).spec_u0() <= u < old(self).spec_u0() + old(self).spec_width(),
            old(self).spec_v0() <= v < old(self).spec_v0() + old(self).spec_height(),
        ensures
            final(self).wf(),
            final(self).spec_width() == old(self).spec_width(),
            final(self).spec_height() == old(self).spec_height(),
            final(self).spec_u0() == old(self).spec_u0(),
            final(self).spec_v0() == old(self).spec_v0(),
            final(self).at(u - old(self).spec_u0(), v - old(self).spec_v0()) == value,
            forall|c: int, r2: int|
                0 <= c < old(self).spec_width() && 0 <= r2 < old(self).spec_height() && !(c == u
                    - old(self).spec_u0() && r2 == v - old(self).spec_v0()) ==> #[trigger] final(self).at(c, r2)
                    == old(self).at(c, r2),
    {
        let row_ref = &mut self.rows[(v - self.v0) as usize];
        row_ref[(u - self.u0) as usize] = value;
    }

    /// Column `u` (absolute coordinate) as a vector, top to bottom.
    pub fn get_column(&self, u: i32) -> (r: Vec<T>)
        requires
            self.wf(),
            self.spec_u0() <= u < self.spec_u0() + self.spec_width(),
        ensures
            r@ == self.col(u - self.spec_u0()),
    {
        let c = (u - self.u0) as usize;
        let mut out: Vec<T> = Vec::new();
        let mut y: usize = 0;
        while y < self.height
            invariant
                self.wf(),
                c < self.spec_width(),
                y <= self.spec_height(),
                out@.len() == y,
                forall|r2: int| 0 <= r2 < y ==> #[trigger] out@[r2] == self.at(c as int, r2),
            decreases self.height - y,
        {
            out.push(self.rows[y][c]);
            y = y + 1;
        }
        proof {
            assert(out@ =~= self.col(c as int));
        }
        out
    }

    /// Overwrites column `u` (absolute coordinate) from a vector.
    pub fn set_column(&mut self, u: i32, values: &Vec<T>)
        requires
            old(self).wf(),
            old(self).spec_u0() <= u < old(self).spec_u0() + old(self).spec_width(),
            values@.len() == old(self).spec_height(),
        ensures
            final(self).wf(),
            final(self).spec_width() == old(self).spec_width(),
            final(self).spec_height() == old(self).spec_height(),
            final(self).spec_u0() == old(self).spec_u0(),
            final(self).spec_v0() == old(self).spec_v0(),
            forall|r2: int|
                0 <= r2 < old(self).spec_height() ==> #[trigger] final(self).at(
                    u - old(self).spec_u0(),
                    r2,
                ) == values@[r2],
            forall|c: int, r2: int|
                0 <= c < old(self).spec_width() && 0 <= r2 < old(self).spec_height() && c != u
                    - old(self).spec_u0() ==> #[trigger] final(self).at(c, r2) == old(self).at(c, r2),
    {
        let c = (u - self.u0) as usize;
        let mut y: usize = 0;
        while y < self.height
            invariant
                self.wf(),
                c < self.spec_width(),
                y <= self.spec_height(),
                values@.len() == self.spec_height(),
                self.spec_width() == old(self).spec_width(),
                self.spec_height() == old(self).spec_height(),
                self.spec_u0() == old(self).spec_u0(),
                self.spec_v0() == old(self).spec_v0(),
                c == u - old(self).spec_u0(),
                forall|r2: int| 0 <= r2 < y ==> #[trigger] self.at(c as int, r2) == values@[r2],
                forall|c2: int, r2: int|
                    0 <= c2 < old(self).spec_width() && 0 <= r2 < old(self).spec_height() && !(c2
                        == c && r2 < y) ==> #[trigger] self.at(c2, r2) == old(self).at(c2, r2),
            decreases self.height - y,
        {
            let ghost pre = *self;
            let row_ref = &mut self.rows[y];
            row_ref[c] = values[y];
            proof {
                assert forall|c2: int, r2: int|
                    0 <= c2 < old(self).spec_width() && 0 <= r2 < old(self).spec_height() && !(c2
                        == c && r2 < y + 1) implies #[trigger] self.at(c2, r2) == old(self).at(
                    c2,
                    r2,
                ) by {
                    assert(pre.at(c2, r2) == old(self).at(c2, r2));
                }
                assert forall|r2: int| 0 <= r2 < y + 1 implies #[trigger] self.at(c as int, r2)
                    == values@[r2] by {
                    if r2 < y {
                        assert(pre.at(c as int, r2) == values@[r2]);
                    }
                }
            }
            y = y + 1;
        }
    }

    /// Row `v` (absolute coordinate) as a vector.
    pub fn get_row(&self, v: i32) -> (r: Vec<T>)
        requires
            self.wf(),
            self.spec_v0() <= v < self.spec_v0() + self.spec_height(),
        ensures
            r@ == self.row(v - self.spec_v0()),
    {
        let mut out: Vec<T> = Vec::new();
        let r = (v - self.v0) as usize;
        let mut x: usize = 0;
        while x < self.width
            invariant
                self.wf(),
                r < self.spec_height(),
                x <= self.spec_width(),
                out@.len() == x,
                forall|c: int| 0 <= c < x ==> #[trigger] out@[c] == self.row(r as int)[c],
            decreases self.width - x,
        {
            out.push(self.rows[r][x]);
            x = x + 1;
        }
        proof {
            assert(out@ =~= self.row(r as int));
        }
        out
    }

    /// Overwrites row `v` (absolute coordinate) from a vector.
    pub fn set_row(&mut self, v: i32, values: &Vec<T>)
        requires
            old(self).wf(),
            old(self).spec_v0() <= v < old(self).spec_v0() + old(self).spec_height(),
            values@.len() == old(self).spec_width(),
        ensures
            final(self).wf(),
            final(self).spec_width() == old(self).spec_width(),
            final(self).spec_height() == old(self).spec_height(),
            final(self).spec_u0() == old(self).spec_u0(),
            final(self).spec_v0() == old(self).spec_v0(),
            final(self).row(v - old(self).spec_v0()) == values@,
            forall|r2: int|
                0 <= r2 < old(self).spec_height() && r2 != v - old(self).spec_v0()
                    ==> #[trigger] final(self).row(r2) == old(self).row(r2),
    {
        let r = (v - self.v0) as usize;
        let mut row: Vec<T> = Vec::new();
        let mut x: usize = 0;
        while x < self.width
            invariant
                self.wf(),
                r < self.spec_height(),
                x <= self.spec_width(),
                values@.len() == self.spec_width(),
                row@.len() == x,
                forall|c: int| 0 <= c < x ==> #[trigger] row@[c] == values@[c],
            decreases self.width - x,
        {
            row.push(values[x]);
            x = x + 1;
        }
        proof {
            assert(row@ =~= values@);
        }
        self.rows[r] = row;
    }

    /// The exclusive upper bound of the column coordinates.
    pub fn u1(&self) -> (r: i32)
        requires
            self.wf(),
        ensures
            r == self.spec_u0() + self.spec_width(),
    {
        self.u0 + self.width as i32
    }

    /// The exclusive upper bound of the row coordinates.
    pub fn v1(&self) -> (r: i32)
        requires
            self.wf(),
        ensures
            r == self.spec_v0() + self.spec_height(),
    {
        self.v0 + self.height as i32
    }
}

/// Wrapped 64-bit addition, the transform's register arithmetic.
#[verifier::opaque]
pub open spec fn wadd(a: i64, b: i64) -> i64 {
    vstd::wrapping::i64_specs::wrapping_add(a, b)
}

/// Wrapped 64-bit subtraction.
#[verifier::opaque]
pub open spec fn wsub(a: i64, b: i64) -> i64 {
    vstd::wrapping::i64_specs::wrapping_sub(a, b)
}

/// Floor of `a / 2`.
#[verifier::opaque]
pub open spec fn fl2(a: i64) -> i64 {
    ((a as int) / 2) as i64
}

/// Floor of `a / 4`.
#[verifier::opaque]
pub open spec fn fl4(a: i64) -> i64 {
    ((a as int) / 4) as i64
}

/// Adding and then subtracting (or the other way round) the same wrapped
/// term is the identity.
pub proof fn lemma_wrap_cancel(a: i64, q: i64)
    ensures
        wsub(wadd(a, q), q) == a,
        wadd(wsub(a, q), q) == a,
{
    reveal(wadd);
    reveal(wsub);
}

/// Whole-sample symmetric extension: an index just outside `[0, len)` reads
/// the sample mirrored at the boundary.
pub open spec fn ext53(s: Seq<i64>, i: int) -> i64
    recommends
        s.len() >= 2,
        -1 <= i <= s.len(),
{
    if i < 0 {
        s[-i]
    } else if i >= s.len() {
        s[2 * s.len() - 2 - i]
    } else {
        s[i]
    }
}

/// The predict step of the forward 5-3 filter: each sample at an odd
/// absolute position becomes the difference to the floor mean of its
/// neighbours. `p` is the parity of the signal's first absolute index.
pub open spec fn spec_predict(x: Seq<i64>, p: int) -> Seq<i64> {
    Seq::new(
        x.len(),
        |k: int|
            if (k + p) % 2 == 1 {
                wsub(x[k], fl2(wadd(ext53(x, k - 1), ext53(x, k + 1))))
            } else {
                x[k]
            },
    )
}

/// The update step of the forward 5-3 filter, on even absolute positions.
pub open spec fn spec_update(w: Seq<i64>, p: int) -> Seq<i64> {
    Seq::new(
        w.len(),
        |k: int|
            if (k + p) % 2 == 0 {
                wadd(w[k], fl4(wadd(wadd(ext53(w, k - 1), ext53(w, k + 1)), 2)))
            } else {
                w[k]
            },
    )
}

/// The inverse of the update step.
pub open spec fn spec_unupdate(y: Seq<i64>, p: int) -> Seq<i64> {
    Seq::new(
        y.len(),
        |k: int|
            if (k + p) % 2 == 0 {
                wsub(y[k], fl4(wadd(wadd(ext53(y, k - 1), ext53(y, k + 1)), 2)))
            } else {
                y[k]
            },
    )
}

/// The inverse of the predict step.
pub open spec fn spec_unpredict(z: Seq<i64>, p: int) -> Seq<i64> {
    Seq::new(
        z.len(),
        |k: int|
            if (k + p) % 2 == 1 {
                wadd(z[k], fl2(wadd(ext53(z, k - 1), ext53(z, k + 1))))
            } else {
                z[k]
            },
    )
}

/// The forward 5-3 decomposition of a signal whose first sample sits at an
/// absolute index of parity `p`: in place, low-pass samples stay on even
/// positions and high-pass samples on odd ones. A single sample passes
/// through unchanged on an even start and is doubled on an odd start.
pub open spec fn spec_decompose_53(x: Seq<i64>, p: int) -> Seq<i64> {
    if x.len() == 0 {
        x
    } else if x.len() == 1 {
        if p % 2 == 0 {
            x
        } else {
            seq![wadd(x[0], x[0])]
        }
    } else {
        spec_update(spec_predict(x, p), p)
    }
}

/// The inverse 5-3 reconstruction; exactly undoes `spec_decompose_53`. A
/// single sample passes through unchanged on an even start and is halved on
/// an odd start.
pub open spec fn spec_reconstruct_53(y: Seq<i64>, p: int) -> Seq<i64> {
    if y.len() == 0 {
        y
    } else if y.len() == 1 {
        if p % 2 == 0 {
            y
        } else {
            seq![fl2(y[0])]
        }
    } else {
        spec_unpredict(spec_unupdate(y, p), p)
    }
}

/// Mirrored indices keep their parity, so the extension of a sequence at
/// the positions a lifting step reads is unchanged when the step only
/// touched the opposite parity.
proof fn lemma_ext_eq_on_parity(s1: Seq<i64>, s2: Seq<i64>, i: int, q: int)
    requires
        s1.len() == s2.len(),
        s1.len() >= 2,
        -1 <= i <= s1.len(),
        forall|j: int| 0 <= j < s1.len() && j % 2 == q % 2 ==> s1[j] == s2[j],
        i % 2 == q % 2 || (i == -1 && 1int % 2 == q % 2) || (i == s1.len() && (s1.len() - 2) % 2
            == q % 2),
    ensures
        ext53(s1, i) == ext53(s2, i),
{
}

/// Forward-then-inverse 5-3 filtering reproduces any integer signal
/// exactly, at either start parity: the inverse lifting steps subtract
/// precisely the terms the forward steps added, because each step reads
/// only samples of the parity it does not modify.
#[verifier::rlimit(100)]
#[verifier::spinoff_prover]
pub proof fn lemma_53_round_trip(x: Seq<i64>, p: int)
    requires
        0 <= p <= 1,
        // The one exception: a single sample at an odd start is doubled by
        // the decomposition, which must not wrap.
        x.len() == 1 && p == 1 ==> -0x4000_0000_0000_0000 <= x[0]
            < 0x4000_0000_0000_0000,
    ensures
        spec_reconstruct_53(spec_decompose_53(x, p), p) == x,
{
    if x.len() == 0 {
        assert(spec_reconstruct_53(spec_decompose_53(x, p), p) =~= x);
    } else if x.len() == 1 {
        if p % 2 == 0 {
            assert(spec_reconstruct_53(spec_decompose_53(x, p), p) =~= x);
        } else {
            let d = wadd(x[0], x[0]);
            assert(fl2(d) == x[0]) by {
                reveal(wadd);
                reveal(fl2);
            }
            assert(spec_reconstruct_53(spec_decompose_53(x, p), p) =~= x);
        }
    } else {
        let w1 = spec_predict(x, p);
        lemma_unupdate_update(w1, p);
        assert(spec_unupdate(spec_update(w1, p), p) == w1);
        lemma_unpredict_predict(x, p);
    }
}

/// Un-updating an updated signal gives the signal back: the update step
/// changed only even positions and reads only odd ones, which it left
/// alone.
#[verifier::rlimit(100)]
#[verifier::spinoff_prover]
proof fn lemma_unupdate_update(w1: Seq<i64>, p: int)
    requires
        0 <= p <= 1,
        w1.len() >= 2,
    ensures
        spec_unupdate(spec_update(w1, p), p) == w1,
{
    let n = w1.len() as int;
    let w2 = spec_update(w1, p);
    let z1 = spec_unupdate(w2, p);
    assert forall|k: int| 0 <= k < n implies z1[k] == w1[k] by {
        if (k + p) % 2 == 0 {
            lemma_ext_eq_on_parity(w2, w1, k - 1, 1 - p);
            lemma_ext_eq_on_parity(w2, w1, k + 1, 1 - p);
            lemma_wrap_cancel(w1[k], fl4(wadd(wadd(ext53(w1, k - 1), ext53(w1, k + 1)), 2)));
        }
    }
    assert(z1 =~= w1);
}

/// Un-predicting a predicted signal gives the signal back: the predict step
/// changed only odd positions and reads only even ones.
#[verifier::rlimit(100)]
#[verifier::spinoff_prover]
proof fn lemma_unpredict_predict(x: Seq<i64>, p: int)
    requires
        0 <= p <= 1,
        x.len() >= 2,
    ensures
        spec_unpredict(spec_predict(x, p), p) == x,
{
    let n = x.len() as int;
    let w1 = spec_predict(x, p);
    let z2 = spec_unpredict(w1, p);
    assert forall|k: int| 0 <= k < n implies z2[k] == x[k] by {
        if (k + p) % 2 == 1 {
            lemma_ext_eq_on_parity(w1, x, k - 1, p);
            lemma_ext_eq_on_parity(w1, x, k + 1, p);
            lemma_wrap_cancel(x[k], fl2(wadd(ext53(x, k - 1), ext53(x, k + 1))));
        }
    }
    assert(z2 =~= x);
}

/// Floor of `a / 2`, computed without signed division.
fn floor_div2(a: i64) -> (r: i64)
    ensures
        r == fl2(a),
{
    proof {
        reveal(fl2);
    }
    if a >= 0 {
        let q = ((a as u64) / 2) as i64;
        proof {
            vstd::arithmetic::div_mod::lemma_fundamental_div_mod(a as int, 2);
        }
        q
    } else {
        // floor(a/2) == -ceil(-a/2); -a is computed as -(a+1)+1 to stay in
        // range at the minimum value.
        let n: u64 = ((-(a + 1)) as u64) + 1;
        let q: u64 = (n + 1) / 2;
        proof {
            vstd::arithmetic::div_mod::lemma_fundamental_div_mod(n as int + 1, 2);
            vstd::arithmetic::div_mod::lemma_fundamental_div_mod(a as int, 2);
        }
        -(q as i64)
    }
}

/// Floor of `a / 4`, computed without signed division.
fn floor_div4(a: i64) -> (r: i64)
    ensures
        r == fl4(a),
{
    proof {
        reveal(fl4);
    }
    if a >= 0 {
        let q = ((a as u64) / 4) as i64;
        proof {
            vstd::arithmetic::div_mod::lemma_fundamental_div_mod(a as int, 4);
        }
        q
    } else {
        let n: u64 = ((-(a + 1)) as u64) + 1;
        let q: u64 = (n + 3) / 4;
        proof {
            vstd::arithmetic::div_mod::lemma_fundamental_div_mod(n as int + 3, 4);
            vstd::arithmetic::div_mod::lemma_fundamental_div_mod(a as int, 4);
        }
        -(q as i64)
    }
}

/// The boundary-extended neighbour `v[i]` for `i` in `[-1, len]`, with the
/// index given as `k + d` for `d` in `{-1, +1}`.
fn ext_get(v: &Vec<i64>, k: usize, d: i32) -> (r: i64)
    requires
        v@.len() >= 2,
        k < v@.len(),
        d == -1 || d == 1,
    ensures
        r == ext53(v@, k + d),
{
    if d == -1 {
        if k == 0 {
            v[1]
        } else {
            v[k - 1]
        }
    } else {
        let n = v.len();
        if k >= n - 1 {
            v[n - 2]
        } else {
            v[k + 1]
        }
    }
}

/// One-dimensional inverse and forward 5-3 filtering and the
/// two-dimensional procedures built from them.
pub struct DwtProcessor {
    filter_type: FilterType,
}

impl DwtProcessor {
    /// The filter this processor applies.
    pub closed spec fn filter(self) -> FilterType {
        self.filter_type
    }

    /// Creates a processor for the given filter type. Only the 5-3
    /// reversible filter is implemented here.
    pub fn new(filter_type: FilterType) -> (r: DwtProcessor)
        ensures
            r.filter() == filter_type,
    {
        DwtProcessor { filter_type }
    }

    /// Forward one-dimensional 5-3 decomposition of a signal whose first
    /// sample sits at absolute index `i0`.
    pub fn subband_decompose_1d(&self, x: &Vec<i64>, i0: i32) -> (r: Vec<i64>)
        requires
            self.filter() == FilterType::Reversible53,
            i0 >= 0,
        ensures
            r@ == spec_decompose_53(x@, i0 as int % 2),
    {
        let p: usize = (i0 % 2) as usize;
        let n = x.len();
        if n == 0 {
            let r: Vec<i64> = Vec::new();
            proof {
                assert(r@ =~= spec_decompose_53(x@, i0 as int % 2));
            }
            return r;
        }
        if n == 1 {
            let mut r: Vec<i64> = Vec::new();
            if p == 0 {
                r.push(x[0]);
            } else {
                let d = x[0].wrapping_add(x[0]);
                proof {
                    reveal(wadd);
                }
                r.push(d);
            }
            proof {
                assert(r@ =~= spec_decompose_53(x@, i0 as int % 2));
            }
            return r;
        }
        // Predict step on odd absolute positions.
        let mut w1: Vec<i64> = Vec::new();
        let mut k: usize = 0;
        while k < n
            invariant
                n == x@.len() >= 2,
                p == i0 as int % 2,
                k <= n,
                w1@.len() == k,
                forall|j: int| 0 <= j < k ==> #[trigger] w1@[j] == spec_predict(x@, p as int)[j],
            decreases n - k,
        {
            let val: i64 = if (k + p) % 2 == 1 {
                let l = ext_get(x, k, -1);
                let rr = ext_get(x, k, 1);
                let h = floor_div2(l.wrapping_add(rr));
                let out = x[k].wrapping_sub(h);
                proof {
                    reveal(wadd);
                    reveal(wsub);
                }
                out
            } else {
                x[k]
            };
            w1.push(val);
            k = k + 1;
        }
        proof {
            assert(w1@ =~= spec_predict(x@, p as int));
        }
        // Update step on even absolute positions.
        let mut w2: Vec<i64> = Vec::new();
        let mut k2: usize = 0;
        while k2 < n
            invariant
                n == w1@.len() >= 2,
                w1@ == spec_predict(x@, p as int),
                n == x@.len(),
                p == i0 as int % 2,
                k2 <= n,
                w2@.len() == k2,
                forall|j: int| 0 <= j < k2 ==> #[trigger] w2@[j] == spec_update(w1@, p as int)[j],
            decreases n - k2,
        {
            let val: i64 = if (k2 + p) % 2 == 0 {
                let l = ext_get(&w1, k2, -1);
                let rr = ext_get(&w1, k2, 1);
                let q = floor_div4(l.wrapping_add(rr).wrapping_add(2));
                let out = w1[k2].wrapping_add(q);
                proof {
                    reveal(wadd);
                }
                out
            } else {
                w1[k2]
            };
            w2.push(val);
            k2 = k2 + 1;
        }
        proof {
            assert(w2@ =~= spec_update(spec_predict(x@, p as int), p as int));
        }
        w2
    }

    /// Inverse one-dimensional 5-3 reconstruction of a signal whose first
    /// sample sits at absolute index `i0`; exactly undoes the forward
    /// decomposition at the same parity.
    pub fn subband_reconstruct_1d(&self, y: &Vec<i64>, i0: i32) -> (r: Vec<i64>)
        requires
            self.filter() == FilterType::Reversible53,
            i0 >= 0,
        ensures
            r@ == spec_reconstruct_53(y@, i0 as int % 2),
    {
        let p: usize = (i0 % 2) as usize;
        let n = y.len();
        if n == 0 {
            let r: Vec<i64> = Vec::new();
            proof {
                assert(r@ =~= spec_reconstruct_53(y@, i0 as int % 2));
            }
            return r;
        }
        if n == 1 {
            let mut r: Vec<i64> = Vec::new();
            if p == 0 {
                r.push(y[0]);
            } else {
                r.push(floor_div2(y[0]));
            }
            proof {
                assert(r@ =~= spec_reconstruct_53(y@, i0 as int % 2));
            }
            return r;
        }
        // Undo the update step on even absolute positions.
        let mut z1: Vec<i64> = Vec::new();
        let mut k: usize = 0;
        while k < n
            invariant
                n == y@.len() >= 2,
                p == i0 as int % 2,
                k <= n,
                z1@.len() == k,
                forall|j: int| 0 <= j < k ==> #[trigger] z1@[j] == spec_unupdate(y@, p as int)[j],
            decreases n - k,
        {
            let val: i64 = if (k + p) % 2 == 0 {
                let l = ext_get(y, k, -1);
                let rr = ext_get(y, k, 1);
                let q = floor_div4(l.wrapping_add(rr).wrapping_add(2));
                let out = y[k].wrapping_sub(q);
                proof {
                    reveal(wadd);
                    reveal(wsub);
                }
                out
            } else {
                y[k]
            };
            z1.push(val);
            k = k + 1;
        }
        proof {
            assert(z1@ =~= spec_unupdate(y@, p as int));
        }
        // Undo the predict step on odd absolute positions.
        let mut z2: Vec<i64> = Vec::new();
        let mut k2: usize = 0;
        while k2 < n
            invariant
                n == z1@.len() >= 2,
                z1@ == spec_unupdate(y@, p as int),
                n == y@.len(),
                p == i0 as int % 2,
                k2 <= n,
                z2@.len() == k2,
                forall|j: int|
                    0 <= j < k2 ==> #[trigger] z2@[j] == spec_unpredict(z1@, p as int)[j],
            decreases n - k2,
        {
            let val: i64 = if (k2 + p) % 2 == 1 {
                let l = ext_get(&z1, k2, -1);
                let rr = ext_get(&z1, k2, 1);
                let h = floor_div2(l.wrapping_add(rr));
                let out = z1[k2].wrapping_add(h);
                proof {
                    reveal(wadd);
                }
                out
            } else {
                z1[k2]
            };
            z2.push(val);
            k2 = k2 + 1;
        }
        proof {
            assert(z2@ =~= spec_unpredict(spec_unupdate(y@, p as int), p as int));
        }
        z2
    }
}

/// The four subbands of one decomposition level.
pub struct SubBands {
    pub ll: Array2D<i64>,
    pub hl: Array2D<i64>,
    pub lh: Array2D<i64>,
    pub hh: Array2D<i64>,
}

/// The element of a subband used while interleaving: the stored sample
/// inside the band's rectangle and 0 beyond it.
pub open spec fn band_at(b: Array2D<i64>, c: int, r: int) -> i64 {
    if 0 <= c < b.spec_width() && 0 <= r < b.spec_height() {
        b.at(c, r)
    } else {
        0
    }
}

/// The sample an interleaved array holds at `(c, r)`: even rows take LL and
/// HL samples, odd rows LH and HH; even columns the low-pass bands, odd
/// columns the high-pass ones.
pub open spec fn spec_interleaved(sb: SubBands, c: int, r: int) -> i64 {
    if r % 2 == 0 {
        if c % 2 == 0 {
            band_at(sb.ll, c / 2, r / 2)
        } else {
            band_at(sb.hl, c / 2, r / 2)
        }
    } else {
        if c % 2 == 0 {
            band_at(sb.lh, c / 2, r / 2)
        } else {
            band_at(sb.hh, c / 2, r / 2)
        }
    }
}

impl DwtProcessor {
    /// Interleaves four subbands into one array: the result is as wide as
    /// LL and HL together and as tall as LL and LH together.
    pub fn interleave_2d(&self, subbands: &SubBands) -> (r: Array2D<i64>)
        requires
            subbands.ll.wf(),
            subbands.hl.wf(),
            subbands.lh.wf(),
            subbands.hh.wf(),
            subbands.ll.spec_width() + subbands.hl.spec_width() <= 0x100000,
            subbands.ll.spec_height() + subbands.lh.spec_height() <= 0x100000,
        ensures
            r.wf(),
            r.spec_width() == subbands.ll.spec_width() + subbands.hl.spec_width(),
            r.spec_height() == subbands.ll.spec_height() + subbands.lh.spec_height(),
            r.spec_u0() == 0,
            r.spec_v0() == 0,
            forall|c: int, r2: int|
                0 <= c < r.spec_width() && 0 <= r2 < r.spec_height() ==> #[trigger] r.at(c, r2)
                    == spec_interleaved(*subbands, c, r2),
    {
        let width = subbands.ll.width() + subbands.hl.width();
        let height = subbands.ll.height() + subbands.lh.height();
        let mut a = Array2D::<i64>::new(width, height);
        let mut row: usize = 0;
        while row < height
            invariant
                a.wf(),
                subbands.ll.wf(),
                subbands.hl.wf(),
                subbands.lh.wf(),
                subbands.hh.wf(),
                a.spec_width() == width,
                a.spec_height() == height,
                a.spec_u0() == 0,
                a.spec_v0() == 0,
                width <= 0x100000,
                height <= 0x100000,
                row <= height,
                forall|c: int, r2: int|
                    0 <= c < width && 0 <= r2 < row ==> #[trigger] a.at(c, r2) == spec_interleaved(
                        *subbands,
                        c,
                        r2,
                    ),
            decreases height - row,
        {
            let mut col: usize = 0;
            while col < width
                invariant
                    a.wf(),
                    subbands.ll.wf(),
                    subbands.hl.wf(),
                    subbands.lh.wf(),
                    subbands.hh.wf(),
                    a.spec_width() == width,
                    a.spec_height() == height,
                    a.spec_u0() == 0,
                    a.spec_v0() == 0,
                    width <= 0x100000,
                    height <= 0x100000,
                    row < height,
                    col <= width,
                    forall|c: int, r2: int|
                        0 <= c < width && 0 <= r2 < row ==> #[trigger] a.at(c, r2)
                            == spec_interleaved(*subbands, c, r2),
                    forall|c: int|
                        0 <= c < col ==> #[trigger] a.at(c, row as int) == spec_interleaved(
                            *subbands,
                            c,
                            row as int,
                        ),
                decreases width - col,
            {
                let half_c = (col / 2) as i32;
                let half_r = (row / 2) as i32;
                let val: i64 = if row % 2 == 0 {
                    if col % 2 == 0 {
                        if col / 2 < subbands.ll.width() && row / 2 < subbands.ll.height() {
                            *subbands.ll.get(half_c + subbands.ll.u0, half_r + subbands.ll.v0)
                        } else {
                            0
                        }
                    } else {
                        if col / 2 < subbands.hl.width() && row / 2 < subbands.hl.height() {
                            *subbands.hl.get(half_c + subbands.hl.u0, half_r + subbands.hl.v0)
                        } else {
                            0
                        }
                    }
                } else {
                    if col % 2 == 0 {
                        if col / 2 < subbands.lh.width() && row / 2 < subbands.lh.height() {
                            *subbands.lh.get(half_c + subbands.lh.u0, half_r + subbands.lh.v0)
                        } else {
                            0
                        }
                    } else {
                        if col / 2 < subbands.hh.width() && row / 2 < subbands.hh.height() {
                            *subbands.hh.get(half_c + subbands.hh.u0, half_r + subbands.hh.v0)
                        } else {
                            0
                        }
                    }
                };
                a.set(col as i32, row as i32, val);
                col = col + 1;
            }
            row = row + 1;
        }
        a
    }

    /// Splits an array into four subbands by sample parity: the inverse of
    /// `interleave_2d`. The low-pass bands take the ceiling halves of the
    /// dimensions, the high-pass bands the floor halves.
    pub fn deinterleave_2d(&self, a: &Array2D<i64>) -> (r: SubBands)
        requires
            a.wf(),
        ensures
            r.ll.wf() && r.hl.wf() && r.lh.wf() && r.hh.wf(),
            r.ll.spec_width() == (a.spec_width() + 1) / 2,
            r.ll.spec_height() == (a.spec_height() + 1) / 2,
            r.hl.spec_width() == a.spec_width() / 2,
            r.hl.spec_height() == (a.spec_height() + 1) / 2,
            r.lh.spec_width() == (a.spec_width() + 1) / 2,
            r.lh.spec_height() == a.spec_height() / 2,
            r.hh.spec_width() == a.spec_width() / 2,
            r.hh.spec_height() == a.spec_height() / 2,
            r.ll.spec_u0() == 0 && r.ll.spec_v0() == 0,
            r.hl.spec_u0() == 0 && r.hl.spec_v0() == 0,
            r.lh.spec_u0() == 0 && r.lh.spec_v0() == 0,
            r.hh.spec_u0() == 0 && r.hh.spec_v0() == 0,
            forall|c: int, r2: int|
                0 <= c < r.ll.spec_width() && 0 <= r2 < r.ll.spec_height() ==> #[trigger] r.ll.at(
                    c,
                    r2,
                ) == a.at(2 * c, 2 * r2),
            forall|c: int, r2: int|
                0 <= c < r.hl.spec_width() && 0 <= r2 < r.hl.spec_height() ==> #[trigger] r.hl.at(
                    c,
                    r2,
                ) == a.at(2 * c + 1, 2 * r2),
            forall|c: int, r2: int|
                0 <= c < r.lh.spec_width() && 0 <= r2 < r.lh.spec_height() ==> #[trigger] r.lh.at(
                    c,
                    r2,
                ) == a.at(2 * c, 2 * r2 + 1),
            forall|c: int, r2: int|
                0 <= c < r.hh.spec_width() && 0 <= r2 < r.hh.spec_height() ==> #[trigger] r.hh.at(
                    c,
                    r2,
                ) == a.at(2 * c + 1, 2 * r2 + 1),
    {
        let width = a.width();
        let height = a.height();
        let ll = self.half_grid(a, 0, 0);
        let hl = self.half_grid(a, 1, 0);
        let lh = self.half_grid(a, 0, 1);
        let hh = self.half_grid(a, 1, 1);
        SubBands { ll, hl, lh, hh }
    }

    /// Extracts the samples whose column parity is `pc` and row parity is
    /// `pr` into a compact array.
    fn half_grid(&self, a: &Array2D<i64>, pc: usize, pr: usize) -> (r: Array2D<i64>)
        requires
            a.wf(),
            pc <= 1,
            pr <= 1,
        ensures
            r.wf(),
            r.spec_width() == (a.spec_width() + 1 - pc) / 2,
            r.spec_height() == (a.spec_height() + 1 - pr) / 2,
            r.spec_u0() == 0,
            r.spec_v0() == 0,
            forall|c: int, r2: int|
                0 <= c < r.spec_width() && 0 <= r2 < r.spec_height() ==> #[trigger] r.at(c, r2)
                    == a.at(2 * c + pc, 2 * r2 + pr),
    {
        let w = (a.width() + 1 - pc) / 2;
        let h = (a.height() + 1 - pr) / 2;
        let mut out = Array2D::<i64>::new(w, h);
        let mut row: usize = 0;
        while row < h
            invariant
                a.wf(),
                out.wf(),
                pc <= 1,
                pr <= 1,
                out.spec_width() == w,
                out.spec_height() == h,
                out.spec_u0() == 0,
                out.spec_v0() == 0,
                w == (a.spec_width() + 1 - pc) / 2,
                h == (a.spec_height() + 1 - pr) / 2,
                row <= h,
                forall|c: int, r2: int|
                    0 <= c < w && 0 <= r2 < row ==> #[trigger] out.at(c, r2) == a.at(
                        2 * c + pc,
                        2 * r2 + pr,
                    ),
            decreases h - row,
        {
            let mut col: usize = 0;
            while col < w
                invariant
                    a.wf(),
                    out.wf(),
                    pc <= 1,
                    pr <= 1,
                    out.spec_width() == w,
                    out.spec_height() == h,
                    out.spec_u0() == 0,
                    out.spec_v0() == 0,
                    w == (a.spec_width() + 1 - pc) / 2,
                    h == (a.spec_height() + 1 - pr) / 2,
                    row < h,
                    col <= w,
                    forall|c: int, r2: int|
                        0 <= c < w && 0 <= r2 < row ==> #[trigger] out.at(c, r2) == a.at(
                            2 * c + pc,
                            2 * r2 + pr,
                        ),
                    forall|c: int|
                        0 <= c < col ==> #[trigger] out.at(c, row as int) == a.at(
                            2 * c + pc,
                            2 * row + pr,
                        ),
                decreases w - col,
            {
                let v = *a.get((2 * col + pc) as i32 + a.u0, (2 * row + pr) as i32 + a.v0);
                out.set(col as i32, row as i32, v);
                col = col + 1;
            }
            row = row + 1;
        }
        out
    }

    /// Applies the inverse one-dimensional filter to every row; the row
    /// parity comes from the array's column offset.
    pub fn horizontal_reconstruct(&self, a: &mut Array2D<i64>)
        requires
            self.filter() == FilterType::Reversible53,
            old(a).wf(),
            old(a).spec_u0() >= 0,
            old(a).spec_v0() >= 0,
        ensures
            final(a).wf(),
            final(a).spec_width() == old(a).spec_width(),
            final(a).spec_height() == old(a).spec_height(),
            final(a).spec_u0() == old(a).spec_u0(),
            final(a).spec_v0() == old(a).spec_v0(),
            forall|r2: int|
                0 <= r2 < old(a).spec_height() ==> #[trigger] final(a).row(r2)
                    == spec_reconstruct_53(old(a).row(r2), old(a).spec_u0() % 2),
    {
        let v0 = a.v0;
        let u0 = a.u0;
        let h = a.height();
        let mut r: usize = 0;
        while r < h
            invariant
                self.filter() == FilterType::Reversible53,
                a.wf(),
                a.spec_width() == old(a).spec_width(),
                a.spec_height() == old(a).spec_height(),
                a.spec_u0() == old(a).spec_u0(),
                a.spec_v0() == old(a).spec_v0(),
                u0 == old(a).spec_u0() >= 0,
                v0 == old(a).spec_v0() >= 0,
                h == a.spec_height(),
                r <= h,
                forall|r2: int|
                    0 <= r2 < r ==> #[trigger] a.row(r2) == spec_reconstruct_53(
                        old(a).row(r2),
                        old(a).spec_u0() % 2,
                    ),
                forall|r2: int| r <= r2 < h ==> #[trigger] a.row(r2) == old(a).row(r2),
            decreases h - r,
        {
            let row_data = a.get_row(v0 + r as i32);
            let reconstructed = self.subband_reconstruct_1d(&row_data, u0);
            a.set_row(v0 + r as i32, &reconstructed);
            r = r + 1;
        }
    }

    /// Applies the inverse one-dimensional filter to every column; the
    /// column parity comes from the array's row offset.
    pub fn vertical_reconstruct(&self, a: &mut Array2D<i64>)
        requires
            self.filter() == FilterType::Reversible53,
            old(a).wf(),
            old(a).spec_u0() >= 0,
            old(a).spec_v0() >= 0,
        ensures
            final(a).wf(),
            final(a).spec_width() == old(a).spec_width(),
            final(a).spec_height() == old(a).spec_height(),
            final(a).spec_u0() == old(a).spec_u0(),
            final(a).spec_v0() == old(a).spec_v0(),
            forall|c: int|
                0 <= c < old(a).spec_width() ==> #[trigger] final(a).col(c) == spec_reconstruct_53(
                    old(a).col(c),
                    old(a).spec_v0() % 2,
                ),
    {
        let v0 = a.v0;
        let u0 = a.u0;
        let w = a.width();
        let mut c: usize = 0;
        while c < w
            invariant
                self.filter() == FilterType::Reversible53,
                a.wf(),
                a.spec_width() == old(a).spec_width(),
                a.spec_height() == old(a).spec_height(),
                a.spec_u0() == old(a).spec_u0(),
                a.spec_v0() == old(a).spec_v0(),
                u0 == old(a).spec_u0() >= 0,
                v0 == old(a).spec_v0() >= 0,
                w == a.spec_width(),
                c <= w,
                forall|c2: int|
                    0 <= c2 < c ==> #[trigger] a.col(c2) == spec_reconstruct_53(
                        old(a).col(c2),
                        old(a).spec_v0() % 2,
                    ),
                forall|c2: int| c <= c2 < w ==> #[trigger] a.col(c2) == old(a).col(c2),
            decreases w - c,
        {
            let col_data = a.get_column(u0 + c as i32);
            let reconstructed = self.subband_reconstruct_1d(&col_data, v0);
            let ghost pre = *a;
            a.set_column(u0 + c as i32, &reconstructed);
            proof {
                assert forall|c2: int| 0 <= c2 < w && c2 != c implies #[trigger] a.col(c2)
                    == pre.col(c2) by {
                    assert(a.col(c2) =~= pre.col(c2));
                }
                assert(a.col(c as int) =~= reconstructed@);
            }
            c = c + 1;
        }
    }

    /// Applies the forward one-dimensional filter to every row.
    pub fn horizontal_decompose(&self, a: &mut Array2D<i64>)
        requires
            self.filter() == FilterType::Reversible53,
            old(a).wf(),
            old(a).spec_u0() >= 0,
            old(a).spec_v0() >= 0,
        ensures
            final(a).wf(),
            final(a).spec_width() == old(a).spec_width(),
            final(a).spec_height() == old(a).spec_height(),
            final(a).spec_u0() == old(a).spec_u0(),
            final(a).spec_v0() == old(a).spec_v0(),
            forall|r2: int|
                0 <= r2 < old(a).spec_height() ==> #[trigger] final(a).row(r2)
                    == spec_decompose_53(old(a).row(r2), old(a).spec_u0() % 2),
    {
        let v0 = a.v0;
        let u0 = a.u0;
        let h = a.height();
        let mut r: usize = 0;
        while r < h
            invariant
                self.filter() == FilterType::Reversible53,
                a.wf(),
                a.spec_width() == old(a).spec_width(),
                a.spec_height() == old(a).spec_height(),
                a.spec_u0() == old(a).spec_u0(),
                a.spec_v0() == old(a).spec_v0(),
                u0 == old(a).spec_u0() >= 0,
                v0 == old(a).spec_v0() >= 0,
                h == a.spec_height(),
                r <= h,
                forall|r2: int|
                    0 <= r2 < r ==> #[trigger] a.row(r2) == spec_decompose_53(
                        old(a).row(r2),
                        old(a).spec_u0() % 2,
                    ),
                forall|r2: int| r <= r2 < h ==> #[trigger] a.row(r2) == old(a).row(r2),
            decreases h - r,
        {
            let row_data = a.get_row(v0 + r as i32);
            let decomposed = self.subband_decompose_1d(&row_data, u0);
            a.set_row(v0 + r as i32, &decomposed);
            r = r + 1;
        }
    }

    /// Applies the forward one-dimensional filter to every column.
    pub fn vertical_decompose(&self, a: &mut Array2D<i64>)
        requires
            self.filter() == FilterType::Reversible53,
            old(a).wf(),
            old(a).spec_u0() >= 0,
            old(a).spec_v0() >= 0,
        ensures
            final(a).wf(),
            final(a).spec_width() == old(a).spec_width(),
            final(a).spec_height() == old(a).spec_height(),
            final(a).spec_u0() == old(a).spec_u0(),
            final(a).spec_v0() == old(a).spec_v0(),
            forall|c: int|
                0 <= c < old(a).spec_width() ==> #[trigger] final(a).col(c) == spec_decompose_53(
                    old(a).col(c),
                    old(a).spec_v0() % 2,
                ),
    {
        let v0 = a.v0;
        let u0 = a.u0;
        let w = a.width();
        let mut c: usize = 0;
        while c < w
            invariant
                self.filter() == FilterType::Reversible53,
                a.wf(),
                a.spec_width() == old(a).spec_width(),
                a.spec_height() == old(a).spec_height(),
                a.spec_u0() == old(a).spec_u0(),
                a.spec_v0() == old(a).spec_v0(),
                u0 == old(a).spec_u0() >= 0,
                v0 == old(a).spec_v0() >= 0,
                w == a.spec_width(),
                c <= w,
                forall|c2: int|
                    0 <= c2 < c ==> #[trigger] a.col(c2) == spec_decompose_53(
                        old(a).col(c2),
                        old(a).spec_v0() % 2,
                    ),
                forall|c2: int| c <= c2 < w ==> #[trigger] a.col(c2) == old(a).col(c2),
            decreases w - c,
        {
            let col_data = a.get_column(u0 + c as i32);
            let decomposed = self.subband_decompose_1d(&col_data, v0);
            let ghost pre = *a;
            a.set_column(u0 + c as i32, &decomposed);
            proof {
                assert forall|c2: int| 0 <= c2 < w && c2 != c implies #[trigger] a.col(c2)
                    == pre.col(c2) by {
                    assert(a.col(c2) =~= pre.col(c2));
                }
                assert(a.col(c as int) =~= decomposed@);
            }
            c = c + 1;
        }
    }

    /// Reconstructs one decomposition level: interleaves the four subbands,
    /// then filters every row and every column with the inverse lifting.
    pub fn subband_reconstruct_2d(&self, subbands: &SubBands) -> (r: Array2D<i64>)
        requires
            self.filter() == FilterType::Reversible53,
            subbands.ll.wf(),
            subbands.hl.wf(),
            subbands.lh.wf(),
            subbands.hh.wf(),
            subbands.ll.spec_width() + subbands.hl.spec_width() <= 0x100000,
            subbands.ll.spec_height() + subbands.lh.spec_height() <= 0x100000,
        ensures
            r.wf(),
            r.spec_width() == subbands.ll.spec_width() + subbands.hl.spec_width(),
            r.spec_height() == subbands.ll.spec_height() + subbands.lh.spec_height(),
            r.spec_u0() == 0,
            r.spec_v0() == 0,
            grid_of(r) == spec_ver_sr(
                spec_hor_sr(
                    spec_interleave4(
                        grid_of(subbands.ll),
                        grid_of(subbands.hl),
                        grid_of(subbands.lh),
                        grid_of(subbands.hh),
                        subbands.ll.spec_width() + subbands.hl.spec_width(),
                        subbands.ll.spec_height() + subbands.lh.spec_height(),
                    ),
                    0,
                ),
                subbands.ll.spec_width() + subbands.hl.spec_width(),
                0,
            ),
    {
        let ghost w = subbands.ll.spec_width() + subbands.hl.spec_width();
        let ghost h = subbands.ll.spec_height() + subbands.lh.spec_height();
        let ghost gint = spec_interleave4(
            grid_of(subbands.ll),
            grid_of(subbands.hl),
            grid_of(subbands.lh),
            grid_of(subbands.hh),
            w,
            h,
        );
        let mut a = self.interleave_2d(subbands);
        proof {
            assert forall|r2: int| 0 <= r2 < h implies #[trigger] grid_of(a)[r2] == gint[r2] by {
                assert forall|c: int| 0 <= c < w implies #[trigger] grid_of(a)[r2][c]
                    == gint[r2][c] by {
                    assert(grid_of(a)[r2][c] == a.at(c, r2));
                    assert(a.at(c, r2) == spec_interleaved(*subbands, c, r2));
                }
                assert(grid_of(a)[r2] =~= gint[r2]);
            }
            assert(grid_of(a) =~= gint);
        }
        let ghost g1 = grid_of(a);
        self.horizontal_reconstruct(&mut a);
        proof {
            assert forall|r2: int| 0 <= r2 < h implies #[trigger] grid_of(a)[r2] == spec_hor_sr(
                g1,
                0,
            )[r2] by {
                assert(grid_of(a)[r2] == a.row(r2));
            }
            assert(grid_of(a) =~= spec_hor_sr(g1, 0));
        }
        let ghost g2 = grid_of(a);
        let ghost apre = a;
        self.vertical_reconstruct(&mut a);
        proof {
            assert forall|c: int| 0 <= c < w implies #[trigger] gcol(g2, c) == apre.col(c) by {
                assert(gcol(g2, c) =~= apre.col(c));
            }
            assert forall|r2: int| 0 <= r2 < h implies #[trigger] grid_of(a)[r2] == spec_ver_sr(
                g2,
                w,
                0,
            )[r2] by {
                assert forall|c: int| 0 <= c < w implies #[trigger] grid_of(a)[r2][c]
                    == spec_ver_sr(g2, w, 0)[r2][c] by {
                    assert(grid_of(a)[r2][c] == a.at(c, r2));
                    assert(a.col(c)[r2] == a.at(c, r2));
                    assert(a.col(c) == spec_reconstruct_53(apre.col(c), 0));
                    assert(spec_ver_sr(g2, w, 0)[r2][c] == spec_reconstruct_53(gcol(g2, c), 0)[r2]);
                }
                assert(grid_of(a)[r2] =~= spec_ver_sr(g2, w, 0)[r2]);
            }
            assert(grid_of(a) =~= spec_ver_sr(g2, w, 0));
        }
        a
    }

    /// Decomposes one level: filters every column and every row with the
    /// forward lifting, then splits the result into four subbands.
    pub fn subband_decompose_2d(&self, a: &Array2D<i64>) -> (r: SubBands)
        requires
            self.filter() == FilterType::Reversible53,
            a.wf(),
            a.spec_u0() >= 0,
            a.spec_v0() >= 0,
        ensures
            r.ll.wf() && r.hl.wf() && r.lh.wf() && r.hh.wf(),
            r.ll.spec_width() == (a.spec_width() + 1) / 2,
            r.ll.spec_height() == (a.spec_height() + 1) / 2,
            r.hl.spec_width() == a.spec_width() / 2,
            r.hl.spec_height() == (a.spec_height() + 1) / 2,
            r.lh.spec_width() == (a.spec_width() + 1) / 2,
            r.lh.spec_height() == a.spec_height() / 2,
            r.hh.spec_width() == a.spec_width() / 2,
            r.hh.spec_height() == a.spec_height() / 2,
            r.ll.spec_u0() == 0 && r.ll.spec_v0() == 0,
            r.hl.spec_u0() == 0 && r.hl.spec_v0() == 0,
            r.lh.spec_u0() == 0 && r.lh.spec_v0() == 0,
            r.hh.spec_u0() == 0 && r.hh.spec_v0() == 0,
            a.spec_u0() == 0 && a.spec_v0() == 0 ==> ({
                let d = spec_hor_sd(spec_ver_sd(grid_of(*a), a.spec_width(), 0), 0);
                &&& grid_of(r.ll) == spec_half_grid(d, a.spec_width(), 0, 0)
                &&& grid_of(r.hl) == spec_half_grid(d, a.spec_width(), 1, 0)
                &&& grid_of(r.lh) == spec_half_grid(d, a.spec_width(), 0, 1)
                &&& grid_of(r.hh) == spec_half_grid(d, a.spec_width(), 1, 1)
            }),
    {
        let ghost w = a.spec_width();
        let ghost h = a.spec_height();
        let mut working = self.copy_array(a);
        proof {
            if a.spec_u0() == 0 && a.spec_v0() == 0 {
                assert forall|r2: int| 0 <= r2 < h implies #[trigger] grid_of(working)[r2]
                    == grid_of(*a)[r2] by {
                    assert forall|c: int| 0 <= c < w implies #[trigger] working.row(r2)[c]
                        == a.row(r2)[c] by {
                        assert(working.at(c, r2) == a.at(c, r2));
                    }
                    assert(working.row(r2) =~= a.row(r2));
                }
                assert(grid_of(working) =~= grid_of(*a));
            }
        }
        let ghost g0 = grid_of(working);
        let ghost wpre = working;
        self.vertical_decompose(&mut working);
        proof {
            if a.spec_u0() == 0 && a.spec_v0() == 0 {
                assert forall|c: int| 0 <= c < w implies #[trigger] gcol(g0, c)
                    == wpre.col(c) by {
                    assert(gcol(g0, c) =~= wpre.col(c));
                }
                assert forall|r2: int| 0 <= r2 < h implies #[trigger] grid_of(working)[r2]
                    == spec_ver_sd(g0, w, 0)[r2] by {
                    assert forall|c: int| 0 <= c < w implies #[trigger] grid_of(working)[r2][c]
                        == spec_ver_sd(g0, w, 0)[r2][c] by {
                        assert(grid_of(working)[r2][c] == working.at(c, r2));
                        assert(working.col(c)[r2] == working.at(c, r2));
                        assert(working.col(c) == spec_decompose_53(wpre.col(c), 0));
                        assert(spec_ver_sd(g0, w, 0)[r2][c] == spec_decompose_53(
                            gcol(g0, c),
                            0,
                        )[r2]);
                    }
                    assert(grid_of(working)[r2] =~= spec_ver_sd(g0, w, 0)[r2]);
                }
                assert(grid_of(working) =~= spec_ver_sd(g0, w, 0));
            }
        }
        let ghost g1 = grid_of(working);
        self.horizontal_decompose(&mut working);
        proof {
            if a.spec_u0() == 0 && a.spec_v0() == 0 {
                assert forall|r2: int| 0 <= r2 < h implies #[trigger] grid_of(working)[r2]
                    == spec_hor_sd(g1, 0)[r2] by {
                    assert(grid_of(working)[r2] == working.row(r2));
                }
                assert(grid_of(working) =~= spec_hor_sd(g1, 0));
            }
        }
        let ghost g2 = grid_of(working);
        let out = self.deinterleave_2d(&working);
        proof {
            if a.spec_u0() == 0 && a.spec_v0() == 0 {
                vstd::arithmetic::div_mod::lemma_fundamental_div_mod(w, 2);
                vstd::arithmetic::div_mod::lemma_fundamental_div_mod(w + 1, 2);
                vstd::arithmetic::div_mod::lemma_fundamental_div_mod(h, 2);
                vstd::arithmetic::div_mod::lemma_fundamental_div_mod(h + 1, 2);
                assert forall|r2: int|
                    0 <= r2 < out.ll.spec_height() implies #[trigger] grid_of(out.ll)[r2]
                    == spec_half_grid(g2, w, 0, 0)[r2] by {
                    assert forall|c: int|
                        0 <= c < out.ll.spec_width() implies #[trigger] out.ll.row(r2)[c]
                        == g2[2 * r2][2 * c] by {
                        assert(out.ll.at(c, r2) == working.at(2 * c, 2 * r2));
                        assert(g2[2 * r2][2 * c] == working.row(2 * r2)[2 * c]);
                    }
                    assert(out.ll.row(r2) =~= spec_half_grid(g2, w, 0, 0)[r2]);
                }
                assert(grid_of(out.ll) =~= spec_half_grid(g2, w, 0, 0));
                assert forall|r2: int|
                    0 <= r2 < out.hl.spec_height() implies #[trigger] grid_of(out.hl)[r2]
                    == spec_half_grid(g2, w, 1, 0)[r2] by {
                    assert forall|c: int|
                        0 <= c < out.hl.spec_width() implies #[trigger] out.hl.row(r2)[c]
                        == g2[2 * r2][2 * c + 1] by {
                        assert(out.hl.at(c, r2) == working.at(2 * c + 1, 2 * r2));
                        assert(g2[2 * r2][2 * c + 1] == working.row(2 * r2)[2 * c + 1]);
                    }
                    assert(out.hl.row(r2) =~= spec_half_grid(g2, w, 1, 0)[r2]);
                }
                assert(grid_of(out.hl) =~= spec_half_grid(g2, w, 1, 0));
                assert forall|r2: int|
                    0 <= r2 < out.lh.spec_height() implies #[trigger] grid_of(out.lh)[r2]
                    == spec_half_grid(g2, w, 0, 1)[r2] by {
                    assert forall|c: int|
                        0 <= c < out.lh.spec_width() implies #[trigger] out.lh.row(r2)[c]
                        == g2[2 * r2 + 1][2 * c] by {
                        assert(out.lh.at(c, r2) == working.at(2 * c, 2 * r2 + 1));
                        assert(g2[2 * r2 + 1][2 * c] == working.row(2 * r2 + 1)[2 * c]);
                    }
                    assert(out.lh.row(r2) =~= spec_half_grid(g2, w, 0, 1)[r2]);
                }
                assert(grid_of(out.lh) =~= spec_half_grid(g2, w, 0, 1));
                assert forall|r2: int|
                    0 <= r2 < out.hh.spec_height() implies #[trigger] grid_of(out.hh)[r2]
                    == spec_half_grid(g2, w, 1, 1)[r2] by {
                    assert forall|c: int|
                        0 <= c < out.hh.spec_width() implies #[trigger] out.hh.row(r2)[c]
                        == g2[2 * r2 + 1][2 * c + 1] by {
                        assert(out.hh.at(c, r2) == working.at(2 * c + 1, 2 * r2 + 1));
                        assert(g2[2 * r2 + 1][2 * c + 1] == working.row(2 * r2 + 1)[2 * c + 1]);
                    }
                    assert(out.hh.row(r2) =~= spec_half_grid(g2, w, 1, 1)[r2]);
                }
                assert(grid_of(out.hh) =~= spec_half_grid(g2, w, 1, 1));
            }
        }
        out
    }

    /// A fresh copy of an array.
    fn copy_array(&self, a: &Array2D<i64>) -> (r: Array2D<i64>)
        requires
            a.wf(),
        ensures
            r.wf(),
            r.spec_width() == a.spec_width(),
            r.spec_height() == a.spec_height(),
            r.spec_u0() == a.spec_u0(),
            r.spec_v0() == a.spec_v0(),
            forall|c: int, r2: int|
                0 <= c < a.spec_width() && 0 <= r2 < a.spec_height() ==> #[trigger] r.at(c, r2)
                    == a.at(c, r2),
            grid_of(r) == grid_of(*a),
    {
        let w = a.width();
        let h = a.height();
        let mut out = Array2D::<i64>::with_offset(w, h, a.u0, a.v0);
        let mut row: usize = 0;
        while row < h
            invariant
                a.wf(),
                out.wf(),
                out.spec_width() == w == a.spec_width(),
                out.spec_height() == h == a.spec_height(),
                out.spec_u0() == a.spec_u0(),
                out.spec_v0() == a.spec_v0(),
                row <= h,
                forall|c: int, r2: int|
                    0 <= c < w && 0 <= r2 < row ==> #[trigger] out.at(c, r2) == a.at(c, r2),
            decreases h - row,
        {
            let mut col: usize = 0;
            while col < w
                invariant
                    a.wf(),
                    out.wf(),
                    out.spec_width() == w == a.spec_width(),
                    out.spec_height() == h == a.spec_height(),
                    out.spec_u0() == a.spec_u0(),
                    out.spec_v0() == a.spec_v0(),
                    row < h,
                    col <= w,
                    forall|c: int, r2: int|
                        0 <= c < w && 0 <= r2 < row ==> #[trigger] out.at(c, r2) == a.at(c, r2),
                    forall|c: int|
                        0 <= c < col ==> #[trigger] out.at(c, row as int) == a.at(c, row as int),
                decreases w - col,
            {
                let v = *a.get(col as i32 + a.u0, row as i32 + a.v0);
                out.set(col as i32 + out.u0, row as i32 + out.v0, v);
                col = col + 1;
            }
            row = row + 1;
        }
        proof {
            assert forall|r2: int| 0 <= r2 < h implies #[trigger] grid_of(out)[r2] == grid_of(
                *a,
            )[r2] by {
                out.lemma_row_index(r2);
                a.lemma_row_index(r2);
                assert forall|c: int| 0 <= c < w implies #[trigger] out.row(r2)[c] == a.row(r2)[c]
                    by {
                    assert(out.at(c, r2) == a.at(c, r2));
                }
                assert(out.row(r2) =~= a.row(r2));
            }
            assert(grid_of(out) =~= grid_of(*a));
        }
        out
    }

    /// The full inverse transform: reconstructs the tile-component from the
    /// deepest LL subband outward, one level at a time. The result is
    /// exactly the level-by-level composition `spec_idwt_grid` of the given
    /// subbands.
    pub fn idwt(&self, all_subbands: &Vec<SubBands>, n_levels: usize) -> (r: Array2D<i64>)
        requires
            self.filter() == FilterType::Reversible53,
            n_levels >= 1,
            all_subbands@.len() == n_levels,
            forall|i: int|
                0 <= i < n_levels ==> {
                    &&& (#[trigger] all_subbands@[i]).ll.wf()
                    &&& all_subbands@[i].hl.wf()
                    &&& all_subbands@[i].lh.wf()
                    &&& all_subbands@[i].hh.wf()
                },
            forall|lev: int|
                0 <= lev <= n_levels ==> #[trigger] spec_idwt_w(all_subbands@, lev) <= 0x100000
                    && spec_idwt_h(all_subbands@, lev) <= 0x100000,
        ensures
            r.wf(),
            r.spec_u0() == 0,
            r.spec_v0() == 0,
            r.spec_width() == spec_idwt_w(all_subbands@, 0),
            r.spec_height() == spec_idwt_h(all_subbands@, 0),
            grid_of(r) == spec_idwt_grid(all_subbands@, 0),
    {
        let deepest = &all_subbands[n_levels - 1];
        let mut current = self.copy_array(&deepest.ll);
        let ghost pre0 = current;
        current.u0 = 0;
        current.v0 = 0;
        proof {
            assert forall|r2: int| 0 <= r2 < current.spec_height() implies #[trigger] grid_of(
                current,
            )[r2] == grid_of(pre0)[r2] by {
                assert(current.row(r2) == pre0.row(r2));
            }
            assert(grid_of(current) =~= grid_of(pre0));
        }
        let mut lev: usize = n_levels;
        while lev > 0
            invariant
                self.filter() == FilterType::Reversible53,
                current.wf(),
                current.spec_u0() == 0,
                current.spec_v0() == 0,
                lev <= n_levels,
                n_levels >= 1,
                all_subbands@.len() == n_levels,
                current.spec_width() == spec_idwt_w(all_subbands@, lev as int),
                current.spec_height() == spec_idwt_h(all_subbands@, lev as int),
                grid_of(current) == spec_idwt_grid(all_subbands@, lev as int),
                forall|i: int|
                    0 <= i < n_levels ==> {
                        &&& (#[trigger] all_subbands@[i]).ll.wf()
                        &&& all_subbands@[i].hl.wf()
                        &&& all_subbands@[i].lh.wf()
                        &&& all_subbands@[i].hh.wf()
                    },
                forall|l2: int|
                    0 <= l2 <= n_levels ==> #[trigger] spec_idwt_w(all_subbands@, l2) <= 0x100000
                        && spec_idwt_h(all_subbands@, l2) <= 0x100000,
            decreases lev,
        {
            let bands = &all_subbands[lev - 1];
            let level_bands = SubBands {
                ll: current,
                hl: self.copy_array(&bands.hl),
                lh: self.copy_array(&bands.lh),
                hh: self.copy_array(&bands.hh),
            };
            proof {
                assert(spec_idwt_w(all_subbands@, lev - 1) == spec_idwt_w(all_subbands@, lev as int)
                    + all_subbands@[lev - 1].hl.spec_width());
                assert(spec_idwt_h(all_subbands@, lev - 1) == spec_idwt_h(all_subbands@, lev as int)
                    + all_subbands@[lev - 1].lh.spec_height());
            }
            current = self.subband_reconstruct_2d(&level_bands);
            lev = lev - 1;
        }
        current
    }

    /// The full forward transform: decomposes the tile-component level by
    /// level, each level splitting the previous LL band. Every level's
    /// subband dimensions follow the ceiling rule, and (for an array at the
    /// origin) every subband's contents are exactly the parity quarters of
    /// that level's column-then-row filtered low-pass input.
    pub fn fdwt(&self, input: &Array2D<i64>, n_levels: usize) -> (r: Vec<SubBands>)
        requires
            self.filter() == FilterType::Reversible53,
            input.wf(),
            input.spec_u0() >= 0,
            input.spec_v0() >= 0,
        ensures
            r@.len() == n_levels,
            forall|i: int|
                0 <= i < n_levels ==> {
                    &&& (#[trigger] r@[i]).ll.wf()
                    &&& r@[i].hl.wf()
                    &&& r@[i].lh.wf()
                    &&& r@[i].hh.wf()
                    &&& r@[i].ll.spec_width() == (spec_ceil_iter(input.spec_width(), i as nat) + 1)
                        / 2
                    &&& r@[i].hl.spec_width() == spec_ceil_iter(input.spec_width(), i as nat) / 2
                    &&& r@[i].lh.spec_width() == (spec_ceil_iter(input.spec_width(), i as nat) + 1)
                        / 2
                    &&& r@[i].hh.spec_width() == spec_ceil_iter(input.spec_width(), i as nat) / 2
                    &&& r@[i].ll.spec_height() == (spec_ceil_iter(input.spec_height(), i as nat)
                        + 1) / 2
                    &&& r@[i].hl.spec_height() == (spec_ceil_iter(input.spec_height(), i as nat)
                        + 1) / 2
                    &&& r@[i].lh.spec_height() == spec_ceil_iter(input.spec_height(), i as nat) / 2
                    &&& r@[i].hh.spec_height() == spec_ceil_iter(input.spec_height(), i as nat) / 2
                },
            input.spec_u0() == 0 && input.spec_v0() == 0 ==> forall|i: int|
                0 <= i < n_levels ==> {
                    let wp = spec_ceil_iter(input.spec_width(), i as nat);
                    let d = spec_level_d(
                        spec_fdwt_ll(grid_of(*input), input.spec_width(), i as nat),
                        wp,
                    );
                    &&& grid_of((#[trigger] r@[i]).ll) == spec_half_grid(d, wp, 0, 0)
                    &&& grid_of(r@[i].hl) == spec_half_grid(d, wp, 1, 0)
                    &&& grid_of(r@[i].lh) == spec_half_grid(d, wp, 0, 1)
                    &&& grid_of(r@[i].hh) == spec_half_grid(d, wp, 1, 1)
                },
    {
        let ghost g0 = grid_of(*input);
        let ghost w0 = input.spec_width();
        let ghost h0 = input.spec_height();
        let mut result: Vec<SubBands> = Vec::new();
        let mut current = self.copy_array(input);
        let mut lev: usize = 0;
        while lev < n_levels
            invariant
                self.filter() == FilterType::Reversible53,
                current.wf(),
                current.spec_u0() >= 0,
                current.spec_v0() >= 0,
                input.spec_u0() == 0 && input.spec_v0() == 0 ==> current.spec_u0() == 0
                    && current.spec_v0() == 0,
                input.spec_u0() >= 0,
                input.spec_v0() >= 0,
                g0 == grid_of(*input),
                w0 == input.spec_width(),
                h0 == input.spec_height(),
                lev <= n_levels,
                result@.len() == lev,
                current.spec_width() == spec_ceil_iter(w0, lev as nat),
                current.spec_height() == spec_ceil_iter(h0, lev as nat),
                input.spec_u0() == 0 && input.spec_v0() == 0 ==> grid_of(current) == spec_fdwt_ll(
                    g0,
                    w0,
                    lev as nat,
                ),
                forall|i: int|
                    0 <= i < lev ==> {
                        &&& (#[trigger] result@[i]).ll.wf()
                        &&& result@[i].hl.wf()
                        &&& result@[i].lh.wf()
                        &&& result@[i].hh.wf()
                        &&& result@[i].ll.spec_width() == (spec_ceil_iter(w0, i as nat) + 1) / 2
                        &&& result@[i].hl.spec_width() == spec_ceil_iter(w0, i as nat) / 2
                        &&& result@[i].lh.spec_width() == (spec_ceil_iter(w0, i as nat) + 1) / 2
                        &&& result@[i].hh.spec_width() == spec_ceil_iter(w0, i as nat) / 2
                        &&& result@[i].ll.spec_height() == (spec_ceil_iter(h0, i as nat) + 1) / 2
                        &&& result@[i].hl.spec_height() == (spec_ceil_iter(h0, i as nat) + 1) / 2
                        &&& result@[i].lh.spec_height() == spec_ceil_iter(h0, i as nat) / 2
                        &&& result@[i].hh.spec_height() == spec_ceil_iter(h0, i as nat) / 2
                    },
                input.spec_u0() == 0 && input.spec_v0() == 0 ==> forall|i: int|
                    0 <= i < lev ==> {
                        let wp = spec_ceil_iter(w0, i as nat);
                        let d = spec_level_d(spec_fdwt_ll(g0, w0, i as nat), wp);
                        &&& grid_of((#[trigger] result@[i]).ll) == spec_half_grid(d, wp, 0, 0)
                        &&& grid_of(result@[i].hl) == spec_half_grid(d, wp, 1, 0)
                        &&& grid_of(result@[i].lh) == spec_half_grid(d, wp, 0, 1)
                        &&& grid_of(result@[i].hh) == spec_half_grid(d, wp, 1, 1)
                    },
            decreases n_levels - lev,
        {
            let subbands = self.subband_decompose_2d(&current);
            current = self.copy_array(&subbands.ll);
            result.push(subbands);
            lev = lev + 1;
        }
        result
    }

    /// Forward then inverse transform over the same level count: for a
    /// tile-component at the origin, the result reproduces the input
    /// exactly, at any level count.
    pub fn round_trip(&self, input: &Array2D<i64>, n_levels: usize) -> (r: Array2D<i64>)
        requires
            self.filter() == FilterType::Reversible53,
            input.wf(),
            input.spec_u0() >= 0,
            input.spec_v0() >= 0,
            n_levels >= 1,
        ensures
            r.wf(),
            input.spec_u0() == 0 && input.spec_v0() == 0 && input.spec_width() >= 1 ==> {
                &&& r.spec_width() == input.spec_width()
                &&& r.spec_height() == input.spec_height()
                &&& grid_of(r) == grid_of(*input)
            },
    {
        let subbands = self.fdwt(input, n_levels);
        proof {
            lemma_fdwt_bands_dims(
                subbands@,
                input.spec_width(),
                input.spec_height(),
                n_levels as int,
            );
            assert forall|lev: int| 0 <= lev <= n_levels implies #[trigger] spec_idwt_w(
                subbands@,
                lev,
            ) <= 0x100000 && spec_idwt_h(subbands@, lev) <= 0x100000 by {
                lemma_ceil_iter_bounds(input.spec_width(), lev as nat);
                lemma_ceil_iter_bounds(input.spec_height(), lev as nat);
            }
        }
        let r = self.idwt(&subbands, n_levels);
        proof {
            if input.spec_u0() == 0 && input.spec_v0() == 0 && input.spec_width() >= 1 {
                assert forall|r2: int|
                    0 <= r2 < grid_of(*input).len() implies (#[trigger] grid_of(*input)[r2]).len()
                    == input.spec_width() by {
                    input.lemma_row_index(r2);
                }
                lemma_pipeline_level(
                    grid_of(*input),
                    input.spec_width(),
                    subbands@,
                    n_levels as int,
                    0,
                );
            }
        }
        r
    }
}

/// For subbands with the ceiling-rule dimensions, the reconstruction's
/// running width and height at every level equal the ceiling-halved
/// dimensions of the original tile-component.
pub proof fn lemma_fdwt_bands_dims(bands: Seq<SubBands>, w0: int, h0: int, n: int)
    requires
        w0 >= 0,
        h0 >= 0,
        bands.len() == n >= 1,
        forall|i: int|
            0 <= i < n ==> {
                &&& (#[trigger] bands[i]).ll.spec_width() == (spec_ceil_iter(w0, i as nat) + 1) / 2
                &&& bands[i].hl.spec_width() == spec_ceil_iter(w0, i as nat) / 2
                &&& bands[i].ll.spec_height() == (spec_ceil_iter(h0, i as nat) + 1) / 2
                &&& bands[i].lh.spec_height() == spec_ceil_iter(h0, i as nat) / 2
            },
    ensures
        forall|lev: int|
            0 <= lev <= n ==> #[trigger] spec_idwt_w(bands, lev) == spec_ceil_iter(w0, lev as nat)
                && spec_idwt_h(bands, lev) == spec_ceil_iter(h0, lev as nat),
{
    assert forall|lev: int| 0 <= lev <= n implies #[trigger] spec_idwt_w(bands, lev)
        == spec_ceil_iter(w0, lev as nat) && spec_idwt_h(bands, lev) == spec_ceil_iter(
        h0,
        lev as nat,
    ) by {
        lemma_fdwt_bands_dims_at(bands, w0, h0, n, lev);
    }
}

/// One level of `lemma_fdwt_bands_dims`, by downward induction.
proof fn lemma_fdwt_bands_dims_at(bands: Seq<SubBands>, w0: int, h0: int, n: int, lev: int)
    requires
        w0 >= 0,
        h0 >= 0,
        bands.len() == n >= 1,
        0 <= lev <= n,
        forall|i: int|
            0 <= i < n ==> {
                &&& (#[trigger] bands[i]).ll.spec_width() == (spec_ceil_iter(w0, i as nat) + 1) / 2
                &&& bands[i].hl.spec_width() == spec_ceil_iter(w0, i as nat) / 2
                &&& bands[i].ll.spec_height() == (spec_ceil_iter(h0, i as nat) + 1) / 2
                &&& bands[i].lh.spec_height() == spec_ceil_iter(h0, i as nat) / 2
            },
    ensures
        spec_idwt_w(bands, lev) == spec_ceil_iter(w0, lev as nat),
        spec_idwt_h(bands, lev) == spec_ceil_iter(h0, lev as nat),
    decreases n - lev,
{
    if lev >= n {
        // The deepest low-pass band.
        assert(spec_idwt_w(bands, lev) == bands[n - 1].ll.spec_width());
        assert(spec_ceil_iter(w0, n as nat) == (spec_ceil_iter(w0, (n - 1) as nat) + 1) / 2);
        assert(spec_ceil_iter(h0, n as nat) == (spec_ceil_iter(h0, (n - 1) as nat) + 1) / 2);
        assert(lev == n);
    } else {
        lemma_fdwt_bands_dims_at(bands, w0, h0, n, lev + 1);
        let wl = spec_ceil_iter(w0, lev as nat);
        let hl = spec_ceil_iter(h0, lev as nat);
        vstd::arithmetic::div_mod::lemma_fundamental_div_mod(wl, 2);
        vstd::arithmetic::div_mod::lemma_fundamental_div_mod(wl + 1, 2);
        vstd::arithmetic::div_mod::lemma_fundamental_div_mod(hl, 2);
        vstd::arithmetic::div_mod::lemma_fundamental_div_mod(hl + 1, 2);
        assert(spec_ceil_iter(w0, (lev + 1) as nat) == (wl + 1) / 2);
        assert(spec_ceil_iter(h0, (lev + 1) as nat) == (hl + 1) / 2);
        assert((wl + 1) / 2 + wl / 2 == wl) by (nonlinear_arith)
            requires
                wl == 2 * (wl / 2) + wl % 2,
                wl + 1 == 2 * ((wl + 1) / 2) + (wl + 1) % 2,
                0 <= wl % 2 < 2,
                0 <= (wl + 1) % 2 < 2,
        ;
        assert((hl + 1) / 2 + hl / 2 == hl) by (nonlinear_arith)
            requires
                hl == 2 * (hl / 2) + hl % 2,
                hl + 1 == 2 * ((hl + 1) / 2) + (hl + 1) % 2,
                0 <= hl % 2 < 2,
                0 <= (hl + 1) % 2 < 2,
        ;
    }
}

/// The reconstruction at level `lev` of the forward transform's subbands is
/// exactly the low-pass grid that entered level `lev`: interleaving the
/// four parity quarters restores the filtered grid, and the inverse row and
/// column filters undo the forward ones. At `lev == 0` this is the original
/// tile-component.
#[verifier::rlimit(100)]
#[verifier::spinoff_prover]
pub proof fn lemma_pipeline_level(
    g: Seq<Seq<i64>>,
    w0: int,
    bands: Seq<SubBands>,
    n: int,
    lev: int,
)
    requires
        grid_wf(g, w0),
        w0 >= 1,
        bands.len() == n >= 1,
        0 <= lev <= n,
        forall|i: int|
            0 <= i < n ==> {
                &&& (#[trigger] bands[i]).ll.spec_width() == (spec_ceil_iter(w0, i as nat) + 1) / 2
                &&& bands[i].hl.spec_width() == spec_ceil_iter(w0, i as nat) / 2
                &&& bands[i].ll.spec_height() == (spec_ceil_iter(g.len() as int, i as nat) + 1) / 2
                &&& bands[i].lh.spec_height() == spec_ceil_iter(g.len() as int, i as nat) / 2
            },
        forall|i: int|
            0 <= i < n ==> {
                let wp = spec_ceil_iter(w0, i as nat);
                let d = spec_level_d(spec_fdwt_ll(g, w0, i as nat), wp);
                &&& grid_of((#[trigger] bands[i]).ll) == spec_half_grid(d, wp, 0, 0)
                &&& grid_of(bands[i].hl) == spec_half_grid(d, wp, 1, 0)
                &&& grid_of(bands[i].lh) == spec_half_grid(d, wp, 0, 1)
                &&& grid_of(bands[i].hh) == spec_half_grid(d, wp, 1, 1)
            },
    ensures
        spec_idwt_grid(bands, lev) == spec_fdwt_ll(g, w0, lev as nat),
    decreases n - lev,
{
    lemma_fdwt_bands_dims_at(bands, w0, g.len() as int, n, lev);
    if lev >= n {
        assert(spec_idwt_grid(bands, lev) == grid_of(bands[n - 1].ll));
        assert(spec_fdwt_ll(g, w0, n as nat) == spec_half_grid(
            spec_level_d(spec_fdwt_ll(g, w0, (n - 1) as nat), spec_ceil_iter(w0, (n - 1) as nat)),
            spec_ceil_iter(w0, (n - 1) as nat),
            0,
            0,
        ));
        assert(lev == n);
    } else {
        lemma_pipeline_level(g, w0, bands, n, lev + 1);
        let ll = spec_fdwt_ll(g, w0, lev as nat);
        let wl = spec_ceil_iter(w0, lev as nat);
        lemma_fdwt_ll_wf(g, w0, lev as nat);
        lemma_ceil_iter_bounds(w0, lev as nat);
        let v = spec_ver_sd(ll, wl, 0);
        let d = spec_level_d(ll, wl);
        assert(grid_wf(v, wl)) by {
            assert forall|r: int| 0 <= r < v.len() implies (#[trigger] v[r]).len() == wl by {}
        }
        assert(grid_wf(d, wl)) by {
            assert forall|r: int| 0 <= r < d.len() implies (#[trigger] d[r]).len() == wl by {
                lemma_53_keeps_length(v[r], 0);
            }
        }
        assert(d.len() == ll.len());
        lemma_fdwt_bands_dims_at(bands, w0, g.len() as int, n, lev + 1);
        // The four quarters interleave back to the filtered grid.
        lemma_interleave_of_halves(d, wl);
        assert(spec_fdwt_ll(g, w0, (lev + 1) as nat) == spec_half_grid(d, wl, 0, 0));
        // Row and column inverse filtering undo the forward steps.
        lemma_hor_round_trip(v, wl);
        lemma_ver_round_trip(ll, wl);
        assert(spec_idwt_w(bands, lev) == wl);
        assert(spec_idwt_h(bands, lev) == d.len()) by {
            lemma_fdwt_ll_wf(g, w0, lev as nat);
        }
        assert(spec_idwt_grid(bands, lev) == spec_ver_sr(
            spec_hor_sr(
                spec_interleave4(
                    spec_half_grid(d, wl, 0, 0),
                    spec_half_grid(d, wl, 1, 0),
                    spec_half_grid(d, wl, 0, 1),
                    spec_half_grid(d, wl, 1, 1),
                    wl,
                    d.len() as int,
                ),
                0,
            ),
            wl,
            0,
        ));
    }
}

/// Forward 5-3 transform over `n_levels` decomposition levels; see `fdwt`.
pub fn dwt_53_forward(input: &Array2D<i64>, n_levels: usize) -> (r: Vec<SubBands>)
    requires
        input.wf(),
        input.spec_u0() >= 0,
        input.spec_v0() >= 0,
    ensures
        r@.len() == n_levels,
        input.spec_u0() == 0 && input.spec_v0() == 0 ==> forall|i: int|
            0 <= i < n_levels ==> {
                let wp = spec_ceil_iter(input.spec_width(), i as nat);
                let d = spec_level_d(
                    spec_fdwt_ll(grid_of(*input), input.spec_width(), i as nat),
                    wp,
                );
                &&& grid_of((#[trigger] r@[i]).ll) == spec_half_grid(d, wp, 0, 0)
                &&& grid_of(r@[i].hl) == spec_half_grid(d, wp, 1, 0)
                &&& grid_of(r@[i].lh) == spec_half_grid(d, wp, 0, 1)
                &&& grid_of(r@[i].hh) == spec_half_grid(d, wp, 1, 1)
            },
{
    let processor = DwtProcessor::new(FilterType::Reversible53);
    processor.fdwt(input, n_levels)
}

/// Inverse 5-3 transform from `n_levels` decomposition levels; see `idwt`.
pub fn dwt_53_inverse(subbands: &Vec<SubBands>, n_levels: usize) -> (r: Array2D<i64>)
    requires
        n_levels >= 1,
        subbands@.len() == n_levels,
        forall|i: int|
            0 <= i < n_levels ==> {
                &&& (#[trigger] subbands@[i]).ll.wf()
                &&& subbands@[i].hl.wf()
                &&& subbands@[i].lh.wf()
                &&& subbands@[i].hh.wf()
            },
        forall|lev: int|
            0 <= lev <= n_levels ==> #[trigger] spec_idwt_w(subbands@, lev) <= 0x100000
                && spec_idwt_h(subbands@, lev) <= 0x100000,
    ensures
        r.wf(),
        grid_of(r) == spec_idwt_grid(subbands@, 0),
{
    let processor = DwtProcessor::new(FilterType::Reversible53);
    processor.idwt(subbands, n_levels)
}

/// One decomposition level partitions the samples exactly: the four
/// subbands' coefficient counts sum to the tile-component's sample count.
pub proof fn lemma_subband_partition(w: int, h: int)
    requires
        w >= 0,
        h >= 0,
    ensures
        ((w + 1) / 2) * ((h + 1) / 2) + (w / 2) * ((h + 1) / 2) + ((w + 1) / 2) * (h / 2) + (w / 2)
            * (h / 2) == w * h,
{
    let cw = (w + 1) / 2;
    let fw = w / 2;
    let ch = (h + 1) / 2;
    let fh = h / 2;
    vstd::arithmetic::div_mod::lemma_fundamental_div_mod(w, 2);
    vstd::arithmetic::div_mod::lemma_fundamental_div_mod(w + 1, 2);
    vstd::arithmetic::div_mod::lemma_fundamental_div_mod(h, 2);
    vstd::arithmetic::div_mod::lemma_fundamental_div_mod(h + 1, 2);
    assert(cw + fw == w && ch + fh == h) by (nonlinear_arith)
        requires
            w == 2 * (w / 2) + w % 2,
            w + 1 == 2 * ((w + 1) / 2) + (w + 1) % 2,
            h == 2 * (h / 2) + h % 2,
            h + 1 == 2 * ((h + 1) / 2) + (h + 1) % 2,
            0 <= w % 2 < 2,
            0 <= (w + 1) % 2 < 2,
            0 <= h % 2 < 2,
            0 <= (h + 1) % 2 < 2,
            cw == (w + 1) / 2,
            fw == w / 2,
            ch == (h + 1) / 2,
            fh == h / 2,
    ;
    assert(cw * ch + fw * ch + cw * fh + fw * fh == (cw + fw) * (ch + fh)) by (nonlinear_arith);
}

/// A constant signal decomposes to the constant on the low-pass positions
/// and zero on the high-pass positions: the transform preserves flat
/// regions exactly.
pub proof fn lemma_53_dc(x: Seq<i64>, v: i64, p: int)
    requires
        0 <= p <= 1,
        x.len() >= 2,
        -0x1000_0000_0000_0000 <= v <= 0x1000_0000_0000_0000,
        forall|k: int| 0 <= k < x.len() ==> x[k] == v,
    ensures
        forall|k: int|
            0 <= k < x.len() ==> spec_decompose_53(x, p)[k] == (if (k + p) % 2 == 0 {
                v
            } else {
                0i64
            }),
{
    reveal(wadd);
    reveal(wsub);
    reveal(fl2);
    reveal(fl4);
    let n = x.len() as int;
    let w1 = spec_predict(x, p);
    assert forall|k: int| 0 <= k < n implies w1[k] == (if (k + p) % 2 == 0 {
        v
    } else {
        0i64
    }) by {
        if (k + p) % 2 == 1 {
            assert(ext53(x, k - 1) == v);
            assert(ext53(x, k + 1) == v);
        }
    }
    let w2 = spec_update(w1, p);
    assert forall|k: int| 0 <= k < n implies w2[k] == (if (k + p) % 2 == 0 {
        v
    } else {
        0i64
    }) by {
        if (k + p) % 2 == 0 {
            assert(ext53(w1, k - 1) == 0i64);
            assert(ext53(w1, k + 1) == 0i64);
        }
    }
}

/// A single-sample signal decomposes to itself on an even start and to the
/// doubled sample on an odd start, and reconstructs back either way.
pub proof fn lemma_53_length_one(x: Seq<i64>, p: int)
    requires
        0 <= p <= 1,
        x.len() == 1,
        -0x4000_0000_0000_0000 <= x[0] < 0x4000_0000_0000_0000,
    ensures
        p == 0 ==> spec_decompose_53(x, p) == x,
        p == 1 ==> spec_decompose_53(x, p) == seq![(2 * x[0]) as i64],
        spec_reconstruct_53(spec_decompose_53(x, p), p) == x,
{
    reveal(wadd);
    lemma_53_round_trip(x, p);
    if p == 1 {
        assert(spec_decompose_53(x, p) =~= seq![(2 * x[0]) as i64]);
    }
}

/// A rectangular grid of samples: every row has width `w`.
pub open spec fn grid_wf(g: Seq<Seq<i64>>, w: int) -> bool {
    forall|r: int| 0 <= r < g.len() ==> (#[trigger] g[r]).len() == w
}

/// The grid a sample array holds, row by row.
pub open spec fn grid_of(a: Array2D<i64>) -> Seq<Seq<i64>> {
    Seq::new(a.spec_height() as nat, |r: int| a.row(r))
}

/// Column `c` of a grid.
pub open spec fn gcol(g: Seq<Seq<i64>>, c: int) -> Seq<i64> {
    Seq::new(g.len(), |r: int| g[r][c])
}

/// The forward one-dimensional filter applied to every row.
pub open spec fn spec_hor_sd(g: Seq<Seq<i64>>, p: int) -> Seq<Seq<i64>> {
    Seq::new(g.len(), |r: int| spec_decompose_53(g[r], p))
}

/// The inverse one-dimensional filter applied to every row.
pub open spec fn spec_hor_sr(g: Seq<Seq<i64>>, p: int) -> Seq<Seq<i64>> {
    Seq::new(g.len(), |r: int| spec_reconstruct_53(g[r], p))
}

/// The forward one-dimensional filter applied to every column of a grid of
/// width `w`.
pub open spec fn spec_ver_sd(g: Seq<Seq<i64>>, w: int, p: int) -> Seq<Seq<i64>> {
    Seq::new(g.len(), |r: int| Seq::new(w as nat, |c: int| spec_decompose_53(gcol(g, c), p)[r]))
}

/// The inverse one-dimensional filter applied to every column of a grid of
/// width `w`.
pub open spec fn spec_ver_sr(g: Seq<Seq<i64>>, w: int, p: int) -> Seq<Seq<i64>> {
    Seq::new(g.len(), |r: int| Seq::new(w as nat, |c: int| spec_reconstruct_53(gcol(g, c), p)[r]))
}

/// The samples of a grid whose column parity is `pc` and row parity `pr`,
/// as a compact quarter grid: the four subbands of one level.
pub open spec fn spec_half_grid(g: Seq<Seq<i64>>, w: int, pc: int, pr: int) -> Seq<Seq<i64>> {
    Seq::new(
        ((g.len() + 1 - pr) / 2) as nat,
        |r: int| Seq::new(((w + 1 - pc) / 2) as nat, |c: int| g[2 * r + pr][2 * c + pc]),
    )
}

/// A sample of a quarter grid, or 0 beyond its rectangle.
pub open spec fn spec_band_sample(b: Seq<Seq<i64>>, c: int, r: int) -> i64 {
    if 0 <= r < b.len() && 0 <= c < b[r].len() {
        b[r][c]
    } else {
        0
    }
}

/// Four quarter grids interleaved back into a `w` x `h` grid by parity.
pub open spec fn spec_interleave4(
    ll: Seq<Seq<i64>>,
    hl: Seq<Seq<i64>>,
    lh: Seq<Seq<i64>>,
    hh: Seq<Seq<i64>>,
    w: int,
    h: int,
) -> Seq<Seq<i64>> {
    Seq::new(
        h as nat,
        |r: int|
            Seq::new(
                w as nat,
                |c: int|
                    if r % 2 == 0 {
                        if c % 2 == 0 {
                            spec_band_sample(ll, c / 2, r / 2)
                        } else {
                            spec_band_sample(hl, c / 2, r / 2)
                        }
                    } else {
                        if c % 2 == 0 {
                            spec_band_sample(lh, c / 2, r / 2)
                        } else {
                            spec_band_sample(hh, c / 2, r / 2)
                        }
                    },
            ),
    )
}

/// The one-dimensional filter keeps a signal's length, both ways.
pub proof fn lemma_53_keeps_length(x: Seq<i64>, p: int)
    ensures
        spec_decompose_53(x, p).len() == x.len(),
        spec_reconstruct_53(x, p).len() == x.len(),
{
}

/// Interleaving the four parity quarters of a grid restores the grid.
pub proof fn lemma_interleave_of_halves(g: Seq<Seq<i64>>, w: int)
    requires
        grid_wf(g, w),
        w >= 0,
    ensures
        spec_interleave4(
            spec_half_grid(g, w, 0, 0),
            spec_half_grid(g, w, 1, 0),
            spec_half_grid(g, w, 0, 1),
            spec_half_grid(g, w, 1, 1),
            w,
            g.len() as int,
        ) == g,
{
    let h = g.len() as int;
    let out = spec_interleave4(
        spec_half_grid(g, w, 0, 0),
        spec_half_grid(g, w, 1, 0),
        spec_half_grid(g, w, 0, 1),
        spec_half_grid(g, w, 1, 1),
        w,
        h,
    );
    assert forall|r: int| 0 <= r < h implies #[trigger] out[r] == g[r] by {
        assert forall|c: int| 0 <= c < w implies #[trigger] out[r][c] == g[r][c] by {
            let pr = r % 2;
            let pc = c % 2;
            vstd::arithmetic::div_mod::lemma_fundamental_div_mod(r, 2);
            vstd::arithmetic::div_mod::lemma_fundamental_div_mod(c, 2);
            vstd::arithmetic::div_mod::lemma_fundamental_div_mod(h + 1 - pr, 2);
            vstd::arithmetic::div_mod::lemma_fundamental_div_mod(w + 1 - pc, 2);
            let band = spec_half_grid(g, w, pc, pr);
            assert(r / 2 < band.len());
            assert(c / 2 < band[r / 2].len());
            assert(band[r / 2][c / 2] == g[2 * (r / 2) + pr][2 * (c / 2) + pc]);
            assert(2 * (r / 2) + pr == r);
            assert(2 * (c / 2) + pc == c);
        }
        assert(out[r] =~= g[r]);
    }
    assert(out =~= g);
}

/// Row filtering forward then inverse restores the grid.
pub proof fn lemma_hor_round_trip(g: Seq<Seq<i64>>, w: int)
    requires
        grid_wf(g, w),
        w >= 1,
    ensures
        spec_hor_sr(spec_hor_sd(g, 0), 0) == g,
{
    let mid = spec_hor_sd(g, 0);
    assert forall|r: int| 0 <= r < g.len() implies #[trigger] spec_hor_sr(mid, 0)[r] == g[r] by {
        lemma_53_round_trip(g[r], 0);
    }
    assert(spec_hor_sr(mid, 0) =~= g);
}

/// Column filtering forward then inverse restores the grid.
pub proof fn lemma_ver_round_trip(g: Seq<Seq<i64>>, w: int)
    requires
        grid_wf(g, w),
        w >= 1,
    ensures
        spec_ver_sr(spec_ver_sd(g, w, 0), w, 0) == g,
{
    let h = g.len() as int;
    let mid = spec_ver_sd(g, w, 0);
    assert forall|c: int| 0 <= c < w implies #[trigger] gcol(mid, c) == spec_decompose_53(
        gcol(g, c),
        0,
    ) by {
        lemma_53_keeps_length(gcol(g, c), 0);
        assert(gcol(mid, c) =~= spec_decompose_53(gcol(g, c), 0));
    }
    let out = spec_ver_sr(mid, w, 0);
    assert forall|r: int| 0 <= r < h implies #[trigger] out[r] == g[r] by {
        assert forall|c: int| 0 <= c < w implies #[trigger] out[r][c] == g[r][c] by {
            lemma_53_round_trip(gcol(g, c), 0);
            assert(spec_reconstruct_53(gcol(mid, c), 0) == gcol(g, c));
            assert(out[r][c] == spec_reconstruct_53(gcol(mid, c), 0)[r]);
        }
        assert(out[r] =~= g[r]);
    }
    assert(out =~= g);
}

/// One full decomposition level round-trips exactly: filtering every
/// column and every row of a grid with the forward 5-3 lifting, splitting
/// the result into the four subbands, and then interleaving them back and
/// filtering rows and columns with the inverse lifting reproduces every
/// sample of the grid.
pub proof fn lemma_2d_level_round_trip(g: Seq<Seq<i64>>, w: int)
    requires
        grid_wf(g, w),
        w >= 1,
    ensures
        ({
            let d = spec_hor_sd(spec_ver_sd(g, w, 0), 0);
            spec_ver_sr(
                spec_hor_sr(
                    spec_interleave4(
                        spec_half_grid(d, w, 0, 0),
                        spec_half_grid(d, w, 1, 0),
                        spec_half_grid(d, w, 0, 1),
                        spec_half_grid(d, w, 1, 1),
                        w,
                        g.len() as int,
                    ),
                    0,
                ),
                w,
                0,
            ) == g
        }),
{
    let v = spec_ver_sd(g, w, 0);
    let d = spec_hor_sd(v, 0);
    assert(grid_wf(v, w)) by {
        assert forall|r: int| 0 <= r < v.len() implies (#[trigger] v[r]).len() == w by {}
    }
    assert(grid_wf(d, w)) by {
        assert forall|r: int| 0 <= r < d.len() implies (#[trigger] d[r]).len() == w by {
            lemma_53_keeps_length(v[r], 0);
        }
    }
    assert(d.len() == g.len());
    lemma_interleave_of_halves(d, w);
    lemma_hor_round_trip(v, w);
    assert(spec_hor_sr(d, 0) == v);
    lemma_ver_round_trip(g, w);
}

/// `i` ceiling-halvings of `w`: the width (or height) of the low-pass band
/// that enters decomposition level `i`.
pub open spec fn spec_ceil_iter(w: int, i: nat) -> int
    decreases i,
{
    if i == 0 {
        w
    } else {
        (spec_ceil_iter(w, (i - 1) as nat) + 1) / 2
    }
}

/// One forward level of a grid of width `w`: the forward filter over every
/// column, then over every row.
pub open spec fn spec_level_d(g: Seq<Seq<i64>>, w: int) -> Seq<Seq<i64>> {
    spec_hor_sd(spec_ver_sd(g, w, 0), 0)
}

/// The low-pass grid that enters decomposition level `i` of the forward
/// transform of `g`.
pub open spec fn spec_fdwt_ll(g: Seq<Seq<i64>>, w: int, i: nat) -> Seq<Seq<i64>>
    decreases i,
{
    if i == 0 {
        g
    } else {
        let prev = spec_fdwt_ll(g, w, (i - 1) as nat);
        let wp = spec_ceil_iter(w, (i - 1) as nat);
        spec_half_grid(spec_level_d(prev, wp), wp, 0, 0)
    }
}

/// Ceiling-halving never grows a dimension and keeps a positive one
/// positive.
pub proof fn lemma_ceil_iter_bounds(w: int, i: nat)
    requires
        w >= 0,
    ensures
        0 <= spec_ceil_iter(w, i) <= w,
        w >= 1 ==> spec_ceil_iter(w, i) >= 1,
    decreases i,
{
    if i > 0 {
        lemma_ceil_iter_bounds(w, (i - 1) as nat);
    }
}

/// The low-pass grid entering level `i` is rectangular, with the
/// ceiling-halved width and height of the original.
pub proof fn lemma_fdwt_ll_wf(g: Seq<Seq<i64>>, w: int, i: nat)
    requires
        grid_wf(g, w),
        w >= 1,
    ensures
        grid_wf(spec_fdwt_ll(g, w, i), spec_ceil_iter(w, i)),
        spec_fdwt_ll(g, w, i).len() == spec_ceil_iter(g.len() as int, i),
    decreases i,
{
    if i > 0 {
        lemma_fdwt_ll_wf(g, w, (i - 1) as nat);
        let prev = spec_fdwt_ll(g, w, (i - 1) as nat);
        let wp = spec_ceil_iter(w, (i - 1) as nat);
        lemma_ceil_iter_bounds(w, (i - 1) as nat);
        let v = spec_ver_sd(prev, wp, 0);
        let d = spec_level_d(prev, wp);
        assert(grid_wf(v, wp)) by {
            assert forall|r: int| 0 <= r < v.len() implies (#[trigger] v[r]).len() == wp by {}
        }
        assert(grid_wf(d, wp)) by {
            assert forall|r: int| 0 <= r < d.len() implies (#[trigger] d[r]).len() == wp by {
                lemma_53_keeps_length(v[r], 0);
            }
        }
        let ll = spec_half_grid(d, wp, 0, 0);
        assert(grid_wf(ll, (wp + 1) / 2)) by {
            assert forall|r: int| 0 <= r < ll.len() implies (#[trigger] ll[r]).len() == (wp + 1)
                / 2 by {}
        }
    }
}

/// The running width of the reconstruction at level `lev`: the deepest
/// low-pass width, grown by one high-pass band width per level below.
pub open spec fn spec_idwt_w(bands: Seq<SubBands>, lev: int) -> int
    decreases bands.len() - lev,
{
    if lev >= bands.len() || bands.len() == 0 {
        if bands.len() == 0 {
            0
        } else {
            bands[bands.len() - 1].ll.spec_width()
        }
    } else {
        spec_idwt_w(bands, lev + 1) + bands[lev].hl.spec_width()
    }
}

/// The running height of the reconstruction at level `lev`.
pub open spec fn spec_idwt_h(bands: Seq<SubBands>, lev: int) -> int
    decreases bands.len() - lev,
{
    if lev >= bands.len() || bands.len() == 0 {
        if bands.len() == 0 {
            0
        } else {
            bands[bands.len() - 1].ll.spec_height()
        }
    } else {
        spec_idwt_h(bands, lev + 1) + bands[lev].lh.spec_height()
    }
}

/// The grid the inverse transform holds once every level above `lev` has
/// been reconstructed: the deepest low-pass band at `lev == bands.len()`,
/// and one interleave-and-filter step per level below.
pub open spec fn spec_idwt_grid(bands: Seq<SubBands>, lev: int) -> Seq<Seq<i64>>
    decreases bands.len() - lev,
{
    if lev >= bands.len() || bands.len() == 0 {
        if bands.len() == 0 {
            Seq::empty()
        } else {
            grid_of(bands[bands.len() - 1].ll)
        }
    } else {
        let w = spec_idwt_w(bands, lev);
        let h = spec_idwt_h(bands, lev);
        spec_ver_sr(
            spec_hor_sr(
                spec_interleave4(
                    spec_idwt_grid(bands, lev + 1),
                    grid_of(bands[lev].hl),
                    grid_of(bands[lev].lh),
                    grid_of(bands[lev].hh),
                    w,
                    h,
                ),
                0,
            ),
            w,
            0,
        )
    }
}

/// One full decomposition-and-reconstruction of `n` levels, composed
/// exactly as `fdwt` and `idwt` compose their per-level procedures: each
/// level filters columns and rows forward, splits off the four subbands,
/// recurses into the low-pass quarter, and then interleaves and filters
/// back.
pub open spec fn spec_multi_level_round(g: Seq<Seq<i64>>, w: int, n: nat) -> Seq<Seq<i64>>
    decreases n,
{
    if n == 0 {
        g
    } else {
        let d = spec_hor_sd(spec_ver_sd(g, w, 0), 0);
        let ll = spec_half_grid(d, w, 0, 0);
        let hl = spec_half_grid(d, w, 1, 0);
        let lh = spec_half_grid(d, w, 0, 1);
        let hh = spec_half_grid(d, w, 1, 1);
        let rec_ll = spec_multi_level_round(ll, (w + 1) / 2, (n - 1) as nat);
        spec_ver_sr(
            spec_hor_sr(spec_interleave4(rec_ll, hl, lh, hh, w, g.len() as int), 0),
            w,
            0,
        )
    }
}

/// The forward-then-inverse transform reproduces any integer input
/// exactly, at every decomposition level count.
pub proof fn lemma_multi_level_round_trip(g: Seq<Seq<i64>>, w: int, n: nat)
    requires
        grid_wf(g, w),
        w >= 1,
    ensures
        spec_multi_level_round(g, w, n) == g,
    decreases n,
{
    if n > 0 {
        let v = spec_ver_sd(g, w, 0);
        let d = spec_hor_sd(v, 0);
        let ll = spec_half_grid(d, w, 0, 0);
        assert(grid_wf(v, w)) by {
            assert forall|r: int| 0 <= r < v.len() implies (#[trigger] v[r]).len() == w by {}
        }
        assert(grid_wf(d, w)) by {
            assert forall|r: int| 0 <= r < d.len() implies (#[trigger] d[r]).len() == w by {
                lemma_53_keeps_length(v[r], 0);
            }
        }
        assert(grid_wf(ll, (w + 1) / 2)) by {
            assert forall|r: int| 0 <= r < ll.len() implies (#[trigger] ll[r]).len() == (w + 1)
                / 2 by {}
        }
        lemma_multi_level_round_trip(ll, (w + 1) / 2, (n - 1) as nat);
        lemma_interleave_of_halves(d, w);
        lemma_hor_round_trip(v, w);
        lemma_ver_round_trip(g, w);
    }
}

/// The coefficient count of the three detail subbands produced by one
/// decomposition level of a `w` x `h` low-pass band.
pub open spec fn spec_detail_count(w: int, h: int) -> int {
    (w / 2) * ((h + 1) / 2) + ((w + 1) / 2) * (h / 2) + (w / 2) * (h / 2)
}

/// The total coefficient count of an `n`-level decomposition: the deepest
/// low-pass band plus every level's detail bands.
pub open spec fn spec_partition_total(w: int, h: int, n: nat) -> int
    decreases n,
{
    if n == 0 {
        w * h
    } else {
        spec_partition_total((w + 1) / 2, (h + 1) / 2, (n - 1) as nat) + spec_detail_count(w, h)
    }
}

/// The subbands of a full decomposition partition the samples exactly: at
/// every level count, the deepest low-pass band and all detail bands
/// together hold as many coefficients as the tile-component has samples.
pub proof fn lemma_multi_level_partition(w: int, h: int, n: nat)
    requires
        w >= 0,
        h >= 0,
    ensures
        spec_partition_total(w, h, n) == w * h,
    decreases n,
{
    if n > 0 {
        lemma_multi_level_partition((w + 1) / 2, (h + 1) / 2, (n - 1) as nat);
        lemma_subband_partition(w, h);
    }
}

} // verus!
