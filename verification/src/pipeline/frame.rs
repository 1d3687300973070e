//! The frame buffer: a grid of colours and a grid of depths.
use crate::color::{ColorT, ValueT};
use crate::rational::ints::{lemma_distribute, lemma_product_order, lemma_quotient_sign, lemma_units};
use crate::rational::rounding::{lemma_nearest_of_nonpositive, nearest};
use crate::rational::{Rational, LIMIT};
use vstd::prelude::*;

verus! {

/// The byte that stands for a channel: 255 times the channel, rounded to the
/// nearest integer with ties away from zero, and saturated to the range of a
/// byte. The non-finite value gives 0.
pub open spec fn byte_of(channel: Rational) -> u8 {
    if channel.finite() {
        let rounded = nearest(255real * channel.value());
        if rounded < 0 {
            0u8
        } else if rounded > 255 {
            255u8
        } else {
            rounded as u8
        }
    } else {
        0u8
    }
}

/// The byte that stands for a channel.
pub fn channel_byte(channel: &Rational) -> (byte: u8)
    ensures
        byte == byte_of(*channel),
{
    let n: i64 = channel.numerator();
    let d: i64 = channel.denominator();
    if d == 0 {
        0
    } else if n <= 0 {
        proof {
            channel.lemma_sign();
            let v = channel.value();
            lemma_nearest_of_nonpositive(255real * v);
        }
        0
    } else {
        proof {
            channel.lemma_nearest_scaled(255);
        }
        assert(n <= LIMIT && d <= LIMIT);
        let twice: i128 = 510 * (n as i128) + (d as i128);
        let nearest: i128 = twice / (2 * (d as i128));
        if nearest > 255 {
            255
        } else {
            proof {
                lemma_quotient_sign(twice as int, 2 * d);
            }
            nearest as u8
        }
    }
}

/// The place of the cell in row `y` and column `x` among the cells of a grid
/// with `m` columns, rows one after the other.
pub open spec fn cell(y: int, x: int, m: int) -> int {
    y * m + x
}

/// The place of byte `k` of the pixel in column `x` of the `r`-th row
/// written, four bytes per pixel.
pub open spec fn byte_index(r: int, x: int, k: int, m: int) -> int {
    4 * cell(r, x, m) + k
}

/// Cells of a grid are numbered without gaps and without repetition.
pub proof fn lemma_cell(y: int, x: int, n: int, m: int)
    requires
        0 <= y < n,
        0 <= x < m,
    ensures
        0 <= cell(y, x, m) < n * m,
        y * m <= cell(y, x, m) < (y + 1) * m,
        (y + 1) * m <= n * m,
        (y + 1) * m == y * m + m,
{
    lemma_product_order(0, y, m);
    lemma_product_order(y + 1, n, m);
    lemma_distribute(y, 1, m);
    lemma_units(m);
}

/// A render target of `N` rows and `M` columns. Row 0 is the bottom row. The
/// grids live on the heap, row after row: a frame of a few hundred rows and
/// columns is too large for the stack of a thread.
pub struct Frame<T: ValueT, const N: usize, const M: usize> {
    color: Vec<ColorT<T>>,
    depth: Vec<Rational>,
}

impl<T: ValueT, const N: usize, const M: usize> Frame<T, N, M> {
    /// Both grids hold `N` rows of `M` cells, row after row.
    #[verifier::type_invariant]
    spec fn inv(self) -> bool {
        &&& self.color.len() == N * M
        &&& self.depth.len() == N * M
    }

    /// The colour in row `y` and column `x`.
    pub closed spec fn pixel(self, y: int, x: int) -> ColorT<T> {
        self.color[cell(y, x, M as int)]
    }

    /// The depth in row `y` and column `x`.
    pub closed spec fn depth_at(self, y: int, x: int) -> Rational {
        self.depth[cell(y, x, M as int)]
    }

    /// A frame of opaque black at the far depth 1.
    pub fn new() -> (frame: Self)
        ensures
            forall|y: int, x: int|
                0 <= y < N && 0 <= x < M ==> frame.pixel(y, x) == (ColorT {
                    r: T::zero_spec(),
                    g: T::zero_spec(),
                    b: T::zero_spec(),
                    a: T::one_spec(),
                }),
            forall|y: int, x: int|
                0 <= y < N && 0 <= x < M ==> frame.depth_at(y, x) == Rational::one_spec(),
    {
        let black = ColorT::new(T::zero(), T::zero(), T::zero(), T::one());
        let far = Rational::one();
        let mut color: Vec<ColorT<T>> = Vec::new();
        let mut depth: Vec<Rational> = Vec::new();
        for y in 0..N
            invariant
                color.len() == y * M,
                depth.len() == y * M,
                forall|i: int| 0 <= i < color.len() ==> color[i] == black,
                forall|i: int| 0 <= i < depth.len() ==> depth[i] == far,
        {
            for x in 0..M
                invariant
                    color.len() == y * M + x,
                    depth.len() == y * M + x,
                    forall|i: int| 0 <= i < color.len() ==> color[i] == black,
                    forall|i: int| 0 <= i < depth.len() ==> depth[i] == far,
            {
                color.push(black);
                depth.push(far);
            }
            proof {
                lemma_distribute(y as int, 1, M as int);
                lemma_units(M as int);
            }
        }
        let frame = Frame { color, depth };
        proof {
            assert forall|y: int, x: int| 0 <= y < N && 0 <= x < M implies frame.pixel(y, x)
                == black && frame.depth_at(y, x) == far by {
                lemma_cell(y, x, N as int, M as int);
            }
        }
        frame
    }

    /// The colour in row `y` and column `x`.
    pub fn color_at(&self, y: usize, x: usize) -> (c: ColorT<T>)
        requires
            y < N,
            x < M,
        ensures
            c == self.pixel(y as int, x as int),
    {
        proof {
            use_type_invariant(self);
            lemma_cell(y as int, x as int, N as int, M as int);
        }
        self.color[y * M + x]
    }

    /// The depth in row `y` and column `x`.
    pub fn depth_value(&self, y: usize, x: usize) -> (d: Rational)
        requires
            y < N,
            x < M,
        ensures
            d == self.depth_at(y as int, x as int),
    {
        proof {
            use_type_invariant(self);
            lemma_cell(y as int, x as int, N as int, M as int);
        }
        self.depth[y * M + x]
    }

    /// Overwrites the colour in row `y` and column `x`.
    pub fn put(&mut self, y: usize, x: usize, c: ColorT<T>)
        requires
            y < N,
            x < M,
        ensures
            final(self).pixel(y as int, x as int) == c,
            forall|a: int, b: int|
                0 <= a < N && 0 <= b < M && !(a == y && b == x) ==> final(self).pixel(a, b) == old(
                    self,
                ).pixel(a, b),
            forall|a: int, b: int|
                0 <= a < N && 0 <= b < M ==> final(self).depth_at(a, b) == old(self).depth_at(a, b),
    {
        proof {
            use_type_invariant(&*self);
            lemma_cell(y as int, x as int, N as int, M as int);
        }
        let at: usize = y * M + x;
        self.color[at] = c;
        proof {
            assert forall|a: int, b: int|
                0 <= a < N && 0 <= b < M && !(a == y && b == x) implies 0 <= #[trigger] cell(
                a,
                b,
                M as int,
            ) < N * M && cell(a, b, M as int) != at by {
                lemma_cell(a, b, N as int, M as int);
                if a < y {
                    lemma_product_order(a + 1, y as int, M as int);
                } else if a > y {
                    lemma_product_order(y + 1, a, M as int);
                }
            }
        }
    }
}

impl<const N: usize, const M: usize> Frame<Rational, N, M> {
    /// The four bytes of the pixel in row `y` and column `x`: red, green,
    /// blue, alpha.
    pub open spec fn bytes_at(self, y: int, x: int) -> Seq<u8> {
        seq![
            byte_of(self.pixel(y, x).r),
            byte_of(self.pixel(y, x).g),
            byte_of(self.pixel(y, x).b),
            byte_of(self.pixel(y, x).a),
        ]
    }

    /// Whether `bytes` is what serializing `self` gives: four bytes per
    /// pixel, rows from `N - 1` down to 0, each from left to right. Byte `k`
    /// of the pixel in column `x` of the `r`-th row written is byte `k` of the
    /// pixel in row `N - 1 - r`.
    pub open spec fn serializes_to(self, bytes: Seq<u8>) -> bool {
        &&& bytes.len() == 4 * (N * M)
        &&& forall|r: int, x: int, k: int|
            0 <= r < N && 0 <= x < M && 0 <= k < 4 ==> 0 <= #[trigger] byte_index(
                r,
                x,
                k,
                M as int,
            ) < bytes.len() && bytes[byte_index(r, x, k, M as int)] == self.bytes_at(N - 1 - r, x)[k]
    }

    /// Serializes the colours, top row first: rows from `N - 1` down to 0,
    /// each from left to right, four bytes per pixel.
    pub fn byte_sequence(&self) -> (v: Vec<u8>)
        ensures
            self.serializes_to(v@),
    {
        let mut v: Vec<u8> = Vec::new();
        let mut done: usize = 0;
        while done < N
            invariant
                done <= N,
                v.len() == 4 * (done * M),
                forall|r: int, x: int, k: int|
                    0 <= r < done && 0 <= x < M && 0 <= k < 4 ==> 0 <= #[trigger] byte_index(
                        r,
                        x,
                        k,
                        M as int,
                    ) < v.len() && v[byte_index(r, x, k, M as int)] == self.bytes_at(
                        N - 1 - r,
                        x,
                    )[k],
            decreases N - done,
        {
            let y: usize = N - 1 - done;
            for x in 0..M
                invariant
                    y == N - 1 - done,
                    done < N,
                    v.len() == 4 * (done * M + x),
                    forall|r: int, b: int, k: int|
                        0 <= r <= done && 0 <= b < M && 0 <= k < 4 && (r < done || b < x) ==> 0
                            <= #[trigger] byte_index(r, b, k, M as int) < v.len() && v[byte_index(
                            r,
                            b,
                            k,
                            M as int,
                        )] == self.bytes_at(N - 1 - r, b)[k],
            {
                let c = self.color_at(y, x);
                let ghost before = v@;
                v.push(channel_byte(&c.r));
                v.push(channel_byte(&c.g));
                v.push(channel_byte(&c.b));
                v.push(channel_byte(&c.a));
                proof {
                    assert forall|r: int, b: int, k: int|
                        0 <= r <= done && 0 <= b < M && 0 <= k < 4 && (r < done || b < x + 1)
                        implies 0 <= #[trigger] byte_index(r, b, k, M as int) < v.len()
                        && v[byte_index(r, b, k, M as int)] == self.bytes_at(N - 1 - r, b)[k] by {
                        if r == done && b == x {
                            assert(byte_index(r, b, k, M as int) == before.len() + k);
                        } else {
                            assert(0 <= byte_index(r, b, k, M as int) < before.len());
                            assert(v[byte_index(r, b, k, M as int)] == before[byte_index(
                                r,
                                b,
                                k,
                                M as int,
                            )]);
                        }
                    }
                }
            }
            proof {
                lemma_distribute(done as int, 1, M as int);
                lemma_units(M as int);
            }
            done = done + 1;
        }
        v
    }
}

} // verus!
