//! Colours with four channels.
use crate::rational::Rational;
use vstd::prelude::*;

verus! {

/// What a colour channel needs of its values: the darkest and the
/// brightest value.
pub trait ValueT: Copy {
    /// No intensity.
    spec fn zero_spec() -> Self;

    /// Full intensity.
    spec fn one_spec() -> Self;

    fn zero() -> (r: Self)
        ensures
            r == Self::zero_spec(),
    ;

    fn one() -> (r: Self)
        ensures
            r == Self::one_spec(),
    ;
}

impl ValueT for Rational {
    open spec fn zero_spec() -> Rational {
        Rational::zero_spec()
    }

    open spec fn one_spec() -> Rational {
        Rational::one_spec()
    }

    fn zero() -> (r: Rational) {
        Rational::zero()
    }

    fn one() -> (r: Rational) {
        Rational::one()
    }
}

/// Red, green, blue and alpha. The channels are conventionally between 0
/// and 1, but nothing here clamps them.
#[derive(Clone, Copy)]
pub struct ColorT<T: ValueT> {
    pub r: T,
    pub g: T,
    pub b: T,
    pub a: T,
}

impl<T: ValueT> ColorT<T> {
    pub fn new(r: T, g: T, b: T, a: T) -> (c: Self)
        ensures
            c == (ColorT { r, g, b, a }),
    {
        Self { r, g, b, a }
    }
}

pub type Color = ColorT<Rational>;

} // verus!
