use rasterizer::color::{Color, ColorT};
use rasterizer::pipeline::frame::{channel_byte, Frame};
use rasterizer::rational::Rational;

fn frac(n: i64, d: i64) -> Rational {
    Rational::new(n, d)
}

fn gray(level: Rational) -> Color {
    ColorT::new(level, level, level, Rational::one())
}

#[test]
fn color_keeps_its_channels() {
    let c = ColorT::new(frac(1, 2), frac(1, 3), frac(1, 4), frac(1, 5));
    assert_eq!(c.r, frac(1, 2));
    assert_eq!(c.g, frac(1, 3));
    assert_eq!(c.b, frac(1, 4));
    assert_eq!(c.a, frac(1, 5));
}

#[test]
fn a_new_frame_is_opaque_black() {
    let frame: Frame<Rational, 3, 2> = Frame::new();
    for y in 0..3 {
        for x in 0..2 {
            let c = frame.color_at(y, x);
            assert_eq!(c.r, Rational::zero());
            assert_eq!(c.g, Rational::zero());
            assert_eq!(c.b, Rational::zero());
            assert_eq!(c.a, Rational::one());
        }
    }
    let bytes = frame.byte_sequence();
    assert_eq!(bytes.len(), 24);
    for pixel in bytes.chunks(4) {
        assert_eq!(pixel, [0, 0, 0, 255]);
    }
}

#[test]
fn a_new_frame_is_at_the_far_depth() {
    let frame: Frame<Rational, 3, 2> = Frame::new();
    for y in 0..3 {
        for x in 0..2 {
            assert_eq!(frame.depth_value(y, x), Rational::one());
        }
    }
}

#[test]
fn a_frame_without_pixels_has_no_bytes() {
    let empty_rows: Frame<Rational, 0, 4> = Frame::new();
    assert!(empty_rows.byte_sequence().is_empty());
    let empty_columns: Frame<Rational, 4, 0> = Frame::new();
    assert!(empty_columns.byte_sequence().is_empty());
}

#[test]
fn put_overwrites_one_pixel() {
    let mut frame: Frame<Rational, 3, 2> = Frame::new();
    frame.put(1, 0, gray(frac(1, 2)));
    for y in 0..3 {
        for x in 0..2 {
            let expected = if (y, x) == (1, 0) {
                frac(1, 2)
            } else {
                Rational::zero()
            };
            assert_eq!(frame.color_at(y, x).r, expected);
        }
    }
}

#[test]
fn bytes_run_from_the_top_row_down_and_from_left_to_right() {
    let mut frame: Frame<Rational, 3, 2> = Frame::new();
    for y in 0..3 {
        for x in 0..2 {
            let level = Rational::new((10 * y + x) as i64, 255);
            frame.put(y, x, ColorT::new(level, Rational::zero(), Rational::zero(), Rational::one()));
        }
    }
    let bytes = frame.byte_sequence();
    let reds: Vec<u8> = bytes.chunks(4).map(|p| p[0]).collect();
    assert_eq!(reds, vec![20, 21, 10, 11, 0, 1]);
    for pixel in bytes.chunks(4) {
        assert_eq!(&pixel[1..], [0, 0, 255]);
    }
}

#[test]
fn channels_round_to_the_nearest_byte() {
    assert_eq!(channel_byte(&Rational::zero()), 0);
    assert_eq!(channel_byte(&Rational::one()), 255);
    assert_eq!(channel_byte(&frac(1, 2)), 128);
    assert_eq!(channel_byte(&frac(1, 3)), 85);
    assert_eq!(channel_byte(&frac(1, 4)), 64);
    assert_eq!(channel_byte(&frac(3, 4)), 191);
    assert_eq!(channel_byte(&frac(1, 255)), 1);
    assert_eq!(channel_byte(&frac(1, 510)), 1);
    assert_eq!(channel_byte(&frac(1, 511)), 0);
    assert_eq!(channel_byte(&frac(3, 510)), 2);
    assert_eq!(channel_byte(&frac(254, 255)), 254);
    assert_eq!(channel_byte(&frac(509, 510)), 255);
}

#[test]
fn channels_off_the_range_saturate() {
    assert_eq!(channel_byte(&frac(3, 2)), 255);
    assert_eq!(channel_byte(&Rational::from_int(2)), 255);
    assert_eq!(channel_byte(&Rational::max_value()), 255);
    assert_eq!(channel_byte(&frac(-1, 2)), 0);
    assert_eq!(channel_byte(&frac(-1, 1000)), 0);
    assert_eq!(channel_byte(&Rational::min_value()), 0);
    assert_eq!(channel_byte(&Rational::nan()), 0);
}
