use easer::functions::{Easing as Curves, Linear};
use tween_engine::{AnimatedValue, Easable, Easing, Hsv, ParseError, Rgba, SegmentCompositor};

type Curve = fn(f32, f32, f32, f32) -> f32;

fn rgba(r: u8, g: u8, b: u8, a: u8) -> Rgba {
    Rgba { r, g, b, a }
}

#[test]
fn the_canonical_token_is_read() {
    assert_eq!(Rgba::parse("rgb(255,0,0,255)"), Ok(rgba(255, 0, 0, 255)));
    assert_eq!(Rgba::parse("rgb(0,0,255,255)"), Ok(rgba(0, 0, 255, 255)));
    assert_eq!(Rgba::parse("rgb(1,20,200,7)"), Ok(rgba(1, 20, 200, 7)));
    assert_eq!(Rgba::parse("rgb(0,0,0,0)"), Ok(rgba(0, 0, 0, 0)));
}

#[test]
fn a_token_without_alpha_is_opaque() {
    assert_eq!(Rgba::parse("rgb(12,34,56)"), Ok(rgba(12, 34, 56, 255)));
}

#[test]
fn spaces_around_channels_and_leading_zeros_are_accepted() {
    assert_eq!(Rgba::parse("rgb(255, 0, 0, 255)"), Ok(rgba(255, 0, 0, 255)));
    assert_eq!(Rgba::parse("rgb(  1 ,2  ,   3   )"), Ok(rgba(1, 2, 3, 255)));
    assert_eq!(Rgba::parse("rgb(007,000,08,1)"), Ok(rgba(7, 0, 8, 1)));
}

#[test]
fn text_that_is_no_token_is_refused() {
    for text in [
        "",
        "r",
        "rgb",
        "rgb(",
        "rgb()",
        "rgb(1)",
        "rgb(1,2)",
        "rgb(1,2,)",
        "rgb(1,2,3",
        "rgb(1,2,3,",
        "rgb(1,2,3,4",
        "rgb(1,2,3,4,5)",
        "rgb(1,2,3,4,)",
        "rgb(,2,3)",
        "rgb(1,,3)",
        "rgb(256,0,0)",
        "rgb(0,0,0,256)",
        "rgb(999,0,0)",
        "rgb(0001,2,3)",
        "rgb(1 2,3,4)",
        "rgb(-1,2,3)",
        "rgb(+1,2,3)",
        "rgb(1.0,2,3)",
        "rgb(1,2,3,0.5)",
        "rgb(a,2,3)",
        "rgb(1,2,3) ",
        " rgb(1,2,3)",
        "rgb (1,2,3)",
        "rgb(1,2,3))",
        "rgb(1,2,3)x",
        "RGB(1,2,3)",
        "rgba(1,2,3,4)",
        "rgb(1\t,2,3)",
        "rgb(1,2,3)\n",
        "red",
        "#ff0000",
        "rgb(1,2,3)\u{e9}",
        "rgb(\u{661},2,3)",
        "rgb(1,2,3\u{ff09}",
    ] {
        assert_eq!(Rgba::parse(text), Err(ParseError), "{:?}", text);
    }
}

#[test]
fn colors_are_written_in_canonical_form() {
    assert_eq!(rgba(255, 0, 0, 255).to_text(), "rgb(255,0,0,255)");
    assert_eq!(rgba(0, 0, 0, 0).to_text(), "rgb(0,0,0,0)");
    assert_eq!(rgba(7, 42, 100, 9).to_text(), "rgb(7,42,100,9)");
    assert_eq!(rgba(10, 99, 101, 200).to_text(), "rgb(10,99,101,200)");
}

#[test]
fn what_is_written_reads_back() {
    for n in 0..=255u8 {
        let color = rgba(n, 255 - n, n / 2, n.wrapping_mul(7));
        assert_eq!(Rgba::parse(&color.to_text()), Ok(color));
    }
}

#[test]
fn reading_and_writing_gives_the_canonical_form() {
    let color = Rgba::parse("rgb( 010 , 20,030 )").unwrap();
    assert_eq!(color.to_text(), "rgb(10,20,30,255)");
}

/// A number that moves along a curve.
#[derive(Clone, Copy, Debug, PartialEq)]
struct Scalar(f32);

impl Easable<Curve> for Scalar {
    type Output = f32;

    fn eased(&self, to: &Self, time: u32, duration: u32, function: &Easing<Curve>) -> f32 {
        self.ease(to, time, duration, function)
    }

    fn ease(&self, to: &Self, time: u32, duration: u32, function: &Easing<Curve>) -> f32 {
        match function {
            Easing::Constant => self.0,
            Easing::Function(curve) => curve(time as f32, self.0, to.0 - self.0, duration as f32),
        }
    }
}

/// Hue in degrees, saturation and value from zero to one.
fn to_hsv(color: Rgba) -> Hsv<Scalar> {
    let r = color.r as f32 / 255.0;
    let g = color.g as f32 / 255.0;
    let b = color.b as f32 / 255.0;
    let max = r.max(g).max(b);
    let min = r.min(g).min(b);
    let delta = max - min;
    let hue = if delta == 0.0 {
        0.0
    } else if max == r {
        60.0 * ((g - b) / delta).rem_euclid(6.0)
    } else if max == g {
        60.0 * ((b - r) / delta + 2.0)
    } else {
        60.0 * ((r - g) / delta + 4.0)
    };
    let saturation = if max == 0.0 { 0.0 } else { delta / max };
    Hsv { h: Scalar(hue), s: Scalar(saturation), v: Scalar(max) }
}

fn from_hsv(color: Hsv<f32>) -> Rgba {
    let value = color.v;
    let chroma = value * color.s;
    let sector = (color.h / 60.0).rem_euclid(6.0);
    let x = chroma * (1.0 - (sector.rem_euclid(2.0) - 1.0).abs());
    let (r, g, b) = match sector as u32 {
        0 => (chroma, x, 0.0),
        1 => (x, chroma, 0.0),
        2 => (0.0, chroma, x),
        3 => (0.0, x, chroma),
        4 => (x, 0.0, chroma),
        _ => (chroma, 0.0, x),
    };
    let m = value - chroma;
    let channel = |c: f32| ((c + m) * 255.0).round() as u8;
    Rgba { r: channel(r), g: channel(g), b: channel(b), a: 255 }
}

/// A color that was read from a token, moves through hue, saturation and
/// value, and is shown as a token.
#[derive(Clone, Copy, Debug, PartialEq)]
struct Token(Rgba);

impl Token {
    fn read(text: &str) -> Result<Token, ParseError> {
        match Rgba::parse(text) {
            Ok(color) => Ok(Token(color)),
            Err(error) => Err(error),
        }
    }
}

impl Easable<Curve> for Token {
    type Output = String;

    fn eased(&self, to: &Self, time: u32, duration: u32, function: &Easing<Curve>) -> String {
        self.ease(to, time, duration, function)
    }

    fn ease(&self, to: &Self, time: u32, duration: u32, function: &Easing<Curve>) -> String {
        from_hsv(to_hsv(self.0).ease(&to_hsv(to.0), time, duration, function)).to_text()
    }
}

fn linear() -> Curve {
    <Linear as Curves<f32>>::ease_in_out
}

#[test]
fn a_hold_followed_by_a_move_between_two_tokens() {
    let red = Token::read("rgb(255,0,0,255)").unwrap();
    let blue = Token::read("rgb(0,0,255,255)").unwrap();
    let timeline = SegmentCompositor::new(red, red, 100, linear()).add_segment(red, blue, 200, linear());
    assert_eq!(timeline.duration(), 300);
    assert_eq!(timeline.calc(50), "rgb(255,0,0,255)");
    assert_eq!(timeline.calc(100), "rgb(255,0,0,255)");
    assert_eq!(timeline.calc(100), red.ease(&blue, 0, 200, &Easing::Function(linear())));
    let halfway = Rgba::parse(&timeline.calc(200)).unwrap();
    let expected = from_hsv(Hsv { h: 120.0, s: 1.0, v: 1.0 });
    assert_eq!(expected, Rgba { r: 0, g: 255, b: 0, a: 255 });
    assert!(halfway.r.abs_diff(expected.r) <= 1);
    assert!(halfway.g.abs_diff(expected.g) <= 1);
    assert!(halfway.b.abs_diff(expected.b) <= 1);
    assert_eq!(halfway.a, 255);
    assert_eq!(timeline.calc(300), "rgb(0,0,255,255)");
}

#[test]
fn a_constant_segment_of_a_token_shows_its_canonical_form() {
    let red = Token::read("rgb(255, 0, 0)").unwrap();
    let blue = Token::read("rgb(0,0,255,255)").unwrap();
    let timeline = SegmentCompositor::new(blue, red, 10, linear()).add_constant_segment(red, 100);
    for index in [11u32, 50, 110] {
        assert_eq!(timeline.calc(index), "rgb(255,0,0,255)");
    }
}

#[test]
fn a_token_that_cannot_be_read_gives_no_endpoint() {
    assert_eq!(Token::read("crimson"), Err(ParseError));
}

#[test]
fn each_channel_of_a_color_follows_the_curve_by_itself() {
    let from = Hsv { h: Scalar(0.0), s: Scalar(1.0), v: Scalar(0.5) };
    let to = Hsv { h: Scalar(240.0), s: Scalar(0.0), v: Scalar(0.5) };
    let curve = Easing::Function(linear());
    assert_eq!(from.ease(&to, 0, 200, &curve), Hsv { h: 0.0, s: 1.0, v: 0.5 });
    assert_eq!(from.ease(&to, 50, 200, &curve), Hsv { h: 60.0, s: 0.75, v: 0.5 });
    assert_eq!(from.ease(&to, 200, 200, &curve), Hsv { h: 240.0, s: 0.0, v: 0.5 });
    assert_eq!(from.ease(&to, 150, 200, &Easing::Constant), Hsv { h: 0.0, s: 1.0, v: 0.5 });
}

#[test]
fn hue_goes_the_long_way_round() {
    let red = Hsv { h: Scalar(0.0), s: Scalar(1.0), v: Scalar(1.0) };
    let magenta = Hsv { h: Scalar(300.0), s: Scalar(1.0), v: Scalar(1.0) };
    let halfway = red.ease(&magenta, 1, 2, &Easing::Function(linear()));
    assert_eq!(halfway.h, 150.0);
}
