use vstd::prelude::*;
use crate::scene::{Context, Shape, Stroke};
use crate::text::{chars_of, string_of};

verus! {

#[verifier::external_type_specification]
#[verifier::external_body]
pub struct ExIoError(std::io::Error);

/// A rendered image that can be written out and measured.
pub trait ImageWriter {
    /// Appends the encoded image to `out`; a failure to encode is handed
    /// back as it came.
    fn write(&self, out: &mut Vec<u8>) -> Result<(), std::io::Error>;

    fn width(&self) -> u64;

    fn height(&self) -> u64;
}

pub open spec fn digit_char(d: nat) -> char {
    seq!['0', '1', '2', '3', '4', '5', '6', '7', '8', '9'][d as int]
}

/// The decimal numeral of `n`, without leading zeros.
pub open spec fn decimal(n: nat) -> Seq<char>
    decreases n,
{
    if n < 10 {
        seq![digit_char(n)]
    } else {
        decimal(n / 10).push(digit_char(n % 10))
    }
}

fn decimal_chars(n: u64) -> (r: Vec<char>)
    ensures
        r@ == decimal(n as nat),
    decreases n,
{
    let digits = ['0', '1', '2', '3', '4', '5', '6', '7', '8', '9'];
    proof {
        assert(digits@ == seq!['0', '1', '2', '3', '4', '5', '6', '7', '8', '9']);
    }
    if n < 10 {
        let mut v: Vec<char> = Vec::new();
        v.push(digits[n as usize]);
        assert(v@ =~= seq![digit_char(n as nat)]);
        v
    } else {
        let mut v = decimal_chars(n / 10);
        v.push(digits[(n % 10) as usize]);
        v
    }
}

pub open spec fn header_start() -> Seq<char> {
    "\n<svg xmlns=\"http://www.w3.org/2000/svg\" clip-path=\"url(#cut-off-bottom)\">\n  <defs>\n    <clipPath id=\"cut-off-bottom\">\n      <rect x=\"0\" y=\"0\" width=\""@
}

pub open spec fn header_middle() -> Seq<char> {
    "\" height=\""@
}

pub open spec fn header_end() -> Seq<char> {
    "\" />\n    </clipPath>\n  </defs>\n        "@
}

pub open spec fn svg_footer() -> Seq<char> {
    "</svg>"@
}

/// The opening of the viewport that clips a drawing to `width` by
/// `height`.
pub open spec fn clipping_header(width: u64, height: u64) -> Seq<char> {
    header_start() + decimal(width as nat) + header_middle() + decimal(height as nat) + header_end()
}

/// Wraps an SVG drawing in a viewport of the canvas size, so that geometry
/// beyond the canvas is cut off instead of enlarging the picture.
pub fn frame_svg(body: &str, width: u64, height: u64) -> (r: String)
    ensures
        r@ == clipping_header(width, height) + body@ + svg_footer(),
{
    let mut out = chars_of("\n<svg xmlns=\"http://www.w3.org/2000/svg\" clip-path=\"url(#cut-off-bottom)\">\n  <defs>\n    <clipPath id=\"cut-off-bottom\">\n      <rect x=\"0\" y=\"0\" width=\"");
    let mut w = decimal_chars(width);
    out.append(&mut w);
    let mut m = chars_of("\" height=\"");
    out.append(&mut m);
    let mut h = decimal_chars(height);
    out.append(&mut h);
    let mut e = chars_of("\" />\n    </clipPath>\n  </defs>\n        ");
    out.append(&mut e);
    let mut b = chars_of(body);
    out.append(&mut b);
    let mut f = chars_of("</svg>");
    out.append(&mut f);
    proof {
        assert(out@ =~= clipping_header(width, height) + body@ + svg_footer());
    }
    string_of(out.as_slice())
}


/// One painting step of a rendered scene.
#[derive(Clone, Copy, Debug, PartialEq, Eq, Structural)]
pub enum Paint {
    /// fill the whole canvas with the background colour
    Background { width: i64, height: i64 },
    /// stroke the outline of a shape, after moving it into canvas
    /// coordinates
    Outline { shape: Shape, stroke: Stroke },
}

/// The painting steps for a scene: the background first, then every shape
/// in the order it was drawn, so later shapes paint over earlier ones.
pub fn paint_order(scene: &Context) -> (r: Vec<Paint>)
    ensures
        r@.len() == scene.shapes@.len() + 1,
        r@[0] == (Paint::Background { width: scene.canvas_width, height: scene.canvas_height }),
        forall|i: int|
            0 <= i < scene.shapes@.len() ==> #[trigger] r@[i + 1] == (Paint::Outline {
                shape: scene.shapes@[i].0,
                stroke: scene.shapes@[i].1,
            }),
{
    let mut out: Vec<Paint> = Vec::new();
    out.push(Paint::Background { width: scene.canvas_width, height: scene.canvas_height });
    let mut k: usize = 0;
    while k < scene.shapes.len()
        invariant
            k <= scene.shapes@.len(),
            out@.len() == k + 1,
            out@[0] == (Paint::Background { width: scene.canvas_width, height: scene.canvas_height }),
            forall|i: int|
                0 <= i < k ==> #[trigger] out@[i + 1] == (Paint::Outline {
                    shape: scene.shapes@[i].0,
                    stroke: scene.shapes@[i].1,
                }),
        decreases scene.shapes@.len() - k,
    {
        let (shape, stroke) = scene.shapes[k];
        out.push(Paint::Outline { shape, stroke });
        k = k + 1;
    }
    out
}

} // verus!
