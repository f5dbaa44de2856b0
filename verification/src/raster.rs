//! Printing a picture in place of the report: reducing it to the pure black and
//! white that the printer can put on paper.

use vstd::prelude::*;

use crate::text::{chars_of, decimal, push_decimal, push_str, string_of};

verus! {

/// The lightest grey that is printed as a dot.
pub const MID_GREY: u8 = 128;

/// Greys from here up to [`LIGHT`] are in the middle.
pub const DARK: u8 = 64;

/// Greys from [`DARK`] up to here are in the middle.
pub const LIGHT: u8 = 191;

/// A picture in shades of grey, row by row: 0 is black, 255 is white.
#[derive(Debug)]
pub struct Picture {
    /// How many dots wide it is.
    pub width: u32,
    /// How many dots high it is.
    pub height: u32,
    /// Its dots.
    pub dots: Vec<u8>,
}

/// How a picture is reduced to black and white.
#[derive(Debug, Clone, Copy, PartialEq, Eq, Structural)]
pub enum Dither {
    /// By dithering where it has real shades, and by a threshold otherwise.
    Auto,
    /// By dithering.
    On,
    /// By a threshold at the middle grey.
    Off,
}

/// A picture as the bytes of a PNG, as `image::DynamicImage::write_to` gives them;
/// nothing where it cannot be encoded, such as one without any dots.
pub uninterp spec fn png_of(width: u32, height: u32, dots: Seq<u8>) -> Option<Seq<u8>>;

/// `image::GrayImage::from_raw` and `image::DynamicImage::write_to` with
/// `image::ImageFormat::Png`: a picture in shades of grey as the bytes of a PNG.
#[verifier::external_body]
fn write_png(width: u32, height: u32, dots: &[u8]) -> (r: Option<Vec<u8>>)
    requires
        dots@.len() == width * height,
    ensures
        match r {
            Some(png) => png_of(width, height, dots@) == Some(png@),
            None => png_of(width, height, dots@) is None,
        },
{
    let img = image::GrayImage::from_raw(width, height, dots.to_vec())?;
    let mut out = std::io::Cursor::new(Vec::new());
    image::DynamicImage::ImageLuma8(img).write_to(&mut out, image::ImageFormat::Png).ok()?;
    Some(out.into_inner())
}

// --- Models ------------------------------------------------------------------

impl Picture {
    /// There is a dot for every place.
    pub open spec fn wf(self) -> bool {
        self.dots@.len() == self.width * self.height
    }

    /// The dot at a place.
    pub open spec fn at(self, x: int, y: int) -> int {
        self.dots@[y * self.width + x] as int
    }
}

/// A shade seen through to white paper: the less it covers, the lighter it is.
pub open spec fn on_paper(shade: int, cover: int) -> int {
    (shade * cover + 255 * (255 - cover) + 127) / 255
}

/// The picture on white paper, from a shade and a cover for every place.
pub open spec fn is_flat(width: u32, height: u32, bytes: Seq<u8>, p: Picture) -> bool {
    &&& p.wf()
    &&& p.width == width && p.height == height
    &&& bytes.len() == 2 * p.dots@.len()
    &&& forall|i: int|
        0 <= i < p.dots@.len() ==> #[trigger] p.dots@[i] == on_paper(
            bytes[2 * i] as int,
            bytes[2 * i + 1] as int,
        )
}

/// The height that keeps the proportions of a picture at another width, to the
/// nearest dot and at least one.
pub open spec fn height_at(width: int, height: int, new_width: int) -> int {
    let h = (height * new_width + width / 2) / width;
    if h >= 1 {
        h
    } else {
        1
    }
}

/// A shade lightened by `percent`: its ink is reduced in that measure.
pub open spec fn lightened(shade: int, percent: int) -> int {
    255 - (255 - shade) * (100 - percent) / 100
}

/// The dot that stands for a shade by the threshold.
pub open spec fn nearest_dot(shade: int) -> int {
    if shade <= MID_GREY {
        0
    } else {
        255
    }
}

/// A part of an error, in sixteenths, cut off toward zero.
pub open spec fn share(error: int, part: int) -> int {
    if error >= 0 {
        error * part / 16
    } else {
        -((-error) * part / 16)
    }
}

/// The shade of a place with what its neighbours left over: seven sixteenths from
/// the one before it, and one, five and three from those above it, left to right.
pub open spec fn diffused(p: Picture, x: int, y: int) -> int
    decreases y, x,
    when 0 <= x < p.width && 0 <= y < p.height
{
    let left = if x > 0 {
        share(left_over(diffused(p, x - 1, y)), 7)
    } else {
        0
    };
    let above_left = if x > 0 && y > 0 {
        share(left_over(diffused(p, x - 1, y - 1)), 1)
    } else {
        0
    };
    let above = if y > 0 {
        share(left_over(diffused(p, x, y - 1)), 5)
    } else {
        0
    };
    let above_right = if x + 1 < p.width && y > 0 {
        share(left_over(diffused(p, x + 1, y - 1)), 3)
    } else {
        0
    };
    p.at(x, y) + left + above_left + above + above_right
}

/// What the dot for a shade leaves over of it.
pub open spec fn left_over(shade: int) -> int {
    shade - nearest_dot(shade)
}

/// The picture dithered by the method of Floyd and Steinberg.
pub open spec fn is_dithered(p: Picture, r: Picture) -> bool {
    &&& r.wf()
    &&& r.width == p.width && r.height == p.height
    &&& forall|x: int, y: int|
        0 <= x < p.width && 0 <= y < p.height ==> #[trigger] r.at(x, y) == nearest_dot(
            diffused(p, x, y),
        )
}

/// The picture reduced by the threshold.
pub open spec fn is_thresholded(p: Picture, r: Picture) -> bool {
    &&& r.wf()
    &&& r.width == p.width && r.height == p.height
    &&& forall|i: int|
        0 <= i < p.dots@.len() ==> #[trigger] r.dots@[i] == nearest_dot(p.dots@[i] as int)
}

/// The picture lightened by `percent`.
pub open spec fn is_lightened(p: Picture, percent: int, r: Picture) -> bool {
    &&& r.wf()
    &&& r.width == p.width && r.height == p.height
    &&& forall|i: int|
        0 <= i < p.dots@.len() ==> #[trigger] r.dots@[i] == lightened(p.dots@[i] as int, percent)
}

/// How many of the dots are shades in the middle.
pub open spec fn shades(dots: Seq<u8>) -> int
    decreases dots.len(),
{
    if dots.len() == 0 {
        0
    } else {
        shades(dots.drop_last()) + if DARK <= dots.last() <= LIGHT {
            1int
        } else {
            0
        }
    }
}

/// The picture has real shades: more than one dot in twenty is in the middle.
pub open spec fn shaded(p: Picture) -> bool {
    shades(p.dots@) * 20 > p.dots@.len()
}

/// The picture is dithered, rather than reduced by the threshold.
pub open spec fn dithers(p: Picture, how: Dither) -> bool {
    match how {
        Dither::On => true,
        Dither::Off => false,
        Dither::Auto => shaded(p),
    }
}

/// What is printed for a picture: it is lightened first, and then reduced in the
/// way that suits it.
pub open spec fn is_prepared(p: Picture, how: Dither, percent: int, r: Picture) -> bool {
    exists|light: Picture| #[trigger]
        is_lightened(p, percent, light) && (if dithers(p, how) {
            is_dithered(light, r)
        } else {
            is_thresholded(light, r)
        })
}

/// There is no dot to print.
pub open spec fn all_white(p: Picture) -> bool {
    forall|i: int| 0 <= i < p.dots@.len() ==> #[trigger] p.dots@[i] == 255
}

/// Every dot is black or white.
pub open spec fn black_and_white(p: Picture) -> bool {
    forall|i: int|
        0 <= i < p.dots@.len() ==> #[trigger] p.dots@[i] == 0 || p.dots@[i] == 255
}

/// What is said where nothing is left to print.
pub open spec fn nothing_left(percent: nat) -> Seq<char> {
    "nothing is left to print after --lighten "@ + decimal(percent)
        + "; try a lower percentage, or --dither on to thin the artwork instead of dropping it"@
}

// --- Laws ---------------------------------------------------------------------

/// A picture that covers the paper keeps its shade, and one that covers nothing
/// leaves the paper white.
pub proof fn law_on_paper(shade: int)
    requires
        0 <= shade <= 255,
    ensures
        on_paper(shade, 255) == shade,
        on_paper(shade, 0) == 255,
{
}

/// Lightening by nothing changes no shade, lightening by all leaves white, and no
/// shade gets darker.
pub proof fn law_lightening(shade: int, percent: int)
    requires
        0 <= shade <= 255,
        0 <= percent <= 100,
    ensures
        lightened(shade, 0) == shade,
        lightened(shade, 100) == 255,
        shade <= lightened(shade, percent) <= 255,
{
    let ink = 255 - shade;
    assert(0 <= ink * (100 - percent) <= ink * 100) by (nonlinear_arith)
        requires
            0 <= ink,
            0 <= percent <= 100,
    ;
}

/// Solid black is printed up to half its ink by the threshold, and drops out
/// below that.
pub proof fn law_artwork_drops_out_past_the_middle(percent: int)
    requires
        0 <= percent <= 100,
    ensures
        nearest_dot(lightened(0, percent)) == 0 <==> percent <= 50,
{
}

proof fn lemma_place(x: int, y: int, width: int, height: int)
    requires
        0 <= x < width,
        0 <= y < height,
    ensures
        0 <= y * width + x < width * height,
        y * width >= 0,
{
    assert(0 <= y * width && (y + 1) * width <= height * width) by (nonlinear_arith)
        requires
            0 <= y < height,
            0 < width,
    ;
    assert((y + 1) * width == y * width + width) by (nonlinear_arith);
    assert(height * width == width * height) by (nonlinear_arith);
}

proof fn lemma_no_error(p: Picture, x: int, y: int)
    requires
        p.wf(),
        black_and_white(p),
        0 <= x < p.width,
        0 <= y < p.height,
    ensures
        diffused(p, x, y) == p.at(x, y),
        left_over(diffused(p, x, y)) == 0,
    decreases y, x,
{
    lemma_place(x, y, p.width as int, p.height as int);
    assert(p.dots@[y * p.width + x] == 0 || p.dots@[y * p.width + x] == 255);
    if x > 0 {
        lemma_no_error(p, x - 1, y);
        if y > 0 {
            lemma_no_error(p, x - 1, y - 1);
        }
    }
    if y > 0 {
        lemma_no_error(p, x, y - 1);
        if x + 1 < p.width {
            lemma_no_error(p, x + 1, y - 1);
        }
    }
}

proof fn lemma_no_shades(dots: Seq<u8>)
    requires
        forall|i: int| 0 <= i < dots.len() ==> #[trigger] dots[i] == 0 || dots[i] == 255,
    ensures
        shades(dots) == 0,
    decreases dots.len(),
{
    if dots.len() > 0 {
        assert forall|i: int| 0 <= i < dots.len() - 1 implies #[trigger] dots.drop_last()[i] == 0
            || dots.drop_last()[i] == 255 by {
            assert(dots.drop_last()[i] == dots[i]);
        }
        lemma_no_shades(dots.drop_last());
        assert(dots[dots.len() - 1] == 0 || dots[dots.len() - 1] == 255);
    }
}

/// A picture that is already black and white is printed dot for dot, however it
/// is reduced.
pub proof fn law_black_and_white_is_printed_dot_for_dot(p: Picture, how: Dither, r: Picture)
    requires
        p.wf(),
        black_and_white(p),
        is_prepared(p, how, 0, r),
    ensures
        r.width == p.width,
        r.height == p.height,
        r.dots@ == p.dots@,
{
    let light = choose|light: Picture| #[trigger]
        is_lightened(p, 0, light) && (if dithers(p, how) {
            is_dithered(light, r)
        } else {
            is_thresholded(light, r)
        });
    assert forall|i: int| 0 <= i < p.dots@.len() implies #[trigger] light.dots@[i] == p.dots@[i] by {
        assert(p.dots@[i] == 0 || p.dots@[i] == 255);
    }
    assert(light.dots@ =~= p.dots@);
    lemma_no_shades(p.dots@);
    if dithers(p, how) {
        let w = p.width as int;
        let h = p.height as int;
        assert forall|i: int| 0 <= i < p.dots@.len() implies r.dots@[i] == p.dots@[i] by {
            assert(w > 0) by (nonlinear_arith)
                requires
                    0 <= i < w * h,
                    w >= 0,
            ;
            vstd::arithmetic::div_mod::lemma_fundamental_div_mod(i, w);
            let y = i / w;
            let x = i % w;
            assert(w * y == y * w) by (nonlinear_arith);
            assert(0 <= y < h) by (nonlinear_arith)
                requires
                    0 <= i < w * h,
                    i == y * w + x,
                    0 <= x < w,
                    w > 0,
            ;
            assert(black_and_white(light));
            lemma_no_error(light, x, y);
            assert(r.at(x, y) == nearest_dot(diffused(light, x, y)));
            assert(light.dots@[i] == 0 || light.dots@[i] == 255);
        }
    } else {
        assert forall|i: int| 0 <= i < p.dots@.len() implies r.dots@[i] == p.dots@[i] by {
            assert(r.dots@[i] == nearest_dot(light.dots@[i] as int));
            assert(p.dots@[i] == 0 || p.dots@[i] == 255);
        }
    }
    assert(r.dots@ =~= p.dots@);
}

/// A shade over white paper is never darker than the shade, and is the mean of the
/// two by how much the shade covers, to the nearest whole shade.
pub proof fn law_on_paper_is_the_mean(shade: int, cover: int)
    requires
        0 <= shade <= 255,
        0 <= cover <= 255,
    ensures
        shade <= on_paper(shade, cover) <= 255,
        -127 <= 255 * on_paper(shade, cover) - (shade * cover + 255 * (255 - cover)) <= 127,
{
    let mixed = shade * cover + 255 * (255 - cover);
    assert(shade * 255 <= mixed <= 255 * 255) by (nonlinear_arith)
        requires
            0 <= shade <= 255,
            0 <= cover <= 255,
            mixed == shade * cover + 255 * (255 - cover),
    ;
}

/// Scaling keeps the shape: the new height is to the new width as the old one is to
/// the old, to the nearest whole row, and there is always one.
pub proof fn law_scaling_keeps_the_shape(width: int, height: int, new_width: int)
    requires
        width > 0,
        height >= 0,
        new_width >= 0,
    ensures
        height_at(width, height, new_width) >= 1,
        height >= 1 ==> height_at(width, height, width) == height,
        height_at(width, height, new_width) > 1 ==> -width <= 2 * (height_at(
            width,
            height,
            new_width,
        ) * width - height * new_width) <= width,
        2 * (height * new_width - height_at(width, height, new_width) * width) <= width,
{
    let n = height * new_width;
    let a = n + width / 2;
    assert(n >= 0) by (nonlinear_arith)
        requires
            height >= 0,
            new_width >= 0,
            n == height * new_width,
    ;
    vstd::arithmetic::div_mod::lemma_fundamental_div_mod(a, width);
    let q = a / width;
    assert(width * q == q * width) by (nonlinear_arith);
    assert(0 <= a % width < width);
    assert(q >= 0) by (nonlinear_arith)
        requires
            a >= 0,
            width > 0,
            q == a / width,
    ;
    let h = height_at(width, height, new_width);
    if q >= 1 {
        assert(h == q);
        assert(n - h * width == a % width - width / 2);
    } else {
        assert(h == 1);
        assert(q * width == 0) by (nonlinear_arith)
            requires
                q == 0,
        ;
        assert(n - h * width < 0);
    }
    let b = height * width + width / 2;
    vstd::arithmetic::div_mod::lemma_fundamental_div_mod(b, width);
    assert(b / width == height) by {
        vstd::arithmetic::div_mod::lemma_fundamental_div_mod_converse(
            b,
            width,
            height,
            width / 2,
        );
    }
}

/// Lightening takes away its percentage of the ink, and what is left is rounded
/// down; more of it never leaves more ink, and a lighter shade stays no darker.
pub proof fn law_lightening_takes_its_percentage(shade: int, percent: int, more: int, lighter: int)
    requires
        0 <= shade <= lighter <= 255,
        0 <= percent <= more <= 100,
    ensures
        0 <= (255 - shade) * (100 - percent) - 100 * (255 - lightened(shade, percent)) < 100,
        lightened(shade, percent) <= lightened(shade, more),
        lightened(shade, percent) <= lightened(lighter, percent),
{
    let ink = 255 - shade;
    let less = 255 - lighter;
    assert(0 <= ink * (100 - more) <= ink * (100 - percent)) by (nonlinear_arith)
        requires
            0 <= ink,
            0 <= percent <= more <= 100,
    ;
    assert(0 <= less * (100 - percent) <= ink * (100 - percent)) by (nonlinear_arith)
        requires
            0 <= less <= ink,
            0 <= percent <= 100,
    ;
}

/// What is left over of a shade is passed on and not made up: the four shares have
/// its sign and come to no more than it, and to less only by the rounding of each.
pub proof fn law_shares(error: int)
    ensures
        error >= 0 ==> 0 <= share(error, 7) + share(error, 3) + share(error, 5) + share(error, 1)
            <= error < share(error, 7) + share(error, 3) + share(error, 5) + share(error, 1) + 4,
        share(-error, 7) == -share(error, 7),
        share(-error, 5) == -share(error, 5),
        share(-error, 3) == -share(error, 3),
        share(-error, 1) == -share(error, 1),
        error >= 0 ==> share(error, 1) <= share(error, 3) <= share(error, 5) <= share(error, 7),
{
}

/// Where the shade that is left over goes: of what one dot leaves, seven sixteenths
/// go to the next dot, and three, five and one to the dots below it, from left to
/// right. So a dot whose other neighbours leave nothing is as dark as it was and as
/// that share makes it.
pub proof fn law_where_the_error_goes(p: Picture, x: int, y: int)
    requires
        0 <= x < p.width,
        0 <= y < p.height,
        x == 0 || left_over(diffused(p, x - 1, y)) == 0,
    ensures
        y == 0 ==> diffused(p, x, y) == p.at(x, y),
        y > 0 && (x == 0 || left_over(diffused(p, x - 1, y - 1)) == 0) && (x + 1 >= p.width
            || left_over(diffused(p, x + 1, y - 1)) == 0) ==> diffused(p, x, y) == p.at(x, y)
            + share(diffused(p, x, y - 1) - nearest_dot(diffused(p, x, y - 1)), 5),
        y > 0 && x > 0 && left_over(diffused(p, x, y - 1)) == 0 && (x + 1 >= p.width || left_over(
            diffused(p, x + 1, y - 1),
        ) == 0) ==> diffused(p, x, y) == p.at(x, y) + share(
            diffused(p, x - 1, y - 1) - nearest_dot(diffused(p, x - 1, y - 1)),
            1,
        ),
        y > 0 && x + 1 < p.width && left_over(diffused(p, x, y - 1)) == 0 && (x == 0 || left_over(
            diffused(p, x - 1, y - 1),
        ) == 0) ==> diffused(p, x, y) == p.at(x, y) + share(
            diffused(p, x + 1, y - 1) - nearest_dot(diffused(p, x + 1, y - 1)),
            3,
        ),
{
}

/// In the first row each dot passes seven sixteenths of what it leaves to the next.
pub proof fn law_the_error_goes_on_along_the_row(p: Picture, x: int)
    requires
        0 <= x,
        x + 1 < p.width,
        0 < p.height,
    ensures
        diffused(p, 0, 0) == p.at(0, 0),
        diffused(p, x + 1, 0) == p.at(x + 1, 0) + share(
            diffused(p, x, 0) - nearest_dot(diffused(p, x, 0)),
            7,
        ),
{
}

/// A picture has shades when more than one dot in twenty is a grey in the middle.
pub proof fn law_shades_are_middle_greys(p: &Picture, r: bool)
    requires
        call_ensures(has_shades, (p,), r),
    ensures
        r <==> 20 * p.dots@.filter(|d: u8| 64 <= d <= 191).len() > p.dots@.len(),
{
    lemma_shades(p.dots@);
}

proof fn lemma_shades(dots: Seq<u8>)
    ensures
        shades(dots) == dots.filter(|d: u8| 64 <= d <= 191).len(),
    decreases dots.len(),
{
    let g = |d: u8| 64 <= d <= 191;
    reveal(Seq::filter);
    if dots.len() > 0 {
        lemma_shades(dots.drop_last());
        dots.drop_last().lemma_filter_push(dots.last(), g);
        assert(dots =~= dots.drop_last().push(dots.last()));
    }
}

/// What is prepared for the printer has the size of the picture and is pure black
/// and white. Without dithering a dot is black exactly when at least as much ink is
/// left of it as there is in the middle grey.
pub proof fn law_prepared_pictures_are_black_and_white(
    p: &Picture,
    how: Dither,
    percent: u8,
    r: Picture,
)
    requires
        p.wf(),
        percent <= 100,
        call_ensures(prepare, (p, how, percent), r),
    ensures
        r.width == p.width && r.height == p.height,
        r.dots@.len() == p.dots@.len(),
        how == Dither::Off || how == Dither::Auto && 20 * p.dots@.filter(
            |d: u8| 64 <= d <= 191,
        ).len() <= p.dots@.len() ==> forall|i: int|
            0 <= i < p.dots@.len() ==> (#[trigger] r.dots@[i] == 0 || r.dots@[i] == 255) && (
            r.dots@[i] == 0 <==> (255 - p.dots@[i]) * (100 - percent) / 100 >= 127),
        how == Dither::On || how == Dither::Auto && 20 * p.dots@.filter(
            |d: u8| 64 <= d <= 191,
        ).len() > p.dots@.len() ==> exists|light: Picture|
            #[trigger] is_lightened(*p, percent as int, light) && forall|x: int, y: int|
                0 <= x < p.width && 0 <= y < p.height ==> (#[trigger] r.at(x, y) == 0 || r.at(x, y)
                    == 255) && (r.at(x, y) == 0 <==> diffused(light, x, y) <= 128),
{
    lemma_shades(p.dots@);
    let light = choose|light: Picture| #[trigger]
        is_lightened(*p, percent as int, light) && (if dithers(*p, how) {
            is_dithered(light, r)
        } else {
            is_thresholded(light, r)
        });
    if !dithers(*p, how) {
        assert forall|i: int| 0 <= i < p.dots@.len() implies (#[trigger] r.dots@[i] == 0 || r.dots@[i]
            == 255) && (r.dots@[i] == 0 <==> (255 - p.dots@[i]) * (100 - percent) / 100 >= 127) by {
            assert(light.dots@[i] == lightened(p.dots@[i] as int, percent as int));
            assert(r.dots@[i] == nearest_dot(light.dots@[i] as int));
        }
    }
}

/// What is sent is black and white: the image of a picture is that of its dots, each
/// black up to the middle grey and white beyond it.
pub proof fn law_sent_pictures_are_black_and_white(
    p: &Picture,
    r: Option<Vec<u8>>,
    dots: Seq<u8>,
)
    requires
        p.wf(),
        call_ensures(finish, (p,), r),
        dots.len() == p.dots@.len(),
        forall|i: int|
            0 <= i < dots.len() ==> #[trigger] dots[i] == (if p.dots@[i] <= 128 {
                0u8
            } else {
                255u8
            }),
    ensures
        r is Some ==> png_of(p.width, p.height, dots) == Some(r->0@),
        r is None ==> png_of(p.width, p.height, dots) is None,
{
    let sent = p.dots@.map_values(|d: u8| nearest_dot(d as int) as u8);
    assert(sent =~= dots);
}

// --- Functions ----------------------------------------------------------------

/// A shade seen through to white paper.
pub fn over_white(shade: u8, cover: u8) -> (r: u8)
    ensures
        r == on_paper(shade as int, cover as int),
{
    let s: u32 = shade as u32;
    let c: u32 = cover as u32;
    assert(0 <= s * c <= 255 * c) by (nonlinear_arith)
        requires
            0 <= s <= 255,
            0 <= c,
    ;
    ((s * c + 255 * (255 - c) + 127) / 255) as u8
}

impl Picture {
    /// The picture with these dots, row by row, if there is one for every place.
    pub fn from_dots(width: u32, height: u32, dots: Vec<u8>) -> (r: Option<Picture>)
        ensures
            match r {
                Some(p) => p.wf() && p.width == width && p.height == height && p.dots == dots,
                None => dots@.len() != width * height,
            },
    {
        assert(0 <= width * height <= 0xffff_ffff * 0xffff_ffff) by (nonlinear_arith)
            requires
                0 <= width <= 0xffff_ffff,
                0 <= height <= 0xffff_ffff,
        ;
        if dots.len() as u64 == width as u64 * height as u64 {
            Some(Picture { width, height, dots })
        } else {
            None
        }
    }
}

/// A picture is laid on white paper. Each of its dots is two bytes, its shade and
/// how much it covers, and nothing comes of bytes that are not two for every place.
pub fn flatten(width: u32, height: u32, bytes: &[u8]) -> (r: Option<Picture>)
    ensures
        match r {
            Some(p) => is_flat(width, height, bytes@, p),
            None => bytes@.len() != 2 * (width * height),
        },
{
    let n: usize = bytes.len() / 2;
    if bytes.len() % 2 != 0 {
        return None;
    }
    let mut dots: Vec<u8> = Vec::new();
    let mut i: usize = 0;
    while i < n
        invariant
            i <= n,
            bytes@.len() == 2 * n <= usize::MAX,
            dots@.len() == i,
            forall|k: int|
                0 <= k < i ==> #[trigger] dots@[k] == on_paper(
                    bytes@[2 * k] as int,
                    bytes@[2 * k + 1] as int,
                ),
        decreases n - i,
    {
        dots.push(over_white(bytes[2 * i], bytes[2 * i + 1]));
        i = i + 1;
    }
    Picture::from_dots(width, height, dots)
}

/// The height that keeps the proportions of a picture at another width. There is
/// none where it cannot be counted.
pub fn scaled_height(width: u32, height: u32, new_width: u32) -> (r: Option<u32>)
    requires
        width > 0,
    ensures
        r == (if height_at(width as int, height as int, new_width as int) <= u32::MAX {
            Some(height_at(width as int, height as int, new_width as int) as u32)
        } else {
            None
        }),
{
    let w: u64 = width as u64;
    let h: u64 = height as u64;
    let n: u64 = new_width as u64;
    assert(0 <= h * n <= 0xffff_ffff * 0xffff_ffff) by (nonlinear_arith)
        requires
            0 <= h <= 0xffff_ffff,
            0 <= n <= 0xffff_ffff,
    ;
    let tall: u64 = (h * n + w / 2) / w;
    if tall < 1 {
        Some(1)
    } else if tall <= 0xffff_ffff {
        Some(tall as u32)
    } else {
        None
    }
}

/// A shade lightened by a percentage.
pub fn lighten(shade: u8, percent: u8) -> (r: u8)
    requires
        percent <= 100,
    ensures
        r == lightened(shade as int, percent as int),
{
    proof {
        law_lightening(shade as int, percent as int);
    }
    let ink: u32 = 255 - shade as u32;
    let kept: u32 = 100 - percent as u32;
    assert(0 <= ink * kept <= 25500) by (nonlinear_arith)
        requires
            0 <= ink <= 255,
            0 <= kept <= 100,
    ;
    (255 - ink * kept / 100) as u8
}

/// The picture lightened by a percentage.
pub fn lighten_all(p: &Picture, percent: u8) -> (r: Picture)
    requires
        p.wf(),
        percent <= 100,
    ensures
        is_lightened(*p, percent as int, r),
{
    let mut dots: Vec<u8> = Vec::new();
    let mut i: usize = 0;
    while i < p.dots.len()
        invariant
            i <= p.dots@.len(),
            percent <= 100,
            dots@.len() == i,
            forall|k: int|
                0 <= k < i ==> #[trigger] dots@[k] == lightened(p.dots@[k] as int, percent as int),
        decreases p.dots@.len() - i,
    {
        dots.push(lighten(p.dots[i], percent));
        i = i + 1;
    }
    Picture { width: p.width, height: p.height, dots }
}

/// The picture reduced by the threshold.
pub fn threshold(p: &Picture) -> (r: Picture)
    requires
        p.wf(),
    ensures
        is_thresholded(*p, r),
{
    let mut dots: Vec<u8> = Vec::new();
    let mut i: usize = 0;
    while i < p.dots.len()
        invariant
            i <= p.dots@.len(),
            dots@.len() == i,
            forall|k: int| 0 <= k < i ==> #[trigger] dots@[k] == nearest_dot(p.dots@[k] as int),
        decreases p.dots@.len() - i,
    {
        let dot: u8 = if p.dots[i] <= MID_GREY {
            0
        } else {
            255
        };
        dots.push(dot);
        i = i + 1;
    }
    Picture { width: p.width, height: p.height, dots }
}

/// Whether more than one dot in twenty is a shade in the middle.
pub fn has_shades(p: &Picture) -> (r: bool)
    ensures
        r == shaded(*p),
{
    let mut count: usize = 0;
    let mut i: usize = 0;
    assert(p.dots@.take(0) =~= Seq::<u8>::empty());
    while i < p.dots.len()
        invariant
            i <= p.dots@.len(),
            count <= i,
            count == shades(p.dots@.take(i as int)),
        decreases p.dots@.len() - i,
    {
        assert(p.dots@.take(i + 1).drop_last() =~= p.dots@.take(i as int));
        if DARK <= p.dots[i] && p.dots[i] <= LIGHT {
            count = count + 1;
        }
        i = i + 1;
    }
    assert(p.dots@.take(i as int) =~= p.dots@);
    count as u128 * 20 > p.dots.len() as u128
}

/// A part of an error, in sixteenths.
fn part_of(error: i32, part: i32) -> (r: i32)
    requires
        -128 <= error <= 128,
        0 <= part <= 7,
    ensures
        r == share(error as int, part as int),
        -(128 * part / 16) <= r <= 128 * part / 16,
{
    if error >= 0 {
        assert(0 <= error * part <= 128 * part) by (nonlinear_arith)
            requires
                0 <= error <= 128,
                0 <= part <= 7,
        ;
        error * part / 16
    } else {
        let size: i32 = -error;
        assert(0 <= size * part <= 128 * part) by (nonlinear_arith)
            requires
                0 <= size <= 128,
                0 <= part <= 7,
        ;
        -(size * part / 16)
    }
}

/// What is left over by the dots of a row, or as much of it as is known.
spec fn row_errors(p: Picture, y: int, errors: Seq<i32>) -> bool {
    forall|x: int|
        0 <= x < errors.len() ==> -128 <= #[trigger] errors[x] <= 128 && errors[x] == left_over(
            diffused(p, x, y),
        )
}

/// The next dot of a row, and what it leaves over.
fn next_dot(p: &Picture, x: u32, y: u32, above: &Vec<i32>, row: &Vec<i32>) -> (r: (u8, i32))
    requires
        p.wf(),
        x < p.width,
        y < p.height,
        row@.len() == x,
        row_errors(*p, y as int, row@),
        y > 0 ==> above@.len() == p.width && row_errors(*p, y - 1, above@),
    ensures
        r.0 == nearest_dot(diffused(*p, x as int, y as int)),
        r.1 == left_over(diffused(*p, x as int, y as int)),
        -128 <= r.1 <= 128,
{
    proof {
        lemma_place(x as int, y as int, p.width as int, p.height as int);
    }
    let count: usize = p.dots.len();
    assert(y * p.width + x < count);
    let i: usize = x as usize;
    assert(y * p.width <= y * p.width + x);
    let at: usize = y as usize * p.width as usize + i;
    let mut shade: i32 = p.dots[at] as i32;
    if x > 0 {
        shade = shade + part_of(row[i - 1], 7);
        if y > 0 {
            shade = shade + part_of(above[i - 1], 1);
        }
    }
    if y > 0 {
        shade = shade + part_of(above[i], 5);
        if x < p.width - 1 {
            shade = shade + part_of(above[i + 1], 3);
        }
    }
    assert(shade == diffused(*p, x as int, y as int));
    if shade <= MID_GREY as i32 {
        (0, shade)
    } else {
        (255, shade - 255)
    }
}

/// The picture dithered by the method of Floyd and Steinberg: what the dot of a
/// place leaves over of its shade goes to the places around it that come later.
pub fn dither(p: &Picture) -> (r: Picture)
    requires
        p.wf(),
    ensures
        is_dithered(*p, r),
{
    let mut dots: Vec<u8> = Vec::new();
    let mut above: Vec<i32> = Vec::new();
    let mut y: u32 = 0;
    while y < p.height
        invariant
            p.wf(),
            y <= p.height,
            dots@.len() == y * p.width,
            y > 0 ==> above@.len() == p.width && row_errors(*p, y - 1, above@),
            forall|a: int, b: int|
                0 <= a < p.width && 0 <= b < y ==> dots@[#[trigger] place(*p, a, b)] == nearest_dot(
                    diffused(*p, a, b),
                ),
        decreases p.height - y,
    {
        let mut row: Vec<i32> = Vec::new();
        let mut x: u32 = 0;
        while x < p.width
            invariant
                p.wf(),
                y < p.height,
                x <= p.width,
                dots@.len() == y * p.width + x,
                row@.len() == x,
                row_errors(*p, y as int, row@),
                y > 0 ==> above@.len() == p.width && row_errors(*p, y - 1, above@),
                forall|a: int, b: int|
                    0 <= a < p.width && 0 <= b < y ==> dots@[#[trigger] place(*p, a, b)]
                        == nearest_dot(diffused(*p, a, b)),
                forall|a: int|
                    0 <= a < x ==> dots@[#[trigger] place(*p, a, y as int)] == nearest_dot(
                        diffused(*p, a, y as int),
                    ),
            decreases p.width - x,
        {
            let (dot, error) = next_dot(p, x, y, &above, &row);
            let ghost before = dots@;
            dots.push(dot);
            row.push(error);
            proof {
                assert forall|a: int, b: int| 0 <= a < p.width && 0 <= b < y implies dots@[
                    #[trigger] place(*p, a, b)
                ] == nearest_dot(diffused(*p, a, b)) by {
                    lemma_place(a, b, p.width as int, y as int);
                    assert(p.width * y == y * p.width) by (nonlinear_arith);
                    assert(dots@[place(*p, a, b)] == before[place(*p, a, b)]);
                }
                assert forall|a: int| 0 <= a < x + 1 implies dots@[
                    #[trigger] place(*p, a, y as int)
                ] == nearest_dot(diffused(*p, a, y as int)) by {
                    if a < x {
                        lemma_place(a, y as int, p.width as int, y + 1);
                        assert(dots@[place(*p, a, y as int)] == before[place(*p, a, y as int)]);
                    }
                }
            }
            x = x + 1;
        }
        proof {
            assert((y + 1) * p.width == y * p.width + p.width) by (nonlinear_arith);
            assert forall|a: int, b: int| 0 <= a < p.width && 0 <= b < y + 1 implies dots@[
                #[trigger] place(*p, a, b)
            ] == nearest_dot(diffused(*p, a, b)) by {
                if b == y {
                    assert(dots@[place(*p, a, y as int)] == nearest_dot(
                        diffused(*p, a, y as int),
                    ));
                }
            }
        }
        above = row;
        y = y + 1;
    }
    let r: Picture = Picture { width: p.width, height: p.height, dots };
    proof {
        assert(p.height * p.width == p.width * p.height) by (nonlinear_arith);
        assert forall|a: int, b: int| 0 <= a < p.width && 0 <= b < p.height implies #[trigger] r.at(
            a,
            b,
        ) == nearest_dot(diffused(*p, a, b)) by {
            assert(r.at(a, b) == dots@[place(*p, a, b)]);
        }
    }
    r
}

/// The index of the dot at a place.
spec fn place(p: Picture, x: int, y: int) -> int {
    y * p.width + x
}

/// What is printed for a picture.
pub fn prepare(p: &Picture, how: Dither, percent: u8) -> (r: Picture)
    requires
        p.wf(),
        percent <= 100,
    ensures
        is_prepared(*p, how, percent as int, r),
{
    let smooth: bool = match how {
        Dither::On => true,
        Dither::Off => false,
        Dither::Auto => has_shades(p),
    };
    let light: Picture = lighten_all(p, percent);
    if smooth {
        dither(&light)
    } else {
        threshold(&light)
    }
}

/// What a drawn image comes to on the printer, as the bytes of a PNG: black and
/// white only.
pub open spec fn printed_png(p: Picture) -> Option<Seq<u8>> {
    png_of(p.width, p.height, p.dots@.map_values(|d: u8| nearest_dot(d as int) as u8))
}

/// A picture as the bytes of a PNG; nothing where it cannot be encoded.
pub fn encode(p: &Picture) -> (r: Option<Vec<u8>>)
    requires
        p.wf(),
    ensures
        match r {
            Some(png) => png_of(p.width, p.height, p.dots@) == Some(png@),
            None => png_of(p.width, p.height, p.dots@) is None,
        },
{
    write_png(p.width, p.height, p.dots.as_slice())
}

/// A drawn image as the bytes of a PNG of black and white only.
pub fn finish(p: &Picture) -> (r: Option<Vec<u8>>)
    requires
        p.wf(),
    ensures
        match r {
            Some(png) => printed_png(*p) == Some(png@),
            None => printed_png(*p) is None,
        },
{
    let flat: Picture = threshold(p);
    assert(flat.dots@ =~= p.dots@.map_values(|d: u8| nearest_dot(d as int) as u8));
    encode(&flat)
}

/// Whether there is no dot to print.
pub fn is_blank(p: &Picture) -> (r: bool)
    ensures
        r == all_white(*p),
{
    let mut i: usize = 0;
    while i < p.dots.len()
        invariant
            i <= p.dots@.len(),
            forall|k: int| 0 <= k < i ==> #[trigger] p.dots@[k] == 255,
        decreases p.dots@.len() - i,
    {
        if p.dots[i] != 255 {
            return false;
        }
        i = i + 1;
    }
    true
}

/// What is said where nothing is left to print.
pub fn blank_warning(percent: u8) -> (r: String)
    ensures
        r@ == nothing_left(percent as nat),
{
    let mut out: Vec<char> = chars_of("nothing is left to print after --lighten ");
    push_decimal(&mut out, percent as u64);
    push_str(
        &mut out,
        "; try a lower percentage, or --dither on to thin the artwork instead of dropping it",
    );
    string_of(out.as_slice())
}

} // verus!
