//! The tray icon and what it says.

use vstd::prelude::*;
use vstd::string::*;

use crate::text::{decimal, decimal_text, joined, Text};

verus! {

/// Severity as the tray shows it.
#[derive(Clone, Copy, Debug, PartialEq, Eq, Structural)]
pub enum OverallState {
    Unknown,
    Okay,
    InternalError,
    Warning,
    Error,
}

/// What the tray shows.
#[derive(Clone, Copy, Debug, PartialEq, Eq, Structural)]
pub struct TrayState {
    pub alerting: OverallState,
    pub unknown_server_count: usize,
    pub server_count: usize,
    pub alerting_count: usize,
    pub snoozed: Option<OverallState>,
    pub snoozed_count: usize,
}

/// The title of the status entry.
pub open spec fn status_words(alerting: nat, snoozed: nat) -> Text {
    let title = "Status: "@ + decimal(alerting) + (if alerting == 1 {
        " incident"@
    } else {
        " incidents"@
    });
    if snoozed > 0 {
        title + " + "@ + decimal(snoozed) + " snoozed"@
    } else {
        title
    }
}

impl TrayState {
    /// Whether the icon flashes: there is an alert.
    pub fn is_flashing(self) -> (flashing: bool)
        ensures
            flashing == !(self.alerting is Unknown || self.alerting is Okay),
    {
        match self.alerting {
            OverallState::Unknown => false,
            OverallState::Okay => false,
            _ => true,
        }
    }

    /// The title of the status entry.
    pub fn status_title(self) -> (title: String)
        ensures
            title@ == status_words(self.alerting_count as nat, self.snoozed_count as nat),
    {
        let count = decimal_text(self.alerting_count as u128);
        let noun = if self.alerting_count == 1 {
            " incident"
        } else {
            " incidents"
        };
        let title = joined("Status: ", count.as_str()).concat(noun);
        if self.snoozed_count > 0 {
            let snoozed = decimal_text(self.snoozed_count as u128);
            title.concat(" + ").concat(snoozed.as_str()).concat(" snoozed")
        } else {
            title
        }
    }
}

// ---------------------------------------------------------------------------------------------
// Images
// ---------------------------------------------------------------------------------------------

/// One point of an image.
#[derive(Clone, Copy, Debug, PartialEq, Eq, Structural)]
pub struct Pixel {
    pub red: u8,
    pub green: u8,
    pub blue: u8,
    pub alpha: u8,
}

/// An image, row by row from the top.
#[derive(Debug, PartialEq, Eq)]
pub struct Raster {
    width: u32,
    height: u32,
    pixels: Vec<Pixel>,
}

/// What a [`Raster`] says.
#[verifier::ext_equal]
pub struct RasterModel {
    pub width: int,
    pub height: int,
    pub pixels: Seq<Pixel>,
}

impl View for Raster {
    type V = RasterModel;

    closed spec fn view(&self) -> RasterModel {
        RasterModel {
            width: self.width as int,
            height: self.height as int,
            pixels: self.pixels@,
        }
    }
}

/// Where a point stands among the points of an image.
pub open spec fn index_of(width: int, x: int, y: int) -> int {
    y * width + x
}

impl RasterModel {
    /// The point in a column and a row.
    pub open spec fn at(self, x: int, y: int) -> Pixel {
        self.pixels[index_of(self.width, x, y)]
    }

    /// Whether a column and a row lie in the image.
    pub open spec fn has(self, x: int, y: int) -> bool {
        0 <= x < self.width && 0 <= y < self.height
    }

    /// Whether there are as many points as columns times rows.
    pub open spec fn is_whole(self) -> bool {
        &&& 0 <= self.width <= u32::MAX
        &&& 0 <= self.height <= u32::MAX
        &&& self.pixels.len() == self.width * self.height
    }

    /// Whether there are no points.
    pub open spec fn is_empty(self) -> bool {
        self.width == 0 || self.height == 0
    }
}

/// Whether a point comes before another, row by row.
pub open spec fn comes_before(x: int, y: int, other_x: int, other_y: int) -> bool {
    y < other_y || (y == other_y && x < other_x)
}

proof fn lemma_index_order(width: int, x: int, y: int, other_x: int, other_y: int)
    requires
        0 <= x < width,
        0 <= other_x < width,
        comes_before(x, y, other_x, other_y),
    ensures
        index_of(width, x, y) < index_of(width, other_x, other_y),
{
    if y < other_y {
        assert((y + 1) * width <= other_y * width) by (nonlinear_arith)
            requires
                y + 1 <= other_y,
                width >= 0,
        ;
        assert((y + 1) * width == y * width + width) by (nonlinear_arith);
    }
}

proof fn lemma_index_in_range(width: int, height: int, x: int, y: int)
    requires
        0 <= x < width,
        0 <= y < height,
    ensures
        0 <= index_of(width, x, y) < width * height,
{
    assert(0 <= y * width) by (nonlinear_arith)
        requires
            0 <= y,
            0 <= width,
    ;
    assert((y + 1) * width <= height * width) by (nonlinear_arith)
        requires
            y + 1 <= height,
            width >= 0,
    ;
    assert((y + 1) * width == y * width + width) by (nonlinear_arith);
    assert(height * width == width * height) by (nonlinear_arith);
}

impl Clone for Raster {
    fn clone(&self) -> (copy: Self)
        ensures
            copy@ == self@,
    {
        proof {
            use_type_invariant(self);
        }
        let mut pixels: Vec<Pixel> = Vec::new();
        let mut i: usize = 0;
        while i < self.pixels.len()
            invariant
                i <= self.pixels.len(),
                pixels@ == self.pixels@.take(i as int),
            decreases self.pixels.len() - i,
        {
            pixels.push(self.pixels[i]);
            assert(pixels@ =~= self.pixels@.take(i + 1));
            i += 1;
        }
        assert(pixels@ =~= self.pixels@);
        Raster { width: self.width, height: self.height, pixels }
    }
}

impl Raster {
    #[verifier::type_invariant]
    spec fn whole(self) -> bool {
        self@.is_whole()
    }

    /// An image of a size from its points, if they are as many as it has.
    pub fn from_pixels(width: u32, height: u32, pixels: Vec<Pixel>) -> (raster: Option<Self>)
        ensures
            raster is Some <==> pixels@.len() == width * height,
            raster matches Some(image) ==> image@ == (RasterModel {
                width: width as int,
                height: height as int,
                pixels: pixels@,
            }),
    {
        assert(width * height <= u32::MAX * u32::MAX) by (nonlinear_arith)
            requires
                width <= u32::MAX,
                height <= u32::MAX,
        ;
        if pixels.len() as u128 != width as u128 * height as u128 {
            return None;
        }
        Some(Raster { width, height, pixels })
    }

    /// The number of columns.
    pub fn width(&self) -> (width: u32)
        ensures
            width == self@.width,
    {
        self.width
    }

    /// The number of rows.
    pub fn height(&self) -> (height: u32)
        ensures
            height == self@.height,
    {
        self.height
    }

    /// The point in a column and a row.
    pub fn get_pixel(&self, x: u32, y: u32) -> (pixel: Pixel)
        requires
            self@.has(x as int, y as int),
        ensures
            pixel == self@.at(x as int, y as int),
    {
        proof {
            use_type_invariant(self);
            lemma_index_in_range(self.width as int, self.height as int, x as int, y as int);
            assert(y * self.width >= 0) by (nonlinear_arith)
                requires
                    y >= 0,
                    self.width >= 0,
            ;
            assert(index_of(self.width as int, x as int, y as int) < self.pixels.len());
        }
        self.pixels[y as usize * self.width as usize + x as usize]
    }

    /// All points, row by row.
    pub fn pixels(&self) -> (pixels: &Vec<Pixel>)
        ensures
            pixels@ == self@.pixels,
            self@.is_whole(),
    {
        proof {
            use_type_invariant(self);
        }
        &self.pixels
    }
}

/// Why there is no icon.
#[derive(Debug, PartialEq, Eq)]
pub enum IconError {
    /// The bytes are no image, with the words for why.
    Undecodable(String),
    Empty,
    /// Two images have different sizes.
    Dimensions { width: u32, height: u32, other_width: u32, other_height: u32 },
    /// Two images have different transparency at a point.
    Alpha { x: u32, y: u32 },
}

impl IconError {
    /// The words for why there is no icon.
    pub open spec fn words(self) -> Text {
        match self {
            IconError::Undecodable(words) => "failed to decode tray icon: "@ + words@,
            IconError::Empty => "tray icons must not be empty"@,
            IconError::Dimensions { width, height, other_width, other_height } =>
                "tray icon dimensions differ: ("@ + decimal(width as nat) + ", "@ + decimal(
                height as nat,
            ) + ") and ("@ + decimal(other_width as nat) + ", "@ + decimal(other_height as nat)
                + ")"@,
            IconError::Alpha { x, y } => "initialization tray icon alpha channels differ at ("@
                + decimal(x as nat) + ", "@ + decimal(y as nat) + ")"@,
        }
    }

    /// The words for why there is no icon.
    pub fn message(&self) -> (message: String)
        ensures
            message@ == self.words(),
    {
        match self {
            IconError::Undecodable(words) => joined(
                "failed to decode tray icon: ",
                words.as_str(),
            ),
            IconError::Empty => "tray icons must not be empty".to_owned(),
            IconError::Dimensions { width, height, other_width, other_height } => {
                let (w, h) = (decimal_text(*width as u128), decimal_text(*height as u128));
                let (v, g) = (
                    decimal_text(*other_width as u128),
                    decimal_text(*other_height as u128),
                );
                joined("tray icon dimensions differ: (", w.as_str()).concat(", ").concat(
                    h.as_str(),
                ).concat(") and (").concat(v.as_str()).concat(", ").concat(g.as_str()).concat(")")
            },
            IconError::Alpha { x, y } => {
                let (x, y) = (decimal_text(*x as u128), decimal_text(*y as u128));
                joined("initialization tray icon alpha channels differ at (", x.as_str()).concat(
                    ", ",
                ).concat(y.as_str()).concat(")")
            },
        }
    }
}

/// What the `image` crate reads from the bytes of a file: the size and four bytes for each point,
/// row by row; or the words for why it is no image.
pub uninterp spec fn image_reading(bytes: Seq<u8>) -> Result<(u32, u32, Seq<u8>), Seq<char>>;

/// Whether a size and values are what was read.
pub open spec fn is_reading(
    width: u32,
    height: u32,
    values: Seq<u8>,
    reading: Result<(u32, u32, Seq<u8>), Seq<char>>,
) -> bool {
    reading matches Ok(found) && found == (width, height, values)
}

/// Reads an image with `image::load_from_memory` and `DynamicImage::into_rgba8`. Each point of
/// the image gives four bytes: red, green, blue and alpha.
#[verifier::external_body]
fn read_image(bytes: &[u8]) -> (reading: Result<(u32, u32, Vec<u8>), String>)
    ensures
        reading is Ok <==> image_reading(bytes@) is Ok,
        reading matches Ok(found) ==> is_reading(found.0, found.1, found.2@, image_reading(bytes@)),
        reading matches Ok(found) ==> found.2@.len() == 4 * (found.0 * found.1),
        reading matches Err(words) ==> words@ == image_reading(bytes@)->Err_0,
{
    image::load_from_memory(bytes).map(
        |image| {
            let points = image.into_rgba8();
            let values = points.pixels().flat_map(|point| point.0).collect();
            (points.width(), points.height(), values)
        },
    ).map_err(|error| format!("{:#}", anyhow::Error::from(error)))
}

/// The points that bytes stand for, four bytes each.
pub open spec fn points_of(bytes: Seq<u8>, count: nat) -> Seq<Pixel> {
    Seq::new(
        count,
        |i: int|
            Pixel {
                red: bytes[4 * i],
                green: bytes[4 * i + 1],
                blue: bytes[4 * i + 2],
                alpha: bytes[4 * i + 3],
            },
    )
}

/// Takes the bytes of points together.
pub fn gather_points(bytes: &Vec<u8>) -> (points: Vec<Pixel>)
    ensures
        points@ == points_of(bytes@, (bytes@.len() / 4) as nat),
{
    let count: usize = bytes.len() / 4;
    let mut points: Vec<Pixel> = Vec::new();
    let mut i: usize = 0;
    while i < count
        invariant
            count == bytes.len() / 4,
            i <= count,
            points@ == points_of(bytes@, i as nat),
        decreases count - i,
    {
        let red: u8 = bytes[4 * i];
        let green: u8 = bytes[4 * i + 1];
        let blue: u8 = bytes[4 * i + 2];
        let alpha: u8 = bytes[4 * i + 3];
        points.push(Pixel { red, green, blue, alpha });
        assert(points@ =~= points_of(bytes@, (i + 1) as nat));
        i += 1;
    }
    points
}

/// Reads the image of an icon.
pub fn decode_icon(bytes: &[u8]) -> (outcome: Result<Raster, IconError>)
    ensures
        outcome is Ok <==> image_reading(bytes@) is Ok,
        outcome matches Ok(raster) ==> ({
            let (width, height, values) = image_reading(bytes@)->Ok_0;
            raster@ == (RasterModel {
                width: width as int,
                height: height as int,
                pixels: points_of(values, (width * height) as nat),
            })
        }),
        outcome matches Err(error) ==> (error matches IconError::Undecodable(words) && words@
            == image_reading(bytes@)->Err_0),
{
    match read_image(bytes) {
        Err(words) => Err(IconError::Undecodable(words)),
        Ok((width, height, values)) => {
            let points = gather_points(&values);
            let ghost count = width * height;
            assert(points@.len() == count);
            match Raster::from_pixels(width, height, points) {
                Some(raster) => Ok(raster),
                None => Err(IconError::Empty),
            }
        },
    }
}

// ---------------------------------------------------------------------------------------------
// Composition
// ---------------------------------------------------------------------------------------------

/// The opacity of one point over another.
pub open spec fn over_alpha(foreground: Pixel, background: Pixel) -> int {
    foreground.alpha + background.alpha * (255 - foreground.alpha) / 255
}

/// One colour of a point over another, with 8 bits.
pub open spec fn over_channel(
    front: u8,
    back: u8,
    front_alpha: u8,
    back_alpha: u8,
    alpha: int,
) -> u8 {
    ((front * front_alpha + back * back_alpha * (255 - front_alpha) / 255) / alpha) as u8
}

/// One point over another.
pub open spec fn over(foreground: Pixel, background: Pixel) -> Pixel {
    let alpha = over_alpha(foreground, background);
    if alpha == 0 {
        Pixel { red: 0, green: 0, blue: 0, alpha: 0 }
    } else {
        let channel = |front: u8, back: u8|
            over_channel(front, back, foreground.alpha, background.alpha, alpha);
        Pixel {
            red: channel(foreground.red, background.red),
            green: channel(foreground.green, background.green),
            blue: channel(foreground.blue, background.blue),
            alpha: alpha as u8,
        }
    }
}

fn blend(front: u8, back: u8, front_alpha: u8, back_alpha: u8, alpha: u32) -> (value: u8)
    requires
        alpha > 0,
    ensures
        value == over_channel(front, back, front_alpha, back_alpha, alpha as int),
{
    let rest: u32 = 255 - front_alpha as u32;
    assert(front * front_alpha <= 255 * 255) by (nonlinear_arith)
        requires
            front <= 255,
            front_alpha <= 255,
    ;
    assert(0 <= back * back_alpha <= 255 * 255) by (nonlinear_arith)
        requires
            back <= 255,
            back_alpha <= 255,
    ;
    assert(0 <= (back * back_alpha) * rest <= 255 * 255 * 255) by (nonlinear_arith)
        requires
            0 <= back * back_alpha <= 255 * 255,
            rest <= 255,
    ;
    let premultiplied: u32 = front as u32 * front_alpha as u32 + back as u32 * back_alpha as u32
        * rest / 255;
    (premultiplied / alpha) as u8
}

/// Puts one point over another.
pub fn alpha_over(foreground: Pixel, background: Pixel) -> (pixel: Pixel)
    ensures
        pixel == over(foreground, background),
{
    let front_alpha: u32 = foreground.alpha as u32;
    let back_alpha: u32 = background.alpha as u32;
    let rest: u32 = 255 - front_alpha;
    assert(0 <= back_alpha * rest <= 255 * 255) by (nonlinear_arith)
        requires
            back_alpha <= 255,
            rest <= 255,
    ;
    let alpha: u32 = front_alpha + back_alpha * rest / 255;
    if alpha == 0 {
        return Pixel { red: 0, green: 0, blue: 0, alpha: 0 };
    }
    Pixel {
        red: blend(foreground.red, background.red, foreground.alpha, background.alpha, alpha),
        green: blend(
            foreground.green,
            background.green,
            foreground.alpha,
            background.alpha,
            alpha,
        ),
        blue: blend(foreground.blue, background.blue, foreground.alpha, background.alpha, alpha),
        alpha: alpha as u8,
    }
}

/// The side of the corner that an overlay takes.
pub open spec fn overlay_size(width: int) -> int {
    width * 30 / 100
}

/// Whether an overlay fits: its corner lies in the image, and the numbers that place it fit in 32
/// bits.
pub open spec fn overlay_fits(base: RasterModel, overlay: RasterModel) -> bool {
    let size = overlay_size(base.width);
    &&& base.width * 30 <= u32::MAX
    &&& size <= base.height
    &&& size * overlay.width <= u32::MAX
    &&& size * overlay.height <= u32::MAX
}

/// Whether an overlay can be put on an image: it fits, or one of them is empty.
pub open spec fn can_place(base: RasterModel, overlay: RasterModel) -> bool {
    base.is_empty() || overlay.is_empty() || overlay_fits(base, overlay)
}

/// The point of an image with an overlay in its lower right corner.
pub open spec fn overlaid(base: RasterModel, overlay: RasterModel, x: int, y: int) -> Pixel {
    let size = overlay_size(base.width);
    let column = x - (base.width - size);
    let row = y - (base.height - size);
    if column >= 0 && row >= 0 {
        over(
            overlay.at(column * overlay.width / size, row * overlay.height / size),
            base.at(x, y),
        )
    } else {
        base.at(x, y)
    }
}

proof fn lemma_scaled(part: int, whole: int, length: int)
    requires
        0 <= part < whole,
        0 < length,
    ensures
        0 <= part * length,
        part * length <= whole * length,
        0 <= part * length / whole < length,
{
    assert(0 <= part * length) by (nonlinear_arith)
        requires
            0 <= part,
            0 < length,
    ;
    assert(part * length < whole * length) by (nonlinear_arith)
        requires
            part < whole,
            0 < length,
    ;
    assert(0 <= part * length / whole < length) by (nonlinear_arith)
        requires
            0 <= part * length,
            part * length < whole * length,
            whole > 0,
            length > 0,
    ;
}

/// What putting an overlay on an image gives.
pub open spec fn is_overlay(
    base: RasterModel,
    overlay: RasterModel,
    outcome: Result<Raster, IconError>,
) -> bool {
    if base.is_empty() || overlay.is_empty() {
        outcome matches Err(error) && error is Empty
    } else {
        outcome matches Ok(result) && same_size(result@, base) && forall|x: int, y: int| #[trigger]
            base.has(x, y) ==> result@.at(x, y) == overlaid(base, overlay, x, y)
    }
}

/// Puts an image, scaled, into the lower right corner of another.
pub fn compose_overlay(base: &Raster, overlay: &Raster) -> (outcome: Result<Raster, IconError>)
    requires
        can_place(base@, overlay@),
    ensures
        is_overlay(base@, overlay@, outcome),
{
    let (width, height) = (base.width(), base.height());
    if width == 0 || height == 0 || overlay.width() == 0 || overlay.height() == 0 {
        return Err(IconError::Empty);
    }
    let size: u32 = width * 30 / 100;
    let (start_x, start_y) = (width - size, height - size);
    let mut pixels: Vec<Pixel> = Vec::new();
    let mut y: u32 = 0;
    let _ = base.pixels();
    assert(index_of(width as int, 0, 0) == 0);
    while y < height
        invariant
            width == base@.width,
            height == base@.height,
            base@.is_whole(),
            0 < width,
            !overlay@.is_empty(),
            overlay_fits(base@, overlay@),
            size == overlay_size(width as int),
            size <= width,
            start_x == width - size,
            start_y == height - size,
            y <= height,
            pixels@.len() == index_of(width as int, 0, y as int),
            forall|i: int, j: int|
                #[trigger] base@.has(i, j) && j < y ==> pixels@[index_of(width as int, i, j)]
                    == overlaid(base@, overlay@, i, j),
        decreases height - y,
    {
        let mut x: u32 = 0;
        while x < width
            invariant
                width == base@.width,
                height == base@.height,
                base@.is_whole(),
                0 < width,
                !overlay@.is_empty(),
                overlay_fits(base@, overlay@),
                size == overlay_size(width as int),
                size <= width,
                start_x == width - size,
                start_y == height - size,
                y < height,
                x <= width,
                pixels@.len() == index_of(width as int, x as int, y as int),
                forall|i: int, j: int|
                    #[trigger] base@.has(i, j) && comes_before(i, j, x as int, y as int)
                        ==> pixels@[index_of(width as int, i, j)] == overlaid(
                        base@,
                        overlay@,
                        i,
                        j,
                    ),
            decreases width - x,
        {
            let background = base.get_pixel(x, y);
            let pixel = if x >= start_x && y >= start_y {
                let (column, row) = (x - start_x, y - start_y);
                proof {
                    lemma_scaled(column as int, size as int, overlay@.width);
                    lemma_scaled(row as int, size as int, overlay@.height);
                }
                let foreground = overlay.get_pixel(
                    column * overlay.width() / size,
                    row * overlay.height() / size,
                );
                alpha_over(foreground, background)
            } else {
                background
            };
            let ghost before = pixels@;
            pixels.push(pixel);
            proof {
                assert(pixel == overlaid(base@, overlay@, x as int, y as int));
                assert forall|i: int, j: int|
                    #[trigger] base@.has(i, j) && comes_before(
                        i,
                        j,
                        x + 1,
                        y as int,
                    ) implies pixels@[index_of(width as int, i, j)] == overlaid(
                    base@,
                    overlay@,
                    i,
                    j,
                ) by {
                    if comes_before(i, j, x as int, y as int) {
                        lemma_index_order(width as int, i, j, x as int, y as int);
                        lemma_index_in_range(width as int, height as int, i, j);
                        assert(pixels@[index_of(width as int, i, j)] == before[index_of(
                            width as int,
                            i,
                            j,
                        )]);
                    }
                }
            }
            x += 1;
        }
        proof {
            assert((y + 1) * width == y * width + width) by (nonlinear_arith);
        }
        y += 1;
    }
    proof {
        assert(height * width == width * height) by (nonlinear_arith);
    }
    match Raster::from_pixels(width, height, pixels) {
        Some(result) => Ok(result),
        None => Err(IconError::Empty),
    }
}


/// How many samples of a point decide its colour while the servers are not all known.
pub const TOTAL_SAMPLES: usize = 16;

/// One colour between two, by how many samples show the second one.
pub open spec fn mixed_channel(okay: u8, unknown: u8, unknown_samples: int) -> u8 {
    ((okay * (TOTAL_SAMPLES - unknown_samples) + unknown * unknown_samples) / 16) as u8
}

/// A point between two of the same opacity.
pub open spec fn mixed(okay: Pixel, unknown: Pixel, unknown_samples: int) -> Pixel {
    Pixel {
        red: mixed_channel(okay.red, unknown.red, unknown_samples),
        green: mixed_channel(okay.green, unknown.green, unknown_samples),
        blue: mixed_channel(okay.blue, unknown.blue, unknown_samples),
        alpha: okay.alpha,
    }
}

fn mix(okay: u8, unknown: u8, unknown_samples: u8) -> (value: u8)
    requires
        unknown_samples <= TOTAL_SAMPLES,
    ensures
        value == mixed_channel(okay, unknown, unknown_samples as int),
{
    let known: usize = TOTAL_SAMPLES - unknown_samples as usize;
    assert(0 <= okay * known <= 255 * 16) by (nonlinear_arith)
        requires
            okay <= 255,
            known <= 16,
    ;
    assert(0 <= unknown * unknown_samples <= 255 * 16) by (nonlinear_arith)
        requires
            unknown <= 255,
            unknown_samples <= 16,
    ;
    ((okay as usize * known + unknown as usize * unknown_samples as usize) / TOTAL_SAMPLES) as u8
}

/// Whether there is one count of samples for each point of an image, none too high.
pub open spec fn samples_cover(samples: Seq<u8>, image: RasterModel) -> bool {
    &&& samples.len() == image.pixels.len()
    &&& forall|i: int| 0 <= i < samples.len() ==> #[trigger] samples[i] <= TOTAL_SAMPLES
}

/// Whether two images have one size.
pub open spec fn same_size(first: RasterModel, second: RasterModel) -> bool {
    first.width == second.width && first.height == second.height
}

/// Whether two images are equally opaque at a point.
pub open spec fn same_alpha(first: RasterModel, second: RasterModel, x: int, y: int) -> bool {
    first.at(x, y).alpha == second.at(x, y).alpha
}

/// Whether an icon shows some servers as known and others as not.
pub open spec fn is_partial(unknown_server_count: nat, server_count: nat) -> bool {
    0 < unknown_server_count < server_count
}

/// What the icon is while servers are not known. If all are known, or none is, it is one of the
/// two images. Otherwise each point is mixed from both by its samples, where the images go
/// together.
pub open spec fn is_initialization_icon(
    okay: RasterModel,
    unknown: RasterModel,
    unknown_server_count: nat,
    server_count: nat,
    samples: Seq<u8>,
    outcome: Result<Raster, IconError>,
) -> bool {
    if !is_partial(unknown_server_count, server_count) {
        outcome matches Ok(image) && image@ == (if unknown_server_count == 0 && server_count > 0 {
            okay
        } else {
            unknown
        })
    } else if !same_size(okay, unknown) {
        outcome matches Err(IconError::Dimensions { width, height, other_width, other_height })
            && width == okay.width && height == okay.height && other_width == unknown.width
            && other_height == unknown.height
    } else {
        match outcome {
            Ok(image) => {
                &&& same_size(image@, okay)
                &&& forall|x: int, y: int| #[trigger]
                    okay.has(x, y) ==> same_alpha(okay, unknown, x, y) && image@.at(x, y) == mixed(
                        okay.at(x, y),
                        unknown.at(x, y),
                        samples[index_of(okay.width, x, y)] as int,
                    )
            },
            Err(IconError::Alpha { x, y }) => {
                &&& okay.has(x as int, y as int)
                &&& !same_alpha(okay, unknown, x as int, y as int)
                &&& forall|i: int, j: int| #[trigger]
                    okay.has(i, j) && comes_before(i, j, x as int, y as int) ==> same_alpha(
                        okay,
                        unknown,
                        i,
                        j,
                    )
            },
            Err(_) => false,
        }
    }
}

/// The icon while servers are not known. Each number in `samples` says how many of the samples of
/// a point lie in the part for unknown servers.
pub fn compose_initialization_icon(
    okay: &Raster,
    unknown: &Raster,
    unknown_server_count: usize,
    server_count: usize,
    samples: &Vec<u8>,
) -> (outcome: Result<Raster, IconError>)
    requires
        is_partial(unknown_server_count as nat, server_count as nat) && same_size(okay@, unknown@)
            ==> samples_cover(samples@, okay@),
    ensures
        is_initialization_icon(
            okay@,
            unknown@,
            unknown_server_count as nat,
            server_count as nat,
            samples@,
            outcome,
        ),
{
    if unknown_server_count == 0 && server_count > 0 {
        return Ok(okay.clone());
    }
    if server_count == 0 || unknown_server_count >= server_count {
        return Ok(unknown.clone());
    }
    let (width, height) = (okay.width(), okay.height());
    if width != unknown.width() || height != unknown.height() {
        return Err(
            IconError::Dimensions {
                width,
                height,
                other_width: unknown.width(),
                other_height: unknown.height(),
            },
        );
    }
    let _ = okay.pixels();
    let mut pixels: Vec<Pixel> = Vec::new();
    let mut y: u32 = 0;
    assert(index_of(width as int, 0, 0) == 0);
    while y < height
        invariant
            width == okay@.width,
            height == okay@.height,
            same_size(okay@, unknown@),
            okay@.is_whole(),
            is_partial(unknown_server_count as nat, server_count as nat),
            samples_cover(samples@, okay@),
            y <= height,
            pixels@.len() == index_of(width as int, 0, y as int),
            forall|i: int, j: int|
                #[trigger] okay@.has(i, j) && j < y ==> same_alpha(okay@, unknown@, i, j)
                    && pixels@[index_of(width as int, i, j)] == mixed(
                    okay@.at(i, j),
                    unknown@.at(i, j),
                    samples@[index_of(width as int, i, j)] as int,
                ),
        decreases height - y,
    {
        let mut x: u32 = 0;
        while x < width
            invariant
                width == okay@.width,
                height == okay@.height,
                same_size(okay@, unknown@),
                okay@.is_whole(),
                is_partial(unknown_server_count as nat, server_count as nat),
                samples_cover(samples@, okay@),
                y < height,
                x <= width,
                pixels@.len() == index_of(width as int, x as int, y as int),
                forall|i: int, j: int|
                    #[trigger] okay@.has(i, j) && comes_before(i, j, x as int, y as int)
                        ==> same_alpha(okay@, unknown@, i, j) && pixels@[index_of(
                        width as int,
                        i,
                        j,
                    )] == mixed(
                        okay@.at(i, j),
                        unknown@.at(i, j),
                        samples@[index_of(width as int, i, j)] as int,
                    ),
            decreases width - x,
        {
            proof {
                lemma_index_in_range(width as int, height as int, x as int, y as int);
                assert(okay@.has(x as int, y as int));
            }
            let known = okay.get_pixel(x, y);
            let other = unknown.get_pixel(x, y);
            if known.alpha != other.alpha {
                return Err(IconError::Alpha { x, y });
            }
            let count: u8 = samples[pixels.len()];
            let pixel = Pixel {
                red: mix(known.red, other.red, count),
                green: mix(known.green, other.green, count),
                blue: mix(known.blue, other.blue, count),
                alpha: known.alpha,
            };
            let ghost before = pixels@;
            pixels.push(pixel);
            proof {
                assert forall|i: int, j: int|
                    #[trigger] okay@.has(i, j) && comes_before(
                        i,
                        j,
                        x + 1,
                        y as int,
                    ) implies same_alpha(okay@, unknown@, i, j) && pixels@[index_of(
                    width as int,
                    i,
                    j,
                )] == mixed(
                    okay@.at(i, j),
                    unknown@.at(i, j),
                    samples@[index_of(width as int, i, j)] as int,
                ) by {
                    if comes_before(i, j, x as int, y as int) {
                        lemma_index_order(width as int, i, j, x as int, y as int);
                        lemma_index_in_range(width as int, height as int, i, j);
                        assert(pixels@[index_of(width as int, i, j)] == before[index_of(
                            width as int,
                            i,
                            j,
                        )]);
                    }
                }
            }
            x += 1;
        }
        proof {
            assert((y + 1) * width == y * width + width) by (nonlinear_arith);
        }
        y += 1;
    }
    proof {
        assert(height * width == width * height) by (nonlinear_arith);
    }
    match Raster::from_pixels(width, height, pixels) {
        Some(image) => Ok(image),
        None => Err(IconError::Empty),
    }
}

// ---------------------------------------------------------------------------------------------
// Icons
// ---------------------------------------------------------------------------------------------

/// The images of the tray.
#[derive(Debug, PartialEq, Eq)]
pub struct TrayIcons {
    pub unknown: Raster,
    pub okay: Raster,
    pub internal_error: Raster,
    pub warning: Raster,
    pub error: Raster,
    pub transparent: Raster,
}

/// The bytes of the images of the tray.
pub struct IconFiles<'a> {
    pub unknown: &'a [u8],
    pub okay: &'a [u8],
    pub internal_error: &'a [u8],
    pub warning: &'a [u8],
    pub error: &'a [u8],
    pub transparent: &'a [u8],
}

/// Whether an image is what the bytes of a file hold.
pub open spec fn is_image_of(image: RasterModel, bytes: Seq<u8>) -> bool {
    image_reading(bytes) matches Ok(found) && image == (RasterModel {
        width: found.0 as int,
        height: found.1 as int,
        pixels: points_of(found.2, (found.0 * found.1) as nat),
    })
}

/// The first reading of several that failed.
pub open spec fn first_failure(
    readings: Seq<Result<(u32, u32, Seq<u8>), Seq<char>>>,
) -> Option<Text>
    decreases readings.len(),
{
    if readings.len() == 0 {
        None
    } else if readings[0] is Err {
        Some(readings[0]->Err_0)
    } else {
        first_failure(readings.drop_first())
    }
}

impl IconFiles<'_> {
    /// What is read from the files, in the order in which they are read.
    pub open spec fn readings(&self) -> Seq<Result<(u32, u32, Seq<u8>), Seq<char>>> {
        seq![
            image_reading(self.unknown@),
            image_reading(self.okay@),
            image_reading(self.internal_error@),
            image_reading(self.warning@),
            image_reading(self.error@),
            image_reading(self.transparent@),
        ]
    }
}

impl TrayIcons {
    /// Reads the images, or says why the first one that is none is none.
    pub fn load(files: &IconFiles<'_>) -> (outcome: Result<Self, IconError>)
        ensures
            outcome is Ok <==> first_failure(files.readings()) is None,
            outcome matches Ok(icons) ==> {
                &&& is_image_of(icons.unknown@, files.unknown@)
                &&& is_image_of(icons.okay@, files.okay@)
                &&& is_image_of(icons.internal_error@, files.internal_error@)
                &&& is_image_of(icons.warning@, files.warning@)
                &&& is_image_of(icons.error@, files.error@)
                &&& is_image_of(icons.transparent@, files.transparent@)
            },
            outcome matches Err(error) ==> (error matches IconError::Undecodable(words)
                && first_failure(files.readings()) == Some(words@)),
    {
        proof {
            lemma_first_failure(files.readings());
        }
        let unknown = decode_icon(files.unknown)?;
        let okay = decode_icon(files.okay)?;
        let internal_error = decode_icon(files.internal_error)?;
        let warning = decode_icon(files.warning)?;
        let error = decode_icon(files.error)?;
        let transparent = decode_icon(files.transparent)?;
        Ok(TrayIcons { unknown, okay, internal_error, warning, error, transparent })
    }

    /// The image for a severity.
    pub open spec fn image(&self, state: OverallState) -> Raster {
        match state {
            OverallState::Unknown => self.unknown,
            OverallState::Okay => self.okay,
            OverallState::InternalError => self.internal_error,
            OverallState::Warning => self.warning,
            OverallState::Error => self.error,
        }
    }

    /// The image for a severity.
    pub fn for_state(&self, state: OverallState) -> (image: &Raster)
        ensures
            *image == self.image(state),
    {
        match state {
            OverallState::Unknown => &self.unknown,
            OverallState::Okay => &self.okay,
            OverallState::InternalError => &self.internal_error,
            OverallState::Warning => &self.warning,
            OverallState::Error => &self.error,
        }
    }

    /// Whether the samples of a state fit the images.
    pub open spec fn can_sample(&self, state: TrayState, samples: Seq<u8>) -> bool {
        state.alerting is Unknown && is_partial(
            state.unknown_server_count as nat,
            state.server_count as nat,
        ) && same_size(self.okay@, self.unknown@) ==> samples_cover(samples, self.okay@)
    }

    /// The image that stands below an overlay, or why there is none.
    pub open spec fn is_base(
        &self,
        state: TrayState,
        samples: Seq<u8>,
        base: Result<Raster, IconError>,
    ) -> bool {
        if state.alerting is Unknown {
            is_initialization_icon(
                self.okay@,
                self.unknown@,
                state.unknown_server_count as nat,
                state.server_count as nat,
                samples,
                base,
            )
        } else {
            base matches Ok(image) && image@ == self.image(state.alerting)@
        }
    }

    /// An image of the size of the icon for a state.
    pub open spec fn sized_like(&self, state: TrayState) -> RasterModel {
        if state.alerting is Unknown && 0 < state.server_count && state.unknown_server_count
            < state.server_count {
            self.okay@
        } else {
            self.image(state.alerting)@
        }
    }

    /// Whether the overlay of a state, if it has one, can be put on the icon.
    pub open spec fn can_overlay(&self, state: TrayState) -> bool {
        state.snoozed matches Some(snoozed) ==> can_place(
            self.sized_like(state),
            self.image(snoozed)@,
        )
    }

    /// The icon for a state.
    pub fn rgba_icon(&self, state: TrayState, samples: &Vec<u8>) -> (outcome: Result<
        Raster,
        IconError,
    >)
        requires
            self.can_sample(state, samples@),
            self.can_overlay(state),
        ensures
            exists|base: Result<Raster, IconError>| #[trigger]
                self.is_base(state, samples@, base) && match (base, state.snoozed) {
                    (Ok(image), Some(snoozed)) => is_overlay(
                        image@,
                        self.image(snoozed)@,
                        outcome,
                    ),
                    (Ok(image), None) => outcome matches Ok(icon) && icon@ == image@,
                    (Err(error), _) => outcome == Err::<Raster, IconError>(error),
                },
    {
        let base = if let OverallState::Unknown = state.alerting {
            compose_initialization_icon(
                &self.okay,
                &self.unknown,
                state.unknown_server_count,
                state.server_count,
                samples,
            )
        } else {
            Ok(self.for_state(state.alerting).clone())
        };
        let ghost found = base;
        assert(self.is_base(state, samples@, found));
        match base {
            Err(error) => Err(error),
            Ok(icon) => {
                match state.snoozed {
                    Some(snoozed) => compose_overlay(&icon, self.for_state(snoozed)),
                    None => Ok(icon),
                }
            },
        }
    }
}

proof fn lemma_first_failure(readings: Seq<Result<(u32, u32, Seq<u8>), Seq<char>>>)
    requires
        readings.len() == 6,
    ensures
        first_failure(readings) == (if readings[0] is Err {
            Some(readings[0]->Err_0)
        } else if readings[1] is Err {
            Some(readings[1]->Err_0)
        } else if readings[2] is Err {
            Some(readings[2]->Err_0)
        } else if readings[3] is Err {
            Some(readings[3]->Err_0)
        } else if readings[4] is Err {
            Some(readings[4]->Err_0)
        } else if readings[5] is Err {
            Some(readings[5]->Err_0)
        } else {
            None
        }),
{
    reveal_with_fuel(first_failure, 7);
    let second = readings.drop_first();
    let third = second.drop_first();
    let fourth = third.drop_first();
    let fifth = fourth.drop_first();
    let sixth = fifth.drop_first();
    assert(second[0] == readings[1]);
    assert(third[0] == readings[2]);
    assert(fourth[0] == readings[3]);
    assert(fifth[0] == readings[4]);
    assert(sixth[0] == readings[5]);
}

// ---------------------------------------------------------------------------------------------
// Flashing
// ---------------------------------------------------------------------------------------------

/// The flashing of one icon, until the next one replaces it.
#[derive(Clone, Copy, Debug, PartialEq, Eq, Structural)]
pub struct FlashCycle {
    generation: u64,
}

/// Decides when the icon appears and disappears while there is an alert.
#[derive(Clone, Copy, Debug, PartialEq, Eq, Structural)]
pub struct TrayFlashController {
    generation: u64,
    state: Option<TrayState>,
    showing_solid: bool,
}

impl TrayFlashController {
    /// The state that the tray shows, if it shows one.
    pub closed spec fn shown(self) -> Option<TrayState> {
        self.state
    }

    /// Whether the icon is visible.
    pub closed spec fn is_solid(self) -> bool {
        self.showing_solid
    }

    /// The flashing of the icon that the tray shows.
    pub closed spec fn cycle(self) -> FlashCycle {
        FlashCycle { generation: self.generation }
    }

    /// Whether a flashing is that of the icon that the tray shows, and there is an alert.
    pub open spec fn flashes(self, cycle: FlashCycle) -> bool {
        cycle == self.cycle() && (self.shown() matches Some(state) && !(state.alerting is Unknown
            || state.alerting is Okay))
    }

    /// A controller of a tray without an icon.
    pub fn new() -> (controller: Self)
        ensures
            controller.shown() is None,
            controller.is_solid(),
    {
        TrayFlashController { generation: 0, state: None, showing_solid: true }
    }

    /// Takes the state to show. A new state gets a visible icon and a flashing of its own; the
    /// state that is shown already goes on as it is.
    pub fn apply(&mut self, state: TrayState) -> (cycle: Option<FlashCycle>)
        ensures
            cycle is None <==> old(self).shown() == Some(state),
            cycle is None ==> *final(self) == *old(self),
            cycle matches Some(cycle) ==> {
                &&& final(self).shown() == Some(state)
                &&& final(self).is_solid()
                &&& final(self).cycle() == cycle
                &&& cycle != old(self).cycle()
                &&& !final(self).flashes(old(self).cycle())
            },
    {
        if let Some(shown) = self.state {
            if shown == state {
                return None;
            }
        }
        self.generation = self.generation.wrapping_add(1);
        self.state = Some(state);
        self.showing_solid = true;
        Some(FlashCycle { generation: self.generation })
    }

    /// Whether a flashing goes on.
    pub fn is_flashing(&self, cycle: FlashCycle) -> (flashing: bool)
        ensures
            flashing == self.flashes(cycle),
    {
        if cycle.generation != self.generation {
            return false;
        }
        match self.state {
            Some(state) => state.is_flashing(),
            None => false,
        }
    }

    /// Makes the icon appear or disappear, if the flashing goes on, and tells whether it is
    /// visible.
    pub fn tick(&mut self, cycle: FlashCycle) -> (solid: Option<bool>)
        ensures
            solid is Some <==> old(self).flashes(cycle),
            solid is None ==> *final(self) == *old(self),
            solid matches Some(solid) ==> {
                &&& solid == !old(self).is_solid()
                &&& final(self).is_solid() == solid
                &&& final(self).shown() == old(self).shown()
                &&& final(self).cycle() == old(self).cycle()
            },
    {
        if !self.is_flashing(cycle) {
            return None;
        }
        self.showing_solid = !self.showing_solid;
        Some(self.showing_solid)
    }
}

impl Default for TrayFlashController {
    fn default() -> (controller: Self)
        ensures
            controller.shown() is None,
            controller.is_solid(),
    {
        TrayFlashController::new()
    }
}

// ---------------------------------------------------------------------------------------------
// Laws
// ---------------------------------------------------------------------------------------------

/// A transparent point lets what is below show as it is.
pub proof fn transparent_points_do_not_show(foreground: Pixel, background: Pixel)
    requires
        foreground.alpha == 0,
        background.alpha > 0,
    ensures
        over(foreground, background) == background,
{
    lemma_uncovered(foreground.red, background.red, background.alpha);
    lemma_uncovered(foreground.green, background.green, background.alpha);
    lemma_uncovered(foreground.blue, background.blue, background.alpha);
    assert(background.alpha * (255 - foreground.alpha) / 255 == background.alpha);
}

proof fn lemma_uncovered(front: u8, back: u8, alpha: u8)
    requires
        alpha > 0,
    ensures
        over_channel(front, back, 0, alpha, alpha as int) == back,
{
    let product = back * alpha;
    assert(product >= 0) by (nonlinear_arith)
        requires
            product == back * alpha,
            back >= 0,
            alpha >= 0,
    ;
    assert(front * 0u8 == 0) by (nonlinear_arith);
    assert(product * 255 / 255 == product);
    assert(product / (alpha as int) == back) by (nonlinear_arith)
        requires
            product == back * alpha,
            alpha > 0,
    ;
    assert(over_channel(front, back, 0, alpha, alpha as int) == (product / (alpha as int)) as u8);
}

/// An opaque point hides what is below.
pub proof fn opaque_points_cover(foreground: Pixel, background: Pixel)
    requires
        foreground.alpha == 255,
    ensures
        over(foreground, background) == foreground,
{
    assert(background.alpha * 0 / 255 == 0);
    lemma_covered(foreground.red, background.red, background.alpha);
    lemma_covered(foreground.green, background.green, background.alpha);
    lemma_covered(foreground.blue, background.blue, background.alpha);
}

proof fn lemma_covered(front: u8, back: u8, alpha: u8)
    ensures
        over_channel(front, back, 255, alpha, 255) == front,
{
    let product = back * alpha;
    assert(product * 0 == 0) by (nonlinear_arith);
    assert(back * alpha * (255 - 255u8) / 255 == 0) by {
        assert(back * alpha * (255 - 255u8) == product * 0);
    }
    assert(front * 255u8 / 255 == front);
}

/// An overlay changes no point outside its corner.
pub proof fn overlays_stay_in_their_corner(
    base: RasterModel,
    overlay: RasterModel,
    x: int,
    y: int,
    outcome: Raster,
)
    requires
        is_overlay(base, overlay, Ok(outcome)),
        base.has(x, y),
        x < base.width - overlay_size(base.width) || y < base.height - overlay_size(base.width),
    ensures
        outcome@.at(x, y) == base.at(x, y),
{
}

/// A point that lies wholly in one part of the icon has the colour of that part.
pub proof fn whole_parts_keep_their_colour(okay: Pixel, unknown: Pixel)
    requires
        okay.alpha == unknown.alpha,
    ensures
        mixed(okay, unknown, 0) == okay,
        mixed(okay, unknown, TOTAL_SAMPLES as int) == unknown,
{
    lemma_unmixed(okay.red, unknown.red);
    lemma_unmixed(okay.green, unknown.green);
    lemma_unmixed(okay.blue, unknown.blue);
}

proof fn lemma_unmixed(okay: u8, unknown: u8)
    ensures
        mixed_channel(okay, unknown, 0) == okay,
        mixed_channel(okay, unknown, TOTAL_SAMPLES as int) == unknown,
{
    assert(okay * 0 == 0 && unknown * 0 == 0) by (nonlinear_arith);
    assert(okay * 16 / 16 == okay && unknown * 16 / 16 == unknown);
}

/// The title counts the incidents, one in the singular, and those that are snoozed where there are
/// any.
pub proof fn titles_count_the_incidents(alerting: nat, snoozed: nat)
    ensures
        alerting == 1 && snoozed == 0 ==> status_words(alerting, snoozed) == "Status: "@ + decimal(
            1,
        ) + " incident"@,
        alerting != 1 && snoozed == 0 ==> status_words(alerting, snoozed) == "Status: "@ + decimal(
            alerting,
        ) + " incidents"@,
        snoozed > 0 ==> status_words(alerting, snoozed) == status_words(alerting, 0) + " + "@
            + decimal(snoozed) + " snoozed"@,
{
}

/// Each severity has its own image.
pub proof fn severities_have_their_own_images(icons: TrayIcons)
    ensures
        icons.image(OverallState::Error) == icons.error,
        icons.image(OverallState::Warning) == icons.warning,
        icons.image(OverallState::InternalError) == icons.internal_error,
        icons.image(OverallState::Okay) == icons.okay,
        icons.image(OverallState::Unknown) == icons.unknown,
{
}

/// Whether a colour is the mean of two over an opaque ground, weighted by the opacity of the front
/// and rounded down.
pub open spec fn is_weighted(value: u8, front: u8, back: u8, alpha: u8) -> bool {
    value * 255 <= front * alpha + back * (255 - alpha) < (value + 1) * 255
}

/// Over an opaque ground the result is opaque, and each colour is the mean of both, weighted by
/// the opacity of the front. Over any ground the opacities add up, as far as the front lets the
/// ground through.
pub proof fn colours_are_weighted_by_opacity(foreground: Pixel, background: Pixel)
    ensures
        ({
            let pixel = over(foreground, background);
            let through = background.alpha * (255 - foreground.alpha);
            &&& (pixel.alpha - foreground.alpha) * 255 <= through < (pixel.alpha
                - foreground.alpha + 1) * 255
            &&& background.alpha == 255 ==> pixel.alpha == 255 && is_weighted(
                pixel.red,
                foreground.red,
                background.red,
                foreground.alpha,
            ) && is_weighted(
                pixel.green,
                foreground.green,
                background.green,
                foreground.alpha,
            ) && is_weighted(pixel.blue, foreground.blue, background.blue, foreground.alpha)
        }),
{
    let front = foreground.alpha as int;
    let back = background.alpha as int;
    assert(0 <= back * (255 - front) <= 255 * (255 - front)) by (nonlinear_arith)
        requires
            0 <= back <= 255,
            0 <= front <= 255,
    ;
    let alpha = over_alpha(foreground, background);
    assert(0 <= alpha <= 255);
    if back == 255 {
        lemma_weighted(foreground.red as int, background.red as int, front);
        lemma_weighted(foreground.green as int, background.green as int, front);
        lemma_weighted(foreground.blue as int, background.blue as int, front);
    }
}

proof fn lemma_weighted(front: int, back: int, alpha: int)
    requires
        0 <= front <= 255,
        0 <= back <= 255,
        0 <= alpha <= 255,
    ensures
        ({
            let value = (front * alpha + back * 255 * (255 - alpha) / 255) / 255;
            &&& 0 <= value <= 255
            &&& value * 255 <= front * alpha + back * (255 - alpha) < (value + 1) * 255
        }),
{
    let rest = 255 - alpha;
    assert(back * 255 * rest == 255 * (back * rest)) by (nonlinear_arith);
    assert(255 * (back * rest) / 255 == back * rest);
    assert(0 <= front * alpha <= 255 * alpha) by (nonlinear_arith)
        requires
            0 <= front <= 255,
            0 <= alpha,
    ;
    assert(0 <= back * rest <= 255 * rest) by (nonlinear_arith)
        requires
            0 <= back <= 255,
            0 <= rest,
    ;
}

/// An overlay takes a corner whose side is three tenths of the width, rounded down. Each point of
/// the corner shows, over what was there, the point of the overlay at the same part of its width
/// and height.
pub proof fn overlays_fill_their_corner(
    base: RasterModel,
    overlay: RasterModel,
    outcome: Raster,
    side: int,
    x: int,
    y: int,
    column: int,
    row: int,
)
    requires
        is_overlay(base, overlay, Ok(outcome)),
        base.has(x, y),
        side * 100 <= base.width * 30 < (side + 1) * 100,
        x >= base.width - side,
        y >= base.height - side,
        side > 0,
        column * side <= (x - (base.width - side)) * overlay.width < (column + 1) * side,
        row * side <= (y - (base.height - side)) * overlay.height < (row + 1) * side,
    ensures
        outcome@.at(x, y) == over(overlay.at(column, row), base.at(x, y)),
{
    assert(overlay_size(base.width) == side);
    let across = (x - (base.width - side)) * overlay.width;
    let down = (y - (base.height - side)) * overlay.height;
    lemma_quotient(across, side, column);
    lemma_quotient(down, side, row);
}

proof fn lemma_quotient(value: int, divisor: int, quotient: int)
    requires
        divisor > 0,
        quotient * divisor <= value < (quotient + 1) * divisor,
    ensures
        value / divisor == quotient,
{
    assert((quotient + 1) * divisor == quotient * divisor + divisor) by (nonlinear_arith);
    let rest = value - quotient * divisor;
    vstd::arithmetic::div_mod::lemma_fundamental_div_mod_converse(value, divisor, quotient, rest);
}

/// While some servers are known and others are not, each colour lies between those of the two
/// images, by how many of the sixteen samples show the second, rounded down. Once all are known the
/// icon is the first image, and while none is, or there is none, it is the second.
pub proof fn initialization_icons_mix_by_samples(
    okay: RasterModel,
    unknown: RasterModel,
    unknown_server_count: nat,
    server_count: nat,
    samples: Seq<u8>,
    image: Raster,
    x: int,
    y: int,
)
    requires
        is_initialization_icon(
            okay,
            unknown,
            unknown_server_count,
            server_count,
            samples,
            Ok(image),
        ),
        okay.has(x, y),
        unknown_server_count <= server_count,
        0 <= samples[y * okay.width + x] <= 16,
    ensures
        server_count > 0 && unknown_server_count == 0 ==> image@ == okay,
        unknown_server_count == server_count ==> image@ == unknown,
        0 < unknown_server_count < server_count ==> {
            let shown = image@.at(x, y);
            let count = samples[y * okay.width + x] as int;
            &&& shown.alpha == okay.at(x, y).alpha == unknown.at(x, y).alpha
            &&& is_share(shown.red, okay.at(x, y).red, unknown.at(x, y).red, count)
            &&& is_share(shown.green, okay.at(x, y).green, unknown.at(x, y).green, count)
            &&& is_share(shown.blue, okay.at(x, y).blue, unknown.at(x, y).blue, count)
        },
{
    if 0 < unknown_server_count < server_count {
        let count = samples[y * okay.width + x] as int;
        assert(okay.has(x, y));
        assert(same_alpha(okay, unknown, x, y));
        lemma_share(okay.at(x, y).red as int, unknown.at(x, y).red as int, count);
        lemma_share(okay.at(x, y).green as int, unknown.at(x, y).green as int, count);
        lemma_share(okay.at(x, y).blue as int, unknown.at(x, y).blue as int, count);
    }
}

/// Whether a colour is the mean of two by how many of sixteen samples show the second, rounded
/// down.
pub open spec fn is_share(value: u8, first: u8, second: u8, count: int) -> bool {
    value * 16 <= first * (16 - count) + second * count < (value + 1) * 16
}

proof fn lemma_share(first: int, second: int, count: int)
    requires
        0 <= first <= 255,
        0 <= second <= 255,
        0 <= count <= 16,
    ensures
        ({
            let value = (first * (16 - count) + second * count) / 16;
            0 <= value <= 255 && value * 16 <= first * (16 - count) + second * count < (value + 1)
                * 16
        }),
{
    assert(0 <= first * (16 - count) <= 255 * (16 - count)) by (nonlinear_arith)
        requires
            0 <= first <= 255,
            0 <= 16 - count,
    ;
    assert(0 <= second * count <= 255 * count) by (nonlinear_arith)
        requires
            0 <= second <= 255,
            0 <= count,
    ;
}

/// The points of an image are read from its bytes in their order: red, green, blue and alpha.
pub proof fn points_are_read_in_order(bytes: Seq<u8>, count: nat, i: int)
    requires
        0 <= i < count,
        4 * count <= bytes.len(),
    ensures
        points_of(bytes, count).len() == count,
        points_of(bytes, count)[i].red == bytes[4 * i],
        points_of(bytes, count)[i].green == bytes[4 * i + 1],
        points_of(bytes, count)[i].blue == bytes[4 * i + 2],
        points_of(bytes, count)[i].alpha == bytes[4 * i + 3],
{
}

} // verus!
