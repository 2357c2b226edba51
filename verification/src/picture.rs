//! Camera pictures: decoding, checksums, and the input of the detector.
use image::imageops::FilterType;
use image::{DynamicImage, ImageError};
use vstd::prelude::*;

use crate::checksum;
#[allow(unused_imports)]
use crate::jpeg;

verus! {

/// A decoded picture, opaque here.
#[verifier::external_type_specification]
#[verifier::external_body]
pub struct ExDynamicImage(image::DynamicImage);

/// What the decoder reports when it refuses.
#[verifier::external_type_specification]
#[verifier::external_body]
pub struct ExImageError(image::ImageError);

/// A picture in red, green and blue: row by row, three bytes for each pixel.
pub struct RgbModel {
    pub width: u32,
    pub height: u32,
    pub bytes: Seq<u8>,
}

impl RgbModel {
    /// The bytes that the pixels take, which may stand in a longer buffer.
    pub open spec fn pixel_bytes(self) -> int {
        3 * (self.width * self.height)
    }
}

/// What a picture shows in red, green and blue.
pub uninterp spec fn rgb_model(image: DynamicImage) -> RgbModel;

/// What a picture shows in red, green and blue once it is resized.
pub uninterp spec fn resized_rgb(image: DynamicImage, width: u32, height: u32) -> Seq<u8>;

/// The picture in the bytes of an image file, nothing where they hold none.
pub uninterp spec fn decoded_image(bytes: Seq<u8>) -> Option<DynamicImage>;

/// `image::guess_format` and `image::load_from_memory_with_format`: the picture
/// that `decoded_image` names, which is refused where it takes more than 512 MiB.
/// Only JPEG is built in. Its decoder panics on some malformed files; they are left
/// out, and with them some well-formed ones of a rare build.
#[verifier::external_body]
fn load_image(bytes: &[u8]) -> (image: Result<DynamicImage, ImageError>)
    requires
        jpeg::decodes_safely(bytes@),
    ensures
        match image {
            Ok(image) => decoded_image(bytes@) == Some(image) && rgb_model(image).width * rgb_model(
                image,
            ).height <= 0x2000_0000,
            Err(_) => decoded_image(bytes@) is None,
        },
{
    image::load_from_memory_with_format(bytes, image::guess_format(bytes)?)
}

/// `DynamicImage::width` and `DynamicImage::height`: how many pixels the picture
/// has across and down.
#[verifier::external_body]
fn image_size(image: &DynamicImage) -> (size: (u32, u32))
    ensures
        size == (rgb_model(*image).width, rgb_model(*image).height),
{
    (image.width(), image.height())
}

/// `DynamicImage::to_rgb8`: the bytes of the picture in red, green and blue.
/// Panics where they do not fit in a vector.
#[verifier::external_body]
fn image_rgb(image: &DynamicImage) -> (bytes: Vec<u8>)
    requires
        rgb_model(*image).pixel_bytes() <= isize::MAX,
    ensures
        bytes@ == rgb_model(*image).bytes,
{
    image.to_rgb8().into_raw()
}

/// `DynamicImage::resize_exact` with the triangle filter, and `to_rgb8`: the
/// bytes of the picture once it is resized. Panics where a picture in between,
/// as wide as the given one and as high as the result, with 16 bytes for each
/// pixel, does not fit in memory.
#[verifier::external_body]
fn image_resized(image: &DynamicImage, width: u32, height: u32) -> (bytes: Vec<u8>)
    requires
        width <= SIZE,
        height <= SIZE,
        rgb_model(*image).width * height * 16 <= isize::MAX,
    ensures
        bytes@ == resized_rgb(*image, width, height),
        bytes@.len() == 3 * width * height,
{
    image.resize_exact(width, height, FilterType::Triangle).to_rgb8().into_raw()
}

/// A camera picture: the image, its size, and the checksum of its pixels.
#[derive(Debug)]
pub struct Picture {
    pub image: DynamicImage,
    pub width: u32,
    pub height: u32,
    pub checksum: u32,
}

impl Picture {
    /// The size and the checksum are those of the image.
    pub open spec fn valid(&self) -> bool {
        &&& rgb_model(self.image).width == self.width
        &&& rgb_model(self.image).height == self.height
        &&& checksum::crc32_of(rgb_model(self.image).bytes) == self.checksum
    }
}

/// A picture with its size and the checksum of its pixels.
pub fn describe_picture(image: DynamicImage) -> (picture: Picture)
    requires
        rgb_model(image).pixel_bytes() <= isize::MAX,
    ensures
        picture.valid(),
        picture.image == image,
{
    let (width, height): (u32, u32) = image_size(&image);
    let rgb: Vec<u8> = image_rgb(&image);
    let checksum: u32 = checksum::crc32(rgb.as_slice());
    Picture { image, width, height, checksum }
}

/// The picture in the bytes of an image file.
pub fn decode_picture(bytes: &[u8]) -> (picture: Result<Picture, ImageError>)
    requires
        jpeg::decodes_safely(bytes@),
    ensures
        match picture {
            Ok(picture) => decoded_image(bytes@) == Some(picture.image) && picture.valid(),
            Err(_) => decoded_image(bytes@) is None,
        },
{
    match load_image(bytes) {
        Ok(image) => Ok(describe_picture(image)),
        Err(error) => Err(error),
    }
}

/// The width and the height of the detector's input.
pub const SIZE: usize = 416;

/// The grey in which the detector's input is left where the picture does not
/// reach.
pub const FILL: u8 = 114;

/// What the detector's input holds of a picture in a plane at a pixel. The
/// planes are blue, green and red; the picture lies in the upper left corner.
pub open spec fn letterbox_at(
    bytes: Seq<u8>,
    width: int,
    height: int,
    plane: int,
    y: int,
    x: int,
) -> u8 {
    if y < height && x < width {
        bytes[3 * (y * width + x) + (2 - plane)]
    } else {
        FILL
    }
}

/// Where a pixel lies in the detector's input.
pub open spec fn input_offset(plane: int, y: int, x: int) -> int {
    plane * (SIZE * SIZE) + y * SIZE + x
}

/// The detector's input holds the picture, and grey around it.
pub open spec fn is_letterbox(input: Seq<u8>, bytes: Seq<u8>, width: int, height: int) -> bool {
    &&& input.len() == 3 * SIZE * SIZE
    &&& forall|plane: int, y: int, x: int|
        0 <= plane < 3 && 0 <= y < SIZE && 0 <= x < SIZE ==> input[#[trigger] input_offset(
            plane,
            y,
            x,
        )] == letterbox_at(bytes, width, height, plane, y, x)
}

/// The value of the detector's input at a pixel.
fn input_value(
    bytes: &[u8],
    width: usize,
    height: usize,
    plane: usize,
    y: usize,
    x: usize,
) -> (value: u8)
    requires
        bytes@.len() == 3 * width * height,
        plane < 3,
        width <= SIZE,
        height <= SIZE,
    ensures
        value == letterbox_at(bytes@, width as int, height as int, plane as int, y as int, x as int),
{
    if y < height && x < width {
        proof {
            assert(0 <= y * width && y * width + width <= height * width) by (nonlinear_arith)
                requires
                    0 <= y,
                    y + 1 <= height,
                    width >= 0,
            ;
            assert(3 * width * height == 3 * (height * width)) by (nonlinear_arith);
            assert(height * width <= SIZE * SIZE) by (nonlinear_arith)
                requires
                    0 <= height <= SIZE,
                    0 <= width <= SIZE,
            ;
        }
        bytes[3 * (y * width + x) + (2 - plane)]
    } else {
        FILL
    }
}

/// The detector's input for a picture in red, green and blue that fits in it.
pub fn letterbox(bytes: &[u8], width: usize, height: usize) -> (input: Vec<u8>)
    requires
        width <= SIZE,
        height <= SIZE,
        bytes@.len() == 3 * width * height,
    ensures
        is_letterbox(input@, bytes@, width as int, height as int),
{
    let mut input: Vec<u8> = Vec::new();
    let mut i: usize = 0;
    while i < 3 * SIZE * SIZE
        invariant
            i <= 3 * SIZE * SIZE,
            input.len() == i,
            width <= SIZE,
            height <= SIZE,
            bytes@.len() == 3 * width * height,
            forall|j: int|
                0 <= j < i ==> #[trigger] input@[j] == letterbox_at(
                    bytes@,
                    width as int,
                    height as int,
                    j / (SIZE * SIZE),
                    j % (SIZE * SIZE) / SIZE as int,
                    j % SIZE as int,
                ),
        decreases 3 * SIZE * SIZE - i,
    {
        let pixel: usize = i % (SIZE * SIZE);
        let value: u8 = input_value(
            bytes,
            width,
            height,
            i / (SIZE * SIZE),
            pixel / SIZE,
            i % SIZE,
        );
        input.push(value);
        i = i + 1;
    }
    proof {
        assert forall|plane: int, y: int, x: int|
            0 <= plane < 3 && 0 <= y < SIZE && 0 <= x < SIZE implies input@[
            #[trigger] input_offset(plane, y, x)] == letterbox_at(
            bytes@,
            width as int,
            height as int,
            plane,
            y,
            x,
        ) by {
            let j = input_offset(plane, y, x);
            assert(SIZE * SIZE == 173_056) by (nonlinear_arith);
            assert(j == plane * 173_056 + y * 416 + x);
            assert(j / 173_056 == plane);
            assert(j % 173_056 == y * 416 + x);
            assert((y * 416 + x) / 416 == y);
            assert(j % 416 == x);
        }
    }
    input
}

/// The detector's input for a picture, resized to a size that fits in it.
pub fn detector_input(picture: &Picture, width: u32, height: u32) -> (input: Vec<u8>)
    requires
        picture.valid(),
        width <= SIZE,
        height <= SIZE,
        picture.width * height * 16 <= isize::MAX,
    ensures
        is_letterbox(
            input@,
            resized_rgb(picture.image, width, height),
            width as int,
            height as int,
        ),
{
    let bytes: Vec<u8> = image_resized(&picture.image, width, height);
    letterbox(bytes.as_slice(), width as usize, height as usize)
}

/// The detector's input shows the picture upright and unmirrored. The pixel in line
/// `y` and column `x` of the picture stands in line `y` and column `x` of each
/// plane, its blue in the first, its green in the second and its red in the third;
/// beyond the picture every plane is grey.
pub proof fn law_pixels_keep_their_places(
    input: Seq<u8>,
    bytes: Seq<u8>,
    width: int,
    height: int,
    y: int,
    x: int,
)
    requires
        is_letterbox(input, bytes, width, height),
        0 <= y < 416,
        0 <= x < 416,
    ensures
        input.len() == 3 * 416 * 416,
        y < height && x < width ==> {
            let red = bytes[3 * (y * width + x)];
            let green = bytes[3 * (y * width + x) + 1];
            let blue = bytes[3 * (y * width + x) + 2];
            &&& input[y * 416 + x] == blue
            &&& input[416 * 416 + y * 416 + x] == green
            &&& input[2 * 416 * 416 + y * 416 + x] == red
        },
        !(y < height && x < width) ==> {
            &&& input[y * 416 + x] == 114
            &&& input[416 * 416 + y * 416 + x] == 114
            &&& input[2 * 416 * 416 + y * 416 + x] == 114
        },
{
    assert(SIZE * SIZE == 173_056) by (nonlinear_arith);
    assert(input_offset(0, y, x) == y * 416 + x);
    assert(input_offset(1, y, x) == 173_056 + y * 416 + x);
    assert(input_offset(2, y, x) == 2 * 173_056 + y * 416 + x);
    assert(input[input_offset(0, y, x)] == letterbox_at(bytes, width, height, 0, y, x));
    assert(input[input_offset(1, y, x)] == letterbox_at(bytes, width, height, 1, y, x));
    assert(input[input_offset(2, y, x)] == letterbox_at(bytes, width, height, 2, y, x));
}

/// A picture is as wide and as high as its image, and has the checksum of the image's
/// pixels.
pub proof fn law_pictures_describe_their_image(picture: Picture)
    requires
        picture.valid(),
    ensures
        picture.width == rgb_model(picture.image).width,
        picture.height == rgb_model(picture.image).height,
        picture.checksum == checksum::crc32_of(rgb_model(picture.image).bytes),
{
}

} // verus!
