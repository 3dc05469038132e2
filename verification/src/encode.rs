//! PNG and base64 encoding of the rendered buffer, and the public rendering
//! entry point that wraps the image in a data URI.

use vstd::prelude::*;
use vstd::string::StringExecFns;
use base64::Engine;
use crate::vec3::{Vec3, V3, bounded, COORD_MAX};
use crate::render::{
    render, render_spec, scene_spheres, scene_spec, default_camera, camera_spec, DIM_MAX,
};
use crate::Raytracing;

verus! {

/// The bytes the image library's PNG encoder writes for a raw RGBA buffer of
/// the given dimensions: a pure function of its arguments.
pub uninterp spec fn png_of(pixels: Seq<u8>, width: nat, height: nat) -> Seq<u8>;

/// The characters of the standard padded base64 encoding of a byte string:
/// a pure function of the bytes.
pub uninterp spec fn b64_of(bytes: Seq<u8>) -> Seq<char>;

/// Relies on image's `RgbaImage::from_raw` and `DynamicImage::write_to` with
/// the PNG format: for a buffer of exactly `4 * width * height` bytes they
/// deterministically produce the PNG serialization of that image.
#[verifier::external_body]
fn png_encode(pixels: &Vec<u8>, width: u32, height: u32) -> (r: Vec<u8>)
    requires
        pixels@.len() == 4 * width * height,
        width >= 1,
        height >= 1,
    ensures
        r@ == png_of(pixels@, width as nat, height as nat),
{
    let img: image::RgbaImage = match image::RgbaImage::from_raw(width, height, pixels.clone()) {
        Some(i) => i,
        None => return Vec::new(),
    };
    let dyn_img = image::DynamicImage::ImageRgba8(img);
    let mut cursor = std::io::Cursor::new(Vec::new());
    let _ = dyn_img.write_to(&mut cursor, image::ImageFormat::Png);
    cursor.into_inner()
}

/// Relies on base64's standard padded engine: the encoding is a pure
/// function of the bytes, four output characters for every started group of
/// three input bytes.
#[verifier::external_body]
fn base64_encode(bytes: &Vec<u8>) -> (r: String)
    ensures
        r@ == b64_of(bytes@),
        r@.len() == 4 * ((bytes@.len() + 2) / 3),
{
    base64::engine::general_purpose::STANDARD.encode(bytes.as_slice())
}

/// The data URI that `mint` returns for an image size and sky base colour.
pub open spec fn mint_spec(w: int, h: int, sky: V3) -> Seq<char> {
    "data:image/png;base64,"@ + b64_of(
        png_of(render_spec(w, h, sky, scene_spec(), camera_spec()), (w + 1) as nat, (h
            + 1) as nat),
    )
}

impl Raytracing {
    /// Renders the fixed two-sphere scene at the requested size under the
    /// given sky base colour, encodes the raw buffer as a PNG image, and
    /// returns it as a base64 data URI.
    pub fn mint(&self, width: i32, height: i32, sky_color: Vec3) -> (r: String)
        requires
            0 < width <= DIM_MAX,
            0 < height <= DIM_MAX,
            bounded(sky_color@, COORD_MAX as int),
        ensures
            r@ == mint_spec(width as int, height as int, sky_color@),
    {
        let scene: Vec<crate::sphere::Sphere> = scene_spheres();
        let cam: crate::render::Camera = default_camera();
        let buf: Vec<u8> = render(width, height, sky_color, &scene, &cam);
        let pw: u32 = (width as u32) + 1;
        let ph: u32 = (height as u32) + 1;
        proof {
            assert((width as int + 1) * (height as int + 1) * 4 == 4 * (pw as int) * (ph as int))
                by (nonlinear_arith)
                requires
                    pw == width as int + 1,
                    ph == height as int + 1,
            ;
        }
        let png: Vec<u8> = png_encode(&buf, pw, ph);
        let b64: String = base64_encode(&png);
        let prefix: String = String::from_str("data:image/png;base64,");
        prefix.concat(&b64)
    }
}

} // verus!
