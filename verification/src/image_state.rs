//! State of the built-in image viewer: a decoded image as RGBA8 pixels.
use vstd::prelude::*;

use crate::error::CastermError;
use crate::text::push_str_chars;

verus! {

/// A decoded image: its path, its size in pixels and its RGBA8 bytes,
/// tightly packed row by row.
pub struct ImageState {
    path: String,
    width: u32,
    height: u32,
    rgba: Vec<u8>,
}

/// The message for an image that could not be opened or decoded.
pub open spec fn image_error_message(path: Seq<char>, detail: Seq<char>) -> Seq<char> {
    "failed to open image \""@ + path + "\": "@ + detail
}

impl ImageState {
    pub closed spec fn spec_path(&self) -> Seq<char> {
        self.path@
    }

    pub closed spec fn spec_width(&self) -> u32 {
        self.width
    }

    pub closed spec fn spec_height(&self) -> u32 {
        self.height
    }

    pub closed spec fn spec_rgba(&self) -> Seq<u8> {
        self.rgba@
    }

    /// The viewer state for `path`, from what decoding the file gave: its
    /// width, height and RGBA8 bytes, or the decoder's message, which
    /// becomes a GUI error naming the path.
    pub fn load(path: String, decoded: Result<(u32, u32, Vec<u8>), String>) -> (r: Result<ImageState, CastermError>)
        ensures
            decoded matches Ok((w, h, px)) ==> (r matches Ok(s) && s.spec_path() == path@ && s.spec_width() == w
                && s.spec_height() == h && s.spec_rgba() == px@),
            decoded matches Err(e) ==> (r matches Err(CastermError::Gui(m)) && m@ == image_error_message(
                path@,
                e@,
            )),
    {
        match decoded {
            Ok((width, height, rgba)) => Ok(ImageState { path, width, height, rgba }),
            Err(e) => {
                proof {
                    broadcast use vstd::string::group_string_axioms;
                }
                let mut m = "failed to open image \"".to_string();
                push_str_chars(&mut m, path.as_str());
                push_str_chars(&mut m, "\": ");
                push_str_chars(&mut m, e.as_str());
                Err(CastermError::Gui(m))
            },
        }
    }

    /// The path the image was loaded from.
    pub fn path(&self) -> (p: &String)
        ensures
            p@ == self.spec_path(),
    {
        &self.path
    }

    /// Width in pixels.
    pub fn width(&self) -> (w: u32)
        ensures
            w == self.spec_width(),
    {
        self.width
    }

    /// Height in pixels.
    pub fn height(&self) -> (h: u32)
        ensures
            h == self.spec_height(),
    {
        self.height
    }

    /// The RGBA8 bytes, row by row.
    pub fn rgba(&self) -> (b: &Vec<u8>)
        ensures
            b@ == self.spec_rgba(),
    {
        &self.rgba
    }
}

} // verus!
