//! Picture references into embedded media.

use vstd::prelude::*;
use crate::geom::SizeEmu;

verus! {

/// Reference to embedded media by content key, with the image's natural size in EMU.
#[derive(Clone, Debug, PartialEq, Eq)]
pub struct PictureRef {
    pub media_key: String,
    pub natural: SizeEmu,
}

pub struct PictureRefView {
    pub media_key: Seq<char>,
    pub natural: SizeEmu,
}

impl View for PictureRef {
    type V = PictureRefView;

    open spec fn view(&self) -> PictureRefView {
        PictureRefView { media_key: self.media_key@, natural: self.natural }
    }
}

impl PictureRef {
    /// A copy of this reference.
    pub fn duplicate(&self) -> (r: PictureRef)
        ensures
            r@ == self@,
    {
        PictureRef { media_key: self.media_key.clone(), natural: self.natural }
    }
}

/// The encoded image formats the editor can decode.
#[derive(Clone, Copy, Debug, PartialEq, Eq, Structural)]
pub enum ImageFormat {
    Png,
    Jpeg,
    Gif,
    Webp,
    Bmp,
}

/// `bytes` opens with `magic`.
pub open spec fn opens_with(bytes: Seq<u8>, magic: Seq<u8>) -> bool {
    bytes.len() >= magic.len() && bytes.take(magic.len() as int) == magic
}

/// The format an image's leading magic bytes announce: PNG, JPEG, GIF, WebP (a RIFF
/// container of kind `WEBP`) or BMP, else none.
pub open spec fn image_format_spec(bytes: Seq<u8>) -> Option<ImageFormat> {
    if opens_with(bytes, seq![0x89u8, 0x50, 0x4E, 0x47]) {
        Some(ImageFormat::Png)
    } else if opens_with(bytes, seq![0xFFu8, 0xD8, 0xFF]) {
        Some(ImageFormat::Jpeg)
    } else if opens_with(bytes, seq![0x47u8, 0x49, 0x46, 0x38]) {
        Some(ImageFormat::Gif)
    } else if bytes.len() >= 12 && bytes.subrange(0, 4) == seq![0x52u8, 0x49, 0x46, 0x46]
        && bytes.subrange(8, 12) == seq![0x57u8, 0x45, 0x42, 0x50] {
        Some(ImageFormat::Webp)
    } else if opens_with(bytes, seq![0x42u8, 0x4D]) {
        Some(ImageFormat::Bmp)
    } else {
        None
    }
}

/// Whether `bytes[at..]` starts with `magic`.
fn has_at(bytes: &[u8], at: usize, magic: &[u8]) -> (r: bool)
    ensures
        r == (bytes@.len() >= at + magic@.len() && bytes@.subrange(
            at as int,
            at + magic@.len(),
        ) == magic@),
{
    if bytes.len() < magic.len() || at > bytes.len() - magic.len() {
        return false;
    }
    let mut i: usize = 0;
    while i < magic.len()
        invariant
            at + magic@.len() <= bytes@.len(),
            bytes@.len() == bytes.len(),
            magic@.len() == magic.len(),
            i <= magic.len(),
            forall|j: int| 0 <= j < i ==> bytes@[at + j] == magic@[j],
        decreases magic.len() - i,
    {
        if bytes[at + i] != magic[i] {
            assert(bytes@.subrange(at as int, at + magic@.len())[i as int] != magic@[i as int]);
            return false;
        }
        i = i + 1;
    }
    assert(bytes@.subrange(at as int, at + magic@.len()) =~= magic@);
    true
}

/// Guess an image's encoded format from its magic bytes; `None` for data it does not
/// recognise.
pub fn guess_image_format(bytes: &[u8]) -> (f: Option<ImageFormat>)
    ensures
        f == image_format_spec(bytes@),
{
    let png: [u8; 4] = [0x89, 0x50, 0x4E, 0x47];
    let jpeg: [u8; 3] = [0xFF, 0xD8, 0xFF];
    let gif: [u8; 4] = [0x47, 0x49, 0x46, 0x38];
    let riff: [u8; 4] = [0x52, 0x49, 0x46, 0x46];
    let webp: [u8; 4] = [0x57, 0x45, 0x42, 0x50];
    let bmp: [u8; 2] = [0x42, 0x4D];
    proof {
        assert(png@ =~= seq![0x89u8, 0x50, 0x4E, 0x47]);
        assert(jpeg@ =~= seq![0xFFu8, 0xD8, 0xFF]);
        assert(gif@ =~= seq![0x47u8, 0x49, 0x46, 0x38]);
        assert(riff@ =~= seq![0x52u8, 0x49, 0x46, 0x46]);
        assert(webp@ =~= seq![0x57u8, 0x45, 0x42, 0x50]);
        assert(bmp@ =~= seq![0x42u8, 0x4D]);
    }
    if has_at(bytes, 0, &png) {
        Some(ImageFormat::Png)
    } else if has_at(bytes, 0, &jpeg) {
        Some(ImageFormat::Jpeg)
    } else if has_at(bytes, 0, &gif) {
        Some(ImageFormat::Gif)
    } else if bytes.len() >= 12 && has_at(bytes, 0, &riff) && has_at(bytes, 8, &webp) {
        Some(ImageFormat::Webp)
    } else if has_at(bytes, 0, &bmp) {
        Some(ImageFormat::Bmp)
    } else {
        None
    }
}

} // verus!
