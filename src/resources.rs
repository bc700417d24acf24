//! Static resources: each changed image is scaled to a fixed box and
//! written in one image format, icons excepted, which keep theirs.
use vstd::prelude::*;
use crate::paths::{file_name, file_name_of, file_stem, file_stem_of, last_index_of, lemma_last_index_at};

verus! {

/// The largest width that an optimized image keeps.
pub const MAX_WIDTH: u32 = 1920;

/// The largest height that an optimized image keeps.
pub const MAX_HEIGHT: u32 = 1080;

#[verifier::external_type_specification]
#[verifier::external_body]
pub struct ExDynamicImage(image::DynamicImage);

/// What becomes of one static file.
#[derive(Debug)]
pub enum StaticOutcome {
    /// The bytes to write at `path`: an image of `width` by `height`.
    Written { path: String, bytes: Vec<u8>, width: u32, height: u32 },
    /// The file could not be decoded as an image; nothing is written.
    NotAnImage,
    /// The image could not be encoded; nothing is written.
    EncodeFailed,
}

/// The formats that static images are written in.
#[derive(Clone, Copy, Debug, PartialEq, Eq, Structural)]
pub enum OutputFormat {
    Icon,
    WebP,
}

/// A decoded image with its size, and whether it was decoded as an icon.
struct Picture {
    image: image::DynamicImage,
    width: u32,
    height: u32,
    icon: bool,
}

/// `p` with the extension of its file name set to `ext`.
pub open spec fn with_extension_of(p: Seq<char>, ext: Seq<char>) -> Seq<char> {
    p.subrange(0, last_index_of(p, '/') + 1) + file_stem_of(p) + "."@ + ext
}

/// `p` ends in the name of a file: its last component is neither empty
/// (as after a trailing `/`) nor `.` nor `..`.
pub open spec fn names_file(p: Seq<char>) -> bool {
    let n = file_name_of(p);
    n.len() > 0 && n != "."@ && n != ".."@
}

/// `c` is `lower` or its ASCII upper case `upper`.
pub open spec fn is_either(c: char, lower: char, upper: char) -> bool {
    c == lower || c == upper
}

/// The file at `p` is an icon: the extension of its name, the part after a
/// dot that does not begin the name, is `ico` in any ASCII case.
pub open spec fn icon_named(p: Seq<char>) -> bool {
    let name = file_name_of(p);
    let d = last_index_of(name, '.');
    &&& d > 0
    &&& name.len() == d + 4
    &&& is_either(name[d + 1], 'i', 'I')
    &&& is_either(name[d + 2], 'c', 'C')
    &&& is_either(name[d + 3], 'o', 'O')
}

/// Whether `path` ends in the name of a file.
pub fn is_file_name(path: &str) -> (r: bool)
    ensures
        r == names_file(path@),
{
    let name = file_name(path);
    proof {
        reveal_strlit(".");
        reveal_strlit("..");
    }
    name.as_str().unicode_len() > 0 && !(name == String::from_str(".")) && !(name == String::from_str(".."))
}

/// Whether `bytes` decode as an image in the format that `name`'s extension
/// gives.
pub uninterp spec fn image_decodes(name: Seq<char>, bytes: Seq<u8>) -> bool;

/// The width and height of the image that `bytes` decode to, in the format
/// that `name`'s extension gives.
pub uninterp spec fn decoded_size(name: Seq<char>, bytes: Seq<u8>) -> (u32, u32);

/// `w` by `h` keeps the aspect ratio of `ow` by `oh`, up to rounding each
/// side to a whole pixel.
pub open spec fn keeps_aspect(w: u32, h: u32, ow: u32, oh: u32) -> bool {
    let d = w as int * oh as int - h as int * ow as int;
    -(ow as int + oh as int) <= d <= ow as int + oh as int
}

/// Relies on image::ImageFormat::from_path, which picks the format from the
/// extension of `name`, and image::load_from_memory_with_format, which
/// decodes `bytes` in that format; `None` where either fails. The size is
/// the decoded image's, and the flag says whether the format is the icon
/// format. Where `name` ends in the name of a file, its extension is the
/// one that std's `Path::extension` gives.
#[verifier::external_body]
fn decode_image(name: &str, bytes: &[u8]) -> (r: Option<Picture>)
    requires
        names_file(name@),
    ensures
        r is Some <==> image_decodes(name@, bytes@),
        r matches Some(p) ==> p.icon == icon_named(name@) && (p.width, p.height) == decoded_size(
            name@,
            bytes@,
        ),
{
    let format = image::ImageFormat::from_path(name).ok()?;
    let image = image::load_from_memory_with_format(bytes, format).ok()?;
    Some(Picture { width: image.width(), height: image.height(), icon: format == image::ImageFormat::Ico, image })
}

/// Relies on image::DynamicImage::resize with the Lanczos3 filter: the
/// image scaled by one factor to fit `width` by `height`, each side rounded
/// and at least one pixel.
#[verifier::external_body]
fn resize_image(p: &Picture, width: u32, height: u32) -> (r: Picture)
    requires
        width >= 1,
        height >= 1,
    ensures
        1 <= r.width <= width,
        1 <= r.height <= height,
        r.icon == p.icon,
        p.width >= 1 && p.height >= 1 ==> keeps_aspect(r.width, r.height, p.width, p.height),
{
    let image = p.image.resize(width, height, image::imageops::FilterType::Lanczos3);
    Picture { width: image.width(), height: image.height(), icon: p.icon, image }
}

/// Relies on image::DynamicImage::write_to into memory, in `format`; `None`
/// where encoding fails. The WebP encoder takes any size from 1 to 16384 per
/// side, after converting to 8-bit colour; the icon encoder takes 1 to 256
/// per side in the colour types that the icon decoder gives.
#[verifier::external_body]
fn encode_image(p: &Picture, format: OutputFormat) -> (r: Option<Vec<u8>>)
    ensures
        format == OutputFormat::WebP && 1 <= p.width <= 16384 && 1 <= p.height <= 16384 ==> r is Some,
        format == OutputFormat::Icon && p.icon && 1 <= p.width <= 256 && 1 <= p.height <= 256 ==> r is Some,
{
    let format = match format {
        OutputFormat::Icon => image::ImageFormat::Ico,
        OutputFormat::WebP => image::ImageFormat::WebP,
    };
    let mut out = std::io::Cursor::new(Vec::new());
    p.image.write_to(&mut out, format).ok()?;
    Some(out.into_inner())
}

/// `path` with the extension of its file name set to `ext`.
pub fn with_extension(path: &str, ext: &str) -> (r: String)
    ensures
        r@ == with_extension_of(path@, ext@),
{
    let mut k: usize = path.unicode_len();
    while k > 0 && path.get_char(k - 1) != '/'
        invariant
            k <= path@.len(),
            forall|j: int| k <= j < path@.len() ==> path@[j] != '/',
        decreases k,
    {
        k = k - 1;
    }
    proof {
        lemma_last_index_at(path@, '/', k as int);
    }
    let mut r = String::from_str(path.substring_char(0, k));
    let stem = file_stem(path);
    r.append(stem.as_str());
    r.append(".");
    r.append(ext);
    r
}

/// What to write for the static file whose bytes are `bytes` and whose
/// output would be `output_path`: an icon is re-encoded as an icon at its
/// own size; any other image is scaled to fit `MAX_WIDTH` by `MAX_HEIGHT`,
/// keeping its aspect ratio, and encoded as WebP; a file that does not
/// decode is skipped.
pub fn optimize_static_file(output_path: &str, bytes: &Vec<u8>) -> (r: StaticOutcome)
    requires
        names_file(output_path@),
    ensures
        r is NotAnImage <==> !image_decodes(output_path@, bytes@),
        r is EncodeFailed ==> image_decodes(output_path@, bytes@) && icon_named(output_path@),
        image_decodes(output_path@, bytes@) && !icon_named(output_path@) ==> r is Written,
        image_decodes(output_path@, bytes@) && icon_named(output_path@) && 1 <= decoded_size(
            output_path@,
            bytes@,
        ).0 <= 256 && 1 <= decoded_size(output_path@, bytes@).1 <= 256 ==> r is Written,
        r matches StaticOutcome::Written { path, width, height, .. } ==> if icon_named(output_path@) {
            path@ == with_extension_of(output_path@, "ico"@) && (width, height) == decoded_size(
                output_path@,
                bytes@,
            )
        } else {
            &&& path@ == with_extension_of(output_path@, "webp"@)
            &&& 1 <= width <= MAX_WIDTH
            &&& 1 <= height <= MAX_HEIGHT
            &&& (decoded_size(output_path@, bytes@).0 >= 1 && decoded_size(output_path@, bytes@).1 >= 1
                ==> keeps_aspect(
                width,
                height,
                decoded_size(output_path@, bytes@).0,
                decoded_size(output_path@, bytes@).1,
            ))
        },
{
    match decode_image(output_path, bytes.as_slice()) {
        None => StaticOutcome::NotAnImage,
        Some(pic) => {
            if pic.icon {
                match encode_image(&pic, OutputFormat::Icon) {
                    Some(out) => StaticOutcome::Written {
                        path: with_extension(output_path, "ico"),
                        bytes: out,
                        width: pic.width,
                        height: pic.height,
                    },
                    None => StaticOutcome::EncodeFailed,
                }
            } else {
                let resized = resize_image(&pic, MAX_WIDTH, MAX_HEIGHT);
                match encode_image(&resized, OutputFormat::WebP) {
                    Some(out) => StaticOutcome::Written {
                        path: with_extension(output_path, "webp"),
                        bytes: out,
                        width: resized.width,
                        height: resized.height,
                    },
                    None => StaticOutcome::EncodeFailed,
                }
            }
        },
    }
}

} // verus!
