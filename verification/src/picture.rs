//! Pictures, as the `image` crate decodes them.

use vstd::prelude::*;

verus! {

/// `image::DynamicImage`, a decoded picture.
#[verifier::external_type_specification]
#[verifier::external_body]
pub struct ExDynamicImage(image::DynamicImage);

/// `image::ImageError`, why some bytes are no picture.
#[verifier::external_type_specification]
#[verifier::external_body]
pub struct ExImageError(image::ImageError);

/// A picture that can be drawn: red, green and blue of each pixel, row by row.
#[derive(Debug, Clone, PartialEq, Eq)]
pub struct Picture {
    pub width: u32,
    pub height: u32,
    pub rgb: Vec<u8>,
}

impl Picture {
    /// There are three bytes for every pixel.
    pub open spec fn wf(self) -> bool {
        3 * self.width * self.height <= self.rgb@.len()
    }
}

/// The red, green and blue bytes of a decoded picture, row by row.
pub uninterp spec fn rgb_bytes(decoded: image::DynamicImage) -> Seq<u8>;

/// Width and height of a decoded picture.
pub uninterp spec fn picture_size(decoded: image::DynamicImage) -> (u32, u32);

/// `loaded` is something that `image::load_from_memory` came back with for `bytes`. Other calls on
/// the same bytes may come back with something else.
pub uninterp spec fn came_back(
    bytes: Seq<u8>,
    loaded: Result<image::DynamicImage, image::ImageError>,
) -> bool;

/// `words` are words that `ImageError`'s `to_string` gave for `error`. Other calls on the same
/// error may give others.
pub uninterp spec fn put_in_words(error: image::ImageError, words: Seq<char>) -> bool;

/// `image::load_from_memory`: decodes a picture whose format its first bytes tell. Its result is
/// one that came back for these bytes. What it makes of them is left unsaid: it depends on the
/// decoders that the process has and on the machine that they run on.
#[verifier::external_body]
fn load(bytes: &[u8]) -> (r: Result<image::DynamicImage, image::ImageError>)
    ensures
        came_back(bytes@, r),
{
    image::load_from_memory(bytes)
}

/// `DynamicImage::to_rgb8`: the picture with eight bits each of red, green and blue. It keeps the
/// size of the picture, its bytes follow from the picture alone, and there is room for every pixel.
#[verifier::external_body]
fn to_rgb(decoded: &image::DynamicImage) -> (r: Picture)
    ensures
        r.rgb@ == rgb_bytes(*decoded),
        (r.width, r.height) == picture_size(*decoded),
        r.wf(),
{
    let rgb = decoded.to_rgb8();
    Picture { width: rgb.width(), height: rgb.height(), rgb: rgb.into_raw() }
}

/// `ImageError`'s `to_string`: the error in words. Its result is one that was given for this
/// error; which words they are is left unsaid, since the system puts some of them.
#[verifier::external_body]
fn error_text(error: &image::ImageError) -> (r: String)
    ensures
        put_in_words(*error, r@),
{
    error.to_string()
}

/// What is made of what a decoder came back with: all of the decoded picture, or the words for its
/// error where it failed.
pub open spec fn is_picture_of(
    loaded: Result<image::DynamicImage, image::ImageError>,
    r: Result<Picture, String>,
) -> bool {
    match loaded {
        Ok(decoded) => r matches Ok(picture) && {
            &&& picture.rgb@ == rgb_bytes(decoded)
            &&& (picture.width, picture.height) == picture_size(decoded)
            &&& picture.wf()
        },
        Err(error) => r matches Err(words) && put_in_words(error, words@),
    }
}

/// Takes what a decoder came back with.
pub fn picture_of(loaded: Result<image::DynamicImage, image::ImageError>) -> (r: Result<
    Picture,
    String,
>)
    ensures
        is_picture_of(loaded, r),
{
    match loaded {
        Ok(decoded) => Ok(to_rgb(&decoded)),
        Err(error) => Err(error_text(&error)),
    }
}

/// Decodes a picture, or says why it cannot be decoded. Which of the two it is, is up to the
/// decoder: the picture is all of what the decoder came back with for these bytes, and a complaint
/// means that it failed on them.
pub fn decode_picture(bytes: &[u8]) -> (r: Result<Picture, String>)
    ensures
        exists|loaded: Result<image::DynamicImage, image::ImageError>|
            #[trigger] came_back(bytes@, loaded) && is_picture_of(loaded, r),
        r matches Ok(picture) ==> picture.wf(),
{
    picture_of(load(bytes))
}

/// A picture that was decoded is drawn with its own pixels and its own size, and a failure is put
/// into words, never into a picture.
pub proof fn law_decoded_picture_is_drawn_whole(
    decoded: image::DynamicImage,
    error: image::ImageError,
    drawn: Result<Picture, String>,
    failed: Result<Picture, String>,
)
    requires
        call_ensures(picture_of, (Ok(decoded),), drawn),
        call_ensures(picture_of, (Err(error),), failed),
    ensures
        drawn matches Ok(picture) && picture.rgb@ == rgb_bytes(decoded) && picture.width
            == picture_size(decoded).0 && picture.height == picture_size(decoded).1 && 3
            * picture.width * picture.height <= picture.rgb@.len(),
        failed matches Err(words) && put_in_words(error, words@),
{
}

/// Bytes are drawn as the picture that the decoder came back with for them, whole, and not drawn
/// only where it came back with an error for them, which is then told.
pub proof fn law_bytes_are_drawn_as_decoded(bytes: &[u8], r: Result<Picture, String>)
    requires
        call_ensures(decode_picture, (bytes,), r),
    ensures
        r matches Ok(picture) ==> exists|decoded: image::DynamicImage|
            {
                &&& #[trigger] came_back(bytes@, Ok(decoded))
                &&& picture.rgb@ == rgb_bytes(decoded)
                &&& picture.width == picture_size(decoded).0
                &&& picture.height == picture_size(decoded).1
            },
        r matches Err(words) ==> exists|error: image::ImageError| #[trigger]
            came_back(bytes@, Err(error)) && put_in_words(error, words@),
{
    let loaded = choose|loaded: Result<image::DynamicImage, image::ImageError>| #[trigger]
        came_back(bytes@, loaded) && is_picture_of(loaded, r);
    assert(came_back(bytes@, loaded) && is_picture_of(loaded, r));
    match loaded {
        Ok(decoded) => {
            assert(came_back(bytes@, Ok(decoded)));
        },
        Err(error) => {
            assert(came_back(bytes@, Err(error)));
        },
    }
}

} // verus!
