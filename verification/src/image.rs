//! Validation of base64 image attachments sent with prompts.

use vstd::prelude::*;
use crate::text::{chars_of, has_prefix, starts_with};

verus! {

broadcast use vstd::string::group_string_axioms;

/// Largest decoded size of one attached image.
pub const MAX_ATTACHED_IMAGE_BYTES: usize = 10 * 1024 * 1024;

/// Largest number of images in one message.
pub const MAX_ATTACHED_IMAGES: usize = 10;

/// A base64-encoded image and its MIME type.
#[derive(Debug, Clone)]
pub struct Base64ImageAttachment {
    pub data: String,
    pub mime_type: String,
}

/// One element of a request's `images` array, as far as validation reads
/// it: its `type`, `data` and `mimeType` members when the element is an
/// object and the member is a string (`None` otherwise).
#[derive(Debug, Clone)]
pub struct ImageValue {
    pub type_field: Option<String>,
    pub data: Option<String>,
    pub mime_type: Option<String>,
}

/// A request's `images` member: absent, present but not an array, or an
/// array of elements.
#[derive(Debug, Clone)]
pub enum ImagesValue {
    Absent,
    NotArray,
    Array(Vec<ImageValue>),
}

/// Characters of base64 data (padding aside).
pub open spec fn is_b64_data_char(c: char) -> bool {
    ('0' <= c && c <= '9') || ('a' <= c && c <= 'z') || ('A' <= c && c <= 'Z') || c == '+' || c
        == '/'
}

/// Number of trailing `=` taken as padding: two when the data ends with
/// `==`, one when it ends with `=`.
pub open spec fn padding_of(s: Seq<char>) -> int {
    if s.len() >= 2 && s[s.len() - 1] == '=' && s[s.len() - 2] == '=' {
        2
    } else if s.len() >= 1 && s[s.len() - 1] == '=' {
        1
    } else {
        0
    }
}

/// Decoded size of base64 data, or `None` when the data is empty, not a
/// multiple of four long, or holds a character outside the alphabet before
/// its padding.
pub open spec fn decoded_length(s: Seq<char>) -> Option<int> {
    if s.len() == 0 || s.len() % 4 != 0 {
        None
    } else {
        let p = padding_of(s);
        if forall|i: int| 0 <= i < s.len() - p ==> is_b64_data_char(#[trigger] s[i]) {
            Some(s.len() / 4 * 3 - p)
        } else {
            None
        }
    }
}

/// Whether a character may occur in base64 data before the padding.
fn is_base64_data_char(c: char) -> (b: bool)
    ensures
        b == is_b64_data_char(c),
{
    ('0' <= c && c <= '9') || ('a' <= c && c <= 'z') || ('A' <= c && c <= 'Z') || c == '+' || c
        == '/'
}

/// Decoded size of base64 data; `None` for data that is not valid base64.
pub fn get_base64_decoded_byte_length(data: &str) -> (r: Option<usize>)
    ensures
        match decoded_length(data@) {
            Some(n) => r matches Some(x) && x == n,
            None => r is None,
        },
{
    let s = chars_of(data);
    let len = s.len();
    if len == 0 || len % 4 != 0 {
        return None;
    }
    let padding: usize = if len >= 2 && s[len - 1] == '=' && s[len - 2] == '=' {
        2
    } else if s[len - 1] == '=' {
        1
    } else {
        0
    };
    let data_end = len - padding;
    assert(padding == padding_of(s@));
    let mut i: usize = 0;
    while i < data_end
        invariant
            s@ == data@,
            s.len() > 0 && s.len() % 4 == 0,
            padding == padding_of(s@),
            data_end == s.len() - padding,
            data_end <= s.len(),
            i <= data_end,
            forall|j: int| 0 <= j < i ==> is_b64_data_char(#[trigger] s@[j]),
        decreases data_end - i,
    {
        if !is_base64_data_char(s[i]) {
            return None;
        }
        i += 1;
    }
    Some((len / 4) * 3 - padding)
}

/// `mime_type` names an image type and `data` decodes to at most
/// [`MAX_ATTACHED_IMAGE_BYTES`].
pub open spec fn image_within_limits(data: Seq<char>, mime_type: Seq<char>) -> bool {
    starts_with(mime_type, "image/"@) && match decoded_length(data) {
        Some(n) => n <= MAX_ATTACHED_IMAGE_BYTES,
        None => false,
    }
}

/// Whether `data` is base64 of at most [`MAX_ATTACHED_IMAGE_BYTES`] bytes
/// and `mime_type` is an image type.
pub fn is_base64_image_within_limits(data: &str, mime_type: &str) -> (b: bool)
    ensures
        b == image_within_limits(data@, mime_type@),
{
    let m = chars_of(mime_type);
    let prefix = chars_of("image/");
    if !has_prefix(&m, &prefix) {
        return false;
    }
    match get_base64_decoded_byte_length(data) {
        Some(n) => n <= MAX_ATTACHED_IMAGE_BYTES,
        None => false,
    }
}

/// The view of an optional string.
pub open spec fn opt_string_view(o: Option<String>) -> Option<Seq<char>> {
    match o {
        Some(s) => Some(s@),
        None => None,
    }
}

/// An `images` element is an object with string `data` and `mimeType`
/// members that pass [`image_within_limits`].
pub open spec fn value_within_limits(v: ImageValue) -> bool {
    match (v.data, v.mime_type) {
        (Some(d), Some(m)) => image_within_limits(d@, m@),
        _ => false,
    }
}

/// [`is_base64_image_within_limits`] on an `images` element.
pub fn is_base64_image_within_limits_value(image: &ImageValue) -> (b: bool)
    ensures
        b == value_within_limits(*image),
{
    match (&image.data, &image.mime_type) {
        (Some(d), Some(m)) => is_base64_image_within_limits(d.as_str(), m.as_str()),
        _ => false,
    }
}

/// Error for an `images` member that is not an array.
pub open spec fn not_array_message() -> Seq<char> {
    "images must be an array"@
}

/// Error for more than [`MAX_ATTACHED_IMAGES`] images.
pub open spec fn too_many_message() -> Seq<char> {
    "A message can include at most 10 images"@
}

/// Error for an element that is not an image object.
pub open spec fn not_image_message() -> Seq<char> {
    "Each attachment must be an image"@
}

/// Error for an image whose data is invalid or too large.
pub open spec fn invalid_image_message() -> Seq<char> {
    "Each image must be valid base64 image data of 10MB or smaller"@
}

/// The element's `type` is the string `"image"`.
pub open spec fn is_image_element(v: ImageValue) -> bool {
    opt_string_view(v.type_field) == Some("image"@)
}

/// The error for the first offending element of `items` (checked in order:
/// not an image, then invalid data), if any.
pub open spec fn first_image_error(items: Seq<ImageValue>) -> Option<Seq<char>>
    decreases items.len(),
{
    if items.len() == 0 {
        None
    } else if !is_image_element(items[0]) {
        Some(not_image_message())
    } else if !value_within_limits(items[0]) {
        Some(invalid_image_message())
    } else {
        first_image_error(items.drop_first())
    }
}

/// The error for a request's `images` member, or `None` when it is valid.
pub open spec fn images_error(value: ImagesValue) -> Option<Seq<char>> {
    match value {
        ImagesValue::Absent => None,
        ImagesValue::NotArray => Some(not_array_message()),
        ImagesValue::Array(items) => if items.len() > MAX_ATTACHED_IMAGES {
            Some(too_many_message())
        } else {
            first_image_error(items@)
        },
    }
}

fn is_image_element_exec(v: &ImageValue) -> (b: bool)
    ensures
        b == is_image_element(*v),
{
    match &v.type_field {
        Some(t) => {
            let tv = chars_of(t.as_str());
            let iv = chars_of("image");
            crate::text::chars_eq(&tv, &iv)
        },
        None => false,
    }
}

/// The API error for the images of a prompt, steering or follow-up message;
/// `None` when they are valid (an absent member is valid).
pub fn validate_agent_images(value: &ImagesValue) -> (r: Option<String>)
    ensures
        match images_error(*value) {
            Some(m) => r matches Some(s) && s@ == m,
            None => r is None,
        },
{
    match value {
        ImagesValue::Absent => None,
        ImagesValue::NotArray => Some(crate::text::string_of(chars_of("images must be an array").as_slice())),
        ImagesValue::Array(items) => {
            if items.len() > MAX_ATTACHED_IMAGES {
                return Some(
                    crate::text::string_of(
                        chars_of("A message can include at most 10 images").as_slice(),
                    ),
                );
            }
            let mut i: usize = 0;
            assert(items@.skip(0) =~= items@);
            assert(images_error(*value) == first_image_error(items@));
            while i < items.len()
                invariant
                    images_error(*value) == first_image_error(items@),
                    i <= items.len(),
                    first_image_error(items@) == first_image_error(items@.skip(i as int)),
                decreases items.len() - i,
            {
                assert(items@.skip(i as int)[0] == items@[i as int]);
                if !is_image_element_exec(&items[i]) {
                    return Some(
                        crate::text::string_of(
                            chars_of("Each attachment must be an image").as_slice(),
                        ),
                    );
                }
                if !is_base64_image_within_limits_value(&items[i]) {
                    return Some(
                        crate::text::string_of(
                            chars_of(
                                "Each image must be valid base64 image data of 10MB or smaller",
                            ).as_slice(),
                        ),
                    );
                }
                assert(items@.skip(i as int).drop_first() =~= items@.skip(i + 1));
                i += 1;
            }
            None
        },
    }
}

} // verus!
