//! Images carried in messages, turned into PNG data with the `image` crate: raw images of
//! `sensor_msgs/Image` (`mono8`, `rgb8`, `bgr8`), compressed images with a `format` field, and
//! images nested under well-known field names.
use vstd::prelude::*;
use vstd::string::*;

use crate::processor::{path_text, path_view, MessageLog};
use crate::text::{
    all_ascii, ascii_lower, concat2, concat3, contains, contains_text, lemma_lower_ignores_ascii_case,
    lower_of, to_lower,
};
use crate::report::strings_view;
use crate::resource::{parse_usize, parsed_usize};
use crate::value::{
    find_field, lemma_nested_lookup_single, lookup, nested_lookup, not_found_text, step_not_a_map_text,
    u8_items, Value, ValueExt,
};

verus! {

/// The PNG data that the `image` crate writes for a grey image of the given size made from
/// `pixels` (one byte per pixel), or the text of its encoding error.
pub uninterp spec fn gray_png(width: u32, height: u32, pixels: Seq<u8>) -> core::result::Result<
    Seq<u8>,
    Seq<char>,
>;

/// The PNG data that the `image` crate writes for a colour image of the given size made from
/// `pixels` (three bytes per pixel, red first), or the text of its encoding error.
pub uninterp spec fn rgb_png(width: u32, height: u32, pixels: Seq<u8>) -> core::result::Result<
    Seq<u8>,
    Seq<char>,
>;

/// The PNG data that the `image` crate writes for the JPEG image `data`, or the text of the
/// error, marked `true` when decoding failed and `false` when encoding did.
pub uninterp spec fn jpeg_png(data: Seq<u8>) -> core::result::Result<Seq<u8>, (bool, Seq<char>)>;

/// `image::ImageBuffer::<Luma<u8>, Vec<u8>>::from_raw`, then `write_to` with
/// `ImageFormat::Png`: the buffer is made exactly when the pixels hold at least
/// `width * height` bytes, and what is written depends on the size and the pixels alone.
#[verifier::external_body]
fn gray_png_of(width: u32, height: u32, pixels: Vec<u8>) -> (r: Option<Result<Vec<u8>, String>>)
    ensures
        (r is Some) == (width as int * height as int <= pixels@.len()),
        r matches Some(x) ==> match gray_png(width, height, pixels@) {
            Ok(b) => x matches Ok(v) && v@ == b,
            Err(t) => x matches Err(m) && m@ == t,
        },
{
    let buf = image::ImageBuffer::<image::Luma<u8>, Vec<u8>>::from_raw(width, height, pixels)?;
    let mut out: Vec<u8> = Vec::new();
    let res = buf.write_to(&mut std::io::Cursor::new(&mut out), image::ImageFormat::Png);
    match res {
        Ok(()) => Some(Ok(out)),
        Err(e) => Some(Err(e.to_string())),
    }
}

/// `image::ImageBuffer::<Rgb<u8>, Vec<u8>>::from_raw`, then `write_to` with
/// `ImageFormat::Png`: the buffer is made exactly when the pixels hold at least
/// `3 * width * height` bytes, and what is written depends on the size and the pixels alone.
#[verifier::external_body]
fn rgb_png_of(width: u32, height: u32, pixels: Vec<u8>) -> (r: Option<Result<Vec<u8>, String>>)
    ensures
        (r is Some) == (3 * width as int * height as int <= pixels@.len()),
        r matches Some(x) ==> match rgb_png(width, height, pixels@) {
            Ok(b) => x matches Ok(v) && v@ == b,
            Err(t) => x matches Err(m) && m@ == t,
        },
{
    let buf = image::ImageBuffer::<image::Rgb<u8>, Vec<u8>>::from_raw(width, height, pixels)?;
    let mut out: Vec<u8> = Vec::new();
    let res = buf.write_to(&mut std::io::Cursor::new(&mut out), image::ImageFormat::Png);
    match res {
        Ok(()) => Some(Ok(out)),
        Err(e) => Some(Err(e.to_string())),
    }
}

/// `image::load` with `ImageFormat::Jpeg`, then `DynamicImage::write_to` with
/// `ImageFormat::Png`: what comes out depends on the data alone.
#[verifier::external_body]
fn jpeg_png_of(data: &[u8]) -> (r: Result<Vec<u8>, (bool, String)>)
    ensures
        match jpeg_png(data@) {
            Ok(b) => r matches Ok(v) && v@ == b,
            Err((decoding, t)) => r matches Err((d, m)) && d == decoding && m@ == t,
        },
{
    let img = image::load(std::io::Cursor::new(data), image::ImageFormat::Jpeg).map_err(
        |e| (true, e.to_string()),
    )?;
    let mut out: Vec<u8> = Vec::new();
    let res = img.write_to(&mut std::io::Cursor::new(&mut out), image::ImageFormat::Png);
    match res {
        Ok(()) => Ok(out),
        Err(e) => Err((false, e.to_string())),
    }
}

/// The outcome of making image data, as bytes or the text of the error.
pub open spec fn bytes_outcome(r: Result<Vec<u8>, String>) -> core::result::Result<
    Seq<u8>,
    Seq<char>,
> {
    match r {
        Ok(v) => Ok(v@),
        Err(m) => Err(m@),
    }
}

/// The bytes of the array field `name` of a message, when all its items are `u8`.
pub open spec fn u8_field(v: Value, name: Seq<char>) -> Option<Seq<u8>> {
    match v {
        Value::Message(fields) => match lookup(fields@, name) {
            Some(Value::Array(items)) => u8_items(items@),
            _ => None,
        },
        _ => None,
    }
}

/// The `u32` field `name` of a message.
pub open spec fn u32_field(v: Value, name: Seq<char>) -> Option<u32> {
    match v {
        Value::Message(fields) => match lookup(fields@, name) {
            Some(Value::U32(n)) => Some(n),
            _ => None,
        },
        _ => None,
    }
}

/// The string field `name` of a message.
pub open spec fn string_field(v: Value, name: Seq<char>) -> Option<Seq<char>> {
    match v {
        Value::Message(fields) => match lookup(fields@, name) {
            Some(Value::String(s)) => Some(s@),
            _ => None,
        },
        _ => None,
    }
}

/// The pixels of a `bgr8` image with the first and third byte of each of its first `count`
/// whole pixels swapped, and zero elsewhere.
pub open spec fn bgr_to_rgb(data: Seq<u8>, count: nat) -> Seq<u8> {
    Seq::new(
        data.len(),
        |j: int|
            {
                let base = (j / 3) * 3;
                if j / 3 < count && base + 2 < data.len() {
                    data[base + 2 - (j - base)]
                } else {
                    0u8
                }
            },
    )
}

/// The error texts of PNG encoding.
pub open spec fn encode_error(r: core::result::Result<Seq<u8>, Seq<char>>) -> core::result::Result<
    Seq<u8>,
    Seq<char>,
> {
    match r {
        Ok(b) => Ok(b),
        Err(t) => Err("Failed to encode PNG: "@ + t),
    }
}

/// The PNG data of a raw image of the given size and encoding, or the text of the error.
pub open spec fn raw_png(pixels: Seq<u8>, width: u32, height: u32, encoding: Seq<char>) -> core::result::Result<
    Seq<u8>,
    Seq<char>,
> {
    let count = width as int * height as int;
    if encoding == "mono8"@ {
        if count <= pixels.len() {
            encode_error(gray_png(width, height, pixels))
        } else {
            Err("Failed to create mono8 image buffer"@)
        }
    } else if encoding == "rgb8"@ {
        if 3 * count <= pixels.len() {
            encode_error(rgb_png(width, height, pixels))
        } else {
            Err("Failed to create rgb8 image buffer"@)
        }
    } else if encoding == "bgr8"@ {
        if 3 * count <= pixels.len() {
            encode_error(rgb_png(width, height, bgr_to_rgb(pixels, count as nat)))
        } else {
            Err("Failed to create bgr8 image buffer"@)
        }
    } else {
        Err("Unsupported encoding: "@ + encoding)
    }
}

/// The image of a `sensor_msgs/Image`-like message: `data`, `width`, `height` and `encoding`.
pub open spec fn standard_image(v: Value) -> core::result::Result<Seq<u8>, Seq<char>> {
    match u8_field(v, "data"@) {
        None => Err("No 'data' field"@),
        Some(pixels) => match u32_field(v, "width"@) {
            None => Err("No 'width' field"@),
            Some(w) => match u32_field(v, "height"@) {
                None => Err("No 'height' field"@),
                Some(h) => match string_field(v, "encoding"@) {
                    None => Err("No 'encoding' field"@),
                    Some(enc) => raw_png(pixels, w, h, enc),
                },
            },
        },
    }
}

/// The PNG data of compressed data of the named format (`jpeg`, `jpg` or `png`), or the text
/// of the error.
pub open spec fn converted_png(data: Seq<u8>, format: Seq<char>) -> core::result::Result<
    Seq<u8>,
    Seq<char>,
> {
    if format == "jpeg"@ || format == "jpg"@ {
        match jpeg_png(data) {
            Ok(b) => Ok(b),
            Err((true, t)) => Err("Failed to decode "@ + format + ": "@ + t),
            Err((false, t)) => Err("Failed to encode PNG: "@ + t),
        }
    } else if format == "png"@ {
        Ok(data)
    } else {
        Err("Unsupported format: "@ + format)
    }
}

/// The kinds of data that the `format` of a compressed image names.
pub enum CompressedFormat {
    Jpeg,
    Png,
    Other,
}

/// The kind of data that a `format` names: JPEG when its lowercase holds `jpeg` or `jpg`,
/// else PNG when it holds `png`.
pub open spec fn compressed_format(format: Seq<char>) -> CompressedFormat {
    let lower = lower_of(format);
    if contains(lower, "jpeg"@) || contains(lower, "jpg"@) {
        CompressedFormat::Jpeg
    } else if contains(lower, "png"@) {
        CompressedFormat::Png
    } else {
        CompressedFormat::Other
    }
}

/// The kind of data that an ASCII `format` names does not depend on the case of its letters:
/// `JPEG`, `Jpeg` and `jpeg` name the same.
pub proof fn lemma_compressed_format_ignores_case(f: Seq<char>, g: Seq<char>)
    requires
        all_ascii(f),
        all_ascii(g),
        ascii_lower(f) == ascii_lower(g),
    ensures
        compressed_format(f) == compressed_format(g),
{
    lemma_lower_ignores_ascii_case(f, g);
}

/// The image of a compressed-image-like message, whose `format` names JPEG or PNG data in
/// `data`; PNG data is given as it is.
pub open spec fn compressed_image(v: Value) -> core::result::Result<Seq<u8>, Seq<char>> {
    match string_field(v, "format"@) {
        None => Err("No 'format' field"@),
        Some(format) => match u8_field(v, "data"@) {
            None => Err("No 'data' field"@),
            Some(data) => match compressed_format(format) {
                CompressedFormat::Jpeg => converted_png(data, "jpeg"@),
                CompressedFormat::Png => Ok(data),
                CompressedFormat::Other => Err("Unsupported compressed format: "@ + format),
            },
        },
    }
}

/// The image found in `v`, first as a compressed image, then as a raw one.
pub open spec fn either_image(v: Value) -> Option<Seq<u8>> {
    match compressed_image(v) {
        Ok(b) => Some(b),
        Err(_) => match standard_image(v) {
            Ok(b) => Some(b),
            Err(_) => None,
        },
    }
}

/// The field names under which images are looked for.
pub open spec fn image_field_names() -> Seq<Seq<char>> {
    seq!["image_chip"@, "image"@, "compressed_image"@, "visual_metadata"@]
}

/// The image found under the field `name`: in the field itself, or in the first item of a
/// non-empty array in it.
pub open spec fn nested_found(v: Value, name: Seq<char>) -> Option<Seq<u8>> {
    match nested_lookup(v, seq![name]) {
        Ok(Value::Array(items)) => if items@.len() > 0 {
            either_image(items@[0])
        } else {
            None
        },
        Ok(n) => either_image(n),
        Err(_) => None,
    }
}

/// An array in an image field is read through its first item alone: two messages whose
/// field `name` holds arrays with the same first item find the same image there, whatever
/// follows that item; and the image found is the one that the field would give if it held
/// that first item itself (when the item is no array).
pub proof fn lemma_nested_array_first_item(
    f1: Vec<(String, Value)>,
    f2: Vec<(String, Value)>,
    f3: Vec<(String, Value)>,
    name: Seq<char>,
    a: Vec<Value>,
    b: Vec<Value>,
)
    requires
        lookup(f1@, name) == Some(Value::Array(a)),
        lookup(f2@, name) == Some(Value::Array(b)),
        a@.len() > 0,
        b@.len() > 0,
        a@[0] == b@[0],
        lookup(f3@, name) == Some(a@[0]),
        !(a@[0] is Array),
    ensures
        nested_found(Value::Message(f1), name) == nested_found(Value::Message(f2), name),
        nested_found(Value::Message(f1), name) == nested_found(Value::Message(f3), name),
        nested_found(Value::Message(f1), name) == either_image(a@[0]),
{
    lemma_nested_lookup_single(Value::Message(f1), name);
    lemma_nested_lookup_single(Value::Message(f2), name);
    lemma_nested_lookup_single(Value::Message(f3), name);
}

/// The image under the first of `names` that holds one.
pub open spec fn nested_image_from(v: Value, names: Seq<Seq<char>>) -> core::result::Result<
    Seq<u8>,
    Seq<char>,
>
    decreases names.len(),
{
    if names.len() == 0 {
        Err("No nested image data found"@)
    } else {
        match nested_found(v, names[0]) {
            Some(b) => Ok(b),
            None => nested_image_from(v, names.drop_first()),
        }
    }
}

/// The image of a message: a raw image, a compressed image, or one nested in a field.
pub open spec fn message_image(v: Value, msg_type: Seq<char>) -> core::result::Result<
    Seq<u8>,
    Seq<char>,
> {
    match standard_image(v) {
        Ok(b) => Ok(b),
        Err(_) => match compressed_image(v) {
            Ok(b) => Ok(b),
            Err(_) => match nested_image_from(v, image_field_names()) {
                Ok(b) => Ok(b),
                Err(_) => Err("No image data found in message of type: "@ + msg_type),
            },
        },
    }
}

/// The pixels of a `bgr8` image with the first `i` whole pixels turned into `rgb8` order.
spec fn bgr_prefix(data: Seq<u8>, i: int) -> Seq<u8> {
    Seq::new(
        data.len(),
        |j: int|
            {
                let base = (j / 3) * 3;
                if j / 3 < i {
                    data[base + 2 - (j - base)]
                } else {
                    0u8
                }
            },
    )
}

/// Turns the first `count` whole pixels of a `bgr8` image into `rgb8` order; the rest is zero.
fn swap_bgr(data: &Vec<u8>, count: u64) -> (r: Vec<u8>)
    ensures
        r@ == bgr_to_rgb(data@, count as nat),
{
    let n = data.len();
    let mut out: Vec<u8> = Vec::new();
    let mut k: usize = 0;
    while k < n
        invariant
            k <= n == data@.len(),
            out@ == Seq::new(k as nat, |_j: int| 0u8),
        decreases n - k,
    {
        out.push(0);
        assert(out@ =~= Seq::new((k + 1) as nat, |_j: int| 0u8));
        k = k + 1;
    }
    assert(out@ =~= bgr_prefix(data@, 0));
    let whole = n / 3;
    let mut i: usize = 0;
    while i < whole && (i as u64) < count
        invariant
            n == data@.len(),
            whole == n / 3,
            i <= whole,
            i <= count,
            out@ == bgr_prefix(data@, i as int),
        decreases whole - i,
    {
        let base = 3 * i;
        let ghost before = out@;
        out.set(base, data[base + 2]);
        out.set(base + 1, data[base + 1]);
        out.set(base + 2, data[base]);
        assert(out@ =~= bgr_prefix(data@, i + 1)) by {
            assert forall|j: int| 0 <= j < n implies #[trigger] out@[j] == bgr_prefix(data@, i + 1)[j] by {
                if j / 3 == i as int {
                    assert(base <= j < base + 3);
                } else {
                    assert(j < base || j >= base + 3);
                }
            }
        }
        i = i + 1;
    }
    assert(out@ =~= bgr_to_rgb(data@, count as nat)) by {
        assert forall|j: int| 0 <= j < n implies #[trigger] out@[j] == bgr_to_rgb(data@, count as nat)[j] by {
            if j / 3 < i as int {
                assert((j / 3) * 3 + 2 < n);
            }
        }
    }
    out
}

/// The outcome of PNG encoding, with the error text of the `image` crate after a prefix.
fn encoded(r: Result<Vec<u8>, String>) -> (o: Result<Vec<u8>, String>)
    ensures
        bytes_outcome(o) == encode_error(bytes_outcome(r)),
{
    match r {
        Ok(b) => Ok(b),
        Err(e) => Err(concat2("Failed to encode PNG: ", e.as_str())),
    }
}

/// Converts raw image data (`mono8`, `rgb8` or `bgr8`) of the given size to PNG data.
fn create_png_from_raw_image(data: Vec<u8>, width: u32, height: u32, encoding: &str) -> (r: Result<
    Vec<u8>,
    String,
>)
    ensures
        bytes_outcome(r) == raw_png(data@, width, height, encoding@),
{
    assert(3 * width as int * height as int == 3 * (width as int * height as int)) by (nonlinear_arith);
    if crate::text::str_eq(encoding, "mono8") {
        match gray_png_of(width, height, data) {
            Some(x) => encoded(x),
            None => Err(String::from_str("Failed to create mono8 image buffer")),
        }
    } else if crate::text::str_eq(encoding, "rgb8") {
        match rgb_png_of(width, height, data) {
            Some(x) => encoded(x),
            None => Err(String::from_str("Failed to create rgb8 image buffer")),
        }
    } else if crate::text::str_eq(encoding, "bgr8") {
        assert(width as u64 * height as u64 <= u64::MAX) by (nonlinear_arith);
        let count = width as u64 * height as u64;
        let rgb = swap_bgr(&data, count);
        match rgb_png_of(width, height, rgb) {
            Some(x) => encoded(x),
            None => Err(String::from_str("Failed to create bgr8 image buffer")),
        }
    } else {
        Err(concat2("Unsupported encoding: ", encoding))
    }
}

/// Converts compressed image data of the named format to PNG data.
fn convert_compressed_to_png(data: Vec<u8>, format: &str) -> (r: Result<Vec<u8>, String>)
    ensures
        bytes_outcome(r) == converted_png(data@, format@),
{
    if crate::text::str_eq(format, "jpeg") || crate::text::str_eq(format, "jpg") {
        match jpeg_png_of(data.as_slice()) {
            Ok(b) => Ok(b),
            Err((true, e)) => {
                let mut m = concat3("Failed to decode ", format, ": ");
                m.append(e.as_str());
                Err(m)
            },
            Err((false, e)) => Err(concat2("Failed to encode PNG: ", e.as_str())),
        }
    } else if crate::text::str_eq(format, "png") {
        Ok(data)
    } else {
        Err(concat2("Unsupported format: ", format))
    }
}

/// Reads a raw image from the `data`, `width`, `height` and `encoding` fields.
fn try_extract_standard_image(data: &Value) -> (r: Result<Vec<u8>, String>)
    ensures
        bytes_outcome(r) == standard_image(*data),
{
    let pixels = match data.get_u8_array("data") {
        Ok(p) => p,
        Err(_) => {
            return Err(String::from_str("No 'data' field"));
        },
    };
    let width = match data.get::<u32>("width") {
        Ok(w) => w,
        Err(_) => {
            return Err(String::from_str("No 'width' field"));
        },
    };
    let height = match data.get::<u32>("height") {
        Ok(h) => h,
        Err(_) => {
            return Err(String::from_str("No 'height' field"));
        },
    };
    let encoding = match data.get::<String>("encoding") {
        Ok(e) => e,
        Err(_) => {
            return Err(String::from_str("No 'encoding' field"));
        },
    };
    create_png_from_raw_image(pixels, width, height, encoding.as_str())
}

/// Reads a compressed image from the `format` and `data` fields.
fn try_extract_compressed_image(data: &Value) -> (r: Result<Vec<u8>, String>)
    ensures
        bytes_outcome(r) == compressed_image(*data),
{
    let format = match data.get::<String>("format") {
        Ok(f) => f,
        Err(_) => {
            return Err(String::from_str("No 'format' field"));
        },
    };
    let image_data = match data.get_u8_array("data") {
        Ok(d) => d,
        Err(_) => {
            return Err(String::from_str("No 'data' field"));
        },
    };
    let lower = to_lower(format.as_str());
    proof {
        reveal_strlit("jpeg");
        reveal_strlit("jpg");
        reveal_strlit("png");
    }
    if contains_text(lower.as_str(), "jpeg") || contains_text(lower.as_str(), "jpg") {
        convert_compressed_to_png(image_data, "jpeg")
    } else if contains_text(lower.as_str(), "png") {
        Ok(image_data)
    } else {
        Err(concat2("Unsupported compressed format: ", format.as_str()))
    }
}

/// The image in `data`, first as a compressed image, then as a raw one.
fn try_either_image(data: &Value) -> (r: Option<Vec<u8>>)
    ensures
        match r {
            Some(b) => either_image(*data) == Some(b@),
            None => either_image(*data) is None,
        },
{
    match try_extract_compressed_image(data) {
        Ok(b) => Some(b),
        Err(_) => match try_extract_standard_image(data) {
            Ok(b) => Some(b),
            Err(_) => None,
        },
    }
}

/// The image under the field `name` of `data`.
fn try_nested_field(data: &Value, name: &str) -> (r: Option<Vec<u8>>)
    ensures
        match r {
            Some(b) => nested_found(*data, name@) == Some(b@),
            None => nested_found(*data, name@) is None,
        },
{
    let path: [&str; 1] = [name];
    assert(crate::value::strs_view(path@) =~= seq![name@]);
    match data.get_nested_value(&path) {
        Ok(nested) => match nested {
            Value::Array(items) => {
                if items.len() > 0 {
                    try_either_image(&items[0])
                } else {
                    None
                }
            },
            _ => try_either_image(nested),
        },
        Err(_) => None,
    }
}

/// Looks for an image nested under the well-known image field names.
fn try_extract_nested_image(data: &Value) -> (r: Result<Vec<u8>, String>)
    ensures
        bytes_outcome(r) == nested_image_from(*data, image_field_names()),
{
    let ghost names = image_field_names();
    proof {
        reveal_with_fuel(nested_image_from, 5);
        assert(names.drop_first() =~= seq!["image"@, "compressed_image"@, "visual_metadata"@]);
        assert(names.drop_first().drop_first() =~= seq!["compressed_image"@, "visual_metadata"@]);
        assert(names.drop_first().drop_first().drop_first() =~= seq!["visual_metadata"@]);
        assert(names.drop_first().drop_first().drop_first().drop_first() =~= Seq::<Seq<char>>::empty());
    }
    if let Some(b) = try_nested_field(data, "image_chip") {
        return Ok(b);
    }
    if let Some(b) = try_nested_field(data, "image") {
        return Ok(b);
    }
    if let Some(b) = try_nested_field(data, "compressed_image") {
        return Ok(b);
    }
    if let Some(b) = try_nested_field(data, "visual_metadata") {
        return Ok(b);
    }
    Err(String::from_str("No nested image data found"))
}

/// Turns the image carried by a message into PNG data: a raw image (`sensor_msgs/Image`), a
/// compressed image (`format` and `data`), or an image nested under a well-known field.
pub fn extract_image_from_message(msg: &MessageLog) -> (r: Result<Vec<u8>, String>)
    ensures
        bytes_outcome(r) == message_image(msg.data, path_text(path_view(msg.msg_path))),
{
    if let Ok(b) = try_extract_standard_image(&msg.data) {
        return Ok(b);
    }
    if let Ok(b) = try_extract_compressed_image(&msg.data) {
        return Ok(b);
    }
    if let Ok(b) = try_extract_nested_image(&msg.data) {
        return Ok(b);
    }
    Err(concat2("No image data found in message of type: ", msg.msg_path.to_text().as_str()))
}

/// Turning the channels of whole pixels around twice gives back the pixels: the `bgr8` to
/// `rgb8` conversion is its own inverse on an image made of whole pixels.
pub proof fn lemma_bgr_to_rgb_twice(data: Seq<u8>, count: nat)
    requires
        data.len() == 3 * count,
    ensures
        bgr_to_rgb(bgr_to_rgb(data, count), count) == data,
{
    let once = bgr_to_rgb(data, count);
    assert forall|j: int| 0 <= j < data.len() implies #[trigger] bgr_to_rgb(once, count)[j]
        == data[j] by {
        let base = (j / 3) * 3;
        let k = base + 2 - (j - base);
        assert(k / 3 == j / 3);
        assert(j / 3 < count);
    }
    assert(bgr_to_rgb(once, count) =~= data);
}

/// Turning `bgr8` pixels into `rgb8` order swaps the first and third byte of every pixel and
/// keeps the middle one.
pub proof fn lemma_bgr_channels(data: Seq<u8>, count: nat, i: int)
    requires
        0 <= i < count,
        3 * count <= data.len(),
    ensures
        bgr_to_rgb(data, count)[3 * i] == data[3 * i + 2],
        bgr_to_rgb(data, count)[3 * i + 1] == data[3 * i + 1],
        bgr_to_rgb(data, count)[3 * i + 2] == data[3 * i],
{
    assert((3 * i) / 3 == i && (3 * i + 1) / 3 == i && (3 * i + 2) / 3 == i) by (nonlinear_arith);
    assert(3 * i + 2 < 3 * count) by (nonlinear_arith)
        requires
            i < count,
    ;
}

/// What following `path` from `v` reaches: a message goes to its field of that name, an array
/// to its item at that index; or the text of the error met on the way.
pub open spec fn image_path_target(v: Value, path: Seq<Seq<char>>) -> core::result::Result<
    Value,
    Seq<char>,
>
    decreases path.len(),
{
    if path.len() == 0 {
        Ok(v)
    } else {
        let step = path[0];
        match v {
            Value::Message(fields) => match lookup(fields@, step) {
                Some(child) => image_path_target(child, path.drop_first()),
                None => Err(not_found_text(step)),
            },
            Value::Array(items) => match parsed_usize(step) {
                Some(i) => if i < items@.len() {
                    image_path_target(items@[i as int], path.drop_first())
                } else {
                    Err(no_item_text(step))
                },
                None => Err(no_item_text(step)),
            },
            _ => Err(step_not_a_map_text(step)),
        }
    }
}

/// The text of the error for a path step that names no item of an array.
pub open spec fn no_item_text(step: Seq<char>) -> Seq<char> {
    "No item '"@ + step + "' in array"@
}

/// The image at the end of a path into a message's data.
pub open spec fn image_at_path(v: Value, path: Seq<Seq<char>>, msg_type: Seq<char>) -> core::result::Result<
    Seq<u8>,
    Seq<char>,
> {
    match image_path_target(v, path) {
        Ok(target) => message_image(target, msg_type),
        Err(t) => Err(t),
    }
}

/// Turns the image at the end of `path` into PNG data: the path names fields of messages and
/// indices of arrays (such as `visual_metadata`, `0`, `image_chip`, `0`); what it reaches is
/// read as `extract_image_from_message` reads a message's data.
pub fn extract_image_at_path(msg: &MessageLog, path: &Vec<String>) -> (r: Result<Vec<u8>, String>)
    ensures
        bytes_outcome(r) == image_at_path(
            msg.data,
            strings_view(path@),
            path_text(path_view(msg.msg_path)),
        ),
{
    let ghost pv = strings_view(path@);
    let mut current: &Value = &msg.data;
    let n = path.len();
    let mut i: usize = 0;
    assert(pv.skip(0) =~= pv);
    while i < n
        invariant
            n == path@.len(),
            0 <= i <= n,
            pv == strings_view(path@),
            image_path_target(msg.data, pv) == image_path_target(*current, pv.skip(i as int)),
        decreases n - i,
    {
        let step = path[i].as_str();
        assert(pv.skip(i as int)[0] == step@);
        assert(pv.skip(i as int).drop_first() =~= pv.skip(i + 1));
        match current {
            Value::Message(fields) => {
                current = match find_field(fields, step) {
                    Some(v) => v,
                    None => {
                        return Err(concat3("Field '", step, "' not found"));
                    },
                };
            },
            Value::Array(items) => {
                match parse_usize(step) {
                    Some(k) => {
                        if k < items.len() {
                            current = &items[k];
                        } else {
                            return Err(concat3("No item '", step, "' in array"));
                        }
                    },
                    None => {
                        return Err(concat3("No item '", step, "' in array"));
                    },
                }
            },
            _ => {
                return Err(concat3("Field '", step, "' is not a map"));
            },
        }
        i = i + 1;
    }
    assert(pv.skip(n as int).len() == 0);
    let target = current;
    if let Ok(b) = try_extract_standard_image(target) {
        return Ok(b);
    }
    if let Ok(b) = try_extract_compressed_image(target) {
        return Ok(b);
    }
    if let Ok(b) = try_extract_nested_image(target) {
        return Ok(b);
    }
    Err(concat2("No image data found in message of type: ", msg.msg_path.to_text().as_str()))
}

/// With an empty path, the image is read from the message's data itself, as
/// `extract_image_from_message` reads it.
pub proof fn lemma_empty_image_path(v: Value, msg_type: Seq<char>)
    ensures
        image_at_path(v, Seq::empty(), msg_type) == message_image(v, msg_type),
{
}

/// The base64 digit of a number below 64, in the standard alphabet: `A`-`Z`, `a`-`z`, `0`-`9`,
/// `+`, `/`.
pub open spec fn b64_digit(n: int) -> char {
    if n < 26 {
        (('A' as int) + n) as char
    } else if n < 52 {
        (('a' as int) + n - 26) as char
    } else if n < 62 {
        (('0' as int) + n - 52) as char
    } else if n == 62 {
        '+'
    } else {
        '/'
    }
}

/// The standard base64 text of bytes (RFC 4648, with `=` padding): each group of three bytes
/// gives four digits of six bits each, most significant first; a last group of one or two
/// bytes is filled with zero bits and padded to four characters with `=`.
pub open spec fn base64_text(b: Seq<u8>) -> Seq<char>
    decreases b.len(),
{
    if b.len() == 0 {
        Seq::empty()
    } else if b.len() == 1 {
        seq![b64_digit(b[0] as int / 4), b64_digit((b[0] as int % 4) * 16), '=', '=']
    } else if b.len() == 2 {
        seq![
            b64_digit(b[0] as int / 4),
            b64_digit((b[0] as int % 4) * 16 + b[1] as int / 16),
            b64_digit((b[1] as int % 16) * 4),
            '=',
        ]
    } else {
        seq![
            b64_digit(b[0] as int / 4),
            b64_digit((b[0] as int % 4) * 16 + b[1] as int / 16),
            b64_digit((b[1] as int % 16) * 4 + b[2] as int / 64),
            b64_digit(b[2] as int % 64),
        ] + base64_text(b.skip(3))
    }
}

/// Whether the base64 text of `n` bytes has a length that fits in `usize` (four characters
/// for every started group of three bytes).
pub open spec fn base64_fits(n: nat) -> bool {
    (n + 2) / 3 * 4 <= usize::MAX
}

/// `base64::Engine::encode` with the `STANDARD` engine (standard alphabet, padding): the
/// standard base64 text of the bytes. It stops the program when the length of the text does
/// not fit in `usize`; the `requires` leaves that out.
#[verifier::external_body]
fn base64_standard(bytes: &[u8]) -> (r: String)
    requires
        base64_fits(bytes@.len()),
    ensures
        r@ == base64_text(bytes@),
{
    base64::Engine::encode(&base64::engine::general_purpose::STANDARD, bytes)
}

/// The base64 text in which the bag server hands out PNG data of an image.
pub fn png_base64(png: &Vec<u8>) -> (r: String)
    requires
        base64_fits(png@.len()),
    ensures
        r@ == base64_text(png@),
{
    base64_standard(png.as_slice())
}

} // verus!
