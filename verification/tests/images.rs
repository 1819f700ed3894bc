use rosbag_msgs::definition::MessagePath;
use rosbag_msgs::image::{extract_image_at_path, extract_image_from_message, png_base64};
use rosbag_msgs::processor::MessageLog;
use rosbag_msgs::value::Value;

fn bytes(v: &[u8]) -> Value {
    Value::Array(v.iter().map(|b| Value::U8(*b)).collect())
}

fn log(data: Value) -> MessageLog {
    MessageLog {
        time: 0,
        topic: "/camera".to_string(),
        msg_path: MessagePath::parse("sensor_msgs/Image").unwrap(),
        data,
    }
}

fn raw(width: u32, height: u32, encoding: &str, pixels: &[u8]) -> Value {
    Value::Message(vec![
        ("height".to_string(), Value::U32(height)),
        ("width".to_string(), Value::U32(width)),
        ("encoding".to_string(), Value::String(encoding.to_string())),
        ("data".to_string(), bytes(pixels)),
    ])
}

fn compressed(format: &str, data: &[u8]) -> Value {
    Value::Message(vec![
        ("format".to_string(), Value::String(format.to_string())),
        ("data".to_string(), bytes(data)),
    ])
}

#[test]
fn mono8_becomes_png() {
    let png = extract_image_from_message(&log(raw(2, 2, "mono8", &[0, 50, 100, 200]))).unwrap();
    let img = image::load_from_memory(&png).unwrap().to_luma8();
    assert_eq!(img.dimensions(), (2, 2));
    assert_eq!(img.into_raw(), vec![0, 50, 100, 200]);
}

#[test]
fn rgb8_and_bgr8_become_png() {
    let rgb = extract_image_from_message(&log(raw(2, 1, "rgb8", &[1, 2, 3, 4, 5, 6]))).unwrap();
    assert_eq!(image::load_from_memory(&rgb).unwrap().to_rgb8().into_raw(), vec![1, 2, 3, 4, 5, 6]);
    let bgr = extract_image_from_message(&log(raw(2, 1, "bgr8", &[1, 2, 3, 4, 5, 6]))).unwrap();
    assert_eq!(image::load_from_memory(&bgr).unwrap().to_rgb8().into_raw(), vec![3, 2, 1, 6, 5, 4]);
}

#[test]
fn too_few_pixels_and_unknown_encodings_fail() {
    let short = extract_image_from_message(&log(raw(2, 2, "rgb8", &[1, 2, 3]))).unwrap_err();
    assert_eq!(short, "No image data found in message of type: sensor_msgs/Image");
    let err = extract_image_from_message(&log(Value::U8(1))).unwrap_err();
    assert_eq!(err, "No image data found in message of type: sensor_msgs/Image");
}

#[test]
fn png_data_is_given_as_it_is() {
    let data = vec![137u8, 80, 78, 71, 1, 2, 3];
    assert_eq!(extract_image_from_message(&log(compressed("PNG", &data))).unwrap(), data);
}

#[test]
fn jpeg_data_is_converted() {
    let mut jpeg = Vec::new();
    let img = image::RgbImage::from_pixel(3, 2, image::Rgb([10, 200, 30]));
    image::DynamicImage::ImageRgb8(img)
        .write_to(&mut std::io::Cursor::new(&mut jpeg), image::ImageFormat::Jpeg)
        .unwrap();
    let png = extract_image_from_message(&log(compressed("rgb8; jpeg compressed bgr8", &jpeg))).unwrap();
    let back = image::load_from_memory_with_format(&png, image::ImageFormat::Png).unwrap();
    assert_eq!((back.width(), back.height()), (3, 2));
    let bad = extract_image_from_message(&log(compressed("jpg", &[1, 2, 3])));
    assert!(bad.is_err());
}

#[test]
fn nested_images_are_found() {
    let data = vec![137u8, 80, 78, 71];
    let v = Value::Message(vec![(
        "image_chip".to_string(),
        Value::Array(vec![compressed("png", &data)]),
    )]);
    assert_eq!(extract_image_from_message(&log(v)).unwrap(), data);
    let w = Value::Message(vec![("image".to_string(), raw(1, 1, "mono8", &[9]))]);
    let png = extract_image_from_message(&log(w)).unwrap();
    assert_eq!(image::load_from_memory(&png).unwrap().to_luma8().into_raw(), vec![9]);
}

#[test]
fn image_paths_follow_fields_and_indices() {
    let data = vec![137u8, 80, 78, 71, 9];
    let chip = Value::Message(vec![(
        "image_chip".to_string(),
        Value::Array(vec![compressed("png", &data)]),
    )]);
    let v = Value::Message(vec![("visual_metadata".to_string(), Value::Array(vec![chip]))]);
    let msg = log(v);
    let path: Vec<String> = ["visual_metadata", "0", "image_chip", "0"].iter().map(|s| s.to_string()).collect();
    assert_eq!(extract_image_at_path(&msg, &path).unwrap(), data);
    assert_eq!(
        extract_image_at_path(&msg, &vec!["visual_metadata".to_string(), "1".to_string()]).unwrap_err(),
        "No item '1' in array"
    );
    assert_eq!(
        extract_image_at_path(&msg, &vec!["nothing".to_string()]).unwrap_err(),
        "Field 'nothing' not found"
    );
    assert_eq!(extract_image_at_path(&msg, &vec![]), extract_image_from_message(&msg));
}

#[test]
fn empty_images_do_not_stop_the_program() {
    let r = extract_image_from_message(&log(raw(0, 0, "mono8", &[])));
    match r {
        Ok(png) => assert!(!png.is_empty()),
        Err(e) => assert_eq!(e, "No image data found in message of type: sensor_msgs/Image"),
    }
}

#[test]
fn png_data_goes_out_as_standard_base64() {
    assert_eq!(png_base64(&b"".to_vec()), "");
    assert_eq!(png_base64(&b"M".to_vec()), "TQ==");
    assert_eq!(png_base64(&b"Ma".to_vec()), "TWE=");
    assert_eq!(png_base64(&b"Man".to_vec()), "TWFu");
    assert_eq!(png_base64(&vec![0xfb, 0xff, 0xbf, 0x00]), "+/+/AA==");
    assert_eq!(png_base64(&vec![137, 80, 78, 71, 13, 10, 26, 10]), "iVBORw0KGgo=");
}
