use pi_web::image::{
    get_base64_decoded_byte_length, is_base64_image_within_limits,
    is_base64_image_within_limits_value, validate_agent_images, ImageValue, ImagesValue,
};

fn image(kind: &str, data: &str, mime: &str) -> ImageValue {
    ImageValue {
        type_field: Some(kind.to_string()),
        data: Some(data.to_string()),
        mime_type: Some(mime.to_string()),
    }
}

#[test]
fn decoded_length() {
    assert_eq!(get_base64_decoded_byte_length("SGVsbG8="), Some(5));
    assert_eq!(get_base64_decoded_byte_length("SGk="), Some(2));
    assert_eq!(get_base64_decoded_byte_length("invalid!!"), None);
    assert_eq!(get_base64_decoded_byte_length(""), None);
}

#[test]
fn decoded_length_padding_rules() {
    assert_eq!(get_base64_decoded_byte_length("AAAA"), Some(3));
    assert_eq!(get_base64_decoded_byte_length("AA=="), Some(1));
    assert_eq!(get_base64_decoded_byte_length("A==="), None);
    assert_eq!(get_base64_decoded_byte_length("AAé="), None);
    assert_eq!(get_base64_decoded_byte_length("A=AA"), None);
}

#[test]
fn within_limits() {
    assert!(is_base64_image_within_limits("SGVsbG8=", "image/png"));
    assert!(!is_base64_image_within_limits("SGVsbG8=", "text/plain"));
}

#[test]
fn within_limits_value() {
    assert!(is_base64_image_within_limits_value(&image("image", "SGVsbG8=", "image/png")));
    let no_data = ImageValue {
        type_field: Some("image".to_string()),
        data: None,
        mime_type: Some("image/png".to_string()),
    };
    assert!(!is_base64_image_within_limits_value(&no_data));
}

#[test]
fn validate_agent_images_rules() {
    assert_eq!(validate_agent_images(&ImagesValue::Absent), None);
    assert_eq!(
        validate_agent_images(&ImagesValue::NotArray),
        Some("images must be an array".to_string())
    );
    assert_eq!(validate_agent_images(&ImagesValue::Array(vec![])), None);
    let ok = ImagesValue::Array(vec![image("image", "SGVsbG8=", "image/png")]);
    assert_eq!(validate_agent_images(&ok), None);
    let bad_type = ImagesValue::Array(vec![image("text", "SGVsbG8=", "image/png")]);
    assert_eq!(
        validate_agent_images(&bad_type),
        Some("Each attachment must be an image".to_string())
    );
    let too_many = ImagesValue::Array(
        (0..11).map(|_| image("image", "SGVsbG8=", "image/png")).collect(),
    );
    assert_eq!(
        validate_agent_images(&too_many).as_deref(),
        Some("A message can include at most 10 images")
    );
    let bad_mime = ImagesValue::Array(vec![image("image", "SGVsbG8=", "text/plain")]);
    assert!(validate_agent_images(&bad_mime)
        .as_deref()
        .unwrap_or("")
        .contains("valid base64 image data"));
}
