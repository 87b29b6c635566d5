use base64::Engine;
use session::image_data::{bytes_to_data_uri, sniff_mime};

const PNG_BYTES: &[u8] = &[
    0x89, 0x50, 0x4E, 0x47, 0x0D, 0x0A, 0x1A, 0x0A, 0x00, 0x00, 0x00, 0x0D, 0x49, 0x48, 0x44, 0x52,
];
const JPEG_BYTES: &[u8] = &[0xFF, 0xD8, 0xFF, 0xE0, 0x00, 0x10];
const GIF_BYTES: &[u8] = b"GIF89a";
const WEBP_BYTES: &[u8] = &[b'R', b'I', b'F', b'F', 0, 0, 0, 0, b'W', b'E', b'B', b'P'];
const BMP_BYTES: &[u8] = b"BM";

#[test]
fn sniff_mime_recognizes_png() {
    assert_eq!(sniff_mime(PNG_BYTES), "image/png");
}

#[test]
fn sniff_mime_recognizes_jpeg() {
    assert_eq!(sniff_mime(JPEG_BYTES), "image/jpeg");
}

#[test]
fn sniff_mime_recognizes_gif() {
    assert_eq!(sniff_mime(GIF_BYTES), "image/gif");
}

#[test]
fn sniff_mime_recognizes_webp() {
    assert_eq!(sniff_mime(WEBP_BYTES), "image/webp");
}

#[test]
fn sniff_mime_recognizes_bmp() {
    assert_eq!(sniff_mime(BMP_BYTES), "image/bmp");
}

#[test]
fn sniff_mime_defaults_unknown_to_png() {
    assert_eq!(sniff_mime(b"not an image at all"), "image/png");
    assert_eq!(sniff_mime(&[]), "image/png");
}

#[test]
fn sniff_mime_needs_the_whole_webp_header() {
    assert_eq!(sniff_mime(b"RIFF0000WEB"), "image/png");
    assert_eq!(sniff_mime(b"GIF87a"), "image/gif");
}

#[test]
fn bytes_to_data_uri_produces_png_uri() {
    let uri = bytes_to_data_uri(PNG_BYTES);
    assert!(uri.starts_with("data:image/png;base64,"), "expected png data uri, got: {uri}");
    let b64 = &uri["data:image/png;base64,".len()..];
    let decoded = base64::engine::general_purpose::STANDARD
        .decode(b64)
        .expect("data uri body must be base64");
    assert_eq!(decoded, PNG_BYTES);
}

#[test]
fn bytes_to_data_uri_produces_jpeg_uri() {
    let uri = bytes_to_data_uri(JPEG_BYTES);
    assert!(uri.starts_with("data:image/jpeg;base64,"), "expected jpeg data uri, got: {uri}");
}

#[test]
fn data_uri_body_is_standard_padded_base64() {
    assert_eq!(bytes_to_data_uri(b"BMx"), "data:image/bmp;base64,Qk14");
    assert_eq!(bytes_to_data_uri(b"a"), "data:image/png;base64,YQ==");
}

#[test]
fn data_uri_body_is_padded_standard_base64() {
    assert!(bytes_to_data_uri(b"Man").ends_with(";base64,TWFu"));
    assert!(bytes_to_data_uri(b"Ma").ends_with(";base64,TWE="));
    assert!(bytes_to_data_uri(b"M").ends_with(";base64,TQ=="));
    assert!(bytes_to_data_uri(&[0xFB, 0xFF]).ends_with(";base64,+/8="));
}
