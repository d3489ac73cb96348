use http_codec::content_type::{ContentType, FontType, ImageType};
use http_codec::error::HTTPError;

#[test]
fn every_supported_string_round_trips() {
    let supported = [
        "image/png",
        "image/svg+xml",
        "image/x-icon",
        "font/collection",
        "font/otf",
        "font/sfnt",
        "font/ttf",
        "font/woff",
        "font/woff2",
        "text/css",
        "text/javascript",
        "text/html",
        "text/plain",
        "application/octet-stream",
        "application/wasm",
        "text/wgsl",
    ];
    for s in supported.iter() {
        let ct = ContentType::from_mime(s).unwrap();
        assert_eq!(ct.as_str(), *s);
    }
}

#[test]
fn parsing_picks_the_right_variant() {
    assert!(matches!(
        ContentType::from_mime("image/png"),
        Ok(ContentType::Image(ImageType::Png))
    ));
    assert!(matches!(
        ContentType::from_mime("font/woff2"),
        Ok(ContentType::Font(FontType::Woff2))
    ));
    assert!(matches!(ContentType::from_mime("text/html"), Ok(ContentType::Html)));
    assert!(matches!(ContentType::from_mime("application/wasm"), Ok(ContentType::Wasm)));
}

#[test]
fn mime_parse_goes_through_from_str() {
    let ct: ContentType = "text/css".parse().unwrap();
    assert_eq!(ct.as_str(), "text/css");
}

#[test]
fn unknown_strings_are_rejected() {
    assert!(matches!(
        ContentType::from_mime("application/json"),
        Err(HTTPError::InvalidContentType)
    ));
    assert!(matches!(ContentType::from_mime(""), Err(HTTPError::InvalidContentType)));
    assert!(matches!(
        ContentType::from_mime("text/plain "),
        Err(HTTPError::InvalidContentType)
    ));
    assert!(matches!(
        ContentType::from_mime("TEXT/PLAIN"),
        Err(HTTPError::InvalidContentType)
    ));
}
