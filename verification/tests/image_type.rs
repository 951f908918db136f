use obadgen::patcher::ImageType;
use obadgen::patcher::ToImageTypeError;
use obadgen::patcher::{same_text, spells_word, to_ascii_lower};

#[test]
fn svg_and_png_are_resolved() {
    assert_eq!(ImageType::try_from("badge.svg").unwrap(), ImageType::Svg);
    assert_eq!(ImageType::try_from("badge.png").unwrap(), ImageType::Png);
    assert_eq!(ImageType::try_from("res/media/img/test.png").unwrap(), ImageType::Png);
}

#[test]
fn extension_case_is_ignored() {
    assert_eq!(ImageType::try_from("BADGE.SVG").unwrap(), ImageType::Svg);
    assert_eq!(ImageType::try_from("a/b/Badge.PnG").unwrap(), ImageType::Png);
    assert_eq!(ImageType::from_extension("sVg"), Some(ImageType::Svg));
}

#[test]
fn gif_is_unsupported() {
    match ImageType::try_from("pictures/badge.gif") {
        Err(ToImageTypeError::Unsupported { ext, path }) => {
            assert_eq!(ext, "gif");
            assert_eq!(path, "pictures/badge.gif");
        }
        other => panic!("unexpected: {:?}", other),
    }
}

#[test]
fn unsupported_keeps_the_case_of_the_extension() {
    match ImageType::try_from("badge.GIF") {
        Err(ToImageTypeError::Unsupported { ext, .. }) => assert_eq!(ext, "GIF"),
        other => panic!("unexpected: {:?}", other),
    }
}

#[test]
fn missing_extension_is_reported() {
    for path in ["badge", "", "dir.d/badge", ".svg", "a/.png", "..", "a/..", "/", "."] {
        match ImageType::try_from(path) {
            Err(ToImageTypeError::ExtensionExtraction { msg, path: p }) => {
                assert_eq!(msg, "No file extension present");
                assert_eq!(p, path);
            }
            other => panic!("unexpected for {:?}: {:?}", path, other),
        }
    }
}

#[test]
fn trailing_separators_and_dots_are_passed_over() {
    assert_eq!(ImageType::try_from("a/badge.svg/").unwrap(), ImageType::Svg);
    assert_eq!(ImageType::try_from("a/badge.png/.").unwrap(), ImageType::Png);
    assert_eq!(ImageType::try_from("a/badge.png/./").unwrap(), ImageType::Png);
}

#[test]
fn resolver_agrees_with_std_paths() {
    for path in [
        "a.svg", "a.png", "a.gif", "a", "", ".", "..", "/", "a/", "a/.", "a/..", ".svg", "a/.svg",
        "a.b.png", "a.png/", "a.png/.", "a.png//", "./a.SVG", "a.", "...", "x/y.z/w", "é.png",
    ] {
        let expected = std::path::Path::new(path).extension().map(|e| e.to_str().unwrap().to_owned());
        let got = match ImageType::try_from(path) {
            Ok(ImageType::Svg) | Ok(ImageType::Png) => {
                Some(expected.clone().unwrap_or_default().to_lowercase())
            }
            Err(ToImageTypeError::Unsupported { ext, .. }) => Some(ext),
            Err(ToImageTypeError::ExtensionExtraction { .. }) => None,
        };
        assert_eq!(got.map(|e| e.to_lowercase()), expected.map(|e| e.to_lowercase()), "path {:?}", path);
    }
}

#[test]
fn error_messages() {
    let e = ImageType::try_from("badge").unwrap_err();
    assert_eq!(e.message(), "Failed to extract file extension from path: 'badge'");
    let e = ImageType::try_from("badge.gif").unwrap_err();
    assert_eq!(
        e.message(),
        "The only supported image file types are AVG and PNG; supplied extension: 'gif' (in path: 'badge.gif')"
    );
}

#[test]
fn image_type_names() {
    assert_eq!(ImageType::Svg.name(), "Svg");
    assert_eq!(ImageType::Png.name(), "Png");
}

#[test]
fn small_text_helpers() {
    assert_eq!(to_ascii_lower('A'), 'a');
    assert_eq!(to_ascii_lower('Z'), 'z');
    assert_eq!(to_ascii_lower('a'), 'a');
    assert_eq!(to_ascii_lower('['), '[');
    assert_eq!(to_ascii_lower('É'), 'É');
    assert!(spells_word("SvG", "svg"));
    assert!(!spells_word("svgz", "svg"));
    assert!(!spells_word("sv", "svg"));
    assert!(same_text("abc", "abc"));
    assert!(!same_text("abc", "abd"));
}
