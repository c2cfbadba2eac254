use videoeditor::genai::google;
use videoeditor::genai::xai;
use videoeditor::genai::{
    data_url, decode_image, image_mime, parse_aspect, payload_aspect, variant_file_name,
    AspectRatio, Base64Fault, GenAiError, ImageRequest,
};
use base64::Engine as _;

fn request(n: u8, aspect: AspectRatio, refs: Vec<String>) -> ImageRequest {
    ImageRequest { prompt: "x".into(), model: None, n, aspect, reference_images: refs }
}

#[test]
fn aspect_ratio_roundtrips() {
    for s in [
        "1:1", "3:4", "4:3", "9:16", "16:9", "2:3", "3:2", "9:19.5", "19.5:9", "9:20", "20:9",
        "1:2", "2:1", "auto",
    ] {
        assert_eq!(s.parse::<AspectRatio>().unwrap().as_str(), s);
    }
    assert!("21:9".parse::<AspectRatio>().is_err());
}

#[test]
fn refs_are_rejected() {
    let req = request(1, AspectRatio::Auto, vec!["a.png".into()]);
    assert!(google::check_request(&req).unwrap_err().message().contains("grok"));
}

#[test]
fn unknown_aspect_message_quotes_the_input() {
    let e = parse_aspect("21:9").unwrap_err();
    assert_eq!(e, GenAiError::UnknownAspect { raw: "21:9".to_string() });
    assert_eq!(
        e.message(),
        "unknown aspect ratio \"21:9\" (expected one of 1:1, 3:4, 4:3, 9:16, 16:9, 2:3, 3:2, 9:19.5, 19.5:9, 9:20, 20:9, 1:2, 2:1, auto)"
    );
}

#[test]
fn imagen_rules_are_checked_in_order() {
    assert_eq!(
        google::check_request(&request(0, AspectRatio::R1x1, vec![])).unwrap_err(),
        GenAiError::ImagenCount { n: 0 }
    );
    assert_eq!(
        google::check_request(&request(5, AspectRatio::R1x1, vec!["a.png".into()])).unwrap_err(),
        GenAiError::ImagenCount { n: 5 }
    );
    assert_eq!(
        google::check_request(&request(2, AspectRatio::R2x3, vec!["a.png".into()])).unwrap_err(),
        GenAiError::ImagenReferences
    );
    assert_eq!(
        google::check_request(&request(2, AspectRatio::R2x3, vec![])).unwrap_err(),
        GenAiError::ImagenAspect { aspect: AspectRatio::R2x3 }
    );
    assert!(google::check_request(&request(4, AspectRatio::R9x16, vec![])).is_ok());
    assert!(google::check_request(&request(1, AspectRatio::Auto, vec![])).is_ok());
    assert_eq!(
        GenAiError::ImagenAspect { aspect: AspectRatio::R2x3 }.message(),
        "imagen supports aspect ratios 1:1, 3:4, 4:3, 9:16, 16:9 (got 2:3)"
    );
    assert_eq!(
        GenAiError::ImagenCount { n: 5 }.message(),
        "imagen generates 1..=4 images per request, got 5"
    );
}

#[test]
fn grok_rules_are_checked_in_order() {
    let eight: Vec<String> = (0..8).map(|i| format!("r{i}.png")).collect();
    let seven: Vec<String> = (0..7).map(|i| format!("r{i}.png")).collect();
    assert_eq!(
        xai::check_request(&request(11, AspectRatio::Auto, eight.clone())).unwrap_err(),
        GenAiError::GrokCount { n: 11 }
    );
    assert_eq!(
        xai::check_request(&request(10, AspectRatio::Auto, eight)).unwrap_err(),
        GenAiError::GrokReferences { count: 8 }
    );
    assert!(xai::check_request(&request(10, AspectRatio::R2x3, seven)).is_ok());
    assert_eq!(
        GenAiError::GrokReferences { count: 8 }.message(),
        "grok honors at most 7 reference images, got 8"
    );
}

#[test]
fn imagen_supports_five_ratios() {
    let supported: Vec<bool> = [
        AspectRatio::R1x1,
        AspectRatio::R3x4,
        AspectRatio::R4x3,
        AspectRatio::R9x16,
        AspectRatio::R16x9,
        AspectRatio::R2x3,
        AspectRatio::Auto,
    ]
    .iter()
    .map(|a| google::supports_aspect(*a))
    .collect();
    assert_eq!(supported, vec![true, true, true, true, true, false, false]);
}

#[test]
fn auto_aspect_is_left_out_of_payloads() {
    assert_eq!(payload_aspect(AspectRatio::Auto), None);
    assert_eq!(payload_aspect(AspectRatio::R9x16), Some("9:16"));
}

#[test]
fn reference_images_become_data_urls() {
    assert_eq!(data_url(Some("png"), &[0, 0, 0]), "data:image/png;base64,AAAA");
    assert_eq!(data_url(Some("JPG"), b"hi"), "data:image/jpeg;base64,aGk=");
    assert_eq!(data_url(Some("webp"), b"abc"), "data:image/webp;base64,YWJj");
    assert_eq!(data_url(None, b""), "data:image/png;base64,");
    assert_eq!(image_mime(Some("gif")), "png");
}

#[test]
fn provider_bytes_are_decoded() {
    assert_eq!(decode_image("AAAA").unwrap(), vec![0, 0, 0]);
    assert_eq!(decode_image("aGk=").unwrap(), b"hi".to_vec());
    let e = decode_image("not base64!").unwrap_err();
    assert!(matches!(e, GenAiError::InvalidBase64(_)));
    assert!(!e.message().is_empty());
}

#[test]
fn imagen_predictions_become_images() {
    let imgs = google::images_from_predictions(&vec![Some("AAAA".into()), Some("aGk=".into())])
        .unwrap();
    assert_eq!(imgs.len(), 2);
    assert_eq!(imgs[0].bytes, vec![0, 0, 0]);
    assert_eq!(imgs[1].bytes, b"hi".to_vec());
    assert!(imgs[0].revised_prompt.is_none());
    assert_eq!(
        google::images_from_predictions(&vec![]).unwrap_err(),
        GenAiError::ImagenNoImages
    );
    assert_eq!(
        google::images_from_predictions(&vec![Some("AAAA".into()), None]).unwrap_err(),
        GenAiError::ImagenMissingBytes
    );
    assert!(GenAiError::ImagenNoImages.message().contains("safety-filter"));
}

#[test]
fn grok_entries_prefer_inline_bytes() {
    match xai::image_source(Some("AAAA"), Some("https://x/y.png")).unwrap() {
        xai::ImageSource::Bytes(b) => assert_eq!(b, vec![0, 0, 0]),
        other => panic!("expected bytes, got {other:?}"),
    }
    match xai::image_source(None, Some("https://x/y.png")).unwrap() {
        xai::ImageSource::Download(u) => assert_eq!(u, "https://x/y.png"),
        other => panic!("expected a download, got {other:?}"),
    }
    assert_eq!(xai::image_source(None, None).unwrap_err(), GenAiError::GrokNoSource);
    assert_eq!(xai::check_nonempty(0).unwrap_err(), GenAiError::GrokNoImages);
    assert!(xai::check_nonempty(3).is_ok());
}

#[test]
fn variants_are_numbered_from_one() {
    assert_eq!(variant_file_name("hero.png", 0), "hero_v1.png");
    assert_eq!(variant_file_name("hero.png", 9), "hero_v10.png");
    assert_eq!(variant_file_name("hero", 1), "hero_v2.");
    assert_eq!(variant_file_name(".hidden", 0), ".hidden_v1.");
    assert_eq!(variant_file_name("a.b.jpg", 2), "a.b_v3.jpg");
}

#[test]
fn default_models_and_limits() {
    assert_eq!(google::DEFAULT_MODEL, "imagen-4.0-generate-001");
    assert_eq!(xai::DEFAULT_MODEL, "grok-imagine-image-quality");
    assert_eq!(google::MAX_IMAGES_PER_REQUEST, 4);
    assert_eq!(xai::MAX_IMAGES_PER_REQUEST, 10);
    assert_eq!(xai::MAX_REFERENCE_IMAGES, 7);
}

#[test]
fn data_url_payload_decodes_back() {
    let bytes: Vec<u8> = (0u8..=255).collect();
    let url = data_url(Some("png"), &bytes);
    let payload = url.strip_prefix("data:image/png;base64,").unwrap();
    assert_eq!(decode_image(payload).unwrap(), bytes);
}

#[test]
fn base64_faults_read_as_the_decoder_words_them() {
    for bad in ["not base64!", "AAA", "AAAAA", "AB==", "AA=A", "aGk", "Zm9v====", "*"] {
        let words = base64::engine::general_purpose::STANDARD.decode(bad).unwrap_err().to_string();
        let e = decode_image(bad).unwrap_err();
        assert!(matches!(e, GenAiError::InvalidBase64(_)), "{bad}");
        assert_eq!(e.message(), words, "{bad}");
    }
    assert_eq!(
        GenAiError::InvalidBase64(Base64Fault::InvalidByte { offset: 3, byte: 32 }).message(),
        "Invalid symbol 32, offset 3."
    );
    assert_eq!(Base64Fault::InvalidLength { len: 5 }.message(), "Invalid input length: 5");
    assert_eq!(
        Base64Fault::InvalidLastSymbol { offset: 2, byte: 66 }.message(),
        "Invalid last symbol 66, offset 2."
    );
    assert_eq!(Base64Fault::InvalidPadding.message(), "Invalid padding");
}
