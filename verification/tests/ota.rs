use base64::Engine;
use sha2::Digest;

use backend::ota::{
    checksum_matches, image_path_for_name, ota_url_to_local_path, validate_checksum,
    FetchOtaError, OtaChecksumType, OtaManager, OtaProductId, OtaVersion, OtaVersionResponse,
    OtaVersionResponseModelVersion, LOCAL_IMAGE_DIRECTORY, OTA_BASE_URL,
};

fn response(version: u32, checksum_type: u8, url: &str, checksum: &str) -> OtaVersionResponse {
    OtaVersionResponse {
        model_version: OtaVersionResponseModelVersion {
            software_version: version,
            software_version_string: format!("v{version}"),
            ota_url: url.to_string(),
            ota_checksum: checksum.to_string(),
            ota_checksum_type: checksum_type,
            min_applicable_software_version: 1,
            max_applicable_software_version: version - 1,
            release_notes_url: "https://example.com/notes".to_string(),
        },
    }
}

fn version(v: u32, url: &str, kind: OtaChecksumType, checksum: &str) -> OtaVersion {
    OtaVersion {
        version: v,
        version_string: format!("v{v}"),
        ota_url: url.to_string(),
        ota_checksum: checksum.to_string(),
        ota_checksum_type: kind,
        min_applicable_version: 0,
        max_applicable_version: v,
        release_notes_url: String::new(),
        is_image_downloaded: false,
    }
}

fn sha256_b64(data: &[u8]) -> String {
    base64::prelude::BASE64_STANDARD.encode(sha2::Sha256::digest(data))
}

const PRODUCT: OtaProductId = OtaProductId { vendor_id: 0xfff1, product_id: 0x8000 };

#[test]
fn checksum_type_numbers() {
    assert_eq!(OtaChecksumType::from_code(0), Ok(OtaChecksumType::NoChecksum));
    assert_eq!(OtaChecksumType::from_code(1), Ok(OtaChecksumType::Sha256));
    assert_eq!(OtaChecksumType::from_code(7), Ok(OtaChecksumType::Sha384));
    assert_eq!(OtaChecksumType::from_code(8), Ok(OtaChecksumType::Sha512));
    assert_eq!(OtaChecksumType::from_code(10), Ok(OtaChecksumType::Sha3_256));
    assert_eq!(OtaChecksumType::from_code(11), Ok(OtaChecksumType::Sha3_384));
    assert_eq!(OtaChecksumType::from_code(12), Ok(OtaChecksumType::Sha3_512));
    assert_eq!(OtaChecksumType::from_code(2), Err(2));
}

#[test]
fn version_from_ledger_response() {
    let v = OtaVersion::try_from(response(3, 1, "https://x/fw.ota", "abc=")).unwrap();
    assert_eq!(v.version, 3);
    assert_eq!(v.version_string, "v3");
    assert_eq!(v.ota_url, "https://x/fw.ota");
    assert_eq!(v.ota_checksum, "abc=");
    assert_eq!(v.ota_checksum_type, OtaChecksumType::Sha256);
    assert_eq!((v.min_applicable_version, v.max_applicable_version), (1, 2));
    assert_eq!(v.release_notes_url, "https://example.com/notes");
    assert!(!v.is_image_downloaded);
}

#[test]
fn version_with_unknown_checksum_type_is_refused() {
    let err = OtaVersion::try_from(response(3, 99, "u", "c")).unwrap_err();
    assert_eq!(err, 99);
    assert_eq!(FetchOtaError::InvalidChecksumType(err), FetchOtaError::InvalidChecksumType(99));
}

#[test]
fn ledger_urls() {
    assert_eq!(OTA_BASE_URL, "https://on.dcl.csa-iot.org/dcl/model/versions/");
    assert_eq!(PRODUCT.versions_url(), "https://on.dcl.csa-iot.org/dcl/model/versions//65521/32768");
    assert_eq!(
        PRODUCT.version_url(10),
        "https://on.dcl.csa-iot.org/dcl/model/versions//65521/32768/10"
    );
    assert_eq!(PRODUCT.key(), 0xfff1_8000);
}

#[test]
fn local_paths_of_image_urls() {
    assert_eq!(LOCAL_IMAGE_DIRECTORY, "ota_images");
    assert_eq!(ota_url_to_local_path(""), None);
    assert_eq!(
        ota_url_to_local_path("https://example.com/images/light-v2.ota"),
        Some("ota_images/light-v2.ota".to_string())
    );
    assert_eq!(ota_url_to_local_path("fw.bin"), Some("ota_images/fw.bin".to_string()));
    assert_eq!(ota_url_to_local_path("https://example.com/.."), None);
    assert_eq!(image_path_for_name("a.ota"), "ota_images/a.ota");
    assert_eq!(ota_url_to_local_path("https://h/fw.bin"), Some("ota_images/fw.bin".to_string()));
    assert_eq!(ota_url_to_local_path("h/fw"), Some("ota_images/fw".to_string()));
    assert_eq!(ota_url_to_local_path("https://h/dir/"), Some("ota_images/dir".to_string()));
    assert_eq!(ota_url_to_local_path("https://h/.."), None);
    assert_eq!(ota_url_to_local_path(".."), None);
}

#[test]
fn checksum_comparison() {
    assert!(checksum_matches(&[1, 2, 3], &Some(vec![1, 2, 3])));
    assert!(!checksum_matches(&[1, 2, 3], &Some(vec![1, 2])));
    assert!(!checksum_matches(&[1, 2, 3], &Some(vec![1, 2, 4])));
    assert!(!checksum_matches(&[], &None));
}

#[test]
fn sha256_checksum_validates() {
    let image = b"firmware image".to_vec();
    let good = version(2, "u", OtaChecksumType::Sha256, &sha256_b64(&image));
    assert!(validate_checksum(&image, &good));
    assert!(!validate_checksum(b"other image", &good));
}

#[test]
fn each_hash_is_used() {
    let image = b"abc".to_vec();
    let b64 = |d: Vec<u8>| base64::prelude::BASE64_STANDARD.encode(d);
    let cases = [
        (OtaChecksumType::Sha384, b64(sha2::Sha384::digest(&image).to_vec())),
        (OtaChecksumType::Sha512, b64(sha2::Sha512::digest(&image).to_vec())),
        (OtaChecksumType::Sha3_256, b64(sha3::Sha3_256::digest(&image).to_vec())),
        (OtaChecksumType::Sha3_384, b64(sha3::Sha3_384::digest(&image).to_vec())),
        (OtaChecksumType::Sha3_512, b64(sha3::Sha3_512::digest(&image).to_vec())),
    ];
    for (kind, sum) in cases {
        assert!(validate_checksum(&image, &version(1, "u", kind, &sum)), "{kind:?}");
        assert!(!validate_checksum(&image, &version(1, "u", OtaChecksumType::Sha256, &sum)), "{kind:?}");
    }
}

#[test]
fn no_checksum_or_bad_base64_never_validates() {
    let image = b"x".to_vec();
    assert!(!validate_checksum(&image, &version(1, "u", OtaChecksumType::NoChecksum, &sha256_b64(&image))));
    assert!(!validate_checksum(&image, &version(1, "u", OtaChecksumType::Sha256, "not base64!")));
}

#[test]
fn manager_announces_only_changes() {
    let mut m = OtaManager::new();
    let list = vec![version(1, "https://e/a.ota", OtaChecksumType::Sha256, "c")];
    assert!(m.record_versions(PRODUCT, Ok(list.clone())));
    assert!(!m.record_versions(PRODUCT, Ok(list.clone())));
    assert!(m.record_versions(PRODUCT, Err("offline".to_string())));
    assert!(!m.record_versions(PRODUCT, Err("offline".to_string())));
    assert!(m.record_versions(PRODUCT, Err("timeout".to_string())));
    assert_eq!(m.stored_products(), vec![PRODUCT]);
    let stored = m.stored_outcome(PRODUCT).unwrap();
    assert_eq!(stored.as_ref().unwrap_err().as_str(), "timeout");
    let other = OtaProductId { vendor_id: 1, product_id: 2 };
    assert!(m.stored_outcome(other).is_none());
    assert!(m.record_versions(other, Ok(vec![])));
    let mut products = m.stored_products();
    products.sort_by_key(|p| p.key());
    assert_eq!(products, vec![other, PRODUCT]);
}

#[test]
fn manager_lookup_errors() {
    let mut m = OtaManager::new();
    assert_eq!(m.find_version(PRODUCT, 1).unwrap_err(), FetchOtaError::NotLoaded);
    m.record_versions(PRODUCT, Err("offline".to_string()));
    assert_eq!(m.image_path(PRODUCT, 1), Err(FetchOtaError::NotLoaded));
    m.record_versions(
        PRODUCT,
        Ok(vec![version(1, "", OtaChecksumType::Sha256, "c"), version(2, "https://e/b.ota", OtaChecksumType::Sha256, "c")]),
    );
    assert_eq!(m.image_path(PRODUCT, 1), Err(FetchOtaError::NoImageUrl));
    assert_eq!(m.image_path(PRODUCT, 2), Ok("ota_images/b.ota".to_string()));
    assert_eq!(m.image_path(PRODUCT, 3), Err(FetchOtaError::NotLoaded));
    assert_eq!(m.find_version(PRODUCT, 2).unwrap().ota_url, "https://e/b.ota");
    m.record_versions(PRODUCT, Ok(vec![version(7, "h/fw", OtaChecksumType::Sha256, "c")]));
    assert_eq!(m.image_path(PRODUCT, 7), Ok("ota_images/fw".to_string()));
    m.record_versions(PRODUCT, Ok(vec![version(8, "h/..", OtaChecksumType::Sha256, "c")]));
    assert_eq!(m.image_path(PRODUCT, 8), Err(FetchOtaError::NoImageUrl));
}

#[test]
fn manager_checks_images_and_marks_downloads() {
    let image = b"image bytes".to_vec();
    let mut m = OtaManager::new();
    m.record_versions(PRODUCT, Ok(vec![version(4, "https://e/c.ota", OtaChecksumType::Sha256, &sha256_b64(&image))]));
    assert_eq!(m.check_image(PRODUCT, 4, &image), Ok(()));
    assert_eq!(m.check_image(PRODUCT, 4, b"tampered"), Err(FetchOtaError::ChecksumMissmatch));
    assert_eq!(m.check_image(PRODUCT, 5, &image), Err(FetchOtaError::NotLoaded));
    assert!(!m.find_version(PRODUCT, 4).unwrap().is_image_downloaded);
    assert!(m.mark_image_downloaded(PRODUCT, 4));
    assert!(m.find_version(PRODUCT, 4).unwrap().is_image_downloaded);
    assert!(!m.mark_image_downloaded(PRODUCT, 5));
    let other = OtaProductId { vendor_id: 1, product_id: 2 };
    assert!(!m.mark_image_downloaded(other, 4));
}

#[test]
fn versions_apply_within_their_range() {
    let mut v = version(9, "u", OtaChecksumType::Sha256, "c");
    v.min_applicable_version = 3;
    v.max_applicable_version = 8;
    assert!(v.applies_to(3));
    assert!(v.applies_to(8));
    assert!(!v.applies_to(2));
    assert!(!v.applies_to(9));
}
