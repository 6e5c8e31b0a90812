use ia_get_core::encoding::encode_archive_path_for_url;
use ia_get_core::error::IaGetError;
use ia_get_core::urls::{download_url, get_xml_url, parse_base_url, take_url};

#[test]
fn check_get_xml_url() {
    assert_eq!(
        get_xml_url("https://archive.org/details/item1"),
        "https://archive.org/download/item1/item1_files.xml"
    );
    assert_eq!(
        get_xml_url("https://archive.org/details/item1/"), // With trailing slash
        "https://archive.org/download/item1/item1_files.xml"
    );
    assert_eq!(
        get_xml_url("https://archive.org/details/another-item_v2.0"),
        "https://archive.org/download/another-item_v2.0/another-item_v2.0_files.xml"
    );
    assert_eq!(
        get_xml_url("https://archive.org/details/another-item_v2.0/"), // With trailing slash
        "https://archive.org/download/another-item_v2.0/another-item_v2.0_files.xml"
    );
}

#[test]
fn several_trailing_slashes_make_no_difference() {
    assert_eq!(
        get_xml_url("https://archive.org/details/item1///"),
        "https://archive.org/download/item1/item1_files.xml"
    );
}

#[test]
fn text_without_slashes_is_the_identifier() {
    assert_eq!(
        get_xml_url("item1"),
        "https://archive.org/download/item1/item1_files.xml"
    );
    assert_eq!(
        get_xml_url(""),
        "https://archive.org/download//_files.xml"
    );
}

#[test]
fn encoded_archive_path_joins_to_expected_download_url() {
    let base_url = reqwest::Url::parse(
        "https://archive.org/download/3ds-main-encrypted/3ds-main-encrypted_files.xml",
    )
    .expect("base URL should parse");
    let encoded =
        encode_archive_path_for_url("100% Pascal Sensei - Kanpeki Paint Bombers (Japan).7z");
    let download_url = base_url.join(&encoded).expect("encoded path should join");

    assert_eq!(
        download_url.as_str(),
        "https://archive.org/download/3ds-main-encrypted/100%25%20Pascal%20Sensei%20-%20Kanpeki%20Paint%20Bombers%20%28Japan%29.7z"
    );
}

#[test]
fn download_url_lies_in_the_directory_of_the_item() {
    let base = "https://archive.org/download/3ds-main-encrypted/3ds-main-encrypted_files.xml";
    assert_eq!(
        download_url(base, "100% Pascal Sensei - Kanpeki Paint Bombers (Japan).7z"),
        Ok("https://archive.org/download/3ds-main-encrypted/100%25%20Pascal%20Sensei%20-%20Kanpeki%20Paint%20Bombers%20%28Japan%29.7z".to_string())
    );
    assert_eq!(
        download_url(base, "dir/sub dir/file?.bin"),
        Ok("https://archive.org/download/3ds-main-encrypted/dir/sub%20dir/file%3F.bin".to_string())
    );
    assert_eq!(
        download_url(base, "a//b/"),
        Ok("https://archive.org/download/3ds-main-encrypted/a//b/".to_string())
    );
    assert_eq!(
        download_url(base, "http://elsewhere"),
        Ok("https://archive.org/download/3ds-main-encrypted/http%3A//elsewhere".to_string())
    );
    assert_eq!(
        download_url(base, "...a"),
        Ok("https://archive.org/download/3ds-main-encrypted/...a".to_string())
    );
}

#[test]
fn dots_and_roots_leave_the_directory() {
    let base = "https://archive.org/download/item1/item1_files.xml";
    assert_eq!(
        download_url(base, "../other/x"),
        Ok("https://archive.org/download/other/x".to_string())
    );
    assert_eq!(
        download_url(base, "/x"),
        Ok("https://archive.org/x".to_string())
    );
    assert_eq!(download_url(base, ""), Ok(base.to_string()));
}

#[test]
fn download_url_needs_a_base() {
    assert_eq!(
        download_url("no base", "x"),
        Err(IaGetError::Url("relative URL without a base".to_string()))
    );
}

#[test]
fn file_list_url_is_a_base_as_it_is() {
    for identifier in ["item1", "another-item_v2.0", "user@domain", "~x", "..."] {
        let xml_url = get_xml_url(&format!("https://archive.org/details/{}", identifier));
        assert_eq!(parse_base_url(&xml_url), Ok(xml_url.clone()));
        assert_eq!(
            download_url(&xml_url, "f 1"),
            Ok(format!("https://archive.org/download/{}/f%201", identifier))
        );
    }
}

#[test]
fn base_url_is_written_out_by_the_parser() {
    assert_eq!(
        parse_base_url("HTTPS://Archive.org:443/a b"),
        Ok("https://archive.org/a%20b".to_string())
    );
    assert_eq!(
        parse_base_url("https://archive.org/download/./._files.xml"),
        Ok("https://archive.org/download/._files.xml".to_string())
    );
    assert_eq!(
        parse_base_url("item1"),
        Err(IaGetError::Url("relative URL without a base".to_string()))
    );
}

#[test]
fn url_outcomes_are_taken_over() {
    assert_eq!(take_url(Ok("u".to_string())), Ok("u".to_string()));
    assert_eq!(
        take_url(Err("bad".to_string())),
        Err(IaGetError::Url("bad".to_string()))
    );
}
