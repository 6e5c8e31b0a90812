use ia_get_core::encoding::{encode_archive_path_for_url, encode_archive_path_segment};

#[test]
fn encode_archive_path_for_url_encodes_each_path_segment() {
    let path = "DATs/Bandai - WonderSwan Color [T-En] Collection (06-10-2022).zip";
    let encoded = encode_archive_path_for_url(path);
    assert_eq!(
        encoded,
        "DATs/Bandai%20-%20WonderSwan%20Color%20%5BT-En%5D%20Collection%20%2806-10-2022%29.zip"
    );
}

#[test]
fn encode_archive_path_for_url_encodes_literal_percent() {
    let path = "100% Pascal Sensei - Kanpeki Paint Bombers (Japan).7z";
    let encoded = encode_archive_path_for_url(path);

    assert_eq!(
        encoded,
        "100%25%20Pascal%20Sensei%20-%20Kanpeki%20Paint%20Bombers%20%28Japan%29.7z"
    );
}

#[test]
fn segment_escapes_url_syntax_and_separators() {
    assert_eq!(encode_archive_path_segment("a?b#c"), "a%3Fb%23c");
    assert_eq!(encode_archive_path_segment("a/b"), "a%2Fb");
    assert_eq!(encode_archive_path_segment("x:y@z"), "x%3Ay%40z");
    assert_eq!(encode_archive_path_segment(""), "");
}

#[test]
fn segment_escapes_every_byte_of_other_scripts() {
    assert_eq!(encode_archive_path_segment("é"), "%C3%A9");
    assert_eq!(encode_archive_path_segment("黑"), "%E9%BB%91");
    assert_eq!(encode_archive_path_segment("😀"), "%F0%9F%98%80");
    assert_eq!(encode_archive_path_segment("\u{0}\u{7f}"), "%00%7F");
}

#[test]
fn unreserved_path_is_unchanged() {
    let path = "Az09-._~/dir/file.tar.gz";
    assert_eq!(encode_archive_path_for_url(path), path);
}

#[test]
fn empty_segments_stay() {
    assert_eq!(encode_archive_path_for_url(""), "");
    assert_eq!(encode_archive_path_for_url("/"), "/");
    assert_eq!(encode_archive_path_for_url("/a//b/"), "/a//b/");
}

#[test]
fn encoded_segments_are_the_segments_encoded() {
    let path = "one two/three%20/four";
    let encoded = encode_archive_path_for_url(path);
    let segments: Vec<String> = path.split('/').map(encode_archive_path_segment).collect();
    assert_eq!(encoded, segments.join("/"));
    assert_eq!(encoded, "one%20two/three%2520/four");
}

#[test]
fn every_byte_is_encoded_as_itself_or_as_its_number() {
    for code in 0u8..128 {
        let text = (code as char).to_string();
        let encoded = encode_archive_path_segment(&text);
        if code.is_ascii_alphanumeric() || "-._~".contains(code as char) {
            assert_eq!(encoded, text);
        } else {
            assert_eq!(encoded, format!("%{:02X}", code));
        }
    }
}

#[test]
fn similar_paths_are_told_apart() {
    assert_ne!(
        encode_archive_path_for_url("a b"),
        encode_archive_path_for_url("a%20b")
    );
}
