use varo::collect::append_all;
use varo::env::EnvMap;
use varo::errors::{ErrorKind, VaroError};
use varo::hasher::{id_of_digest, Hasher};
use varo::icon::{
    data_uri, get_mime_type_for_extension, is_svg_path, load_icon_data_uri, load_image_as_data_uri,
    load_svg_as_data_uri, mime_type_for_lower, resolve_icon_file_path, resolve_icon_path, sanitize_svg_content,
    IconContent, IconFile,
};
use varo::system::{get_os_username, get_platform, SystemInfo};
use varo::text::{chars_of, has_json_extension, join2, join3, same_text, split_words};

fn env_of(pairs: &[(&str, &str)]) -> EnvMap {
    let mut m = EnvMap::new();
    for (k, v) in pairs {
        m.insert(k.to_string(), v.to_string());
    }
    m
}

#[test]
fn id_is_twelve_hex_digits_of_the_digest() {
    assert_eq!(Hasher::generate_id_from_str(""), "af1349b9f5f9");
    let id = Hasher::generate_id_from_str("preset.json");
    assert_eq!(id.len(), 12);
    assert!(id.chars().all(|c| c.is_ascii_digit() || ('a'..='f').contains(&c)));
    assert_ne!(id, Hasher::generate_id_from_str("preset2.json"));
}

#[test]
fn id_of_a_digest_is_the_hex_of_its_first_six_bytes() {
    let digest: Vec<u8> = vec![0x00, 0x0f, 0xa0, 0xff, 0x12, 0x9c, 0x77, 0x01];
    assert_eq!(id_of_digest(&digest), "000fa0ff129c");
    assert_eq!(id_of_digest(&vec![0xab, 0x01]), "ab01");
    assert_eq!(id_of_digest(&vec![]), "");
    assert_eq!(id_of_digest(&vec![0xde, 0xad, 0xbe, 0xef, 0x00, 0x01]), "deadbeef0001");
}

#[test]
fn append_all_keeps_the_order_of_both_lists() {
    let mut out = vec!["a".to_string()];
    append_all(&mut out, vec!["b".to_string(), "c".to_string()]);
    assert_eq!(out, vec!["a".to_string(), "b".to_string(), "c".to_string()]);
    append_all(&mut out, Vec::new());
    assert_eq!(out.len(), 3);
}

#[test]
fn data_uri_joins_the_type_and_the_encoded_text() {
    assert_eq!(data_uri("image/png", "AQID"), "data:image/png;base64,AQID");
    assert_eq!(data_uri("", ""), "data:;base64,");
}

#[test]
fn mime_type_for_a_lowercase_extension_reads_the_table() {
    assert_eq!(mime_type_for_lower("jpg"), "image/jpeg");
    assert_eq!(mime_type_for_lower("svg"), "image/svg+xml");
    assert_eq!(mime_type_for_lower("JPG"), "image/png");
    assert_eq!(mime_type_for_lower(""), "image/png");
}

#[test]
fn id_of_a_path_depends_on_the_lowercase_file_name_alone() {
    assert_eq!(Hasher::normalize("/a/b/My Preset.JSON"), "my preset.json");
    assert_eq!(Hasher::normalize("C:\\Users\\ann\\Node.json"), "node.json");
    assert_eq!(Hasher::normalize("plain"), "plain");
    assert_eq!(Hasher::normalize("dir/"), "");
    assert_eq!(
        Hasher::generate_id_from_path("/one/Tool.json"),
        Hasher::generate_id_from_path("D:\\two\\TOOL.JSON")
    );
    assert_eq!(Hasher::generate_id_from_path("/one/Tool.json"), Hasher::generate_id_from_str("tool.json"));
    assert_eq!(Hasher::generate_id_from_path(""), "af1349b9f5f9");
}

#[test]
fn text_is_taken_character_by_character() {
    let s = "a→ß𝄞";
    assert_eq!(chars_of(s), vec!['a', '→', 'ß', '𝄞']);
    assert_eq!(join2("a→", "ß"), "a→ß");
    assert_eq!(join3("a", "", "c"), "ac");
    assert!(same_text("ß", "ß"));
    assert!(!same_text("ß", "ss"));
    assert!(!same_text("a", "ab"));
    assert_eq!(Hasher::normalize("/x/ÀbC.Json"), "àbc.json");
}

#[test]
fn words_are_runs_without_white_space() {
    assert_eq!(split_words("a  b\u{3000}c\u{a0}d"), vec!["a", "b", "c", "d"]);
    assert!(split_words("").is_empty());
    assert!(split_words(" \t\r\n").is_empty());
    assert_eq!(split_words("one"), vec!["one"]);
    assert_eq!(split_words("a\u{200b}b"), vec!["a\u{200b}b"]);
}

#[test]
fn json_extension_is_matched_without_regard_to_case() {
    assert!(has_json_extension("a.json"));
    assert!(has_json_extension("/x/y.z/a.b.JSON"));
    assert!(!has_json_extension(".json"));
    assert!(!has_json_extension("/x/.json"));
    assert!(!has_json_extension("json"));
    assert!(!has_json_extension("a.json/"));
    assert!(!has_json_extension("a.jso"));
    assert!(!has_json_extension("a.jsonl"));
}

#[test]
fn mime_type_follows_the_extension() {
    assert_eq!(get_mime_type_for_extension("png"), "image/png");
    assert_eq!(get_mime_type_for_extension("JPG"), "image/jpeg");
    assert_eq!(get_mime_type_for_extension("jpeg"), "image/jpeg");
    assert_eq!(get_mime_type_for_extension("gif"), "image/gif");
    assert_eq!(get_mime_type_for_extension("webp"), "image/webp");
    assert_eq!(get_mime_type_for_extension("bmp"), "image/bmp");
    assert_eq!(get_mime_type_for_extension("ico"), "image/x-icon");
    assert_eq!(get_mime_type_for_extension("TIFF"), "image/tiff");
    assert_eq!(get_mime_type_for_extension("tif"), "image/tiff");
    assert_eq!(get_mime_type_for_extension("svg"), "image/svg+xml");
    assert_eq!(get_mime_type_for_extension("avif"), "image/avif");
    assert_eq!(get_mime_type_for_extension("heic"), "image/heic");
    assert_eq!(get_mime_type_for_extension("heif"), "image/heic");
    assert_eq!(get_mime_type_for_extension("xyz"), "image/png");
    assert_eq!(get_mime_type_for_extension(""), "image/png");
}

#[test]
fn svg_is_cut_down_to_its_element() {
    assert_eq!(
        sanitize_svg_content("  <?xml version=\"1.0\"?>\n<SVG width=\"1\"></SVG>\n "),
        "<SVG width=\"1\"></SVG>"
    );
    assert_eq!(sanitize_svg_content("<svg/>"), "<svg/>");
    assert_eq!(sanitize_svg_content("<svg>"), "<svg>");
    assert_eq!(sanitize_svg_content(" <svgx> "), "<svgx>");
    assert_eq!(sanitize_svg_content(" no markup "), "no markup");
    assert_eq!(sanitize_svg_content(" \n\t"), "");
    assert_eq!(sanitize_svg_content("<svg"), "<svg");
}

#[test]
fn image_bytes_become_a_data_uri() {
    assert_eq!(load_image_as_data_uri(Some(&[1, 2, 3]), "PNG"), "data:image/png;base64,AQID");
    assert_eq!(load_image_as_data_uri(Some(b"hello"), "jpg"), "data:image/jpeg;base64,aGVsbG8=");
    assert_eq!(load_image_as_data_uri(Some(&[]), "png"), "");
    assert_eq!(load_image_as_data_uri(None, "png"), "");
}

#[test]
fn svg_text_becomes_a_data_uri() {
    assert_eq!(load_svg_as_data_uri(Some(" x<svg/> ")), "data:image/svg+xml;base64,PHN2Zy8+");
    assert_eq!(load_svg_as_data_uri(Some("   ")), "");
    assert_eq!(load_svg_as_data_uri(None), "");
}

#[test]
fn icon_is_loaded_by_the_extension_of_its_path() {
    assert!(is_svg_path("/i/a.svg"));
    assert!(!is_svg_path("/i/a.SVG"));
    assert!(!is_svg_path("/i/svg"));
    assert_eq!(
        load_icon_data_uri("/i/a.svg", &IconContent::Text("<svg/>".to_string())),
        "data:image/svg+xml;base64,PHN2Zy8+"
    );
    assert_eq!(load_icon_data_uri("/i/a.svg", &IconContent::Bytes(vec![1])), "");
    assert_eq!(
        load_icon_data_uri("/i/a.gif", &IconContent::Bytes(vec![1, 2, 3])),
        "data:image/gif;base64,AQID"
    );
    assert_eq!(
        load_icon_data_uri("/i/a.SVG", &IconContent::Text("hello".to_string())),
        "data:image/svg+xml;base64,aGVsbG8="
    );
    assert_eq!(load_icon_data_uri("/i/a.png", &IconContent::Unreadable), "");
    assert_eq!(load_icon_data_uri("/i/noext", &IconContent::Bytes(vec![1, 2, 3])), "");
}

#[test]
fn icon_location_needs_a_path_and_a_root() {
    let system = env_of(&[("VARO_PATH", "/r"), ("SET", "dark")]);
    let location = resolve_icon_file_path("${SET}/tool.png", &system).unwrap();
    assert_eq!(location.expanded, "dark/tool.png");
    assert_eq!(location.under_icons, "/r/icons/dark/tool.png");
    assert_eq!(resolve_icon_file_path("  \t", &system), None);
    assert_eq!(resolve_icon_file_path("", &system), None);
    assert_eq!(resolve_icon_file_path("a.png", &EnvMap::new()), None);
}

#[test]
fn icon_is_embedded_or_a_warning_says_why_not() {
    let system = env_of(&[("VARO_PATH", "/r")]);
    let mut warnings = vec!["earlier".to_string()];
    let svg = IconFile { path: "/r/icons/a.svg".to_string(), content: IconContent::Text("<svg/>".to_string()) };
    assert_eq!(resolve_icon_path("a.svg", &system, Some(&svg), &mut warnings, "n1"), "<svg/>");
    let gif = IconFile { path: "/r/icons/a.gif".to_string(), content: IconContent::Bytes(vec![1, 2, 3]) };
    assert_eq!(
        resolve_icon_path("a.gif", &system, Some(&gif), &mut warnings, "n1"),
        "data:image/gif;base64,AQID"
    );
    assert_eq!(warnings.len(), 1);
    assert_eq!(resolve_icon_path("", &system, Some(&gif), &mut warnings, "n1"), "");
    assert_eq!(resolve_icon_path("a.gif", &EnvMap::new(), Some(&gif), &mut warnings, "n2"), "");
    assert_eq!(resolve_icon_path("${VARO_PATH}/a.gif", &system, None, &mut warnings, "n3"), "");
    assert_eq!(
        warnings,
        vec![
            "earlier".to_string(),
            "Node 'n1' missing optional 'icon' field".to_string(),
            "Node 'n2': VARO_PATH not set".to_string(),
            "Node 'n3' icon file missing: /r/a.gif".to_string(),
        ]
    );
}

#[test]
fn username_is_the_first_variable_that_is_not_empty() {
    assert_eq!(get_os_username(&env_of(&[("USER", "u"), ("USERNAME", "w"), ("LOGNAME", "l")])), "w");
    assert_eq!(get_os_username(&env_of(&[("USERNAME", ""), ("USER", "u")])), "u");
    assert_eq!(get_os_username(&env_of(&[("LOGNAME", "l")])), "l");
    assert_eq!(get_os_username(&env_of(&[("USER", "")])), "Guest");
    assert_eq!(get_os_username(&EnvMap::new()), "Guest");
}

#[test]
fn platform_is_named_by_its_operating_system() {
    assert_eq!(get_platform("windows"), "win");
    assert_eq!(get_platform("macos"), "mac");
    assert_eq!(get_platform("linux"), "linux");
    assert_eq!(get_platform("freebsd"), "unknown");
    assert_eq!(get_platform("Linux"), "unknown");
    let info = SystemInfo::collect(&env_of(&[("USER", "ann")]), "macos");
    assert_eq!(info.get_username(), "ann");
    assert_eq!(info.get_platform(), "mac");
    assert_eq!(info.clone(), info);
}

#[test]
fn errors_render_with_the_words_for_their_kind() {
    assert_eq!(VaroError::config("c").to_text(), "Configuration error: c");
    assert_eq!(VaroError::env_preset("p").to_text(), "Environment preset error: p");
    assert_eq!(VaroError::node("n").to_text(), "Node error: n");
    assert_eq!(VaroError::execution("e").to_text(), "Execution error: e");
    assert_eq!(VaroError::lock("l").to_text(), "Lock error: l");
    assert_eq!(VaroError::SystemError("s".to_string()).to_text(), "System error: s");
    assert_eq!(VaroError::IoError("i".to_string()).to_text(), "IO error: i");
    assert_eq!(VaroError::SerializationError("j".to_string()).to_text(), "Serialization error: j");
    assert_eq!(VaroError::from("boom".to_string()), VaroError::SystemError("boom".to_string()));
    assert_eq!(VaroError::config("c").kind(), ErrorKind::Config);
    assert_eq!(VaroError::lock("l").kind(), ErrorKind::Lock);
    assert_eq!(VaroError::IoError("i".to_string()).kind(), ErrorKind::Io);
    assert_eq!(VaroError::node("n").clone(), VaroError::node("n"));
}
