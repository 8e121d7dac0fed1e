use jf::error::FetchError;
use jf::utils::{
    filename_cut_is_clean, needs_trailing_newline, parse_url_file, url_to_filename, validate_url,
};

#[test]
fn test_validate_url_https() {
    let result = validate_url("https://example.com");
    assert!(result.is_ok());
    assert_eq!(result.unwrap(), "https://example.com");
}

#[test]
fn test_validate_url_http() {
    let result = validate_url("http://example.com/path");
    assert!(result.is_ok());
}

#[test]
fn test_validate_url_no_scheme() {
    let result = validate_url("example.com");
    assert!(result.is_err());
}

#[test]
fn test_validate_url_with_space() {
    let result = validate_url("https://example .com");
    assert!(result.is_err());
}

#[test]
fn test_validate_url_strips_whitespace() {
    let result = validate_url("  https://example.com  ");
    assert!(result.is_ok());
    assert_eq!(result.unwrap(), "https://example.com");
}

#[test]
fn test_url_to_filename_basic() {
    let filename = url_to_filename("https://example.com/article");
    assert!(filename.ends_with(".md"));
    assert!(filename.contains("article"));
}

#[test]
fn test_url_to_filename_strips_slash() {
    let filename = url_to_filename("https://example.com/");
    assert!(filename.ends_with(".md"));
    assert!(filename.contains("example_com") || filename.contains("example.com"));
}

#[test]
fn test_url_to_filename_truncates_long() {
    let long_url = format!("https://example.com/{}", "a".repeat(200));
    let filename = url_to_filename(&long_url);
    assert!(filename.len() <= 105); // 100 + .md
}

#[test]
fn test_parse_url_file_basic() {
    let contents = "https://example.com\nhttps://test.com\n";
    let urls = parse_url_file(contents);
    assert_eq!(urls.len(), 2);
    assert_eq!(urls[0], "https://example.com");
}

#[test]
fn test_parse_url_file_ignores_comments() {
    let contents = "# This is a comment\nhttps://example.com\n# Another comment\n";
    let urls = parse_url_file(contents);
    assert_eq!(urls.len(), 1);
}

#[test]
fn test_parse_url_file_ignores_empty_lines() {
    let contents = "\n\nhttps://example.com\n\n\n";
    let urls = parse_url_file(contents);
    assert_eq!(urls.len(), 1);
}

#[test]
fn test_parse_url_file_strips_whitespace() {
    let contents = "  https://example.com  \n  https://test.com  ";
    let urls = parse_url_file(contents);
    assert_eq!(urls.len(), 2);
    assert_eq!(urls[0], "https://example.com");
}

fn validation_message(r: Result<String, FetchError>) -> String {
    match r {
        Err(FetchError::Validation { message }) => message,
        other => panic!("expected a validation error, got {:?}", other),
    }
}

#[test]
fn validation_messages() {
    assert_eq!(
        validation_message(validate_url(" example.com ")),
        "Invalid URL: must start with http:// or https://\nProvided: 'example.com'\nTip: jf expects full URLs including the scheme"
    );
    assert_eq!(
        validation_message(validate_url("https://exa\"mple.com")),
        "Invalid URL: contains invalid characters"
    );
    assert_eq!(validation_message(validate_url("https://it's.com")), "Invalid URL: contains invalid characters");
    let parse = validation_message(validate_url("http://"));
    assert!(parse.starts_with("Invalid URL format: "), "{}", parse);
    assert!(parse.len() > "Invalid URL format: ".len());
    let bad_port = validation_message(validate_url("https://example.com:99999"));
    assert!(bad_port.starts_with("Invalid URL format: "), "{}", bad_port);
}

#[test]
fn validation_is_idempotent() {
    let once = validate_url("\t https://example.com/a?b=c \n").unwrap();
    assert_eq!(once, "https://example.com/a?b=c");
    assert_eq!(validate_url(&once).unwrap(), once);
}

#[test]
fn filenames_exactly() {
    assert_eq!(url_to_filename("https://example.com/article"), "article.md");
    assert_eq!(url_to_filename("https://example.com/"), "example_com.md");
    assert_eq!(url_to_filename("https://example.com/a/b.html///"), "b_html.md");
    assert_eq!(url_to_filename("no-scheme here"), "no-scheme_here.md");
    assert_eq!(url_to_filename("https://example.com/héllo wörld"), "héllo_wörld.md");
    assert_eq!(url_to_filename("https://a.com/x://b.com/y"), "x.md");
    let long = url_to_filename(&format!("https://example.com/{}", "a".repeat(200)));
    assert_eq!(long, format!("{}.md", "a".repeat(100)));
}

#[test]
fn filename_cut_inside_a_character_is_detected() {
    // 99 ASCII bytes followed by two-byte characters: byte 100 splits one.
    let url = format!("https://example.com/{}{}", "a".repeat(99), "é".repeat(5));
    assert!(!filename_cut_is_clean(&url));
    let url = format!("https://example.com/{}{}", "a".repeat(98), "é".repeat(5));
    assert!(filename_cut_is_clean(&url));
    let name = url_to_filename(&url);
    assert_eq!(name, format!("{}é.md", "a".repeat(98)));
    assert!(filename_cut_is_clean("https://example.com/short"));
}

#[test]
fn url_lists_with_carriage_returns() {
    let urls = parse_url_file("https://a.com\r\n#x\r\n\r\n  https://b.com/p \r\nlast");
    assert_eq!(urls, vec!["https://a.com", "https://b.com/p", "last"]);
    assert!(parse_url_file("").is_empty());
    assert!(parse_url_file("# only\n\n   \n").is_empty());
}

#[test]
fn trailing_newline_decision() {
    assert!(needs_trailing_newline("abc"));
    assert!(!needs_trailing_newline("abc\n"));
    assert!(!needs_trailing_newline(""));
}

#[test]
fn checked_filenames() {
    assert_eq!(jf::utils::try_url_to_filename("https://example.com/article").as_deref(), Some("article.md"));
    let url = format!("https://example.com/{}{}", "a".repeat(99), "é".repeat(5));
    assert_eq!(jf::utils::try_url_to_filename(&url), None);
}

#[test]
fn filenames_end_in_md_and_stay_short() {
    let urls = [
        "https://example.com".to_string(),
        "https://example.com/".to_string(),
        format!("https://example.com/{}", "ü".repeat(300)),
        format!("https://example.com/{}", "x-y_z".repeat(50)),
        "".to_string(),
    ];
    for url in urls.iter() {
        if let Some(name) = jf::utils::try_url_to_filename(url) {
            assert!(name.ends_with(".md"), "{}", name);
            assert!(name.len() <= 103, "{}", name);
        }
    }
}
