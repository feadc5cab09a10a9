use webmirror::cli::{CliArgs, get_filename_from_url};
use webmirror::sizefmt::format_size;

fn v(s: &str) -> Vec<u8> {
    s.as_bytes().to_vec()
}

fn args_with(rate_limit: Option<&str>, output: Option<&str>, prefix: Option<&str>) -> CliArgs {
    CliArgs {
        url: None,
        input_file: None,
        output: output.map(v),
        directory_prefix: prefix.map(v),
        rate_limit: rate_limit.map(v),
        mirror: false,
        convert_links: false,
        background: false,
        reject: None,
        exclude_directories: None,
    }
}

#[test]
fn test_format_size() {
    assert_eq!(format_size(500), "500 B");
    assert_eq!(format_size(1024), "1.00 KB");
    assert_eq!(format_size(1024 * 1024), "1.00 MB");
    assert_eq!(format_size(1024 * 1024 * 1024), "1.00 GB");
}

#[test]
fn format_size_rounds_fractions() {
    assert_eq!(format_size(1536), "1.50 KB");
    assert_eq!(format_size(1023), "1023 B");
    assert_eq!(format_size(0), "0 B");
    // Exact half-hundredths go to the even digit, as float formatting does.
    assert_eq!(format_size(1152), "1.12 KB");
    assert_eq!(format_size(1408), "1.38 KB");
    assert_eq!(format_size(1152), format!("{:.2} KB", 1152f64 / 1024f64));
    assert_eq!(format_size(1408), format!("{:.2} KB", 1408f64 / 1024f64));
}

#[test]
fn test_get_filename_from_url() {
    assert_eq!(
        get_filename_from_url(&v("https://example.com/file.txt")),
        v("file.txt")
    );
    assert_eq!(
        get_filename_from_url(&v("https://example.com/")),
        v("index.html")
    );
    assert_eq!(
        get_filename_from_url(&v("https://example.com/file.txt?param=value")),
        v("file.txt")
    );
}

#[test]
fn rate_limit_suffixes() {
    assert_eq!(args_with(Some("300k"), None, None).parse_rate_limit(), Some(300 * 1024));
    assert_eq!(args_with(Some("2M"), None, None).parse_rate_limit(), Some(2 * 1024 * 1024));
    assert_eq!(args_with(Some("4096"), None, None).parse_rate_limit(), Some(4096));
    assert_eq!(args_with(Some("7K"), None, None).parse_rate_limit(), Some(7 * 1024));
    assert_eq!(args_with(Some("fast"), None, None).parse_rate_limit(), None);
    assert_eq!(args_with(Some(""), None, None).parse_rate_limit(), None);
    assert_eq!(args_with(Some("99999999999999999999k"), None, None).parse_rate_limit(), None);
    assert_eq!(args_with(None, None, None).parse_rate_limit(), None);
}

#[test]
fn output_path_prefers_explicit_name_and_prefix() {
    let a = args_with(None, Some("saved.bin"), Some("downloads"));
    assert_eq!(a.get_output_path(&v("https://ex.com/x.iso")), v("downloads/saved.bin"));
    let b = args_with(None, None, Some("downloads/"));
    assert_eq!(b.get_output_path(&v("https://ex.com/x.iso")), v("downloads/x.iso"));
    let c = args_with(None, None, None);
    assert_eq!(c.get_output_path(&v("https://ex.com/x.iso")), v("x.iso"));
    let d = args_with(None, Some("/abs/path.bin"), Some("ignored"));
    assert_eq!(d.get_output_path(&v("https://ex.com/x.iso")), v("/abs/path.bin"));
}

#[test]
fn filename_fallback_without_scheme() {
    assert_eq!(get_filename_from_url(&v("plain/path/name.txt")), v("name.txt"));
}

#[test]
fn url_lines_drops_blank_lines_and_carriage_returns() {
    let file = b"https://a.com/\r\n\n   \nhttps://b.com/x\n".to_vec();
    let lines = webmirror::cli::url_lines(&file);
    assert_eq!(lines.len(), 2);
    assert_eq!(lines[0], b"https://a.com/".to_vec());
    assert_eq!(lines[1], b"https://b.com/x".to_vec());
    assert_eq!(webmirror::cli::url_lines(&Vec::new()).len(), 0);
    // A line of Unicode whitespace (here a no-break space) is blank too,
    // as str::trim would empty it.
    let unicode = "one\n\u{00A0}\u{2003}\nlast".as_bytes().to_vec();
    let kept = webmirror::cli::url_lines(&unicode);
    assert_eq!(kept.len(), 2);
    assert_eq!(kept[0], b"one".to_vec());
    assert_eq!(kept[1], b"last".to_vec());
}

#[test]
fn success_statuses_are_the_two_hundreds() {
    assert!(webmirror::engine::is_success_status(200));
    assert!(webmirror::engine::is_success_status(204));
    assert!(!webmirror::engine::is_success_status(199));
    assert!(!webmirror::engine::is_success_status(301));
    assert!(!webmirror::engine::is_success_status(404));
}
