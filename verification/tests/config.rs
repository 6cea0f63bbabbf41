use flugs::config::Config;
use flugs::events::missing_file_text;
use flugs::file_handler::{group_name, FileID};
use flugs::text::{is_opus_extension, parse_unsigned_chars, shorten_alias};

fn chars(s: &str) -> Vec<char> {
    s.chars().collect()
}

#[test]
fn defaults() {
    let c = Config::default_config();
    assert_eq!(c.search_path, "/tmp/");
    assert_eq!((c.svg_width, c.svg_height), (800, 600));
    assert_eq!((c.x_label.as_str(), c.y_label.as_str()), ("x-label", "y-label"));
    assert_eq!((c.num_x_minorticks, c.num_y_minorticks), (0, 0));
    assert!(c.draw_xaxis && c.draw_yaxis);
}

#[test]
fn parse_config_text() {
    let text = "# comment\nsearch_path=/home/me/data\nsvg_width=1024\nsvg_height=abc\nx_label=Wavenumber\r\ndraw_xaxis=false\ndraw_yaxis=maybe\nnum_y_minorticks=+4\nunknown=1\nnoequals\ny_label=a=b\n";
    let c = Config::from_config_text(text);
    assert_eq!(c.search_path, "/home/me/data");
    assert_eq!(c.svg_width, 1024);
    assert_eq!(c.svg_height, 600);
    assert_eq!(c.x_label, "Wavenumber");
    assert!(!c.draw_xaxis);
    assert!(c.draw_yaxis);
    assert_eq!(c.num_y_minorticks, 4);
    assert_eq!(c.y_label, "a");
}

#[test]
fn config_roundtrip() {
    let c = Config {
        search_path: "/srv/spectra".to_string(),
        svg_width: 1234,
        svg_height: 0,
        x_label: "x".to_string(),
        y_label: String::new(),
        num_x_minorticks: 3,
        num_y_minorticks: 12,
        draw_xaxis: false,
        draw_yaxis: true,
    };
    let text = c.to_config_text();
    assert_eq!(
        text,
        "search_path=/srv/spectra\nsvg_width=1234\nsvg_height=0\nx_label=x\ny_label=\nnum_x_minorticks=3\nnum_y_minorticks=12\ndraw_xaxis=false\ndraw_yaxis=true\n"
    );
    let back = Config::from_config_text(&text);
    assert_eq!(back.search_path, c.search_path);
    assert_eq!((back.svg_width, back.svg_height), (1234, 0));
    assert_eq!((back.x_label.as_str(), back.y_label.as_str()), ("x", ""));
    assert_eq!((back.num_x_minorticks, back.num_y_minorticks), (3, 12));
    assert_eq!((back.draw_xaxis, back.draw_yaxis), (false, true));
}

#[test]
fn numbers_like_std() {
    for s in ["0", "42", "+7", "", "+", "-1", "12a", "18446744073709551615", "18446744073709551616", "007"] {
        assert_eq!(parse_unsigned_chars(&chars(s), u64::MAX), s.parse::<u64>().ok());
        assert_eq!(parse_unsigned_chars(&chars(s), u32::MAX as u64), s.parse::<u32>().ok().map(|v| v as u64));
    }
    assert_eq!(group_name(0), "G0");
    assert_eq!(group_name(1234567890123), "G1234567890123");
    assert_eq!(
        missing_file_text(FileID(usize::MAX)),
        format!("Requested file not present in registry: FileID({})", usize::MAX)
    );
}

#[test]
fn opus_extensions_and_aliases() {
    assert!(is_opus_extension("0"));
    assert!(is_opus_extension("12"));
    assert!(!is_opus_extension("csv"));
    assert!(!is_opus_extension("4294967296"));
    assert_eq!(shorten_alias("sample_a_b", '_'), "sample_a");
    assert_eq!(shorten_alias("sample", '_'), "sample");
    assert_eq!(shorten_alias("_x", '_'), "");
}

#[test]
fn carriage_returns_like_str_lines() {
    let c = Config::from_config_text("x_label=a\r\ny_label=b\r");
    assert_eq!(c.x_label, "a");
    assert_eq!(c.y_label, "b\r");
    let lines: Vec<&str> = "x_label=a\r\ny_label=b\r".lines().collect();
    assert_eq!(lines, vec!["x_label=a", "y_label=b\r"]);
}

#[test]
fn comment_lines_change_nothing() {
    let plain = Config::from_config_text("svg_width=10\nx_label=q\n");
    let commented = Config::from_config_text("# top\nsvg_width=10\n#x_label=z\nx_label=q\n# end");
    assert_eq!(plain.to_config_text(), commented.to_config_text());
}
