//! Cell parsing, trimming, number rendering, and shell decisions.
use csv_charts::numtext::parse_decimal_micro;
use csv_charts::numtext::parse_i32;
use csv_charts::numtext::parse_u8;
use csv_charts::numtext::u64_to_string;
use csv_charts::shell::accept_output_filename;
use csv_charts::shell::canvas_size;
use csv_charts::shell::is_quit;
use csv_charts::shell::parse_choice;
use csv_charts::shell::valid_input_filename;
use csv_charts::shell::ChartKind;
use csv_charts::text::str_eq;
use csv_charts::text::trim;

#[test]
fn parse_i32_plain() {
    assert_eq!(parse_i32("42"), Some(42));
    assert_eq!(parse_i32("-7"), Some(-7));
    assert_eq!(parse_i32("+3"), Some(3));
    assert_eq!(parse_i32("0"), Some(0));
}

#[test]
fn parse_i32_limits() {
    assert_eq!(parse_i32("2147483647"), Some(i32::MAX));
    assert_eq!(parse_i32("-2147483648"), Some(i32::MIN));
    assert_eq!(parse_i32("2147483648"), None);
    assert_eq!(parse_i32("-2147483649"), None);
    assert_eq!(parse_i32("99999999999999999999"), None);
}

#[test]
fn parse_i32_rejects() {
    assert_eq!(parse_i32(""), None);
    assert_eq!(parse_i32("abc"), None);
    assert_eq!(parse_i32("1 2"), None);
    assert_eq!(parse_i32("-"), None);
    assert_eq!(parse_i32("1.5"), None);
}

#[test]
fn parse_u8_components() {
    assert_eq!(parse_u8("0"), Some(0));
    assert_eq!(parse_u8("255"), Some(255));
    assert_eq!(parse_u8("+17"), Some(17));
    assert_eq!(parse_u8("256"), None);
    assert_eq!(parse_u8("-1"), None);
    assert_eq!(parse_u8(""), None);
}

#[test]
fn parse_decimal_whole() {
    assert_eq!(parse_decimal_micro("25"), Some(25_000_000));
    assert_eq!(parse_decimal_micro("-2"), Some(-2_000_000));
    assert_eq!(parse_decimal_micro("+1"), Some(1_000_000));
    assert_eq!(parse_decimal_micro("0"), Some(0));
}

#[test]
fn parse_decimal_fractional() {
    assert_eq!(parse_decimal_micro("3.5"), Some(3_500_000));
    assert_eq!(parse_decimal_micro("-2.25"), Some(-2_250_000));
    assert_eq!(parse_decimal_micro("0.000001"), Some(1));
    assert_eq!(parse_decimal_micro("12.000000"), Some(12_000_000));
    assert_eq!(parse_decimal_micro(".5"), Some(500_000));
    assert_eq!(parse_decimal_micro("5."), Some(5_000_000));
    assert_eq!(parse_decimal_micro("-.25"), Some(-250_000));
}

#[test]
fn parse_decimal_exponents() {
    assert_eq!(parse_decimal_micro("1e3"), Some(1_000_000_000));
    assert_eq!(parse_decimal_micro("2.5e3"), Some(2_500_000_000));
    assert_eq!(parse_decimal_micro("1E-2"), Some(10_000));
    assert_eq!(parse_decimal_micro("5e+2"), Some(500_000_000));
    assert_eq!(parse_decimal_micro("0e18"), Some(0));
    assert_eq!(parse_decimal_micro("25e-6"), Some(25));
}

#[test]
fn parse_decimal_rejects() {
    assert_eq!(parse_decimal_micro(""), None);
    assert_eq!(parse_decimal_micro("."), None);
    // a fraction finer than one millionth is rejected, never rounded
    assert_eq!(parse_decimal_micro("1.2345678"), None);
    assert_eq!(parse_decimal_micro("0.0000001"), None);
    assert_eq!(parse_decimal_micro("1e-7"), None);
    // non-numbers, including the float specials, are rejected
    assert_eq!(parse_decimal_micro("x"), None);
    assert_eq!(parse_decimal_micro("inf"), None);
    assert_eq!(parse_decimal_micro("nan"), None);
    // exponent shapes outside the grammar
    assert_eq!(parse_decimal_micro("1e"), None);
    assert_eq!(parse_decimal_micro("e3"), None);
    assert_eq!(parse_decimal_micro("1e19"), None);
    // out of the representable range
    assert_eq!(parse_decimal_micro("1000000000000"), None);
}

#[test]
fn render_decimal_numbers() {
    assert_eq!(u64_to_string(0).as_str(), "0");
    assert_eq!(u64_to_string(7).as_str(), "7");
    assert_eq!(u64_to_string(10).as_str(), "10");
    assert_eq!(u64_to_string(12345).as_str(), "12345");
}

#[test]
fn trim_strips_whitespace() {
    assert_eq!(trim("  5 "), "5");
    assert_eq!(trim("\t a b \r\n"), "a b");
    assert_eq!(trim(""), "");
    assert_eq!(trim("   "), "");
    assert_eq!(trim("x"), "x");
    assert_eq!(trim("\u{00A0}5\u{2003}"), "5");
    assert_eq!(trim("\u{3000}ok\u{2028}"), "ok");
}

#[test]
fn string_equality() {
    assert!(str_eq("abc", "abc"));
    assert!(!str_eq("abc", "abd"));
    assert!(!str_eq("abc", "ab"));
}

#[test]
fn quit_words() {
    assert!(is_quit("q"));
    assert!(is_quit("quit"));
    assert!(!is_quit("Q"));
    assert!(!is_quit("exit"));
    assert!(!is_quit(""));
}

#[test]
fn menu_choices() {
    assert_eq!(parse_choice("1"), Some(ChartKind::Bar));
    assert_eq!(parse_choice("2"), Some(ChartKind::Scatter));
    assert_eq!(parse_choice("3"), Some(ChartKind::Pie));
    assert_eq!(parse_choice("4"), Some(ChartKind::LineArea));
    assert_eq!(parse_choice("5"), Some(ChartKind::Radar));
    assert_eq!(parse_choice("6"), None);
    assert_eq!(parse_choice(""), None);
}

#[test]
fn canvas_dimensions() {
    assert_eq!(canvas_size(ChartKind::Bar), (640, 480));
    assert_eq!(canvas_size(ChartKind::Scatter), (600, 400));
    assert_eq!(canvas_size(ChartKind::Pie), (350, 350));
    assert_eq!(canvas_size(ChartKind::LineArea), (600, 400));
    assert_eq!(canvas_size(ChartKind::Radar), (800, 800));
}

#[test]
fn input_filenames() {
    assert!(valid_input_filename("data.csv", ".csv"));
    assert!(valid_input_filename("DATA.CSV", ".csv"));
    assert!(!valid_input_filename("data.txt", ".csv"));
    assert!(!valid_input_filename("repeat", ".csv"));
    assert!(!valid_input_filename("Repeat", ".csv"));
    assert!(!valid_input_filename("", ".csv"));
}

#[test]
fn existing_output_file_is_never_accepted() {
    assert!(!accept_output_filename("chart.png", ".png", true));
    assert!(accept_output_filename("chart.png", ".png", false));
    assert!(!accept_output_filename("chart.gif", ".png", false));
    assert!(!accept_output_filename("REPEAT", ".png", false));
}
