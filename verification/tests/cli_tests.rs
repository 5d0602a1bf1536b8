use slafling::cli::{search_types_to_api_string, SearchType};
use slafling::text::{
    contains_str, dec_str, eq_ignore_ascii_case, eq_str, join_commas, pad_right, split_commas,
    str_le, trim, trim_end,
};

#[test]
fn as_api_str_values() {
    assert_eq!(SearchType::PublicChannel.as_api_str(), "public_channel");
    assert_eq!(SearchType::PrivateChannel.as_api_str(), "private_channel");
    assert_eq!(SearchType::Im.as_api_str(), "im");
    assert_eq!(SearchType::Mpim.as_api_str(), "mpim");
}

#[test]
fn search_types_join_with_commas() {
    let types = vec![SearchType::PublicChannel, SearchType::Im];
    assert_eq!(search_types_to_api_string(&types), "public_channel,im");
    let one = vec![SearchType::Mpim];
    assert_eq!(search_types_to_api_string(&one), "mpim");
}

#[test]
fn case_insensitive_equality() {
    assert!(eq_ignore_ascii_case("Table", "tABLE"));
    assert!(!eq_ignore_ascii_case("table", "tables"));
    assert!(eq_ignore_ascii_case("", ""));
}

#[test]
fn exact_containment_and_equality() {
    assert!(contains_str("hello world", "lo wo"));
    assert!(!contains_str("hello", "Hello"));
    assert!(eq_str("abc", "abc"));
    assert!(!eq_str("abc", "abd"));
}

#[test]
fn trimming() {
    assert_eq!(trim("  hello \n"), "hello");
    assert_eq!(trim_end("hello \t\n"), "hello");
    assert_eq!(trim_end("hello"), "hello");
    assert_eq!(trim("   "), "");
}

#[test]
fn decimal_rendering() {
    assert_eq!(dec_str(0), "0");
    assert_eq!(dec_str(7), "7");
    assert_eq!(dec_str(1024), "1024");
    assert_eq!(dec_str(18_446_744_073_709_551_615), "18446744073709551615");
}

#[test]
fn lexicographic_order() {
    assert!(str_le("alpha", "beta"));
    assert!(str_le("alpha", "alpha"));
    assert!(!str_le("beta", "alpha"));
    assert!(str_le("ab", "abc"));
    assert!(!str_le("abc", "ab"));
    assert!(str_le("Dev", "dev"));
}

#[test]
fn padding() {
    assert_eq!(pad_right("ab", 5), "ab   ");
    assert_eq!(pad_right("abcdef", 3), "abcdef");
}

#[test]
fn split_and_join_commas() {
    let pieces = split_commas("a,b,,c");
    assert_eq!(pieces, vec!["a", "b", "", "c"]);
    assert_eq!(split_commas(""), vec![""]);
    assert_eq!(join_commas(&pieces), "a,b,,c");
    assert_eq!(join_commas(&Vec::new()), "");
}
