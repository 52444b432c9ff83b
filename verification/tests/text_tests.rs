use ssdd_on_top::directive::{directive_name, first_directive_named, last_directive_named, last_path_segment};
use ssdd_on_top::is_default;
use ssdd_on_top::text::{lower_case_first_letter, opt_str_eq, trim_end_slashes};

fn text(x: &str) -> String {
    x.to_string()
}

#[test]
fn lower_case_first_letter_of_a_long_name() {
    assert_eq!(lower_case_first_letter("Upstream"), "upstream");
    assert_eq!(lower_case_first_letter("HTTP"), "hTTP");
    assert_eq!(lower_case_first_letter("Ébc"), "ébc");
}

#[test]
fn lower_case_first_letter_of_a_short_name_lowers_it_whole() {
    assert_eq!(lower_case_first_letter("AB"), "ab");
    assert_eq!(lower_case_first_letter("É"), "é");
    assert_eq!(lower_case_first_letter(""), "");
}

#[test]
fn trim_end_slashes_removes_only_the_last_slashes() {
    assert_eq!(trim_end_slashes("http://x.org//"), "http://x.org");
    assert_eq!(trim_end_slashes("a/b"), "a/b");
    assert_eq!(trim_end_slashes("///"), "");
}

#[test]
fn optional_texts_compare_by_content() {
    assert!(opt_str_eq(&Some(text("a")), &Some(text("a"))));
    assert!(!opt_str_eq(&Some(text("a")), &Some(text("b"))));
    assert!(!opt_str_eq(&Some(text("a")), &None));
    assert!(opt_str_eq(&None, &None));
}

#[test]
fn last_segment_of_a_type_path() {
    assert_eq!(last_path_segment("ssdd_on_top::config::Upstream"), "Upstream");
    assert_eq!(last_path_segment("plain"), "plain");
    assert_eq!(last_path_segment("a::"), "");
    assert_eq!(last_path_segment("a:::b"), ":b");
}

#[test]
fn directive_names_of_types() {
    assert_eq!(directive_name("ssdd_on_top::config::Upstream"), "upstream");
    assert_eq!(directive_name("ssdd_on_top::config::Server"), "server");
    assert_eq!(directive_name("ssdd_on_top::config::Http"), "http");
    assert_eq!(directive_name("ssdd_on_top::config::Cache"), "cache");
}

#[test]
fn first_and_last_directive_of_a_name() {
    let names = vec![text("cache"), text("http"), text("cache")];
    assert_eq!(first_directive_named(&names, "cache"), Some(0));
    assert_eq!(last_directive_named(&names, "cache"), Some(2));
    assert_eq!(first_directive_named(&names, "http"), Some(1));
    assert_eq!(last_directive_named(&names, "server"), None);
    assert_eq!(first_directive_named(&names, "server"), None);
}

#[test]
fn default_values_are_recognised() {
    assert!(is_default(&0u64));
    assert!(!is_default(&3u64));
    assert!(is_default(&false));
    assert!(is_default(&String::new()));
    assert!(!is_default(&Some(1u8)));
    assert!(is_default(&None::<u8>));
}
