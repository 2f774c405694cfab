use notebook_compiler::compiler::expand_tabs;
use notebook_compiler::escape::escape;
use notebook_compiler::extensions::get_extension;
use notebook_compiler::textutil::u8_to_string;
use notebook_compiler::titlecase::to_title_case;

#[test]
fn title_case_capitalizes_words() {
    assert_eq!(to_title_case("foo-bar_baz"), "Foo Bar Baz");
}

#[test]
fn title_case_collapses_separator_runs() {
    assert_eq!(to_title_case("a--_  b"), "A B");
    assert_eq!(to_title_case("__hello__world__"), "Hello World ");
}

#[test]
fn title_case_is_idempotent_on_examples() {
    for s in ["foo-bar_baz", "already Cased", "  x ", "", "a-b-c"] {
        let once = to_title_case(s);
        let twice = to_title_case(&once);
        assert_eq!(twice, once);
    }
}

#[test]
fn title_case_keeps_non_letters() {
    assert_eq!(to_title_case("2sat solver"), "2sat Solver");
}

#[test]
fn escape_rewrites_each_special_character() {
    assert_eq!(escape("&"), "\\&");
    assert_eq!(escape("%"), "\\%");
    assert_eq!(escape("$"), "\\$");
    assert_eq!(escape("#"), "\\#");
    assert_eq!(escape("_"), "\\_");
    assert_eq!(escape("{"), "\\{");
    assert_eq!(escape("}"), "\\}");
    assert_eq!(escape("~"), "\\texttt{\\~{}}");
    assert_eq!(escape("^"), "\\^{}");
    assert_eq!(escape("\\"), "$\\backslash$");
}

#[test]
fn escape_passes_plain_text_through() {
    assert_eq!(escape("plain text 123"), "plain text 123");
}

#[test]
fn escape_mixed_label() {
    assert_eq!(escape("a&b_c"), "a\\&b\\_c");
}

#[test]
fn escape_distinct_inputs_stay_distinct() {
    // injectivity on a pair that a sloppier scheme could collide
    assert_ne!(escape("\\&"), escape("&&"));
    assert_ne!(escape("~"), escape("\\texttt{\\~{}}"));
}

#[test]
fn extension_after_last_dot() {
    assert_eq!(get_extension("proj/algo/sort.cpp"), "cpp");
    assert_eq!(get_extension("archive.tar.gz"), "gz");
}

#[test]
fn extension_of_dotless_name_is_whole_name() {
    assert_eq!(get_extension("makefile"), "makefile");
}

#[test]
fn extension_of_trailing_dot_is_empty() {
    assert_eq!(get_extension("weird."), "");
}

#[test]
fn u8_renders_in_decimal() {
    assert_eq!(u8_to_string(0), "0");
    assert_eq!(u8_to_string(7), "7");
    assert_eq!(u8_to_string(42), "42");
    assert_eq!(u8_to_string(255), "255");
}

#[test]
fn tabs_expand_to_fixed_width_runs() {
    assert_eq!(expand_tabs("a\tb", 4), "a    b");
    assert_eq!(expand_tabs("\t\t", 2), "    ");
    assert_eq!(expand_tabs("none", 8), "none");
    assert_eq!(expand_tabs("x\ty", 0), "xy");
}
