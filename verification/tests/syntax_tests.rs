use gitspark::syntax::{
    choose_syntax, first_line_patterns_ok, get_syntax, get_syntax_checked, special_file_lookup,
    syntax_theme, syntax_theme_checked, SyntaxLookup,
};
use syntect::highlighting::ThemeSet;
use syntect::parsing::SyntaxSet;

#[test]
fn well_known_file_names() {
    assert!(matches!(special_file_lookup("Dockerfile"), Some(SyntaxLookup::ByName("Dockerfile"))));
    assert!(matches!(special_file_lookup("Cargo.toml"), Some(SyntaxLookup::ByExtension("toml"))));
    assert!(matches!(special_file_lookup("Cargo.lock"), Some(SyntaxLookup::ByExtension("toml"))));
    assert!(matches!(special_file_lookup("Makefile"), Some(SyntaxLookup::ByName("Makefile"))));
    assert!(special_file_lookup("makefile").is_none());
    assert!(special_file_lookup("main.rs").is_none());
}

#[test]
fn syntax_by_extension_first_line_and_fallback() {
    let set = SyntaxSet::load_defaults_newlines();
    assert_eq!(get_syntax(&set, "src/main.rs", None).name, "Rust");
    assert_eq!(get_syntax(&set, "build/Makefile", None).name, "Makefile");
    assert_eq!(get_syntax(&set, "scripts/run", Some("#!/bin/bash\n")).name, "Bourne Again Shell (bash)");
    assert_eq!(get_syntax(&set, "notes.unknownext", None).name, "Plain Text");
    assert_eq!(get_syntax(&set, "README", Some("hello\n")).name, "Plain Text");
}

#[test]
fn diff_theme_is_base16_ocean_dark() {
    let themes = ThemeSet::load_defaults();
    let theme = syntax_theme(&themes);
    assert!(std::ptr::eq(theme, &themes.themes["base16-ocean.dark"]));
    assert!(!std::ptr::eq(theme, &themes.themes["InspiredGitHub"]));
}


#[test]
fn choice_from_file_name_and_extension() {
    let set = SyntaxSet::load_defaults_newlines();
    assert!(first_line_patterns_ok(&set));
    assert_eq!(choose_syntax(&set, Some("Makefile"), None, None).name, "Makefile");
    assert_eq!(choose_syntax(&set, Some("lib.rs"), Some("rs"), None).name, "Rust");
    assert_eq!(choose_syntax(&set, Some("lib.RS"), Some("RS"), None).name, "Rust");
    assert_eq!(choose_syntax(&set, None, None, None).name, "Plain Text");
    assert_eq!(choose_syntax(&set, Some("x"), Some("nope"), Some("#!/bin/bash\n")).name, "Bourne Again Shell (bash)");
    assert_eq!(get_syntax_checked(&set, "a/b.py", None).map(|s| s.name.as_str()), Some("Python"));
    let empty = SyntaxSet::new();
    assert!(get_syntax_checked(&empty, "a.rs", None).is_none());
}

#[test]
fn theme_checked() {
    let themes = ThemeSet::load_defaults();
    assert!(std::ptr::eq(syntax_theme_checked(&themes).expect("present"), &themes.themes["base16-ocean.dark"]));
    let empty = ThemeSet::default();
    assert!(syntax_theme_checked(&empty).is_none());
}

#[test]
fn first_line_choice_skips_a_byte_order_mark() {
    let set = SyntaxSet::load_defaults_newlines();
    assert_eq!(get_syntax(&set, "scripts/run", Some("\u{feff}#!/bin/bash\n")).name, "Bourne Again Shell (bash)");
    assert_eq!(get_syntax(&set, "scripts/run", Some("")).name, "Plain Text");
}
