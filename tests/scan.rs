use py_env::{missing, rip_deps, split_words, trim_syntax, unmet_dependencies};

fn strings(v: &[&str]) -> Vec<String> {
    v.iter().map(|s| s.to_string()).collect()
}

#[test]
fn scan_plain_import() {
    assert_eq!(rip_deps("import faker"), strings(&["faker"]));
}

#[test]
fn scan_from_import() {
    assert_eq!(rip_deps("from faker import Faker"), strings(&["faker"]));
}

#[test]
fn scan_without_imports_is_empty() {
    assert!(rip_deps("print('hello world')").is_empty());
    assert!(rip_deps("").is_empty());
    assert!(rip_deps("   \n\t  ").is_empty());
    assert!(rip_deps("from x").is_empty());
}

#[test]
fn scan_trims_punctuation_and_keeps_first_mention_order() {
    let code = "import faker; import numpy\nfrom 'requests', import get\nimport faker.";
    assert_eq!(rip_deps(code), strings(&["faker", "numpy", "requests"]));
}

#[test]
fn scan_import_at_end_names_nothing() {
    assert!(rip_deps("x = 1 import").is_empty());
}

#[test]
fn scan_from_without_import_skips_three_words() {
    // `from` takes the three words after it, so an `import` among them starts nothing.
    assert!(rip_deps("from a import").is_empty());
    assert!(rip_deps("from a b import c").is_empty());
    assert_eq!(rip_deps("from a b c import d"), strings(&["d"]));
}

#[test]
fn split_on_unicode_white_space() {
    assert_eq!(split_words("  a\u{3000}bc\u{2009}d\t\n"), strings(&["a", "bc", "d"]));
    assert!(split_words("").is_empty());
}

#[test]
fn trim_cuts_both_ends() {
    assert_eq!(trim_syntax(";'faker\",."), "faker");
    assert_eq!(trim_syntax("os.path"), "os.path");
    assert_eq!(trim_syntax(";;.."), "");
    assert_eq!(trim_syntax(""), "");
}

#[test]
fn missing_keeps_order_and_drops_installed() {
    let names = strings(&["faker", "numpy", "requests"]);
    let installed = strings(&["numpy", "other"]);
    assert_eq!(missing(&names, &installed), strings(&["faker", "requests"]));
}

#[test]
fn nothing_missing_once_every_module_is_installed() {
    let code = "import faker\nfrom numpy import array";
    let installed = strings(&["faker", "numpy", "extra"]);
    assert!(unmet_dependencies(code, &installed).is_empty());
    assert_eq!(unmet_dependencies(code, &strings(&["faker"])), strings(&["numpy"]));
}
