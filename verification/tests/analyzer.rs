use lingo::args::TargetLanguage;
use lingo::util::analyzer::{parse_target_language, search_inside_file};

#[test]
fn main_reactor_is_found_with_its_target() {
    let text = "target Cpp;\n\nimport Sensor from \"lib/Sensor.lf\"\n\nmain reactor Blink {\n}\n";
    let found = search_inside_file(text, "src/Blink.lf").unwrap();
    assert_eq!(found.name, "Blink");
    assert_eq!(found.target, TargetLanguage::Cpp);
    assert_eq!(found.path, "src/Blink.lf");
}

#[test]
fn main_reactor_with_parameters_is_found() {
    let text = "target TypeScript {\n    timeout: 1 sec\n}\nmain  reactor   Web(port: number = 80) {\n}";
    let found = search_inside_file(text, "Web.lf").unwrap();
    assert_eq!(found.name, "Web");
    assert_eq!(found.target, TargetLanguage::TypeScript);
}

#[test]
fn file_without_target_is_taken_for_c() {
    let found = search_inside_file("main reactor Plain {", "Plain.lf").unwrap();
    assert_eq!(found.name, "Plain");
    assert_eq!(found.target, TargetLanguage::C);
}

#[test]
fn target_declared_behind_the_main_reactor_does_not_count() {
    let found = search_inside_file("main reactor Early {\n}\ntarget Python;", "Early.lf").unwrap();
    assert_eq!(found.target, TargetLanguage::C);
}

#[test]
fn unknown_target_is_passed_over() {
    let found = search_inside_file("target Rust;\ntarget Cobol;\nmain reactor Old {", "Old.lf").unwrap();
    assert_eq!(found.target, TargetLanguage::Rust);
}

#[test]
fn first_main_reactor_counts() {
    let found = search_inside_file("main reactor One {\n}\nmain reactor Two {\n}", "x.lf").unwrap();
    assert_eq!(found.name, "One");
}

#[test]
fn file_without_main_reactor_gives_nothing() {
    assert!(search_inside_file("target C;\nreactor Helper {\n}\n", "Helper.lf").is_none());
    assert!(search_inside_file("", "Empty.lf").is_none());
    assert!(search_inside_file("domain reactor X {", "x.lf").is_none());
    assert!(search_inside_file("main reactor {", "x.lf").is_none());
}

#[test]
fn target_language_names_ignore_case() {
    assert_eq!(parse_target_language("c"), Some(TargetLanguage::C));
    assert_eq!(parse_target_language("C"), Some(TargetLanguage::C));
    assert_eq!(parse_target_language("Cpp"), Some(TargetLanguage::Cpp));
    assert_eq!(parse_target_language("RUST"), Some(TargetLanguage::Rust));
    assert_eq!(parse_target_language("TypeScript"), Some(TargetLanguage::TypeScript));
    assert_eq!(parse_target_language("python"), Some(TargetLanguage::Python));
    assert_eq!(parse_target_language("c++"), None);
    assert_eq!(parse_target_language(""), None);
}
