use craby::android::{build_gradle_path, is_gradle_configured, is_valid_android_package_name, join_path};
use craby::doctor::{DoctorOptions, NotConfigured, Report, Status};
use craby::header::replace_cxx_header;
use craby::error::{GenerationError, ValidationError};
use craby::schema::{CodegenContext, Schema};

#[test]
fn gradle_file_lies_below_the_android_directory() {
    assert_eq!(build_gradle_path("/work/app"), "/work/app/android/build.gradle");
    assert_eq!(build_gradle_path("/work/app/"), "/work/app/android/build.gradle");
    assert_eq!(build_gradle_path(""), "android/build.gradle");
    assert_eq!(build_gradle_path("."), "./android/build.gradle");
    assert_eq!(
        build_gradle_path("/work/app"),
        std::path::Path::new("/work/app").join("android").join("build.gradle").to_str().unwrap()
    );
}

#[test]
fn join_path_adds_one_separator_where_needed() {
    assert_eq!(join_path("a", "b"), "a/b");
    assert_eq!(join_path("a/", "b"), "a/b");
    assert_eq!(join_path("", "b"), "b");
    assert_eq!(join_path("/", "b"), "/b");
}

#[test]
fn gradle_is_configured_where_all_three_words_occur() {
    let full = "android {\n  externalNativeBuild {\n    cmake {\n      path \"CMakeLists.txt\"\n    }\n  }\n}\n";

    assert!(is_gradle_configured(full));
    assert!(!is_gradle_configured(&full.replace("CMakeLists.txt", "Makefile")));
    assert!(!is_gradle_configured(&full.replace("externalNativeBuild", "nativeBuild")));
    assert!(!is_gradle_configured("externalNativeBuild CMakeLists.txt"));
    assert!(!is_gradle_configured(""));
}

#[test]
fn package_names_are_dotted_lower_case_segments() {
    for name in ["com.example.app", "a", "a1_b.c_2", "com.example_app.v2"] {
        assert!(is_valid_android_package_name(name), "{name}");
    }
    for name in [
        "", ".", "com.", ".com", "com..app", "Com.app", "com.App", "1com.app", "com.1app", "_a",
        "com.exa mple", "com.example\n", "com-example", "c\u{e9}.app",
    ] {
        assert!(!is_valid_android_package_name(name), "{name:?}");
    }
}

#[test]
fn package_names_are_those_that_the_pattern_matches() {
    let pattern = regex::Regex::new(r"^[a-z][a-z0-9_]*(\.[a-z][a-z0-9_]*)*$").unwrap();
    let letters = ['a', 'z', 'A', '0', '9', '_', '.', '-', ' ', '\n'];
    let mut names = vec![String::new()];
    for _ in 0..4 {
        let mut longer = Vec::new();
        for name in &names {
            for c in letters {
                longer.push(format!("{name}{c}"));
            }
        }
        for name in &longer {
            assert_eq!(is_valid_android_package_name(name), pattern.is_match(name), "{name:?}");
        }
        names = longer;
    }
}

#[test]
fn header_includes_the_bridge_from_the_build_directory() {
    assert_eq!(
        replace_cxx_header("#pragma once\n#include \"rust/cxx.h\"\n#include <string>\n"),
        "#pragma once\n#include \"cxx.h\"\n#include <string>\n"
    );
    assert_eq!(
        replace_cxx_header("#include \"rust/cxx.h\"\n#include \"rust/cxx.h\""),
        "#include \"cxx.h\"\n#include \"cxx.h\""
    );
    assert_eq!(replace_cxx_header("#include <rust/cxx.h>"), "#include <rust/cxx.h>");
    assert_eq!(replace_cxx_header(""), "");
}

#[test]
fn diagnosis_passes_where_everything_passed() {
    let report = Report::new().record(Some(Status::Passed)).record(Some(Status::Passed));

    assert!(Report::new().passed);
    assert_eq!(Report::new().conclude(), Ok(()));
    assert_eq!(report.conclude(), Ok(()));
}

#[test]
fn diagnosis_fails_where_anything_did_not_pass() {
    let report = Report::new().record(Some(Status::Passed)).record(None).record(Some(Status::Passed));

    assert!(!report.passed);
    assert_eq!(report.conclude(), Err(NotConfigured));
}

#[test]
fn options_and_context_hold_plain_values() {
    let options = DoctorOptions { project_root: "/work/app".to_string() };
    let context = CodegenContext {
        name: "app".to_string(),
        root: options.project_root.clone(),
        schemas: vec![],
    };

    assert_eq!(options.project_root, "/work/app");
    assert_eq!(context.name, "app");
    assert_eq!(context.root, "/work/app");
    assert!(context.schemas.is_empty());
}

fn module(name: &str) -> Schema {
    Schema::new(name.to_string(), vec![], vec![], vec![], vec![]).unwrap()
}

#[test]
fn context_holds_modules_of_different_names() {
    let context =
        CodegenContext::new("app".to_string(), "/work".to_string(), vec![module("A"), module("B")])
            .unwrap();

    assert_eq!(context.name, "app");
    assert_eq!(context.root, "/work");
    assert_eq!(context.schemas.len(), 2);
    assert_eq!(context.schemas[1].module_name(), "B");
    assert!(CodegenContext::new(String::new(), String::new(), vec![]).is_some());
}

#[test]
fn context_refuses_two_modules_of_one_name() {
    let twice = vec![module("A"), module("B"), module("A")];

    assert!(!craby::schema::has_distinct_modules(&twice));
    assert!(CodegenContext::new("app".to_string(), "/work".to_string(), twice).is_none());
}

#[test]
fn every_error_has_its_own_words() {
    let generation = [
        GenerationError::UnresolvedTypeReference,
        GenerationError::CyclicTypeDependency,
        GenerationError::MalformedSignature,
    ];

    assert_eq!(
        GenerationError::CyclicTypeDependency.message(),
        "types refer to each other in a circle"
    );
    assert_eq!(
        GenerationError::UnresolvedTypeReference.message(),
        "a type is referred to but not defined"
    );
    assert_eq!(
        GenerationError::MalformedSignature.message(),
        "a type has a shape that cannot be rendered"
    );
    assert_eq!(ValidationError::MissingHashMarker.message(), "the generated code records no hash");
    assert_eq!(
        ValidationError::HashMismatch.message(),
        "the generated code does not stand for the schemas: generate it again"
    );
    for a in generation {
        for b in generation {
            assert_eq!(a == b, a.message() == b.message());
        }
    }
}
