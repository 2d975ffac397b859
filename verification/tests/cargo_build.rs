use stainless_compiler::cargo_build::{
    append_export, check_output_name, check_rustc_release, combine_sources, default_output_name,
    display_source_paths, Builder, Export, ExportableFunction,
};

#[test]
fn derives_a_generated_output_name() {
    assert_eq!(
        default_output_name("src/application.stl"),
        "application.stainless.rs"
    );
}

#[test]
fn preserves_additional_source_order() {
    let builder = Builder::new("src/library.stl")
        .add_source("src/generated.stl")
        .add_source("tests/library_test.stl");

    assert_eq!(
        builder.sources(),
        &vec![
            String::from("src/library.stl"),
            String::from("src/generated.stl"),
            String::from("tests/library_test.stl"),
        ]
    );
    assert_eq!(
        display_source_paths(builder.sources()),
        "`src/library.stl`, `src/generated.stl`, `tests/library_test.stl`"
    );
}

#[test]
fn output_name_follows_the_file_stem() {
    assert_eq!(default_output_name("a/b/archive.tar.stl"), "archive.tar.stainless.rs");
    assert_eq!(default_output_name(".hidden"), ".hidden.stainless.rs");
    assert_eq!(default_output_name("dir/"), "dir.stainless.rs");
    assert_eq!(default_output_name("noext"), "noext.stainless.rs");
    assert_eq!(default_output_name("trailing."), "trailing.stainless.rs");
    assert_eq!(default_output_name(".."), "stainless.stainless.rs");
    assert_eq!(default_output_name("/"), "stainless.stainless.rs");
    assert_eq!(default_output_name("a/./."), "a.stainless.rs");
}

#[test]
fn builder_records_output_name_and_exports() {
    let builder = Builder::new("main.stl")
        .output_name("out.rs")
        .export("app::run", "run");
    assert_eq!(builder.configured_output_name(), Some(&String::from("out.rs")));
    assert_eq!(
        builder.exports(),
        &vec![Export {
            stainless_path: String::from("app::run"),
            rust_name: String::from("run"),
        }]
    );
    let plain = Builder::new("main.stl");
    assert_eq!(plain.configured_output_name(), None);
    assert!(plain.exports().is_empty());
}

#[test]
fn sources_combine_with_newlines_after_non_empty_text() {
    let fragments = vec![String::new(), String::from("a"), String::from("b")];
    assert_eq!(combine_sources(&fragments), "a\nb");
    assert_eq!(combine_sources(&Vec::new()), "");
}

#[test]
fn rustc_release_must_match_the_bindings() {
    let good = "rustc 1.97.0\nbinary: rustc\nrelease: 1.97.2\nLLVM version: 19\n";
    assert!(check_rustc_release(good).is_ok());
    let windows = "rustc 1.97.0\r\nrelease: 1.97.0\r\n";
    assert!(check_rustc_release(windows).is_ok());
    let other = "release: 1.80.1\n";
    assert_eq!(
        check_rustc_release(other).unwrap_err().message(),
        "Stainless's native bindings target Rust 1.97, but the active rustc reports 1.80.1; select a matching Rust toolchain or Stainless compiler release"
    );
    assert_eq!(
        check_rustc_release("rustc 1.97.0\n").unwrap_err().message(),
        "rustc `-Vv` did not report a release"
    );
}

#[test]
fn output_name_must_be_a_plain_file_name() {
    assert!(check_output_name("app.rs").is_ok());
    assert_eq!(
        check_output_name("dir/app.rs").unwrap_err().message(),
        "the Stainless output name must be one plain UTF-8 filename"
    );
    assert!(check_output_name("..").is_err());
}

fn function(path: &[&str], mangled: &str, is_free: bool) -> ExportableFunction {
    ExportableFunction {
        path: path.iter().map(|s| s.to_string()).collect(),
        mangled_name: mangled.to_string(),
        is_free,
        has_definition: true,
    }
}

#[test]
fn exports_append_one_pub_use() {
    let functions = vec![
        function(&["app", "math", "add"], "add_0", true),
        function(&["app", "math", "add"], "add_1", false),
    ];
    let export = Export {
        stainless_path: String::from("app::math::add"),
        rust_name: String::from("stainless_add"),
    };
    let mut generated = String::from("// generated");
    append_export(&mut generated, &functions, &export).unwrap();
    assert_eq!(
        generated,
        "// generated\n#[allow(unused_imports)]\npub use crate::__stainless_namespace_app::__stainless_namespace_math::add_0 as stainless_add;\n"
    );
}

#[test]
fn exports_reject_bad_names_paths_and_ambiguity() {
    let functions = vec![
        function(&["f"], "f_0", true),
        function(&["f"], "f_1", true),
    ];
    let mut generated = String::new();
    let bad_name = Export { stainless_path: String::from("f"), rust_name: String::from("fn") };
    assert!(append_export(&mut generated, &functions, &bad_name)
        .unwrap_err()
        .message()
        .starts_with("invalid Rust export name `fn`: "));
    let bad_path = Export { stainless_path: String::from("::f"), rust_name: String::from("g") };
    assert_eq!(
        append_export(&mut generated, &functions, &bad_path).unwrap_err().message(),
        "invalid Stainless export path `::f`"
    );
    let missing = Export { stainless_path: String::from("h"), rust_name: String::from("g") };
    assert_eq!(
        append_export(&mut generated, &functions, &missing).unwrap_err().message(),
        "cannot export missing Stainless free function `h`"
    );
    let overloaded = Export { stainless_path: String::from("f"), rust_name: String::from("g") };
    assert_eq!(
        append_export(&mut generated, &functions, &overloaded).unwrap_err().message(),
        "cannot export overloaded Stainless function `f` without a signature"
    );
    assert!(generated.is_empty());
}
