use stainless_compiler::interop::builtin::standard_bindings;
use stainless_compiler::interop::model::{
    BindingError, CallStyle, CallableBinding, NativeBindings, NativeTypeBinding, Parameter,
    Receiver, RustLowering, TypeRef,
};

fn native(path: &str) -> TypeRef {
    TypeRef::native(path.to_string(), vec![])
}

fn method(name: &str, receiver: Option<Receiver>, return_type: TypeRef) -> CallableBinding {
    CallableBinding {
        source_name: name.to_string(),
        style: CallStyle::Method,
        receiver,
        parameters: vec![],
        is_async: false,
        return_type,
        rust_result_error: None,
        requirements: vec![],
        lowering: RustLowering::Method {
            rust_name: name.to_string(),
        },
    }
}

fn binding(path: &str, callables: Vec<CallableBinding>) -> NativeTypeBinding {
    NativeTypeBinding {
        stainless_path: path.to_string(),
        rust_path: format!("::{path}"),
        type_parameters: vec![],
        error_format: None,
        callables,
    }
}

#[test]
fn standard_bindings_cover_the_compiler_provided_types() {
    let bindings = standard_bindings().expect("built-in bindings are valid");
    assert_eq!(bindings.types().len(), 12);
    let paths: Vec<&str> = bindings
        .types()
        .iter()
        .map(|binding| binding.stainless_path.as_str())
        .collect();
    let mut sorted = paths.clone();
    sorted.sort();
    assert_eq!(paths, sorted);
    let vec = bindings.type_by_path("rust::Vec").expect("rust::Vec");
    assert_eq!(vec.type_parameters, vec!["T".to_string()]);
    assert_eq!(vec.rust_path, "::std::vec::Vec");
    let map = bindings.type_by_path("rust::Map").expect("rust::Map");
    assert_eq!(map.type_parameters, vec!["K".to_string(), "V".to_string()]);
    assert!(bindings.type_by_path("rust::Missing").is_none());
    let string = bindings.type_by_path("rust::String").expect("rust::String");
    assert!(string
        .find_callable(CallStyle::Method, "is_ascii", &[])
        .is_some());
    assert!(string
        .find_callable(CallStyle::Method, "no_such_method", &[])
        .is_none());
}

#[test]
fn registry_sorts_and_validates_types() {
    let bindings = NativeBindings::new(vec![
        binding("rust::b::B", vec![]),
        binding("rust::a::A", vec![method("len", Some(Receiver::Shared), TypeRef::Usize)]),
    ])
    .expect("valid registry");
    let paths: Vec<&str> = bindings
        .types()
        .iter()
        .map(|binding| binding.stainless_path.as_str())
        .collect();
    assert_eq!(paths, vec!["rust::a::A", "rust::b::B"]);
    assert_eq!(
        bindings
            .type_by_path("rust::a::A")
            .expect("a")
            .find_callable(CallStyle::Method, "len", &[])
            .expect("len")
            .return_type,
        TypeRef::Usize
    );
    assert!(NativeBindings::empty().types().is_empty());
}

#[test]
fn registry_errors_name_the_offending_item() {
    let invalid = NativeBindings::new(vec![binding("std::A", vec![])]).expect_err("invalid path");
    assert_eq!(invalid, BindingError::InvalidNativePath("std::A".to_string()));
    assert_eq!(invalid.message(), "native type path `std::A` must start with `rust::`");

    let duplicate = NativeBindings::new(vec![binding("rust::A", vec![]), binding("rust::A", vec![])])
        .expect_err("duplicate");
    assert_eq!(duplicate.message(), "duplicate native type binding for `rust::A`");

    let missing = NativeBindings::new(vec![binding(
        "rust::A",
        vec![method("len", None, TypeRef::Usize)],
    )])
    .expect_err("missing receiver");
    assert_eq!(missing.message(), "method `rust::A::len` is missing receiver metadata");

    let reference = NativeBindings::new(vec![binding(
        "rust::A",
        vec![method(
            "first",
            Some(Receiver::Shared),
            TypeRef::shared_ref(native("rust::A")),
        )],
    )])
    .expect_err("reference return");
    assert_eq!(
        reference.message(),
        "native callable `rust::A::first` cannot return a reference"
    );

    let duplicate_callable = NativeBindings::new(vec![binding(
        "rust::A",
        vec![
            method("len", Some(Receiver::Shared), TypeRef::Usize),
            method("len", Some(Receiver::Shared), TypeRef::U32),
        ],
    )])
    .expect_err("duplicate callable");
    assert_eq!(
        duplicate_callable.message(),
        "duplicate callable `len` on native type `rust::A`"
    );
}

#[test]
fn type_helpers_build_and_inspect_types() {
    let shared = TypeRef::shared_ref(TypeRef::I32);
    assert!(shared.is_reference());
    assert!(!shared.contains_reference());
    let nested = TypeRef::native("rust::Vec".to_string(), vec![TypeRef::mutable_ref(TypeRef::U8)]);
    assert!(!nested.is_reference());
    assert!(nested.contains_reference());
    let parameter = Parameter::new("value".to_string(), TypeRef::Bool);
    assert_eq!(parameter.name, "value");
    let callable = method("get", Some(Receiver::Shared), TypeRef::Bool);
    assert!(callable.parameter_types().is_empty());
}

#[test]
fn merging_registries_revalidates_the_union() {
    let left = NativeBindings::new(vec![binding("rust::b::B", vec![])]).expect("left");
    let right = NativeBindings::new(vec![binding("rust::a::A", vec![])]).expect("right");
    let merged = left.merge(right).expect("disjoint registries merge");
    let paths: Vec<&str> = merged
        .types()
        .iter()
        .map(|binding| binding.stainless_path.as_str())
        .collect();
    assert_eq!(paths, vec!["rust::a::A", "rust::b::B"]);

    let first = NativeBindings::new(vec![binding("rust::a::A", vec![])]).expect("first");
    let second = NativeBindings::new(vec![binding("rust::a::A", vec![])]).expect("second");
    assert_eq!(
        first.merge(second).expect_err("conflict").message(),
        "duplicate native type binding for `rust::a::A`"
    );
}

#[test]
fn string_constructors_resolve_to_new_and_to_a_clone_of_the_argument() {
    let b = standard_bindings().unwrap();
    let s = b.type_by_path("rust::String").unwrap();
    let r = TypeRef::shared_ref(TypeRef::native("rust::String".to_string(), vec![]));
    assert_eq!(
        s.find_callable(CallStyle::Constructor, "String", &[r]).unwrap().lowering,
        RustLowering::CloneArgument { index: 0 }
    );
    assert_eq!(
        s.find_callable(CallStyle::Constructor, "String", &[]).unwrap().lowering,
        RustLowering::AssociatedFunction {
            rust_path: "::std::string::String::new".to_string()
        }
    );
    assert!(s.find_callable(CallStyle::Method, "String", &[]).is_none());
}

#[test]
fn var_parsing_lowers_to_the_runtime_parsers() {
    let b = standard_bindings().unwrap();
    let var = b.type_by_path("rust::stainless_runtime::Var").unwrap();
    let r = TypeRef::shared_ref(TypeRef::native("rust::String".to_string(), vec![]));
    assert_eq!(
        var.find_callable(CallStyle::AssociatedFunction, "parse", &[TypeRef::shared_ref(TypeRef::native("rust::String".to_string(), vec![]))]).unwrap().lowering,
        RustLowering::AssociatedFunction {
            rust_path: "::stainless_runtime::Var::parse".to_string()
        }
    );
    assert_eq!(
        var.find_callable(CallStyle::AssociatedFunction, "parse_file", &[r]).unwrap().lowering,
        RustLowering::AssociatedFunction {
            rust_path: "::stainless_runtime::Var::parse_file".to_string()
        }
    );
    let map = b.type_by_path("rust::Map").unwrap();
    assert_eq!(map.rust_path, "::std::collections::BTreeMap");
    assert_eq!(map.type_parameters, vec!["K".to_string(), "V".to_string()]);
}

#[test]
fn collection_methods_have_their_documented_signatures() {
    let b = standard_bindings().unwrap();
    let vec = b.type_by_path("rust::Vec").unwrap();
    let pop = vec.find_callable(CallStyle::Method, "pop", &[]).unwrap();
    assert_eq!(pop.return_type, TypeRef::native("rust::Option".to_string(), vec![TypeRef::Parameter("T".to_string())]));
    assert_eq!(pop.receiver, Some(Receiver::Mutable));
    assert_eq!(pop.lowering, RustLowering::Method { rust_name: "pop".to_string() });
    let map = b.type_by_path("rust::Map").unwrap();
    let with = map
        .callables
        .iter()
        .find(|c| c.source_name == "with")
        .unwrap();
    assert_eq!(
        with.lowering,
        RustLowering::FunctionWithReceiver { rust_path: "::stainless_runtime::btree_map_with".to_string() }
    );
    assert_eq!(with.requirements.len(), 1);
    assert_eq!(with.requirements[0].rust_trait, "::core::cmp::Ord");
    let file = b.type_by_path("rust::std::fs::File").unwrap();
    let len = file.find_callable(CallStyle::Method, "len", &[]).unwrap();
    assert_eq!(len.return_type, TypeRef::U64);
    assert_eq!(len.rust_result_error, Some(native("rust::std::io::Error")));
}
