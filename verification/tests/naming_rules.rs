use crabot::naming::{
    check_tool_function, extract_option_inner, extract_result_ok_type, field_type,
    generate_output_type, rename_origin_func, tool_identity, CallForm, ToolFunctionError,
    TypeShape,
};

fn path(last: &str, arg: Option<TypeShape>) -> TypeShape {
    TypeShape::Path { last: Some(last.to_string()), first_type_arg: arg.map(Box::new) }
}

fn last_name(t: &TypeShape) -> Option<String> {
    match t {
        TypeShape::Path { last, .. } => last.clone(),
        _ => None,
    }
}

#[test]
fn output_type_strips_result_then_option() {
    let ret = path("Result", Some(path("Option", Some(path("HelloWorldResp", None)))));
    let info = generate_output_type(Some(ret));
    assert!(info.is_option);
    assert_eq!(last_name(&info.ty), Some("HelloWorldResp".to_string()));

    let plain = generate_output_type(Some(path("Result", Some(path("String", None)))));
    assert!(!plain.is_option);
    assert_eq!(last_name(&plain.ty), Some("String".to_string()));

    let unit = generate_output_type(None);
    assert!(matches!(unit.ty, TypeShape::Unit));
    assert!(!unit.is_option);
}

#[test]
fn extract_gives_the_type_back_when_it_does_not_match() {
    let back = extract_result_ok_type(path("Vec", Some(path("u8", None)))).unwrap_err();
    assert_eq!(last_name(&back), Some("Vec".to_string()));
    let inner = extract_option_inner(path("Option", Some(path("u8", None)))).unwrap();
    assert_eq!(last_name(&inner), Some("u8".to_string()));
    assert!(extract_option_inner(TypeShape::Other).is_err());
    assert!(extract_option_inner(path("Option", None)).is_err());
}

#[test]
fn tool_functions_must_be_async_with_one_input() {
    assert_eq!(check_tool_function(false, 1, true), Err(ToolFunctionError::NotAsync));
    assert_eq!(check_tool_function(true, 2, true), Err(ToolFunctionError::RequiresInput));
    assert_eq!(check_tool_function(true, 1, false), Err(ToolFunctionError::RequiresInput));
    assert_eq!(check_tool_function(true, 1, true), Ok(()));
}

#[test]
fn tool_identity_falls_back_to_function_name() {
    assert_eq!(
        tool_identity("print_hello_world", "", "打印hello_world"),
        ("print_hello_world".to_string(), "打印hello_world".to_string())
    );
    assert_eq!(tool_identity("f", "", ""), ("f".to_string(), "f".to_string()));
    assert_eq!(tool_identity("f", "g", ""), ("g".to_string(), "g".to_string()));
}

#[test]
fn renamed_body_call_forms() {
    assert_eq!(rename_origin_func("__origin_", false, "run", true), ("__origin_run".to_string(), CallForm::OnSelf));
    assert_eq!(rename_origin_func("__origin_", true, "run", false).1, CallForm::OnType);
    assert_eq!(rename_origin_func("__origin_", false, "run", false).1, CallForm::Free);
}

#[test]
fn field_types_follow_rust_types() {
    assert_eq!(field_type("String"), ("string", true, false));
    assert_eq!(field_type("Option<String>"), ("string", false, false));
    assert_eq!(field_type("Vec < String >"), ("array", true, true));
    assert_eq!(field_type("u64"), ("number", true, false));
    assert_eq!(field_type("bool"), ("boolean", true, false));
    assert_eq!(field_type("HelloWorldReq"), ("object", true, false));
}

#[test]
fn derived_schema_requires_all_but_options() {
    let fields = vec![
        ("name".to_string(), "String".to_string(), "用户名".to_string()),
        ("nick".to_string(), "Option<String>".to_string(), "".to_string()),
        ("tags".to_string(), "Vec<String>".to_string(), "t".to_string()),
    ];
    let (props, required) = crabot::naming::schema_of_fields(&fields);
    assert_eq!(props.len(), 3);
    assert_eq!(props[0].json_type, "string");
    assert!(props[2].is_array);
    assert_eq!(props[1].name, "nick");
    assert_eq!(required, vec!["name".to_string(), "tags".to_string()]);
}
