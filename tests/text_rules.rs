use openapi_from_source::cli::{check_project_path, frameworks_to_use, Framework};
use openapi_from_source::error::Error;
use openapi_from_source::extractor::handler::{method_from_lowercase, parse_http_method};
use openapi_from_source::extractor::{HttpMethod, RouteInfo, TypeInfo};
use openapi_from_source::paths::{combine_paths, convert_path_format, path_param_names_of, PathSyntax};
use openapi_from_source::scanner::{is_rust_source, keep_entry, FileScanner};
use openapi_from_source::strings::str_eq;

#[test]
fn combine_examples() {
    assert_eq!(combine_paths("/api", "/users"), "/api/users");
    assert_eq!(combine_paths("/api/", "users"), "/api/users");
    assert_eq!(combine_paths("/api//", "//users"), "/api/users");
    assert_eq!(combine_paths("/api", ""), "/api");
    assert_eq!(combine_paths("/api", "/"), "/api");
    assert_eq!(combine_paths("", "/users"), "/users");
    assert_eq!(combine_paths("", "users/"), "users/");
    assert_eq!(combine_paths("/", "x"), "/x");
}

#[test]
fn path_parameter_names() {
    assert_eq!(path_param_names_of(&PathSyntax::Colon, "/a/:id/b/::two"), vec!["id".to_string(), "two".to_string()]);
    assert_eq!(path_param_names_of(&PathSyntax::Brace, "/a/{id}/b/{x"), vec!["id".to_string()]);
    assert_eq!(path_param_names_of(&PathSyntax::Brace, "{{a}}"), vec!["a".to_string()]);
    assert!(path_param_names_of(&PathSyntax::Colon, "").is_empty());
}

#[test]
fn document_paths() {
    assert_eq!(convert_path_format("/users/:id/posts/:post_id"), "/users/{id}/posts/{post_id}");
    assert_eq!(convert_path_format(":x"), "{x}");
    assert_eq!(convert_path_format("/a/:"), "/a/{}");
    assert_eq!(convert_path_format(""), "");
}

#[test]
fn method_names() {
    assert_eq!(parse_http_method("DeLeTe"), Some(HttpMethod::Delete));
    assert_eq!(parse_http_method("OPTIONS"), Some(HttpMethod::Options));
    assert_eq!(parse_http_method("fetch"), None);
    assert_eq!(method_from_lowercase("HEAD"), None);
    assert_eq!(method_from_lowercase("head"), Some(HttpMethod::Head));
}

#[test]
fn type_info_constructors() {
    let v = TypeInfo::vec(TypeInfo::option(TypeInfo::new("User".to_string())));
    assert!(v.is_vec);
    assert!(!v.is_option);
    assert_eq!(v.name, "User");
    assert_eq!(v.generic_args.len(), 1);
    assert!(v.generic_args[0].is_option);
    assert_eq!(v.generic_args[0].generic_args[0], TypeInfo::new("User".to_string()));
    let r = RouteInfo::new("/x".to_string(), HttpMethod::Get, "h".to_string());
    assert_eq!(r.method_str(), "GET");
    assert!(r.parameters.is_empty());
}

#[test]
fn project_path_checks() {
    assert!(check_project_path("/p", true, true).is_ok());
    match check_project_path("/p", false, false) {
        Err(Error::InvalidArgument(m)) => assert_eq!(m, "Project path does not exist: /p"),
        _ => panic!("expected an invalid argument"),
    }
    match check_project_path("/p", true, false) {
        Err(e) => assert_eq!(e.describe(), "无效参数: Project path is not a directory: /p"),
        _ => panic!("expected an invalid argument"),
    }
    assert_eq!(Error::FrameworkNotDetected.describe(), "未检测到支持的 Web 框架");
    assert_eq!(Error::SerializationError("x".to_string()).describe(), "序列化错误: x");
    assert_eq!(Error::IoError("y".to_string()).describe(), "IO 错误: y");
    let e = Error::ParseError { file: "a.rs".to_string(), message: "bad".to_string() };
    assert_eq!(e.describe(), "解析错误 a.rs: bad");
}

#[test]
fn scan_decisions() {
    assert!(keep_entry(".git", true));
    assert!(!keep_entry(".git", false));
    assert!(!keep_entry("target", false));
    assert!(keep_entry("src", false));
    assert!(keep_entry("", false));
    assert!(is_rust_source(true, Some("rs")));
    assert!(!is_rust_source(false, Some("rs")));
    assert!(!is_rust_source(true, Some("toml")));
    assert!(!is_rust_source(true, None));
    assert_eq!(FileScanner::new("/root".to_string()).root_path, "/root");
    assert!(str_eq("ä", "ä"));
    assert!(!str_eq("a", "ab"));
}

#[test]
fn framework_choice() {
    assert_eq!(frameworks_to_use(Some(Framework::Axum), vec![Framework::ActixWeb]).ok(), Some(vec![Framework::Axum]));
    assert_eq!(
        frameworks_to_use(None, vec![Framework::ActixWeb, Framework::Axum]).ok(),
        Some(vec![Framework::ActixWeb, Framework::Axum])
    );
    assert!(matches!(frameworks_to_use(None, vec![]), Err(Error::FrameworkNotDetected)));
}
