use easy_rpc::config::Role;
use easy_rpc::generator::classes::generate_classes_per_role;
use easy_rpc::generator::client::generate_client;
use easy_rpc::generator::project::{
    generate_for_directory, read_middleware, GeneratedFile, GenerationError, SourceDirectory,
    SourceFile,
};
use easy_rpc::generator::text::integer_string;
use easy_rpc::generator::translator::{Translator, TypeScriptTranslator};
use easy_rpc::input_reader::InputReader;
use easy_rpc::lexer::reader::TokenReader;
use easy_rpc::parser::parse::parse;

fn role(name: &str, types: &[&str]) -> Role {
    Role {
        name: name.to_string(),
        types: types.iter().map(|t| t.to_string()).collect(),
        documentation: None,
    }
}

fn roles() -> Vec<Role> {
    vec![role("Server", &["http-server"]), role("Client", &["browser"])]
}

fn file(name: &str, content: &str) -> SourceFile {
    SourceFile { name: name.to_string(), content: content.as_bytes().to_vec(), float_texts: vec![] }
}

fn dir(name: &str, files: Vec<SourceFile>, directories: Vec<SourceDirectory>) -> SourceDirectory {
    SourceDirectory { name: name.to_string(), files, directories }
}

fn classes_of(name: &str, path: &str, source: &str, imports: &Vec<(String, Vec<String>)>) -> Vec<(String, String)> {
    let mut reader = TokenReader::new(InputReader::new(source.as_bytes())).unwrap();
    let parsed = parse(&mut reader).unwrap();
    generate_classes_per_role(name, path, parsed.endpoints, "Server", &parsed.custom_types, imports)
}

fn find<'a>(files: &'a Vec<GeneratedFile>, directory: &str, name: &str) -> &'a GeneratedFile {
    files
        .iter()
        .find(|f| f.directory == directory && f.file_name == name)
        .unwrap()
}

const API: &str = "Server getUser(id string) string\nClient notify(message string)\n";

#[test]
fn generation_of_one_source() {
    let root = dir("", vec![file("api.erpc", API), file("notes.txt", "no source")], vec![]);
    let (files, errors) = generate_for_directory(&root, "Server", &roles());
    assert!(errors.is_empty());
    assert_eq!(files.len(), 4);

    let classes = classes_of("api", "", API, &vec![]);
    assert_eq!(classes.len(), 2);
    assert_eq!(classes[0].0, "Server");
    assert_eq!(classes[1].0, "Client");
    assert_eq!(find(&files, "Server/", "api.ts").content, classes[0].1);
    assert_eq!(find(&files, "Client/", "api.ts").content, classes[1].1);

    let browser_roles = vec!["Client".to_string()];
    let server = generate_client(false, &vec!["api".to_string()], &roles()[0], &browser_roles, "@easy-rpc/node");
    let client = generate_client(true, &vec!["api".to_string()], &roles()[1], &browser_roles, "@easy-rpc/node");
    assert_eq!(find(&files, "", "Server.ts").content, server);
    assert_eq!(find(&files, "", "Client.ts").content, client);
    assert!(server.starts_with("import { ERPCServer, ServerOptions } from \"@easy-rpc/node\"\n"));
    assert!(client.starts_with("import { ERPCTarget, TargetOptions } from \"@easy-rpc/node\"\n"));
}

#[test]
fn generation_for_a_browser_role() {
    let root = dir("", vec![file("api.erpc", API)], vec![]);
    let (files, errors) = generate_for_directory(&root, "Client", &roles());
    assert!(errors.is_empty());
    let classes = classes_of("api", "", API, &vec![]);
    let browser_roles = vec!["Client".to_string()];
    let client = generate_client(false, &vec!["api".to_string()], &roles()[1], &browser_roles, "@easy-rpc/browser");
    assert_eq!(find(&files, "", "Client.ts").content, client);
    assert!(client.starts_with("import { ERPCServer, ServerOptions } from \"@easy-rpc/browser\"\n"));
    // the class of the selected role handles the endpoints, the other calls them
    let foreign_server = generate_classes_per_role(
        "api",
        "",
        {
            let mut reader = TokenReader::new(InputReader::new(API.as_bytes())).unwrap();
            parse(&mut reader).unwrap().endpoints
        },
        "Client",
        &vec![],
        &vec![],
    );
    assert_eq!(find(&files, "Server/", "api.ts").content, foreign_server[0].1);
    assert_ne!(foreign_server[0].1, classes[0].1);
}

#[test]
fn generation_of_nested_sources() {
    let auth = "Server login(name string) boolean\n";
    let root = dir(
        "",
        vec![file("api.erpc", API)],
        vec![dir("api", vec![file("auth.erpc", auth)], vec![])],
    );
    let (files, errors) = generate_for_directory(&root, "Server", &roles());
    assert!(errors.is_empty());
    // the class of the subdirectory comes first, in its own directory
    assert_eq!(files[0].directory, "Server/api/");
    assert_eq!(files[0].file_name, "auth.ts");
    let sub = classes_of("auth", "api/", auth, &vec![]);
    assert_eq!(files[0].content, sub[0].1);
    // the source of the same name imports it
    let top = classes_of(
        "api",
        "",
        API,
        &vec![("Server".to_string(), vec!["auth".to_string()])],
    );
    assert_eq!(find(&files, "Server/", "api.ts").content, top[0].1);
    assert_eq!(find(&files, "Client/", "api.ts").content, top[1].1);
    assert!(top[0].1.contains("auth"));
    assert_eq!(files.len(), 5);
}

#[test]
fn generation_reports_parse_errors() {
    let root = dir("", vec![file("bad.erpc", "123")], vec![dir("sub", vec![file("x.erpc", "Server")], vec![])]);
    let (files, errors) = generate_for_directory(&root, "Server", &roles());
    assert!(files.is_empty());
    assert_eq!(errors.len(), 2);
    match &errors[1] {
        GenerationError::Diagnostic { source, range, message } => {
            assert_eq!(source, "bad.erpc");
            assert_eq!(message, "Unexpected token");
            assert_eq!(range.start.line, 0);
            assert_eq!(range.start.character, 0);
        }
        other => panic!("unexpected {:?}", other),
    }
    match &errors[0] {
        GenerationError::Diagnostic { source, .. } => assert_eq!(source, "sub/x.erpc"),
        other => panic!("unexpected {:?}", other),
    }
}

#[test]
fn generation_reports_validation_errors() {
    let root = dir("", vec![file("api.erpc", "Admin reset()\nServer ping()\n")], vec![]);
    let (files, errors) = generate_for_directory(&root, "Server", &roles());
    assert!(files.is_empty());
    assert_eq!(errors.len(), 1);
    match &errors[0] {
        GenerationError::Diagnostic { source, message, .. } => {
            assert_eq!(source, "api.erpc");
            assert_eq!(message, "Role Admin of endpoint reset is not configured in the roles.json");
        }
        other => panic!("unexpected {:?}", other),
    }
}

#[test]
fn generation_reports_unreadable_sources() {
    let root = dir(
        "",
        vec![SourceFile { name: "broken.erpc".to_string(), content: b"Server ping()\n\xff\xfe\n".to_vec(), float_texts: vec![] }],
        vec![],
    );
    let (files, errors) = generate_for_directory(&root, "Server", &roles());
    assert!(files.is_empty());
    assert_eq!(errors.len(), 1);
    assert!(matches!(&errors[0], GenerationError::Unreadable { source, .. } if source == "broken.erpc"));
    assert!(matches!(
        &errors[0],
        GenerationError::Unreadable { error: easy_rpc::input_reader::InputReaderError::Utf8(_), .. }
    ));
}

#[test]
fn translator_file_suffix() {
    assert_eq!(TypeScriptTranslator::file_suffix(), "ts");
}

#[test]
fn translator_delegates() {
    let r = role("Server", &["http-server"]);
    assert_eq!(
        TypeScriptTranslator::generate_client(true, &vec![], &r, &vec![], "@easy-rpc/node"),
        generate_client(true, &vec![], &r, &vec![], "@easy-rpc/node")
    );
}

#[test]
fn integer_text() {
    assert_eq!(integer_string(0), "0");
    assert_eq!(integer_string(17), "17");
    assert_eq!(integer_string(-123456), "-123456");
    assert_eq!(integer_string(i32::MIN), "-2147483648");
    assert_eq!(integer_string(i32::MAX), "2147483647");
}

#[test]
fn middleware_success() {
    let result = read_middleware("middleware.erpc", &b"Server auth(token string) boolean\n".to_vec(), &roles());
    let endpoints = result.unwrap();
    assert_eq!(endpoints.len(), 1);
    assert_eq!(endpoints[0].identifier, "auth");
    assert_eq!(endpoints[0].role, "Server");
}

#[test]
fn middleware_parse_error() {
    let errors = read_middleware("middleware.erpc", &b"123".to_vec(), &roles()).unwrap_err();
    assert_eq!(errors.len(), 1);
    match &errors[0] {
        GenerationError::Diagnostic { source, message, .. } => {
            assert_eq!(source, "middleware.erpc");
            assert_eq!(message, "Unexpected token");
        }
        other => panic!("unexpected {:?}", other),
    }
}

#[test]
fn middleware_validation_errors() {
    let errors = read_middleware("middleware.erpc", &b"Admin a()\nAdmin b()\n".to_vec(), &roles()).unwrap_err();
    assert_eq!(errors.len(), 2);
    match &errors[1] {
        GenerationError::Diagnostic { message, range, .. } => {
            assert_eq!(message, "Role Admin of endpoint b is not configured in the roles.json");
            assert_eq!(range.start.line, 1);
        }
        other => panic!("unexpected {:?}", other),
    }
}

#[test]
fn one_class_per_role() {
    let source = "Server a()\nClient b()\nServer c()\n";
    let classes = classes_of("api", "", source, &vec![]);
    assert_eq!(classes.len(), 2);
    assert_eq!(classes[0].0, "Server");
    assert_eq!(classes[1].0, "Client");
    let grouped = classes_of("api", "", "Server a()\nServer c()\n", &vec![]);
    assert_eq!(grouped.len(), 1);
    assert_eq!(classes[0].1, grouped[0].1);
    assert!(classes[1].1.contains("b("));
    assert!(!classes[1].1.contains("a("));
}

#[test]
fn one_client_per_role() {
    let root = dir(
        "",
        vec![file("api.erpc", API), file("other.erpc", "Server x()\n")],
        vec![dir("deep", vec![file("more.erpc", "Client y()\n")], vec![])],
    );
    let (files, errors) = generate_for_directory(&root, "Server", &roles());
    assert!(errors.is_empty());
    let clients: Vec<&GeneratedFile> = files.iter().filter(|f| f.directory.is_empty()).collect();
    assert_eq!(clients.len(), 2);
    assert_eq!(clients[0].file_name, "Server.ts");
    assert_eq!(clients[1].file_name, "Client.ts");
    assert!(clients[0].content.contains("import api from \"./Server/api\""));
    assert!(clients[0].content.contains("import other from \"./Server/other\""));
    assert!(!clients[0].content.contains("more"));
    assert_eq!(find(&files, "Client/deep/", "more.ts").file_name, "more.ts");
}

#[test]
fn generation_wraps_subdirectories() {
    let auth = "Server login(name string) boolean\n";
    let root = dir("", vec![], vec![dir("api", vec![file("auth.erpc", auth)], vec![])]);
    let (files, errors) = generate_for_directory(&root, "Server", &roles());
    assert!(errors.is_empty());
    assert_eq!(files.len(), 3);
    assert_eq!(files[0].directory, "Server/api/");
    assert_eq!(files[0].file_name, "auth.ts");
    let wrapper = find(&files, "Server/", "api.ts");
    let expected = generate_classes_per_role(
        "api",
        "",
        vec![],
        "Server",
        &vec![],
        &vec![("Server".to_string(), vec!["auth".to_string()])],
    );
    assert!(expected.is_empty());
    let wrapper_text = easy_rpc::generator::typescript::generate_class(
        "api",
        "",
        &vec![],
        false,
        &vec!["auth".to_string()],
        &vec![],
    );
    assert_eq!(wrapper.content, wrapper_text);
    assert!(wrapper.content.contains("import auth from \"./api/auth\""));
    let client = find(&files, "", "Server.ts");
    assert!(client.content.contains("import api from \"./Server/api\""));
}

#[test]
fn generation_prints_floats_as_given() {
    let source = "Server f(x 1.50 | 2)\n";
    let printed = SourceFile {
        name: "api.erpc".to_string(),
        content: source.as_bytes().to_vec(),
        float_texts: vec![("1.50".to_string(), "1.5".to_string())],
    };
    let (files, errors) = generate_for_directory(&dir("", vec![printed], vec![]), "Client", &roles());
    assert!(errors.is_empty());
    let class = &find(&files, "Server/", "api.ts").content;
    assert!(class.contains("1.5 | 2"));
    assert!(!class.contains("1.50"));
    let (files, _) = generate_for_directory(&dir("", vec![file("api.erpc", source)], vec![]), "Client", &roles());
    assert!(find(&files, "Server/", "api.ts").content.contains("1.50 | 2"));
}
