use easy_rpc::config::Role;
use easy_rpc::parser::custom_type::{CustomType, Field};
use easy_rpc::parser::endpoint::{Endpoint, Parameter};
use easy_rpc::parser::field_type::{ArrayAmount, Custom, Type};
use easy_rpc::position::{CodePosition, Range};
use easy_rpc::validator::validate;

fn endpoint(line: u16, identifier: &str, role: &str, parameters: Vec<Parameter>, return_type: Option<Type>) -> Endpoint {
    Endpoint {
        documentation: None,
        range: Range {
            start: CodePosition { line, character: 0 },
            end: CodePosition { line, character: 30 },
        },
        identifier: identifier.to_string(),
        role: role.to_string(),
        return_type,
        parameters,
        middleware_identifiers: vec![],
    }
}

fn role(name: &str) -> Role {
    Role {
        documentation: None,
        name: name.to_string(),
        types: vec!["browser".to_string()],
    }
}

#[test]
fn test_double_endpoint() {
    let result = validate(
        &vec![
            endpoint(0, "SuperCoolEndpoint", "SomeRole1", vec![], None),
            endpoint(1, "SuperCoolEndpoint", "SomeRole2", vec![], None),
            endpoint(3, "SuperCoolEndpoint", "SomeRole1", vec![], None),
        ],
        &vec![],
        &vec![role("SomeRole1"), role("SomeRole2")],
    );
    assert_eq!(result.len(), 1);
    let result = &result[0];

    assert_eq!(
        result.message,
        "Endpoint SomeRole1 SuperCoolEndpoint is already defined"
    );
    assert_eq!(result.range.start.character, 0);
    assert_eq!(result.range.start.line, 3);
    assert_eq!(result.range.end.character, 30);
    assert_eq!(result.range.end.line, 3);
}

#[test]
fn test_unknown_role() {
    let result = validate(
        &vec![endpoint(0, "SuperCoolEndpoint", "SomeRole", vec![], None)],
        &vec![],
        &vec![role("SomeDifferentRole")],
    );
    assert_eq!(result.len(), 1);
    let result = &result[0];

    assert_eq!(
        result.message,
        "Role SomeRole of endpoint SuperCoolEndpoint is not configured in the roles.json"
    );
    assert_eq!(result.range.start.character, 0);
    assert_eq!(result.range.start.line, 0);
    assert_eq!(result.range.end.character, 30);
    assert_eq!(result.range.end.line, 0);
}

#[test]
fn test_unknown_parameter_type() {
    let result = validate(
        &vec![endpoint(
            0,
            "SuperCoolEndpoint",
            "SomeRole",
            vec![Parameter {
                identifier: "something".to_string(),
                optional: false,
                parameter_type: Type::Custom(Custom {
                    array_amount: ArrayAmount::NoArray,
                    identifier: "UnknownType".to_string(),
                }),
            }],
            None,
        )],
        &vec![],
        &vec![role("SomeRole")],
    );
    assert_eq!(result.len(), 1);
    let result = &result[0];

    assert_eq!(result.message, "Type UnknownType is unknown");
    assert_eq!(result.range.start.character, 0);
    assert_eq!(result.range.start.line, 0);
    assert_eq!(result.range.end.character, 30);
    assert_eq!(result.range.end.line, 0);
}

#[test]
fn test_unknown_return_type() {
    let result = validate(
        &vec![endpoint(
            0,
            "SuperCoolEndpoint",
            "SomeRole",
            vec![],
            Some(Type::Custom(Custom {
                array_amount: ArrayAmount::NoArray,
                identifier: "SomeUnknownReturnType".to_string(),
            })),
        )],
        &vec![],
        &vec![role("SomeRole")],
    );
    assert_eq!(result.len(), 1);
    let result = &result[0];

    assert_eq!(result.message, "Type SomeUnknownReturnType is unknown");
    assert_eq!(result.range.start.character, 0);
    assert_eq!(result.range.start.line, 0);
    assert_eq!(result.range.end.character, 30);
    assert_eq!(result.range.end.line, 0);
}

#[test]
fn test_double_type() {
    let result = validate(
        &vec![],
        &vec![
            CustomType {
                documentation: None,
                range: Range {
                    start: CodePosition::zero_initialized(),
                    end: CodePosition { line: 3, character: 0 },
                },
                fields: vec![],
                identifier: "MySuperCoolType".to_string(),
            },
            CustomType {
                documentation: None,
                range: Range {
                    start: CodePosition { line: 4, character: 0 },
                    end: CodePosition { line: 7, character: 0 },
                },
                fields: vec![],
                identifier: "MySuperCoolType".to_string(),
            },
        ],
        &vec![],
    );

    assert_eq!(result.len(), 1);

    assert_eq!(result[0].message, "Type MySuperCoolType is already defined");
    assert_eq!(result[0].range.start.character, 0);
    assert_eq!(result[0].range.start.line, 4);
    assert_eq!(result[0].range.end.character, 0);
    assert_eq!(result[0].range.end.line, 7);
}

#[test]
fn test_missing_field_type() {
    let result = validate(
        &vec![],
        &vec![CustomType {
            documentation: None,
            range: Range {
                start: CodePosition { line: 0, character: 0 },
                end: CodePosition { line: 3, character: 0 },
            },
            fields: vec![Field {
                documentation: None,
                identifier: "field1".to_string(),
                optional: false,
                field_type: Type::Custom(Custom {
                    array_amount: ArrayAmount::NoArray,
                    identifier: "SomeType".to_string(),
                }),
            }],
            identifier: "MySuperCoolType".to_string(),
        }],
        &vec![],
    );

    assert_eq!(result.len(), 1);
    assert_eq!(result[0].message, "Type SomeType is unknown");
    assert_eq!(result[0].range.start.character, 0);
    assert_eq!(result[0].range.start.line, 0);
    assert_eq!(result[0].range.end.character, 0);
    assert_eq!(result[0].range.end.line, 3);
}
