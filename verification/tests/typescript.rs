use easy_rpc::lexer::token::LiteralType;
use easy_rpc::parser::custom_type::{CustomType, Field};
use easy_rpc::parser::endpoint::{Endpoint, Parameter};
use easy_rpc::parser::field_type::{
    ArrayAmount, Custom, Enum, EnumType, Primitive, PrimitiveType, Type,
};
use easy_rpc::position::{CodePosition, Range};
use easy_rpc::generator::typescript::{custom_type_to_interface, endpoint_to_function, generate_class};

fn sample_endpoint(identifier: &str, documentation: Option<&str>, with_parameters: bool) -> Endpoint {
    Endpoint {
        middleware_identifiers: vec![],
        documentation: documentation.map(|d| d.to_string()),
        range: Range::default(),
        identifier: identifier.to_string(),
        role: "MyVeryNiceRole".to_string(),
        return_type: if with_parameters {
            Some(Type::Primitive(Primitive {
                array_amount: ArrayAmount::NoLengthSpecified,
                primitive_type: PrimitiveType::String,
            }))
        } else {
            None
        },
        parameters: if with_parameters {
            vec![
                Parameter {
                    identifier: "p1".to_string(),
                    optional: true,
                    parameter_type: Type::Primitive(Primitive {
                        array_amount: ArrayAmount::NoLengthSpecified,
                        primitive_type: PrimitiveType::String,
                    }),
                },
                Parameter {
                    identifier: "p2".to_string(),
                    optional: false,
                    parameter_type: Type::Primitive(Primitive {
                        array_amount: ArrayAmount::NoArray,
                        primitive_type: PrimitiveType::Int8,
                    }),
                },
            ]
        } else {
            vec![]
        },
    }
}

#[test]
fn endpoint_test_success_foreign() {
    let ep = sample_endpoint("MySuperCoolEndpoint", Some("some docs"), true);

    let result = endpoint_to_function(&ep, true, "ABC123");

    assert_eq!(
        result,
        "/**some docs*/
    MySuperCoolEndpoint(p1?: string[], p2: number): Promise<string[]> {
        return this.server.call(\"ABC123\", [p1, p2])
    }

"
    )
}

#[test]
fn endpoint_test_success_callback() {
    let ep = sample_endpoint("MySuperCoolEndpoint", Some("some docs"), true);

    let result = endpoint_to_function(&ep, false, "ABC123");

    assert_eq!(
        result,
        "/**some docs*/
    private _MySuperCoolEndpoint: (p1?: string[], p2: number) => Promise<string[]> = undefined as any
    set MySuperCoolEndpoint(value: (p1?: string[], p2: number) => Promise<string[]>) {
        this._MySuperCoolEndpoint = value
        this.server?.registerERPCHandler(value, \"ABC123\")
    }
    get MySuperCoolEndpoint() {
        return this._MySuperCoolEndpoint
    }

"
    )
}

fn primitive_field(identifier: &str, documentation: Option<&str>, optional: bool, primitive_type: PrimitiveType, array_amount: ArrayAmount) -> Field {
    Field {
        documentation: documentation.map(|d| d.to_string()),
        identifier: identifier.to_string(),
        optional,
        field_type: Type::Primitive(Primitive { array_amount, primitive_type }),
    }
}

fn custom_field(identifier: &str, custom: &str, array_amount: ArrayAmount) -> Field {
    Field {
        documentation: None,
        identifier: identifier.to_string(),
        optional: false,
        field_type: Type::Custom(Custom { identifier: custom.to_string(), array_amount }),
    }
}

#[test]
fn interface_test_success() {
    let t = CustomType {
        documentation: Some("Some sample".to_string()),
        range: Range::default(),
        identifier: "MyType".to_string(),
        fields: vec![
            primitive_field("field1", Some("\nsome\ndocs\n"), true, PrimitiveType::String, ArrayAmount::NoArray),
            primitive_field("field2", None, false, PrimitiveType::Boolean, ArrayAmount::NoLengthSpecified),
            primitive_field("field3", None, false, PrimitiveType::Int8, ArrayAmount::LengthSpecified(17)),
            primitive_field("field4", None, false, PrimitiveType::Int16, ArrayAmount::NoArray),
            primitive_field("field5", None, false, PrimitiveType::Int32, ArrayAmount::NoArray),
            primitive_field("field6", None, false, PrimitiveType::Int64, ArrayAmount::NoArray),
            primitive_field("field7", None, false, PrimitiveType::Float32, ArrayAmount::NoArray),
            primitive_field("field8", None, false, PrimitiveType::Float64, ArrayAmount::NoArray),
            Field {
                documentation: None,
                identifier: "field9".to_string(),
                optional: false,
                field_type: Type::Enum(Enum {
                    values: vec![
                        EnumType::Literal(LiteralType::Boolean(true)),
                        EnumType::Literal(LiteralType::Boolean(false)),
                        EnumType::Literal(LiteralType::String("hello from the other side".to_string())),
                        EnumType::Literal(LiteralType::Float("123.456".to_string())),
                        EnumType::Literal(LiteralType::Integer(-123456)),
                    ],
                }),
            },
            custom_field("field10", "MyCustomType", ArrayAmount::NoArray),
            custom_field("field11", "MyCustomType2", ArrayAmount::NoLengthSpecified),
            custom_field("field12", "MyCustomType3", ArrayAmount::LengthSpecified(1000)),
        ],
    };

    let result = custom_type_to_interface(&t);

    assert_eq!(
        result,
        "/**Some sample*/
export interface MyType {
/**
some
docs
*/
    field1?: string
    field2: boolean[]
    field3: number[]
    field4: number
    field5: number
    field6: number
    field7: number
    field8: number
    field9: true | false | \"hello from the other side\" | 123.456 | -123456
    field10: MyCustomType
    field11: MyCustomType2[]
    field12: MyCustomType3[]
}
"
    )
}

fn empty_type(identifier: &str) -> CustomType {
    CustomType {
        documentation: None,
        range: Range {
            start: CodePosition::zero_initialized(),
            end: CodePosition::zero_initialized(),
        },
        fields: vec![],
        identifier: identifier.to_string(),
    }
}

#[test]
fn class_test_success_foreign() {
    let endpoints = vec![
        sample_endpoint("MySuperCoolEndpoint1", Some("some docs"), true),
        sample_endpoint("MySuperCoolEndpoint2", None, false),
    ];

    let result = generate_class(
        "MyCoolClass",
        "test/test2/",
        &endpoints,
        true,
        &vec!["ImportedClass".to_string(), "ImportedClass2".to_string()],
        &vec![empty_type("MyCoolType1"), empty_type("MyCoolType2")],
    );

    assert_eq!(
        result,
        "import ImportedClass from \"./MyCoolClass/ImportedClass\"
import ImportedClass2 from \"./MyCoolClass/ImportedClass2\"

export interface MyCoolType1 {
}

export interface MyCoolType2 {
}

export default class MyCoolClass {
    ImportedClass: ImportedClass
    ImportedClass2: ImportedClass2

    private server: any

    constructor(server: any) {
        this.server = server
        this.ImportedClass = new ImportedClass(server)
        this.ImportedClass2 = new ImportedClass2(server)
    }

/**some docs*/
    MySuperCoolEndpoint1(p1?: string[], p2: number): Promise<string[]> {
        return this.server.call(\"test/test2/MyCoolClass/MySuperCoolEndpoint1\", [p1, p2])
    }

    MySuperCoolEndpoint2(): Promise<void> {
        return this.server.call(\"test/test2/MyCoolClass/MySuperCoolEndpoint2\")
    }

}"
    );
}
