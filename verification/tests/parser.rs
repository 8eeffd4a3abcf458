use easy_rpc::input_reader::{InputReader, InputReaderError};
use easy_rpc::lexer::reader::TokenReader;
use easy_rpc::lexer::token::{DisposeableComment, LiteralType};
use easy_rpc::parser::custom_type::CustomType;
use easy_rpc::parser::endpoint::Endpoint;
use easy_rpc::parser::field_type::{ArrayAmount, EnumType, PrimitiveType, Type};
use easy_rpc::parser::parse::parse;

#[test]
fn test_success_empty() -> Result<(), InputReaderError> {
    let mut reader = TokenReader::new(InputReader::new("type EmptyType {}".as_bytes()))?;

    let result = CustomType::parse_custom_type(&mut reader).unwrap().unwrap();

    assert_eq!(result.fields.len(), 0);

    Ok(())
}

#[test]
fn test_docs() -> Result<(), InputReaderError> {
    let mut reader = TokenReader::new(InputReader::new("/**\nsome docs\n*/\ntype EmptyType {\n/**\nDocs for f1\n*/\nf1 string\n/**more docs*/field2 int\n}".as_bytes()))?;

    let mut result = CustomType::parse_custom_type(&mut reader).unwrap().unwrap();

    assert_eq!(result.documentation.unwrap(), "\nsome docs\n");
    assert_eq!(
        result.fields.remove(0).documentation.unwrap(),
        "\nDocs for f1\n"
    );
    assert_eq!(result.fields.remove(0).documentation.unwrap(), "more docs");

    Ok(())
}

#[test]
fn test_success_one_field() -> Result<(), InputReaderError> {
    let mut reader = TokenReader::new(InputReader::new(
        "type SomeType {\nfield1 string}".as_bytes(),
    ))?;

    let mut result = CustomType::parse_custom_type(&mut reader).unwrap().unwrap();

    assert_eq!(result.identifier, "SomeType");

    assert_eq!(result.fields.len(), 1);
    match result.fields.remove(0).field_type {
        Type::Primitive(primitive) => match primitive.primitive_type {
            PrimitiveType::String => {}
            _ => panic!("Should not match"),
        },
        _ => panic!("Should not match"),
    }

    Ok(())
}

#[test]
fn test_success_two_fields() -> Result<(), InputReaderError> {
    let mut reader = TokenReader::new(InputReader::new(
        "type SomeType {\nfield1? string\n field2 int}".as_bytes(),
    ))?;

    let mut result = CustomType::parse_custom_type(&mut reader).unwrap().unwrap();

    assert_eq!(result.fields.len(), 2);
    let f1 = result.fields.remove(0);
    match f1.field_type {
        Type::Primitive(primitive) => match primitive.primitive_type {
            PrimitiveType::String => {}
            _ => panic!("Should not match"),
        },
        _ => panic!("Should not match"),
    }
    assert_eq!(f1.identifier, "field1");
    assert!(f1.optional);
    assert!(f1.documentation.is_none());

    let f2 = result.fields.remove(0);
    match f2.field_type {
        Type::Primitive(primitive) => match primitive.primitive_type {
            PrimitiveType::Int16 => {}
            _ => panic!("Should not match"),
        },
        _ => panic!("Should not match"),
    }
    assert_eq!(f2.identifier, "field2");
    assert!(!f2.optional);
    assert!(f2.documentation.is_none());

    Ok(())
}

#[test]
fn test_success_three_fields() -> Result<(), InputReaderError> {
    let mut reader = TokenReader::new(InputReader::new(
        "type SomeType {\nfield1 string\n field2 SomeCustomType\nfield3 \"Something\" | true | 17}".as_bytes(),
    ))?;

    let mut result = CustomType::parse_custom_type(&mut reader).unwrap().unwrap();

    assert_eq!(result.fields.len(), 3);
    let f1 = result.fields.remove(0);
    match f1.field_type {
        Type::Primitive(primitive) => match primitive.primitive_type {
            PrimitiveType::String => {}
            _ => panic!("Should not match"),
        },
        _ => panic!("Should not match"),
    }
    assert_eq!(f1.identifier, "field1");
    assert_eq!(f1.optional, false);
    assert!(f1.documentation.is_none());

    let f2 = result.fields.remove(0);
    match f2.field_type {
        Type::Custom(custom) => {
            assert_eq!(custom.identifier, "SomeCustomType");
        }
        _ => panic!("Should not match"),
    }
    assert_eq!(f2.identifier, "field2");
    assert_eq!(f2.optional, false);
    assert!(f2.documentation.is_none());

    let f3 = result.fields.remove(0);
    match f3.field_type {
        Type::Enum(en) => {
            assert_eq!(en.values.len(), 3);
        }
        _ => panic!("Should not match"),
    }
    assert_eq!(f3.identifier, "field3");
    assert_eq!(f3.optional, false);
    assert!(f3.documentation.is_none());

    Ok(())
}

#[test]
fn test_invalid_1() -> Result<(), InputReaderError> {
    let mut reader = TokenReader::new(InputReader::new(
        "typ SomeType {\nfield1 string\n field2 SomeCustomType\nfield3".as_bytes(),
    ))?;

    let result = CustomType::parse_custom_type(&mut reader);

    assert!(result.is_none());

    Ok(())
}

#[test]
fn custom_type_test_invalid_2() -> Result<(), InputReaderError> {
    let mut reader = TokenReader::new(InputReader::new(
        "import SomeType {\nfield1 string\n field2 SomeCustomType\nfield3".as_bytes(),
    ))?;

    let result = CustomType::parse_custom_type(&mut reader);

    assert!(result.is_none());

    Ok(())
}

#[test]
fn custom_type_test_invalid_3() -> Result<(), InputReaderError> {
    let mut reader = TokenReader::new(InputReader::new(
        "type type {\nfield1 string\n field2 SomeCustomType\nfield3".as_bytes(),
    ))?;

    let result = CustomType::parse_custom_type(&mut reader).unwrap();

    assert!(result.is_err());

    assert_eq!(result.unwrap_err().message, "Expected type identifier");

    Ok(())
}

#[test]
fn custom_type_test_invalid_4() -> Result<(), InputReaderError> {
    let mut reader =
        TokenReader::new(InputReader::new("/**hello*/\ntype SomeType |".as_bytes()))?;

    let result = CustomType::parse_custom_type(&mut reader).unwrap();

    assert!(result.is_err());

    assert_eq!(result.unwrap_err().message, "Expected {");

    Ok(())
}

#[test]
fn custom_type_test_invalid_5() -> Result<(), InputReaderError> {
    let mut reader = TokenReader::new(InputReader::new(
        "/**hello*/\ntype SomeType type".as_bytes(),
    ))?;

    let result = CustomType::parse_custom_type(&mut reader).unwrap();

    assert!(result.is_err());

    assert_eq!(result.unwrap_err().message, "Expected {");

    Ok(())
}

#[test]
fn custom_type_test_invalid_6() -> Result<(), InputReaderError> {
    let mut reader = TokenReader::new(InputReader::new(
        "/**hello*/type SomeType { /**hello*/\n".as_bytes(),
    ))?;

    let result = CustomType::parse_custom_type(&mut reader).unwrap();

    assert!(result.is_err());

    assert_eq!(result.unwrap_err().message, "Expected field identifier");

    Ok(())
}

#[test]
fn custom_type_test_invalid_7() -> Result<(), InputReaderError> {
    let mut reader =
        TokenReader::new(InputReader::new("/**hello*/\ntype SomeType ".as_bytes()))?;

    let result = CustomType::parse_custom_type(&mut reader).unwrap();

    assert!(result.is_err());

    assert_eq!(result.unwrap_err().message, "Expected an opening { for the type");

    Ok(())
}

#[test]
fn custom_type_test_invalid_8() -> Result<(), InputReaderError> {
    let mut reader =
        TokenReader::new(InputReader::new("/**hello*/\ntype SomeType {".as_bytes()))?;

    let result = CustomType::parse_custom_type(&mut reader).unwrap();

    assert!(result.is_err());

    assert_eq!(result.unwrap_err().message, "Expected closing }");

    Ok(())
}

#[test]
fn custom_type_test_invalid_9() -> Result<(), InputReaderError> {
    let mut reader = TokenReader::new(InputReader::new(
        "/**hello*/\ntype SomeType {field string[hello]}".as_bytes(),
    ))?;

    let result = CustomType::parse_custom_type(&mut reader).unwrap();

    assert!(result.is_err());

    assert_eq!(result.unwrap_err().message, "Expected integer or closing bracket");

    Ok(())
}

#[test]
fn custom_type_test_invalid_10() -> Result<(), InputReaderError> {
    let mut reader = TokenReader::new(InputReader::new(
        "/**hello*/\ntype SomeType {field string[hello|}".as_bytes(),
    ))?;

    let result = CustomType::parse_custom_type(&mut reader).unwrap();

    assert!(result.is_err());

    assert_eq!(result.unwrap_err().message, "Expected integer or closing bracket");

    Ok(())
}



#[test]
fn test_no_param_no_return_endpoint() -> Result<(), InputReaderError> {
    let mut reader = TokenReader::new(InputReader::new(
        " Server someEndpointIdentifier()".as_bytes(),
    ))?;

    let result = Endpoint::parse_endpoint(&mut reader);

    assert!(result.is_some());

    let result = result.unwrap();
    assert!(result.is_ok());
    let result = result.unwrap();

    assert_eq!(result.range.end.character, 32);
    assert_eq!(result.range.start.character, 1);
    assert_eq!(result.documentation, None);
    assert_eq!(result.identifier, "someEndpointIdentifier");
    assert_eq!(result.role, "Server");
    assert_eq!(result.parameters.len(), 0);
    assert!(result.return_type.is_none());

    Ok(())
}

#[test]
fn test_documentational_comment() -> Result<(), InputReaderError> {
    let mut reader = TokenReader::new(InputReader::new(
        "/**\nThis is a documentational comment\n*/Server someEndpointIdentifier()".as_bytes(),
    ))?;

    let result = Endpoint::parse_endpoint(&mut reader);

    let result = result.unwrap();
    assert!(result.is_ok());
    let result = result.unwrap();

    assert_eq!(result.identifier, "someEndpointIdentifier");
    assert_eq!(result.role, "Server");
    assert_eq!(result.parameters.len(), 0);
    assert!(result.return_type.is_none());

    assert_eq!(
        result.documentation.unwrap(),
        "\nThis is a documentational comment\n"
    );

    Ok(())
}

#[test]
fn test_documentational_comment_newline() -> Result<(), InputReaderError> {
    let mut reader = TokenReader::new(InputReader::new(
        "/**\nThis is a documentational comment\n*/\nServer someEndpointIdentifier()"
            .as_bytes(),
    ))?;

    let result = Endpoint::parse_endpoint(&mut reader);

    let result = result.unwrap();
    assert!(result.is_ok());
    let result = result.unwrap();

    assert_eq!(result.identifier, "someEndpointIdentifier");
    assert_eq!(result.role, "Server");
    assert_eq!(result.parameters.len(), 0);
    assert!(result.return_type.is_none());

    assert_eq!(
        result.documentation.unwrap(),
        "\nThis is a documentational comment\n"
    );

    Ok(())
}

#[test]
fn test_primitve_params_no_return_endpoint() -> Result<(), InputReaderError> {
    let mut reader = TokenReader::new(InputReader::new(
        " Server someEndpointIdentifier(paramIdentifier? string[], paramIdentifier2 int[12], paramIdentifier3 float)"
            .as_bytes(),
    ))?;

    let result = Endpoint::parse_endpoint(&mut reader);

    assert!(result.is_some());

    let result = result.unwrap();

    assert!(result.is_ok());
    let result = result.unwrap();

    assert_eq!(result.range.end.character, 107);
    assert_eq!(result.range.start.character, 1);
    assert_eq!(result.documentation, None);
    assert_eq!(result.identifier, "someEndpointIdentifier");
    assert_eq!(result.role, "Server");
    assert_eq!(result.parameters.len(), 3);
    assert!(result.return_type.is_none());

    assert_eq!(result.parameters[0].optional, true);
    assert_eq!(result.parameters[0].identifier, "paramIdentifier");
    match &result.parameters[0].parameter_type {
        Type::Primitive(primitive) => {
            assert!(matches!(primitive.primitive_type, PrimitiveType::String));
            assert!(matches!(
                primitive.array_amount,
                ArrayAmount::NoLengthSpecified
            ));
        }
        _ => panic!("Should not match"),
    }

    assert_eq!(result.parameters[1].optional, false);
    assert_eq!(result.parameters[1].identifier, "paramIdentifier2");
    match &result.parameters[1].parameter_type {
        Type::Primitive(primitive) => {
            assert!(matches!(primitive.primitive_type, PrimitiveType::Int16));
            assert!(matches!(
                primitive.array_amount,
                ArrayAmount::LengthSpecified(12)
            ));
        }
        _ => panic!("Should not match"),
    }

    assert_eq!(result.parameters[2].optional, false);
    assert_eq!(result.parameters[2].identifier, "paramIdentifier3");
    match &result.parameters[2].parameter_type {
        Type::Primitive(primitive) => {
            assert!(matches!(primitive.primitive_type, PrimitiveType::Float32));
            assert!(matches!(primitive.array_amount, ArrayAmount::NoArray));
        }
        _ => panic!("Should not match"),
    }

    Ok(())
}

#[test]
fn test_all_primitive_types() -> Result<(), InputReaderError> {
    Endpoint::parse_endpoint(&mut TokenReader::new(InputReader::new(
        " Server someEndpointIdentifier(p1 string)".as_bytes(),
    ))?)
    .unwrap()
    .unwrap();

    Endpoint::parse_endpoint(&mut TokenReader::new(InputReader::new(
        " Server someEndpointIdentifier(p1 boolean)".as_bytes(),
    ))?)
    .unwrap()
    .unwrap();

    Endpoint::parse_endpoint(&mut TokenReader::new(InputReader::new(
        " Server someEndpointIdentifier(p1 int)".as_bytes(),
    ))?)
    .unwrap()
    .unwrap();

    Endpoint::parse_endpoint(&mut TokenReader::new(InputReader::new(
        " Server someEndpointIdentifier(p1 int8)".as_bytes(),
    ))?)
    .unwrap()
    .unwrap();

    Endpoint::parse_endpoint(&mut TokenReader::new(InputReader::new(
        " Server someEndpointIdentifier(p1 int16)".as_bytes(),
    ))?)
    .unwrap()
    .unwrap();

    Endpoint::parse_endpoint(&mut TokenReader::new(InputReader::new(
        " Server someEndpointIdentifier(p1 int32)".as_bytes(),
    ))?)
    .unwrap()
    .unwrap();

    Endpoint::parse_endpoint(&mut TokenReader::new(InputReader::new(
        " Server someEndpointIdentifier(p1 int64)".as_bytes(),
    ))?)
    .unwrap()
    .unwrap();

    Endpoint::parse_endpoint(&mut TokenReader::new(InputReader::new(
        " Server someEndpointIdentifier(p1 float)".as_bytes(),
    ))?)
    .unwrap()
    .unwrap();

    Endpoint::parse_endpoint(&mut TokenReader::new(InputReader::new(
        " Server someEndpointIdentifier(p1 float32)".as_bytes(),
    ))?)
    .unwrap()
    .unwrap();

    Endpoint::parse_endpoint(&mut TokenReader::new(InputReader::new(
        " Server someEndpointIdentifier(p1 float64)".as_bytes(),
    ))?)
    .unwrap()
    .unwrap();

    Ok(())
}

#[test]
fn test_enum_params_no_return_endpoint() -> Result<(), InputReaderError> {
    let mut reader = TokenReader::new(InputReader::new(
        " Server someEndpointIdentifier(paramIdentifier? \"hello\" | 17 | 16.8 | -155 | -5656.45 | true | false | CustomTypeTest | string)"
            .as_bytes(),
    ))?;

    let mut result = Endpoint::parse_endpoint(&mut reader).unwrap().unwrap();
    assert_eq!(result.parameters.len(), 1);

    let mut parameter_enum_values = match result.parameters.remove(0).parameter_type {
        Type::Enum(en) => en.values,
        _ => {
            panic!("should not match")
        }
    };
    assert_eq!(parameter_enum_values.len(), 9);

    match parameter_enum_values.remove(0) {
        EnumType::Literal(value) => match value {
            LiteralType::String(value) => assert_eq!(value, "hello"),
            _ => {
                panic!("should not match")
            }
        },
        _ => {
            panic!("should not match")
        }
    }

    match parameter_enum_values.remove(0) {
        EnumType::Literal(value) => match value {
            LiteralType::Integer(value) => assert_eq!(value, 17),
            _ => {
                panic!("should not match")
            }
        },
        _ => {
            panic!("should not match")
        }
    }

    match parameter_enum_values.remove(0) {
        EnumType::Literal(value) => match value {
            LiteralType::Float(value) => assert_eq!(value.parse::<f32>().unwrap(), 16.8),
            _ => {
                panic!("should not match")
            }
        },
        _ => {
            panic!("should not match")
        }
    }

    match parameter_enum_values.remove(0) {
        EnumType::Literal(value) => match value {
            LiteralType::Integer(value) => assert_eq!(value, -155),
            _ => {
                panic!("should not match")
            }
        },
        _ => {
            panic!("should not match")
        }
    }

    match parameter_enum_values.remove(0) {
        EnumType::Literal(value) => match value {
            LiteralType::Float(value) => assert_eq!(value.parse::<f32>().unwrap(), -5656.45),
            _ => {
                panic!("should not match")
            }
        },
        _ => {
            panic!("should not match")
        }
    }

    match parameter_enum_values.remove(0) {
        EnumType::Literal(value) => match value {
            LiteralType::Boolean(value) => assert_eq!(value, true),
            _ => {
                panic!("should not match")
            }
        },
        _ => {
            panic!("should not match")
        }
    }

    match parameter_enum_values.remove(0) {
        EnumType::Literal(value) => match value {
            LiteralType::Boolean(value) => assert_eq!(value, false),
            _ => {
                panic!("should not match")
            }
        },
        _ => {
            panic!("should not match")
        }
    }

    match parameter_enum_values.remove(0) {
        EnumType::Custom(value) => {
            assert_eq!(value.identifier, "CustomTypeTest")
        }
        _ => {
            panic!("should not match")
        }
    }

    match parameter_enum_values.remove(0) {
        EnumType::Primitive(value) => match value.primitive_type {
            PrimitiveType::String => {}
            _ => panic!("should not match"),
        },
        _ => {
            panic!("should not match")
        }
    }

    Ok(())
}

#[test]
fn test_custom_params_no_return_endpoint() -> Result<(), InputReaderError> {
    let mut reader = TokenReader::new(InputReader::new(
        " Server someEndpointIdentifier(paramIdentifier? CustomType, paramIdentifier2 CustomType2[], paramIdentifier3 CustomType3[10])"
            .as_bytes(),
    ))?;

    let result = Endpoint::parse_endpoint(&mut reader);

    assert!(result.is_some());

    let result = result.unwrap();

    let mut result = result.unwrap();

    assert_eq!(result.parameters.len(), 3);

    match result.parameters.remove(0).parameter_type {
        Type::Custom(value) => {
            assert_eq!(value.identifier, "CustomType");
            assert!(matches!(value.array_amount, ArrayAmount::NoArray));
        }
        _ => {
            panic!("should not match")
        }
    }

    match result.parameters.remove(0).parameter_type {
        Type::Custom(value) => {
            assert_eq!(value.identifier, "CustomType2");
            assert!(matches!(value.array_amount, ArrayAmount::NoLengthSpecified));
        }
        _ => {
            panic!("should not match")
        }
    }

    match result.parameters.remove(0).parameter_type {
        Type::Custom(value) => {
            assert_eq!(value.identifier, "CustomType3");
            assert!(matches!(
                value.array_amount,
                ArrayAmount::LengthSpecified(10)
            ));
        }
        _ => {
            panic!("should not match")
        }
    }

    Ok(())
}

#[test]
fn test_primitive_return_value() -> Result<(), InputReaderError> {
    let mut reader = TokenReader::new(InputReader::new(
        " Server someEndpointIdentifier() string".as_bytes(),
    ))?;

    let result = Endpoint::parse_endpoint(&mut reader);

    assert!(result.is_some());

    let result = result.unwrap();

    let ret_type = result.unwrap().return_type;

    match ret_type.unwrap() {
        Type::Primitive(value) => match value.primitive_type {
            PrimitiveType::String => {
                assert!(matches!(value.array_amount, ArrayAmount::NoArray));
            }
            _ => {
                panic!("Should not match")
            }
        },
        _ => {
            panic!("Should not match")
        }
    }

    Ok(())
}

#[test]
fn test_primitive_array_return_value() -> Result<(), InputReaderError> {
    let mut reader = TokenReader::new(InputReader::new(
        " Server someEndpointIdentifier() string[]".as_bytes(),
    ))?;

    let result = Endpoint::parse_endpoint(&mut reader);

    assert!(result.is_some());

    let result = result.unwrap();

    let ret_type = result.unwrap().return_type;

    match ret_type.unwrap() {
        Type::Primitive(value) => match value.primitive_type {
            PrimitiveType::String => {
                assert!(matches!(value.array_amount, ArrayAmount::NoLengthSpecified));
            }
            _ => {
                panic!("Should not match")
            }
        },
        _ => {
            panic!("Should not match")
        }
    }

    Ok(())
}

#[test]
fn test_primitive_array_return_value_2() -> Result<(), InputReaderError> {
    let mut reader = TokenReader::new(InputReader::new(
        " Server someEndpointIdentifier() string[100]".as_bytes(),
    ))?;

    let result = Endpoint::parse_endpoint(&mut reader);

    assert!(result.is_some());

    let result = result.unwrap();

    let ret_type = result.unwrap().return_type;

    match ret_type.unwrap() {
        Type::Primitive(value) => match value.primitive_type {
            PrimitiveType::String => {
                assert!(matches!(
                    value.array_amount,
                    ArrayAmount::LengthSpecified(100)
                ));
            }
            _ => {
                panic!("Should not match")
            }
        },
        _ => {
            panic!("Should not match")
        }
    }

    Ok(())
}

#[test]
fn test_invalid() -> Result<(), InputReaderError> {
    let mut reader = TokenReader::new(InputReader::new(
        " true someEndpointIdentifier() string[100]".as_bytes(),
    ))?;

    let result = Endpoint::parse_endpoint(&mut reader);

    assert!(result.is_none());

    Ok(())
}

#[test]
fn endpoint_test_invalid_2() -> Result<(), InputReaderError> {
    let mut reader =
        TokenReader::new(InputReader::new(" Server true() string[100]".as_bytes()))?;

    let result = Endpoint::parse_endpoint(&mut reader);

    assert!(result.is_none());

    Ok(())
}

#[test]
fn endpoint_test_invalid_3() -> Result<(), InputReaderError> {
    let mut reader =
        TokenReader::new(InputReader::new(" Server true|) string[100]".as_bytes()))?;

    let result = Endpoint::parse_endpoint(&mut reader);

    assert!(result.is_none());

    Ok(())
}

#[test]
fn endpoint_test_invalid_4() -> Result<(), InputReaderError> {
    let mut reader =
        TokenReader::new(InputReader::new(" Server trueA) string[100]".as_bytes()))?;

    let result = Endpoint::parse_endpoint(&mut reader);

    assert!(result.is_none());

    Ok(())
}

#[test]
fn endpoint_test_invalid_5() -> Result<(), InputReaderError> {
    let mut reader = TokenReader::new(InputReader::new(" Server something(".as_bytes()))?;

    let result = Endpoint::parse_endpoint(&mut reader);

    assert!(result.is_none());

    Ok(())
}

#[test]
fn endpoint_test_invalid_6() -> Result<(), InputReaderError> {
    let mut reader =
        TokenReader::new(InputReader::new(" Server hello(p1 string,)".as_bytes()))?;

    let result = Endpoint::parse_endpoint(&mut reader);

    assert!(result.is_some());
    let result = result.unwrap();
    assert!(result.is_err());
    assert_eq!(result.unwrap_err().message, "Expected parameters instead of closing bracket");

    Ok(())
}

#[test]
fn test_newline_after_parameter() -> Result<(), InputReaderError> {
    let mut reader = TokenReader::new(InputReader::new(
        " Server hello(p1 string,\np2 string)".as_bytes(),
    ))?;

    let result = Endpoint::parse_endpoint(&mut reader);

    assert!(result.is_some());
    let result = result.unwrap();
    assert!(result.is_ok());

    Ok(())
}

#[test]
fn endpoint_test_invalid_7() -> Result<(), InputReaderError> {
    let mut reader = TokenReader::new(InputReader::new(" Server hello(p1".as_bytes()))?;

    let result = Endpoint::parse_endpoint(&mut reader);

    assert!(result.is_some());
    let result = result.unwrap();
    assert!(result.is_err());
    assert_eq!(result.unwrap_err().message, "Not enough tokens to form a valid parameter");

    Ok(())
}

#[test]
fn endpoint_test_invalid_8() -> Result<(), InputReaderError> {
    let mut reader = TokenReader::new(InputReader::new(" Server hello(true true".as_bytes()))?;

    let result = Endpoint::parse_endpoint(&mut reader);

    assert!(result.is_some());
    let result = result.unwrap();
    assert!(result.is_err());
    assert_eq!(result.unwrap_err().message, "Expected parameter identifier");

    Ok(())
}

#[test]
fn endpoint_test_invalid_9() -> Result<(), InputReaderError> {
    let mut reader = TokenReader::new(InputReader::new(" Server hello(p1| string".as_bytes()))?;

    let result = Endpoint::parse_endpoint(&mut reader);

    assert!(result.is_some());
    let result = result.unwrap();
    assert!(result.is_err());
    assert_eq!(result.unwrap_err().message, "Unexpected operator. Only ? is valid here.");

    Ok(())
}

#[test]
fn endpoint_test_invalid_10() -> Result<(), InputReaderError> {
    let mut reader = TokenReader::new(InputReader::new(" Server hello(p1 .".as_bytes()))?;

    let result = Endpoint::parse_endpoint(&mut reader);

    assert!(result.is_some());
    let result = result.unwrap();
    assert!(result.is_err());
    assert_eq!(result.unwrap_err().message, "Expected a parameter type");

    Ok(())
}

#[test]
fn test_invalid_11() -> Result<(), InputReaderError> {
    let mut reader = TokenReader::new(InputReader::new(" Server hello(p1 true |".as_bytes()))?;

    let result = Endpoint::parse_endpoint(&mut reader);

    assert!(result.is_some());
    let result = result.unwrap();
    assert!(result.is_err());
    assert_eq!(result.unwrap_err().message, "Expected a literal for this enum type");

    Ok(())
}

#[test]
fn test_invalid_12() -> Result<(), InputReaderError> {
    let mut reader = TokenReader::new(InputReader::new(
        " Server hello(p1 true | something".as_bytes(),
    ))?;

    let result = Endpoint::parse_endpoint(&mut reader);

    assert!(result.is_some());
    let result = result.unwrap();
    assert!(result.is_err());
    assert_eq!(result.unwrap_err().message, "Expected more tokens for correct endpoint syntax");

    Ok(())
}

#[test]
fn test_invalid_13() -> Result<(), InputReaderError> {
    let mut reader = TokenReader::new(InputReader::new(
        " Server hello(p1 string[invalid]".as_bytes(),
    ))?;

    let result = Endpoint::parse_endpoint(&mut reader);

    assert!(result.is_some());
    let result = result.unwrap();
    assert!(result.is_err());
    assert_eq!(result.unwrap_err().message, "Expected integer or closing bracket");

    Ok(())
}

#[test]
fn test_invalid_14() -> Result<(), InputReaderError> {
    let mut reader =
        TokenReader::new(InputReader::new(" Server hello(p1 string[15.5]".as_bytes()))?;

    let result = Endpoint::parse_endpoint(&mut reader);

    assert!(result.is_some());
    let result = result.unwrap();
    assert!(result.is_err());
    assert_eq!(result.unwrap_err().message, "Expected integer or closing bracket");

    Ok(())
}

#[test]
fn test_invalid_15() -> Result<(), InputReaderError> {
    let mut reader =
        TokenReader::new(InputReader::new(" Server hello(p1 string[true".as_bytes()))?;

    let result = Endpoint::parse_endpoint(&mut reader);

    assert!(result.is_some());
    let result = result.unwrap();
    assert!(result.is_err());
    assert_eq!(result.unwrap_err().message, "Expected integer or closing bracket");

    Ok(())
}

#[test]
fn test_invalid_16() -> Result<(), InputReaderError> {
    let mut reader =
        TokenReader::new(InputReader::new(" Server hello(p1 string[0])".as_bytes()))?;

    let result = Endpoint::parse_endpoint(&mut reader);

    assert!(result.is_some());
    let result = result.unwrap();
    assert!(result.is_err());
    assert_eq!(result.unwrap_err().message, "Size of the array must be above or equal to 1");

    Ok(())
}

#[test]
fn test_invalid_17() -> Result<(), InputReaderError> {
    let mut reader =
        TokenReader::new(InputReader::new(" Server hello(p1 string[-18])".as_bytes()))?;

    let result = Endpoint::parse_endpoint(&mut reader);

    assert!(result.is_some());
    let result = result.unwrap();
    assert!(result.is_err());
    assert_eq!(result.unwrap_err().message, "Size of the array must be above or equal to 1");

    Ok(())
}

#[test]
fn test_middleware_endpoint() -> Result<(), InputReaderError> {
    let mut reader = TokenReader::new(InputReader::new(
        "&SomeValidMiddlwareIdentifier
&AnotherValidMiddlwareIdentifier
 Server someEndpointIdentifier()"
            .as_bytes(),
    ))?;

    let result = Endpoint::parse_endpoint(&mut reader).unwrap().unwrap();

    assert_eq!(result.range.start.character, 0);
    assert_eq!(result.range.start.line, 0);
    assert_eq!(result.range.end.character, 32);
    assert_eq!(result.range.end.line, 2);
    assert_eq!(result.documentation, None);
    assert_eq!(
        result.middleware_identifiers,
        vec![
            "SomeValidMiddlwareIdentifier",
            "AnotherValidMiddlwareIdentifier"
        ]
    );
    assert_eq!(result.identifier, "someEndpointIdentifier");
    assert_eq!(result.role, "Server");
    assert_eq!(result.parameters.len(), 0);
    assert!(result.return_type.is_none());

    Ok(())
}

#[test]
fn test_middleware_endpoint_with_docs_spaces() -> Result<(), InputReaderError> {
    let mut reader = TokenReader::new(InputReader::new(
        "/**These are some docs*/
&SomeValidMiddlwareIdentifier
&AnotherValidMiddlwareIdentifier

 Server someEndpointIdentifier()"
            .as_bytes(),
    ))?;

    let result = Endpoint::parse_endpoint(&mut reader).unwrap().unwrap();

    assert_eq!(result.range.start.character, 0);
    assert_eq!(result.range.start.line, 0);
    assert_eq!(result.range.end.character, 32);
    assert_eq!(result.range.end.line, 4);
    assert_eq!(result.documentation, Some("These are some docs".to_string()));
    assert_eq!(
        result.middleware_identifiers,
        vec![
            "SomeValidMiddlwareIdentifier",
            "AnotherValidMiddlwareIdentifier"
        ]
    );
    assert_eq!(result.identifier, "someEndpointIdentifier");
    assert_eq!(result.role, "Server");
    assert_eq!(result.parameters.len(), 0);
    assert!(result.return_type.is_none());

    Ok(())
}



#[test]
fn parse_test_success() -> Result<(), InputReaderError> {
    let mut r = TokenReader::new(InputReader::new(
        "type TestType {
field1 string
field2 int
}

Server test()
Client tes2t()"
            .as_bytes(),
    ))?;
    let result = parse(&mut r).unwrap();

    assert_eq!(result.custom_types.len(), 1);
    assert_eq!(result.endpoints.len(), 2);

    Ok(())
}



#[test]
fn disposeable_comment_test_success() -> Result<(), InputReaderError> {
    let mut reader =
        TokenReader::new(InputReader::new("//Hello from the other side".as_bytes()))?;
    let result = DisposeableComment::skip_disposeable_comment(&mut reader);
    assert!(result.is_some());
    assert!(reader.is_done());

    let result = DisposeableComment::skip_disposeable_comment(&mut reader);
    assert!(result.is_none());

    Ok(())
}

#[test]
fn array_length_needs_closing_bracket() -> Result<(), InputReaderError> {
    let mut reader = TokenReader::new(InputReader::new("type SomeType {field string[12 x}".as_bytes()))?;
    let result = CustomType::parse_custom_type(&mut reader).unwrap();
    let error = result.unwrap_err();
    assert_eq!(error.message, "Expected closing bracket");
    assert_eq!(error.start.character, 31);
    Ok(())
}

#[test]
fn endpoint_answers_nothing_without_head() -> Result<(), InputReaderError> {
    let mut reader = TokenReader::new(InputReader::new(" true someEndpointIdentifier() string[100]".as_bytes()))?;
    assert!(Endpoint::parse_endpoint(&mut reader).is_none());
    assert_eq!(reader.peek(1).unwrap().len(), 1);
    let mut reader = TokenReader::new(InputReader::new(" Server something(".as_bytes()))?;
    assert!(Endpoint::parse_endpoint(&mut reader).is_none());
    let mut reader = TokenReader::new(InputReader::new("&Auth\nServer something(x string)".as_bytes()))?;
    let endpoint = Endpoint::parse_endpoint(&mut reader).unwrap().unwrap();
    assert_eq!(endpoint.middleware_identifiers, vec!["Auth".to_string()]);
    Ok(())
}
