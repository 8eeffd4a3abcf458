use easy_rpc::input_reader::{InputReader, InputReaderError};
use easy_rpc::lexer::token::{DisposeableComment, DocumentationalComment, Identifier, Keyword, KeywordType, LineBreak, Literal, LiteralType};
use easy_rpc::lexer::space::Space;

#[test]
fn test_success_nbs() -> Result<(), InputReaderError> {
    let input = "#This is a simple test string!";
    let mut reader = InputReader::new(input.as_bytes());
    let output = DisposeableComment::lex_disposeable_comment(&mut reader)?;
    
    assert_eq!(output.is_some(), true);
    let output = output.unwrap();
    assert_eq!(output.get_start().character, 0);
    assert_eq!(output.get_start().line, 0);
    assert_eq!(output.get_end().character, input.len() as u16);
    assert_eq!(output.get_end().line, 0);
    assert_eq!(output.get_content(), "This is a simple test string!");

    Ok(())
}

#[test]
fn test_success_2_nbs() -> Result<(), InputReaderError> {
    let mut reader = InputReader::new("#This is a simple test string!\nthis is no comment".as_bytes());
    let output = DisposeableComment::lex_disposeable_comment(&mut reader)?;
    
    assert_eq!(output.is_some(), true);
    let output = output.unwrap();
    assert_eq!(output.get_start().character, 0);
    assert_eq!(output.get_start().line, 0);
    assert_eq!(output.get_end().character, 0);
    assert_eq!(output.get_end().line, 1);
    assert_eq!(output.get_content(), "This is a simple test string!\n");

    Ok(())
}

#[test]
fn test_success_slash() -> Result<(), InputReaderError> {
    let input = "//This is a simple test string!";
    let mut reader = InputReader::new(input.as_bytes());
    let output = DisposeableComment::lex_disposeable_comment(&mut reader)?;
    
    assert_eq!(output.is_some(), true);
    let output = output.unwrap();
    assert_eq!(output.get_start().character, 0);
    assert_eq!(output.get_start().line, 0);
    assert_eq!(output.get_end().character, input.len() as u16);
    assert_eq!(output.get_end().line, 0);
    assert_eq!(output.get_content(), "This is a simple test string!");

    Ok(())
}

#[test]
fn test_success_2_slash() -> Result<(), InputReaderError> {
    let mut reader = InputReader::new("//This is a simple test string!\nthis is no comment".as_bytes());
    let output = DisposeableComment::lex_disposeable_comment(&mut reader)?;
    
    assert_eq!(output.is_some(), true);
    let output = output.unwrap();
    assert_eq!(output.get_start().character, 0);
    assert_eq!(output.get_start().line, 0);
    assert_eq!(output.get_end().character, 0);
    assert_eq!(output.get_end().line, 1);
    assert_eq!(output.get_content(), "This is a simple test string!\n");

    Ok(())
}

#[test]
fn test_success_multiline() -> Result<(), InputReaderError> {
    let mut reader = InputReader::new("/*\nThis is a simple test string!\nthis also comment\n*/".as_bytes());
    let output = DisposeableComment::lex_disposeable_comment(&mut reader)?;
    
    assert_eq!(output.is_some(), true);
    let output = output.unwrap();
    assert_eq!(output.get_start().character, 0);
    assert_eq!(output.get_start().line, 0);
    assert_eq!(output.get_end().character, 2);
    assert_eq!(output.get_end().line, 3);
    assert_eq!(output.get_content(), "\nThis is a simple test string!\nthis also comment\n");

    Ok(())
}

#[test]
fn test_fail_multiline() -> Result<(), InputReaderError> {
    let mut reader = InputReader::new("/**\nThis is a simple test string!\nthis also comment\n*/".as_bytes());
    let output = DisposeableComment::lex_disposeable_comment(&mut reader)?;
    
    assert_eq!(output.is_some(), false);

    Ok(())
}



#[test]
fn documentational_comment_test_success() -> Result<(), InputReaderError> {
    let mut reader = InputReader::new(
        "/**\nSome documentational comment\n*/this is not part of the comment".as_bytes(),
    );
    let output = DocumentationalComment::lex_documentational_comment(&mut reader)?;

    assert_eq!(output.is_some(), true);
    let output = output.unwrap();
    assert_eq!(output.start.character, 0);
    assert_eq!(output.start.line, 0);
    assert_eq!(output.end.character, 2);
    assert_eq!(output.end.line, 2);
    assert_eq!(output.content, "\nSome documentational comment\n");
    assert_eq!(reader.peek(31)?.unwrap(), "this is not part of the comment");

    Ok(())
}



#[test]
fn identifier_test_success() -> Result<(), InputReaderError> {
    let mut reader = InputReader::new("Hello//".as_bytes());
    let output = Identifier::lex_identifier(&mut reader)?;

    assert_eq!(output.is_some(), true);
    let output = output.unwrap();
    assert_eq!(output.start.character, 0);
    assert_eq!(output.start.line, 0);
    assert_eq!(output.end.character, 5);
    assert_eq!(output.end.line, 0);
    assert_eq!(output.content, "Hello");
    assert_eq!(reader.peek(2)?.unwrap(), "//");
    

    Ok(())
}

#[test]
fn test_success_line_end() -> Result<(), InputReaderError> {
    let mut reader = InputReader::new("Hello".as_bytes());
    let output = Identifier::lex_identifier(&mut reader)?;

    assert_eq!(output.is_some(), true);
    let output = output.unwrap();
    assert_eq!(output.start.character, 0);
    assert_eq!(output.start.line, 0);
    assert_eq!(output.end.character, 5);
    assert_eq!(output.end.line, 0);
    assert_eq!(output.content, "Hello");
    assert!(reader.is_done());

    Ok(())
}

#[test]
fn test_failure() -> Result<(), InputReaderError> {
    let mut reader = InputReader::new("/Hello".as_bytes());
    let output = Identifier::lex_identifier(&mut reader)?;

    assert_eq!(output.is_some(), false);

    Ok(())
}



#[test]
fn test_type_success() -> Result<(), InputReaderError> {
    let mut reader = InputReader::new("type".as_bytes());
    let output = Keyword::lex_keyword(&mut reader)?;

    assert_eq!(output.is_some(), true);
    let output = output.unwrap();
    assert_eq!(output.start.character, 0);
    assert_eq!(output.start.line, 0);
    assert_eq!(output.end.character, 4);
    assert_eq!(output.end.line, 0);
    assert_eq!(matches!(output.keyword_type, KeywordType::Type), true);

    Ok(())
}

#[test]
fn test_only_type_success() -> Result<(), InputReaderError> {
    let mut reader = InputReader::new("type".as_bytes());
    let output = Keyword::lex_keyword(&mut reader)?;

    assert_eq!(output.is_some(), true);
    let output = output.unwrap();
    assert_eq!(output.start.character, 0);
    assert_eq!(output.start.line, 0);
    assert_eq!(output.end.character, 4);
    assert_eq!(output.end.line, 0);
    assert_eq!(matches!(output.keyword_type, KeywordType::Type), true);
    assert!(reader.is_done());

    Ok(())
}

#[test]
fn test_type_invalid() -> Result<(), InputReaderError> {
    let mut reader = InputReader::new("typ".as_bytes());
    let output = Keyword::lex_keyword(&mut reader)?;

    assert_eq!(output.is_some(), false);

    Ok(())
}

#[test]
fn test_boolean_success() -> Result<(), InputReaderError> {
    let mut reader = InputReader::new("boolean".as_bytes());
    let output = Keyword::lex_keyword(&mut reader)?;

    assert_eq!(output.is_some(), true);
    let output = output.unwrap();
    assert_eq!(output.start.character, 0);
    assert_eq!(output.start.line, 0);
    assert_eq!(output.end.character, 7);
    assert_eq!(output.end.line, 0);
    assert_eq!(matches!(output.keyword_type, KeywordType::Boolean), true);

    Ok(())
}

#[test]
fn test_int_success() -> Result<(), InputReaderError> {
    let mut reader = InputReader::new("int )".as_bytes());
    let output = Keyword::lex_keyword(&mut reader)?;

    assert_eq!(output.is_some(), true);
    let output = output.unwrap();
    assert_eq!(output.start.character, 0);
    assert_eq!(output.start.line, 0);
    assert_eq!(output.end.character, 3);
    assert_eq!(output.end.line, 0);
    assert_eq!(matches!(output.keyword_type, KeywordType::Int), true);

    Ok(())
}

#[test]
fn test_int8_success() -> Result<(), InputReaderError> {
    let mut reader = InputReader::new("int8".as_bytes());
    let output = Keyword::lex_keyword(&mut reader)?;

    assert_eq!(output.is_some(), true);
    let output = output.unwrap();
    assert_eq!(output.start.character, 0);
    assert_eq!(output.start.line, 0);
    assert_eq!(output.end.character, 4);
    assert_eq!(output.end.line, 0);
    assert_eq!(matches!(output.keyword_type, KeywordType::Int8), true);

    Ok(())
}

#[test]
fn test_int16_success() -> Result<(), InputReaderError> {
    let mut reader = InputReader::new("int16".as_bytes());
    let output = Keyword::lex_keyword(&mut reader)?;

    assert_eq!(output.is_some(), true);
    let output = output.unwrap();
    assert_eq!(output.start.character, 0);
    assert_eq!(output.start.line, 0);
    assert_eq!(output.end.character, 5);
    assert_eq!(output.end.line, 0);
    assert_eq!(matches!(output.keyword_type, KeywordType::Int16), true);

    Ok(())
}

#[test]
fn test_int32_success() -> Result<(), InputReaderError> {
    let mut reader = InputReader::new("int32".as_bytes());
    let output = Keyword::lex_keyword(&mut reader)?;

    assert_eq!(output.is_some(), true);
    let output = output.unwrap();
    assert_eq!(output.start.character, 0);
    assert_eq!(output.start.line, 0);
    assert_eq!(output.end.character, 5);
    assert_eq!(output.end.line, 0);
    assert_eq!(matches!(output.keyword_type, KeywordType::Int32), true);

    Ok(())
}

#[test]
fn test_int64_success() -> Result<(), InputReaderError> {
    let mut reader = InputReader::new("int64".as_bytes());
    let output = Keyword::lex_keyword(&mut reader)?;

    assert_eq!(output.is_some(), true);
    let output = output.unwrap();
    assert_eq!(output.start.character, 0);
    assert_eq!(output.start.line, 0);
    assert_eq!(output.end.character, 5);
    assert_eq!(output.end.line, 0);
    assert_eq!(matches!(output.keyword_type, KeywordType::Int64), true);

    Ok(())
}

#[test]
fn test_float_success() -> Result<(), InputReaderError> {
    let mut reader = InputReader::new("float".as_bytes());
    let output = Keyword::lex_keyword(&mut reader)?;

    assert_eq!(output.is_some(), true);
    let output = output.unwrap();
    assert_eq!(output.start.character, 0);
    assert_eq!(output.start.line, 0);
    assert_eq!(output.end.character, 5);
    assert_eq!(output.end.line, 0);
    assert_eq!(matches!(output.keyword_type, KeywordType::Float), true);

    Ok(())
}

#[test]
fn test_float32_success() -> Result<(), InputReaderError> {
    let mut reader = InputReader::new("float32".as_bytes());
    let output = Keyword::lex_keyword(&mut reader)?;

    assert_eq!(output.is_some(), true);
    let output = output.unwrap();
    assert_eq!(output.start.character, 0);
    assert_eq!(output.start.line, 0);
    assert_eq!(output.end.character, 7);
    assert_eq!(output.end.line, 0);
    assert_eq!(matches!(output.keyword_type, KeywordType::Float32), true);

    Ok(())
}

#[test]
fn test_float64_success() -> Result<(), InputReaderError> {
    let mut reader = InputReader::new("float64".as_bytes());
    let output = Keyword::lex_keyword(&mut reader)?;

    assert_eq!(output.is_some(), true);
    let output = output.unwrap();
    assert_eq!(output.start.character, 0);
    assert_eq!(output.start.line, 0);
    assert_eq!(output.end.character, 7);
    assert_eq!(output.end.line, 0);
    assert_eq!(matches!(output.keyword_type, KeywordType::Float64), true);

    Ok(())
}

#[test]
fn test_string_success() -> Result<(), InputReaderError> {
    let mut reader = InputReader::new("string".as_bytes());
    let output = Keyword::lex_keyword(&mut reader)?;

    assert_eq!(output.is_some(), true);
    let output = output.unwrap();
    assert_eq!(output.start.character, 0);
    assert_eq!(output.start.line, 0);
    assert_eq!(output.end.character, 6);
    assert_eq!(output.end.line, 0);
    assert_eq!(matches!(output.keyword_type, KeywordType::String), true);

    Ok(())
}



#[test]
fn line_break_test_success() -> Result<(), InputReaderError> {
    let mut reader = InputReader::new("\n\r\n".as_bytes());

    assert_eq!(reader.current_position.character, 0);
    assert_eq!(reader.current_position.line, 0);
    let output = LineBreak::lex_line_break(&mut reader)?.unwrap();
    assert_eq!(output.start.character, 0);
    assert_eq!(output.start.line, 0);
    assert_eq!(output.end.character, 0);
    assert_eq!(output.end.line, 1);
    let output = LineBreak::lex_line_break(&mut reader)?.unwrap();
    assert_eq!(output.start.character, 0);
    assert_eq!(output.start.line, 1);
    assert_eq!(output.end.character, 0);
    assert_eq!(output.end.line, 2);
    assert!(reader.is_done());

    Ok(())
}



#[test]
fn test_true() -> Result<(), InputReaderError> {
    let mut reader = InputReader::new("true ".as_bytes());

    let output = Literal::lex_literal(&mut reader)?.unwrap();
    assert_eq!(output.get_start().character, 0);
    assert_eq!(output.get_start().line, 0);
    assert_eq!(output.get_end().character, 4);
    assert_eq!(output.get_end().line, 0);
    assert_eq!(
        matches!(output.get_type(), LiteralType::Boolean(true)),
        true
    );
    assert!(!reader.is_done());

    Ok(())
}

#[test]
fn test_true_short() -> Result<(), InputReaderError> {
    let mut reader = InputReader::new("true".as_bytes());

    let output = Literal::lex_literal(&mut reader)?.unwrap();
    assert_eq!(output.get_start().character, 0);
    assert_eq!(output.get_start().line, 0);
    assert_eq!(output.get_end().character, 4);
    assert_eq!(output.get_end().line, 0);
    assert_eq!(
        matches!(output.get_type(), LiteralType::Boolean(true)),
        true
    );
    assert!(reader.is_done());

    Ok(())
}

#[test]
fn test_true_invalid() -> Result<(), InputReaderError> {
    let mut reader = InputReader::new("trueSomething".as_bytes());

    let output = Literal::lex_literal(&mut reader)?;
    assert!(output.is_none());

    Ok(())
}

#[test]
fn test_false() -> Result<(), InputReaderError> {
    let mut reader = InputReader::new("false ".as_bytes());

    let output = Literal::lex_literal(&mut reader)?.unwrap();
    assert_eq!(output.get_start().character, 0);
    assert_eq!(output.get_start().line, 0);
    assert_eq!(output.get_end().character, 5);
    assert_eq!(output.get_end().line, 0);
    assert_eq!(
        matches!(output.get_type(), LiteralType::Boolean(false)),
        true
    );

    Ok(())
}

#[test]
fn test_false_invalid() -> Result<(), InputReaderError> {
    let mut reader = InputReader::new("falseSomething".as_bytes());

    let output = Literal::lex_literal(&mut reader)?;
    assert!(output.is_none());

    Ok(())
}

#[test]
fn test_string() -> Result<(), InputReaderError> {
    let mut reader = InputReader::new("\"some string literal\" ".as_bytes());

    let output = Literal::lex_literal(&mut reader)?.unwrap();
    assert_eq!(output.get_start().character, 0);
    assert_eq!(output.get_start().line, 0);
    assert_eq!(output.get_end().character, 21);
    assert_eq!(output.get_end().line, 0);
    assert_eq!(matches!(output.get_type(), LiteralType::String(_)), true);
    match output.get_type() {
        LiteralType::String(value) => assert_eq!(value, "some string literal"),
        _ => {}
    }

    Ok(())
}

#[test]
fn test_string_escaped_quotation_mark() -> Result<(), InputReaderError> {
    let mut reader = InputReader::new("\"some string\\\" literal\" ".as_bytes());

    let output = Literal::lex_literal(&mut reader)?.unwrap();
    assert_eq!(output.get_start().character, 0);
    assert_eq!(output.get_start().line, 0);
    assert_eq!(output.get_end().character, 23);
    assert_eq!(output.get_end().line, 0);
    assert_eq!(matches!(output.get_type(), LiteralType::String(_)), true);
    match output.get_type() {
        LiteralType::String(value) => assert_eq!(value, "some string\\\" literal"),
        _ => {}
    }

    Ok(())
}

#[test]
fn test_string_empty() -> Result<(), InputReaderError> {
    let output = Literal::lex_literal(&mut InputReader::new("\"\"".as_bytes()))?.unwrap();
    match output.get_type() {
        LiteralType::String(value) => assert_eq!(value, ""),
        _ => {}
    }

    Ok(())
}

#[test]
fn test_string_invalid() -> Result<(), InputReaderError> {
    let reader = &mut InputReader::new("\"".as_bytes());
    let out = Literal::lex_literal(reader)?;
    
    assert!(out.is_none());
    assert_eq!(reader.get_current_position().line, 0);
    assert_eq!(reader.get_current_position().character, 0);

    Ok(())
}

#[test]
fn test_string_invalid_2() -> Result<(), InputReaderError> {
    let reader = &mut InputReader::new("\"daawawdawd".as_bytes());
    let out = Literal::lex_literal(reader)?;
    
    assert!(out.is_none());
    assert_eq!(reader.get_current_position().line, 0);
    assert_eq!(reader.get_current_position().character, 0);

    Ok(())
}

#[test]
fn test_number_float() -> Result<(), InputReaderError> {
    let mut reader = InputReader::new("5458.5166".as_bytes());

    let output = Literal::lex_literal(&mut reader)?.unwrap();
    assert_eq!(output.get_start().character, 0);
    assert_eq!(output.get_start().line, 0);
    assert_eq!(output.get_end().character, 9);
    assert_eq!(output.get_end().line, 0);
    assert_eq!(matches!(output.get_type(), LiteralType::Float(_)), true);
    match output.get_type() {
        LiteralType::Float(value) => assert_eq!(value.to_string(), 5458.5166.to_string()),
        _ => {}
    }

    Ok(())
}

#[test]
fn test_number_float_negative() -> Result<(), InputReaderError> {
    let mut reader = InputReader::new("-5458.5166".as_bytes());

    let output = Literal::lex_literal(&mut reader)?.unwrap();
    assert_eq!(output.get_start().character, 0);
    assert_eq!(output.get_start().line, 0);
    assert_eq!(output.get_end().character, 10);
    assert_eq!(output.get_end().line, 0);
    assert_eq!(matches!(output.get_type(), LiteralType::Float(_)), true);
    match output.get_type() {
        LiteralType::Float(value) => assert_eq!(value.to_string(), (-5458.5166).to_string()),
        _ => {}
    }

    Ok(())
}

#[test]
fn test_number_int() -> Result<(), InputReaderError> {
    let mut reader = InputReader::new("5458".as_bytes());

    let output = Literal::lex_literal(&mut reader)?.unwrap();
    assert_eq!(output.get_start().character, 0);
    assert_eq!(output.get_start().line, 0);
    assert_eq!(output.get_end().character, 4);
    assert_eq!(output.get_end().line, 0);
    assert_eq!(matches!(output.get_type(), LiteralType::Integer(_)), true);
    match output.get_type() {
        LiteralType::Float(value) => assert_eq!(value.to_string(), 5458.to_string()),
        _ => {}
    }

    Ok(())
}

#[test]
fn test_number_int_negative() -> Result<(), InputReaderError> {
    let mut reader = InputReader::new("-5458".as_bytes());

    let output = Literal::lex_literal(&mut reader)?.unwrap();
    assert_eq!(output.get_start().character, 0);
    assert_eq!(output.get_start().line, 0);
    assert_eq!(output.get_end().character, 5);
    assert_eq!(output.get_end().line, 0);
    assert_eq!(matches!(output.get_type(), LiteralType::Integer(_)), true);
    match output.get_type() {
        LiteralType::Float(value) => assert_eq!(value.to_string(), (-5458).to_string()),
        _ => {}
    }

    Ok(())
}

#[test]
fn test_number_invalid() -> Result<(), InputReaderError> {
    assert_eq!(
        Literal::lex_literal(&mut InputReader::new("-98234.".as_bytes()))?.is_none(),
        false
    ); // should be -98234.0
    assert_eq!(
        Literal::lex_literal(&mut InputReader::new("-".as_bytes()))?.is_none(),
        true
    );
    assert_eq!(
        Literal::lex_literal(&mut InputReader::new(".".as_bytes()))?.is_none(),
        true
    );
    assert_eq!(
        Literal::lex_literal(&mut InputReader::new("-98234.234.".as_bytes()))?.is_none(),
        true
    );
    assert_eq!(
        Literal::lex_literal(&mut InputReader::new("-98234.234.34234".as_bytes()))?.is_none(),
        true
    );
    assert_eq!(
        Literal::lex_literal(&mut InputReader::new("--98234".as_bytes()))?.is_none(),
        true
    );
    assert_eq!(
        Literal::lex_literal(&mut InputReader::new(".98234".as_bytes()))?.is_none(),
        true
    );

    Ok(())
}



#[test]
fn space_test_success() -> Result<(), InputReaderError> {
    let mut reader = InputReader::new("  		   ".as_bytes());

    assert_eq!(reader.get_current_position().character, 0);
    Space::skip_space(&mut reader)?;
    assert_eq!(reader.get_current_position().character, 7);

    Ok(())
}

#[test]
fn line_breaks_of_carriage_returns() -> Result<(), InputReaderError> {
    let mut reader = InputReader::new("\r\r\n\n\rx".as_bytes());
    let first = LineBreak::lex_line_break(&mut reader)?.unwrap();
    assert_eq!(first.start.line, 0);
    assert_eq!(first.end.line, 2);
    let second = LineBreak::lex_line_break(&mut reader)?.unwrap();
    assert_eq!(second.start.line, 2);
    assert!(LineBreak::lex_line_break(&mut reader)?.is_none());
    assert_eq!(reader.peek(1)?.unwrap(), "x");
    Ok(())
}

#[test]
fn string_literal_with_multibyte_characters() -> Result<(), InputReaderError> {
    let mut reader = InputReader::new("\"a❎b\" rest".as_bytes());
    let literal = Literal::lex_literal(&mut reader)?.unwrap();
    match literal.literal_type {
        LiteralType::String(value) => assert_eq!(value, "a❎b"),
        _ => panic!("not a string"),
    }
    assert_eq!(literal.end.character, 5);
    assert_eq!(reader.peek(5)?.unwrap(), " rest");
    Ok(())
}

#[test]
fn documentational_comment_at_the_end() -> Result<(), InputReaderError> {
    let mut reader = InputReader::new("/**".as_bytes());
    let comment = DocumentationalComment::lex_documentational_comment(&mut reader)?.unwrap();
    assert_eq!(comment.content, "");
    assert_eq!(comment.start.character, 0);
    assert_eq!(comment.end.character, 3);
    assert!(reader.is_done());
    Ok(())
}
