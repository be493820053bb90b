use asm_lexer::Directive;

fn dir(operation: &str, operand: &str) -> Directive {
    Directive {
        operation: operation.to_string(),
        operand: operand.to_string(),
    }
}

#[test]
fn test_directive_parsing() {
    assert_eq!(
        Ok(Directive {
            operation: "byte".into(),
            operand: "$24, $25".into()
        }),
        ".byte $24, $25".parse()
    );
}

#[test]
fn directive_after_leading_whitespace() {
    assert_eq!(Directive::parse("  .word\t$1234 "), Ok(dir("word", "$1234 ")));
}

#[test]
fn directive_needs_dot_name_and_operand() {
    assert_eq!(Directive::parse(".byte"), Err(()));
    assert_eq!(Directive::parse(".byte   "), Err(()));
    assert_eq!(Directive::parse("byte $1"), Err(()));
    assert_eq!(Directive::parse(". $1"), Err(()));
    assert_eq!(Directive::parse(""), Err(()));
}
