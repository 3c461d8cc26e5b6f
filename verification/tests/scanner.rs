use lexer::lexer::Lexer;
use lexer::token::{ScanError, TokenTypes};

fn scan_ok(input: &str) -> Vec<TokenTypes> {
    let mut tokenizer = Lexer::new(input.chars().collect());
    tokenizer.scan().expect("scan should succeed")
}

fn scan_err(input: &str) -> ScanError {
    let mut tokenizer = Lexer::new(input.chars().collect());
    tokenizer.scan().expect_err("scan should fail")
}

#[test]
fn empty_input_yields_no_tokens() {
    assert_eq!(scan_ok(""), vec![]);
}

#[test]
fn blank_input_yields_one_end_statement_per_newline() {
    assert_eq!(scan_ok("   \t  "), vec![]);
    assert_eq!(
        scan_ok(" \t\n \n"),
        vec![TokenTypes::EndStatement, TokenTypes::EndStatement]
    );
    assert_eq!(
        scan_ok("\n\n\n"),
        vec![
            TokenTypes::EndStatement,
            TokenTypes::EndStatement,
            TokenTypes::EndStatement
        ]
    );
}

#[test]
fn single_character_operators() {
    assert_eq!(scan_ok("+"), vec![TokenTypes::Add]);
    assert_eq!(scan_ok("-"), vec![TokenTypes::Sub]);
    assert_eq!(scan_ok("/"), vec![TokenTypes::Div]);
    assert_eq!(scan_ok("*"), vec![TokenTypes::Mult]);
    assert_eq!(scan_ok("%"), vec![TokenTypes::Mod]);
    assert_eq!(scan_ok("="), vec![TokenTypes::Assign]);
    assert_eq!(scan_ok("<"), vec![TokenTypes::LessThan]);
    assert_eq!(scan_ok(">"), vec![TokenTypes::Greater]);
    assert_eq!(scan_ok("!"), vec![TokenTypes::Not]);
    assert_eq!(scan_ok("&"), vec![TokenTypes::BitAnd]);
    assert_eq!(scan_ok("|"), vec![TokenTypes::BitOr]);
    assert_eq!(scan_ok("\u{00AC}"), vec![TokenTypes::BitNot]);
}

#[test]
fn compound_operators_round_trip() {
    assert_eq!(scan_ok("++"), vec![TokenTypes::Inc]);
    assert_eq!(scan_ok("--"), vec![TokenTypes::Dec]);
    assert_eq!(scan_ok("//"), vec![TokenTypes::IntDiv]);
    assert_eq!(scan_ok("**"), vec![TokenTypes::Pow]);
    assert_eq!(scan_ok("+="), vec![TokenTypes::AddAssign]);
    assert_eq!(scan_ok("-="), vec![TokenTypes::SubAssign]);
    assert_eq!(scan_ok("/="), vec![TokenTypes::DivAssign]);
    assert_eq!(scan_ok("*="), vec![TokenTypes::MultAssign]);
    assert_eq!(scan_ok("%="), vec![TokenTypes::ModAssign]);
    assert_eq!(scan_ok("=="), vec![TokenTypes::Equal]);
    assert_eq!(scan_ok("!="), vec![TokenTypes::NotEqual]);
    assert_eq!(scan_ok("<="), vec![TokenTypes::LessEqual]);
    assert_eq!(scan_ok(">="), vec![TokenTypes::GreaterEqual]);
    assert_eq!(scan_ok("&&"), vec![TokenTypes::And]);
    assert_eq!(scan_ok("||"), vec![TokenTypes::Or]);
}

#[test]
fn greedy_longest_match_wins() {
    // "++" is one increment, not two additions.
    assert_eq!(scan_ok("++"), vec![TokenTypes::Inc]);
    // "+=" is one compound assignment, not an addition then an assignment.
    assert_eq!(scan_ok("+="), vec![TokenTypes::AddAssign]);
    // A third character starts a fresh token after the longest match.
    assert_eq!(scan_ok("+++"), vec![TokenTypes::Inc, TokenTypes::Add]);
}

#[test]
fn structural_symbols() {
    assert_eq!(
        scan_ok("()[]{}:"),
        vec![
            TokenTypes::LeftParen,
            TokenTypes::RightParen,
            TokenTypes::LeftSquare,
            TokenTypes::RightSquare,
            TokenTypes::LeftCurly,
            TokenTypes::RightCurly,
            TokenTypes::Colon
        ]
    );
}

#[test]
fn integer_round_trip() {
    assert_eq!(scan_ok("0"), vec![TokenTypes::Int { value: Some(0) }]);
    assert_eq!(scan_ok("5"), vec![TokenTypes::Int { value: Some(5) }]);
    assert_eq!(scan_ok("123"), vec![TokenTypes::Int { value: Some(123) }]);
    assert_eq!(scan_ok("007"), vec![TokenTypes::Int { value: Some(7) }]);
    assert_eq!(
        scan_ok("9223372036854775807"),
        vec![TokenTypes::Int {
            value: Some(9223372036854775807)
        }]
    );
}

#[test]
fn integer_overflow_is_malformed() {
    assert_eq!(
        scan_err("9223372036854775808"),
        ScanError::MalformedNumericLiteral
    );
}

#[test]
fn decimal_round_trip() {
    assert_eq!(
        scan_ok("3.14"),
        vec![TokenTypes::Float {
            text: Some("3.14".to_string())
        }]
    );
    assert_eq!(
        scan_ok("0.5"),
        vec![TokenTypes::Float {
            text: Some("0.5".to_string())
        }]
    );
    assert_eq!(
        scan_ok("5."),
        vec![TokenTypes::Float {
            text: Some("5.".to_string())
        }]
    );
}

#[test]
fn several_decimal_points_are_malformed() {
    assert_eq!(scan_err("1.2.3"), ScanError::MalformedNumericLiteral);
    assert_eq!(scan_err("5..6"), ScanError::MalformedNumericLiteral);
}

#[test]
fn keywords_beat_identifiers() {
    assert_eq!(scan_ok("true"), vec![TokenTypes::Bool { value: Some(true) }]);
    assert_eq!(
        scan_ok("false"),
        vec![TokenTypes::Bool { value: Some(false) }]
    );
    assert_eq!(scan_ok("if"), vec![TokenTypes::If]);
    assert_eq!(scan_ok("else"), vec![TokenTypes::Else]);
    assert_eq!(scan_ok("elif"), vec![TokenTypes::ElseIf]);
    assert_eq!(scan_ok("fn"), vec![TokenTypes::Function]);
    assert_eq!(scan_ok("while"), vec![TokenTypes::While]);
    assert_eq!(scan_ok("for"), vec![TokenTypes::For]);
    assert_eq!(scan_ok("var"), vec![TokenTypes::Var]);
    assert_eq!(scan_ok("const"), vec![TokenTypes::Const]);
    assert_eq!(scan_ok("print"), vec![TokenTypes::Print]);
    assert_eq!(scan_ok("int"), vec![TokenTypes::Int { value: None }]);
    assert_eq!(scan_ok("float"), vec![TokenTypes::Float { text: None }]);
    assert_eq!(scan_ok("string"), vec![TokenTypes::Str { value: None }]);
    assert_eq!(scan_ok("bool"), vec![TokenTypes::Bool { value: None }]);
}

#[test]
fn near_keywords_are_identifiers() {
    assert_eq!(
        scan_ok("variable"),
        vec![TokenTypes::Identifier {
            name: "variable".to_string()
        }]
    );
    assert_eq!(
        scan_ok("iff"),
        vec![TokenTypes::Identifier {
            name: "iff".to_string()
        }]
    );
    // Case-sensitive: a capitalized keyword is just a name.
    assert_eq!(
        scan_ok("True"),
        vec![TokenTypes::Identifier {
            name: "True".to_string()
        }]
    );
}

#[test]
fn identifiers_may_hold_digits_underscores_hyphens() {
    assert_eq!(
        scan_ok("x1_y-z"),
        vec![TokenTypes::Identifier {
            name: "x1_y-z".to_string()
        }]
    );
}

#[test]
fn string_literal_excludes_quotes() {
    assert_eq!(
        scan_ok("\"hello\""),
        vec![TokenTypes::Str {
            value: Some("hello".to_string())
        }]
    );
    assert_eq!(
        scan_ok("\"\""),
        vec![TokenTypes::Str {
            value: Some("".to_string())
        }]
    );
    assert_eq!(
        scan_ok("\"a b\tc\""),
        vec![TokenTypes::Str {
            value: Some("a b\tc".to_string())
        }]
    );
}

#[test]
fn unterminated_string_is_fatal() {
    assert_eq!(scan_err("\"abc"), ScanError::UnterminatedString);
    assert_eq!(scan_err("\""), ScanError::UnterminatedString);
}

#[test]
fn comment_discards_to_line_break() {
    assert_eq!(
        scan_ok("x # all of this is ignored\ny"),
        vec![
            TokenTypes::Identifier {
                name: "x".to_string()
            },
            TokenTypes::EndStatement,
            TokenTypes::Identifier {
                name: "y".to_string()
            }
        ]
    );
    assert_eq!(scan_ok("# only a comment"), vec![]);
}

#[test]
fn unrecognized_characters_are_skipped() {
    assert_eq!(scan_ok("@"), vec![]);
    assert_eq!(
        scan_ok("a @ b"),
        vec![
            TokenTypes::Identifier {
                name: "a".to_string()
            },
            TokenTypes::Identifier {
                name: "b".to_string()
            }
        ]
    );
}

#[test]
fn assignment_statement_end_to_end() {
    assert_eq!(
        scan_ok("var x = 5 + 3\n"),
        vec![
            TokenTypes::Var,
            TokenTypes::Identifier {
                name: "x".to_string()
            },
            TokenTypes::Assign,
            TokenTypes::Int { value: Some(5) },
            TokenTypes::Add,
            TokenTypes::Int { value: Some(3) },
            TokenTypes::EndStatement
        ]
    );
}

#[test]
fn condition_statement_end_to_end() {
    assert_eq!(
        scan_ok("if x >= 10 {\n"),
        vec![
            TokenTypes::If,
            TokenTypes::Identifier {
                name: "x".to_string()
            },
            TokenTypes::GreaterEqual,
            TokenTypes::Int { value: Some(10) },
            TokenTypes::LeftCurly,
            TokenTypes::EndStatement
        ]
    );
}

#[test]
fn get_next_token_performs_one_step() {
    let mut tokenizer = Lexer::new("+= rest".chars().collect());
    assert_eq!(tokenizer.get_next_token(), Ok(TokenTypes::AddAssign));
    // The next step skips the blank and the one after scans the word.
    assert_eq!(tokenizer.get_next_token(), Ok(TokenTypes::NoToken));
    assert_eq!(
        tokenizer.get_next_token(),
        Ok(TokenTypes::Identifier {
            name: "rest".to_string()
        })
    );
}

#[test]
fn scan_fails_whole_input_on_error() {
    // The error comes although sound tokens precede it.
    assert_eq!(scan_err("var x = \"abc"), ScanError::UnterminatedString);
}
