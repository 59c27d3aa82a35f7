use fn_comment_check::check;
use fn_comment_check::lexer::{lex, LexError, LexErrorReason, TokenKind};
use fn_comment_check::parser::{parse_module, Expected, ParseError};
use fn_comment_check::visitor::get_text;
use fn_comment_check::CheckError;

fn names(src: &str) -> Vec<String> {
    check(src).expect("the source should check")
}

fn strings(v: &[&str]) -> Vec<String> {
    v.iter().map(|s| s.to_string()).collect()
}

#[test]
fn it_works() {
    let js_source = "/**
        Comment for fct 1
        */
        function test(bc,b) {
            // comment1
            const a=1;
        }
        
        
        function test1(a,b) {
            //comment 2
            const a=1;
        }        
        ";
    let text = format!("{}\n", js_source);
    let result = names(&text);
    assert_eq!(result.len(), 1);
    assert_eq!(result, strings(&["test1"]));
}

#[test]
fn documented_outer_with_undocumented_inner_and_sibling() {
    let src = "/** doc */\nfunction a(x,y) { function b(z) { return z; } }\nfunction c() {}\n";
    assert_eq!(names(src), strings(&["b", "c"]));
}

#[test]
fn undocumented_outer_with_documented_inner() {
    let src = "function outer() {\n  // inner doc\n  function inner() {}\n}\n";
    assert_eq!(names(src), strings(&["outer"]));
}

#[test]
fn documented_outer_with_undocumented_inner() {
    let src = "// outer doc\nfunction outer() {\n  function inner() {}\n}\n";
    assert_eq!(names(src), strings(&["inner"]));
}

#[test]
fn comment_inside_string_does_not_attach() {
    let src = "var s = \"/* not a comment */\"; function f() {}";
    assert_eq!(names(src), strings(&["f"]));
    let src2 = "'// nor this'\nfunction g() {}";
    assert_eq!(names(src2), strings(&["g"]));
}

#[test]
fn comment_attaches_across_blank_lines() {
    let src = "// doc\n\n\n\nfunction f() {}";
    assert_eq!(names(src), Vec::<String>::new());
}

#[test]
fn comment_before_other_code_does_not_attach() {
    let src = "// about x\nx = 1; function f() {}";
    assert_eq!(names(src), strings(&["f"]));
}

#[test]
fn several_comments_before_one_function() {
    let src = "/* one */ // two\n/* three */ function f() {} function g() {}";
    assert_eq!(names(src), strings(&["g"]));
}

#[test]
fn functions_in_any_statement_are_found() {
    let src = "if (x) { for (;;) { function a() {} } }\ncall(function b(p) { return [p]; });";
    assert_eq!(names(src), strings(&["a", "b"]));
}

#[test]
fn names_are_rendered_verbatim() {
    let src = "let x = 1;\nfunction $héllo_2(a) {}";
    assert_eq!(names(src), strings(&["$héllo_2"]));
}

#[test]
fn keyword_prefix_is_an_identifier() {
    let src = "functional(); function functions() {}";
    assert_eq!(names(src), strings(&["functions"]));
}

#[test]
fn empty_source_has_no_functions() {
    assert_eq!(names(""), Vec::<String>::new());
    assert_eq!(names("  // only a comment\n"), Vec::<String>::new());
}

#[test]
fn checking_twice_gives_the_same_result() {
    let src = "function a() {}\n/* d */ function b() { function c() {} }";
    let first = check(src);
    let second = check(src);
    assert_eq!(first, second);
    assert_eq!(first, Ok(strings(&["a", "c"])));
}

#[test]
fn unterminated_block_comment_is_an_error() {
    let src = "function a() {}\n/* never closed\nfunction b() {}";
    assert_eq!(
        check(src),
        Err(CheckError::Lex(LexError { position: 16, reason: LexErrorReason::UnterminatedComment }))
    );
}

#[test]
fn unterminated_string_is_an_error() {
    let src = "x = 'abc\\' ;";
    assert_eq!(
        check(src),
        Err(CheckError::Lex(LexError { position: 4, reason: LexErrorReason::UnterminatedString }))
    );
}

#[test]
fn function_without_name_is_an_error() {
    let src = "var f = function (x) {};";
    assert_eq!(
        check(src),
        Err(CheckError::Parse(ParseError {
            position: 17,
            expected: Expected::Name,
            found: Some(TokenKind::Punctuator('(')),
        }))
    );
}

#[test]
fn function_without_parameter_list_is_an_error() {
    let src = "function f {}";
    assert_eq!(
        check(src),
        Err(CheckError::Parse(ParseError {
            position: 11,
            expected: Expected::ParamList,
            found: Some(TokenKind::Punctuator('{')),
        }))
    );
}

#[test]
fn function_without_body_is_an_error() {
    let src = "function f(a)";
    assert_eq!(
        check(src),
        Err(CheckError::Parse(ParseError { position: 13, expected: Expected::Body, found: None }))
    );
}

#[test]
fn unclosed_body_is_an_error() {
    let src = "function f() { if (x) {}";
    assert_eq!(
        check(src),
        Err(CheckError::Parse(ParseError { position: 24, expected: Expected::Close('}'), found: None }))
    );
}

#[test]
fn mismatched_delimiter_is_an_error() {
    let src = "f(a]";
    assert_eq!(
        check(src),
        Err(CheckError::Parse(ParseError {
            position: 3,
            expected: Expected::Close(')'),
            found: Some(TokenKind::Punctuator(']')),
        }))
    );
}

#[test]
fn stray_closer_is_an_error() {
    let src = "a; }";
    assert_eq!(
        check(src),
        Err(CheckError::Parse(ParseError {
            position: 3,
            expected: Expected::Statement,
            found: Some(TokenKind::Punctuator('}')),
        }))
    );
}

#[test]
fn lexer_separates_comments_and_records_attachment() {
    let chars: Vec<char> = "a /* c */ \"s\" // d\n fn 12.5".chars().collect();
    let lexed = lex(&chars).expect("lexes");
    let kinds: Vec<TokenKind> = lexed.tokens.iter().map(|t| t.kind).collect();
    assert_eq!(
        kinds,
        vec![TokenKind::Identifier, TokenKind::StringLiteral, TokenKind::Identifier, TokenKind::NumericLiteral]
    );
    assert_eq!(lexed.store.comments.len(), 2);
    assert_eq!((lexed.store.comments[0].start, lexed.store.comments[0].end), (2, 9));
    assert_eq!((lexed.store.comments[1].start, lexed.store.comments[1].end), (14, 18));
    assert_eq!(lexed.store.leading, vec![10, 20]);
    assert!(lexed.store.has_leading(10));
    assert!(!lexed.store.has_leading(0));
}

#[test]
fn parser_links_nested_functions_to_their_parent() {
    let chars: Vec<char> = "function a() { function b() { function c() {} } } function d() {}".chars().collect();
    let lexed = lex(&chars).expect("lexes");
    let module = parse_module(&lexed.tokens).expect("parses");
    let parents: Vec<Option<usize>> = module.functions.iter().map(|f| f.parent).collect();
    assert_eq!(parents, vec![None, Some(0), Some(1), None]);
    let starts: Vec<usize> = module.functions.iter().map(|f| f.start).collect();
    assert_eq!(starts, vec![0, 15, 30, 50]);
    let src: String = chars.iter().collect();
    assert_eq!(get_text(&src, &module.functions[2].name), "c");
}
