use rustc_lexer::{Token, TokenKind};
use shrink_rs::layout::{layout, shrink, TokenClass};

fn shrunk(text: &str) -> String {
    String::from_utf8(shrink(text.to_string())).unwrap()
}

fn token(kind: TokenKind, len: usize) -> Token {
    Token { kind, len }
}

#[test]
fn drops_comment_and_spaces_between_punctuation() {
    assert_eq!(shrunk("fn main() { /* hi */ let x = 1; }"), "fn main(){let x=1;}");
}

#[test]
fn comment_only_gives_nothing() {
    assert_eq!(shrunk("// comment only\n"), "");
}

#[test]
fn keeps_space_between_identifiers() {
    assert_eq!(shrunk("a b"), "a b");
}

#[test]
fn punctuation_needs_no_space() {
    assert_eq!(shrunk("a+b"), "a+b");
}

#[test]
fn second_run_changes_nothing() {
    let once = shrunk("fn main() { /* hi */ let x = 1; }");
    let twice = shrunk(&once);
    assert_eq!(once, "fn main(){let x=1;}");
    assert_eq!(twice, once);
}

#[test]
fn fizzbuzz_program() {
    let input = "// Prints fizz and buzz\nfn main() {\n    for i in 1..=15 {\n        /* the rule */\n        if i % 15 == 0 {\n            println!(\"FizzBuzz\");\n        } else if i % 3 == 0 {\n            println!(\"Fizz\");\n        } else {\n            println!(\"{}\", i);\n        }\n    }\n}\n";
    let expectation = "fn main(){for i in 1..=15{if i%15==0{println!(\"FizzBuzz\");}else if i%3==0{println!(\"Fizz\");}else{println!(\"{}\",i);}}}";
    assert_eq!(shrunk(input), expectation);
}

#[test]
fn empty_input_gives_nothing() {
    assert_eq!(shrunk(""), "");
}

#[test]
fn whitespace_only_gives_nothing() {
    assert_eq!(shrunk(" \t\n\r\n  "), "");
}

#[test]
fn tokens_cover_the_text() {
    let text = "fn f<'a>(x: &'a str) -> u8 { /* c */ 0x1F // end\n }";
    let mut joined = String::new();
    let mut at: usize = 0;
    for t in rustc_lexer::tokenize(text) {
        joined.push_str(&text[at..at + t.len]);
        at += t.len;
    }
    assert_eq!(at, text.len());
    assert_eq!(joined, text);
}

#[test]
fn no_comment_or_whitespace_survives() {
    let out = shrunk("let  /* gone */ y\t=\n// gone too\n 2 ;");
    assert_eq!(out, "let y=2;");
    assert!(!out.contains("gone"));
}

#[test]
fn one_space_between_identifier_like_tokens_across_comments() {
    assert_eq!(shrunk("return /* a */ // b\n  x"), "return x");
    assert_eq!(shrunk("x  =  y"), "x=y");
}

#[test]
fn literals_and_lifetimes_are_identifier_like() {
    assert_eq!(shrunk("fn f<'a>(x: &'a str) {}"), "fn f<'a>(x:&'a str){}");
    assert_eq!(shrunk("1 2"), "1 2");
    assert_eq!(shrunk("\"a  b\"  c"), "\"a  b\" c");
    assert_eq!(shrunk("b'x'  as  u8"), "b'x' as u8");
}

#[test]
fn raw_identifiers_are_identifier_like() {
    assert_eq!(shrunk("let r#fn = r#match ;"), "let r#fn=r#match;");
    assert_eq!(shrunk("r#fn  r#match"), "r#fn r#match");
}

#[test]
fn unknown_characters_count_as_punctuation() {
    assert_eq!(shrunk("a \u{20ac} b"), "a\u{20ac}b");
}

#[test]
fn comment_keeps_identifiers_apart() {
    assert_eq!(shrunk("a/**/b"), "a b");
}

#[test]
fn layout_on_given_tokens() {
    let input = b"ab /* c */ 7;";
    let tokens = vec![
        token(TokenKind::Ident, 2),
        token(TokenKind::Whitespace, 1),
        token(TokenKind::BlockComment { terminated: true }, 7),
        token(TokenKind::Whitespace, 1),
        token(
            TokenKind::Literal {
                kind: rustc_lexer::LiteralKind::Int {
                    base: rustc_lexer::Base::Decimal,
                    empty_int: false,
                },
                suffix_start: 1,
            },
            1,
        ),
        token(TokenKind::Semi, 1),
    ];
    assert_eq!(layout(&tokens, input), b"ab 7;".to_vec());
}

#[test]
fn layout_without_tokens_writes_nothing() {
    assert_eq!(layout(&[], b""), Vec::<u8>::new());
}

#[test]
fn classes_of_kinds() {
    assert_eq!(TokenClass::of(&TokenKind::Whitespace), TokenClass::Droppable);
    assert_eq!(TokenClass::of(&TokenKind::LineComment), TokenClass::Droppable);
    assert_eq!(TokenClass::of(&TokenKind::BlockComment { terminated: false }), TokenClass::Droppable);
    assert_eq!(TokenClass::of(&TokenKind::Ident), TokenClass::IdentLike);
    assert_eq!(TokenClass::of(&TokenKind::RawIdent), TokenClass::IdentLike);
    assert_eq!(TokenClass::of(&TokenKind::Lifetime { starts_with_number: false }), TokenClass::IdentLike);
    assert_eq!(TokenClass::of(&TokenKind::Plus), TokenClass::Other);
    assert_eq!(TokenClass::of(&TokenKind::Unknown), TokenClass::Other);
}
