use rollatorium::lexer::{Lexer, F64_LIMIT};
use rollatorium::token::Token;
use rollatorium::RollatoriumError;

fn lex_all(input: &str) -> Vec<Result<Token<String>, RollatoriumError>> {
    let mut lexer = Lexer::new(input);
    let mut out = Vec::new();
    loop {
        let t = lexer.next_token();
        let stop = !matches!(t, Ok(ref tok) if *tok != Token::Eof);
        out.push(t);
        if stop {
            return out;
        }
    }
}

fn num(s: &str) -> Result<Token<String>, RollatoriumError> {
    Ok(Token::Number(s.to_string()))
}

fn lexer_err(s: &str) -> Result<Token<String>, RollatoriumError> {
    Err(RollatoriumError::Lexer(s.to_string()))
}

#[test]
fn lexes_keep_highest_with_annotation() {
    assert_eq!(
        lex_all("4d6kh3 [strength]"),
        vec![
            num("4"),
            Ok(Token::Dice),
            num("6"),
            Ok(Token::Keep),
            Ok(Token::SelectorHigh),
            num("3"),
            Ok(Token::AnnotationStart),
            Ok(Token::AnnotationText("strength".to_string())),
            Ok(Token::AnnotationEnd),
            Ok(Token::Eof),
        ]
    );
}

#[test]
fn two_character_operators_win() {
    assert_eq!(
        lex_all("3d6rr<3 ro<=4 ra==6 mi2ma5 d% // != >="),
        vec![
            num("3"),
            Ok(Token::Dice),
            num("6"),
            Ok(Token::Reroll),
            Ok(Token::Less),
            num("3"),
            Ok(Token::RerollOnce),
            Ok(Token::LessEqual),
            num("4"),
            Ok(Token::RerollAdd),
            Ok(Token::EqualEqual),
            num("6"),
            Ok(Token::Min),
            num("2"),
            Ok(Token::Max),
            num("5"),
            Ok(Token::DicePercent),
            Ok(Token::DoubleSlash),
            Ok(Token::NotEqual),
            Ok(Token::GreaterEqual),
            Ok(Token::Eof),
        ]
    );
}

#[test]
fn single_character_tokens() {
    assert_eq!(
        lex_all("+-*/%><(){},dkpe!hl"),
        vec![
            Ok(Token::Plus),
            Ok(Token::Minus),
            Ok(Token::Star),
            Ok(Token::Slash),
            Ok(Token::Percent),
            Ok(Token::Greater),
            Ok(Token::Less),
            Ok(Token::LParen),
            Ok(Token::RParen),
            Ok(Token::SetStart),
            Ok(Token::SetEnd),
            Ok(Token::Comma),
            Ok(Token::Dice),
            Ok(Token::Keep),
            Ok(Token::Drop),
            Ok(Token::Explode),
            Ok(Token::Explode),
            Ok(Token::SelectorHigh),
            Ok(Token::SelectorLow),
            Ok(Token::Eof),
        ]
    );
}

#[test]
fn annotation_text_is_trimmed_and_keeps_inner_spaces() {
    assert_eq!(
        lex_all("4d6 [  fire damage \t]"),
        vec![
            num("4"),
            Ok(Token::Dice),
            num("6"),
            Ok(Token::AnnotationStart),
            Ok(Token::AnnotationText("fire damage".to_string())),
            Ok(Token::AnnotationEnd),
            Ok(Token::Eof),
        ]
    );
}

#[test]
fn decimals_and_unicode_whitespace() {
    assert_eq!(
        lex_all("\u{3000}1.25 .5\u{2028}7"),
        vec![num("1.25"), num(".5"), num("7"), Ok(Token::Eof)]
    );
}

#[test]
fn second_dot_ends_a_literal() {
    assert_eq!(lex_all("1.2.3"), vec![num("1.2"), num(".3"), Ok(Token::Eof)]);
}

#[test]
fn lone_equals_is_an_error() {
    assert_eq!(
        lex_all("1 = 2"),
        vec![num("1"), lexer_err("Unexpected '=' at position 2. Did you mean '=='?")]
    );
}

#[test]
fn unexpected_character_is_an_error() {
    assert_eq!(
        lex_all("4x"),
        vec![num("4"), lexer_err("Unexpected character 'x' at position 1")]
    );
    assert_eq!(lex_all("é"), vec![lexer_err("Unexpected character 'é' at position 0")]);
}

#[test]
fn dot_without_digit_is_an_error() {
    assert_eq!(
        lex_all("12 + 1.x"),
        vec![
            num("12"),
            Ok(Token::Plus),
            lexer_err("Invalid decimal literal starting at position 5"),
        ]
    );
}

#[test]
fn unterminated_annotation_is_an_error() {
    assert_eq!(
        lex_all("2d8 [fire"),
        vec![
            num("2"),
            Ok(Token::Dice),
            num("8"),
            Ok(Token::AnnotationStart),
            lexer_err("Unterminated annotation; missing closing ']'"),
        ]
    );
}

#[test]
fn end_of_input_repeats() {
    let mut lexer = Lexer::new("  ");
    assert_eq!(lexer.next_token(), Ok(Token::Eof));
    assert_eq!(lexer.next_token(), Ok(Token::Eof));
}

#[test]
fn limit_is_where_f64_overflows() {
    // The limit itself rounds to infinity, the number below it does not.
    assert!(F64_LIMIT.parse::<f64>().unwrap().is_infinite());
    let below = "179769313486231580793728971405303415079934132710037826936173778980444968292764750946649017977587207096330286416692887910946555547851940402630657488671505820681908902000708383676273854845817711531764475730270069855571366959622842914819860834936475292719074168444365510704342711559699508093042880177904174497791";
    assert!(below.parse::<f64>().unwrap().is_finite());
    assert_eq!(lex_all(below), vec![num(below), Ok(Token::Eof)]);
    assert_eq!(
        lex_all(F64_LIMIT),
        vec![lexer_err(&format!("Number literal '{}' is too large to represent", F64_LIMIT))]
    );
}

#[test]
fn too_large_literals_agree_with_f64() {
    let cases = [
        format!("1{}", "0".repeat(308)),
        format!("1{}", "0".repeat(309)),
        format!("{}.9999", &F64_LIMIT[..F64_LIMIT.len()]),
        format!("000{}", F64_LIMIT),
        format!("00{}.5", "9".repeat(308)),
        format!("{}", "9".repeat(309)),
        format!("{}", "1".repeat(309)),
        "0.000001".to_string(),
    ];
    for case in cases.iter() {
        let finite = case.parse::<f64>().unwrap().is_finite();
        let lexed = lex_all(case);
        if finite {
            assert_eq!(lexed, vec![num(case), Ok(Token::Eof)], "{}", case);
        } else {
            assert_eq!(
                lexed,
                vec![lexer_err(&format!("Number literal '{}' is too large to represent", case))],
                "{}",
                case
            );
        }
    }
}

#[test]
fn lexing_ends_within_twice_the_length_plus_one_reads() {
    for input in ["", "4d6kh3 [fire] + 2", "[]", "[][][]", "  ", "1d6e==6", "{1, 2}p<9", "[x"] {
        let n = input.chars().count();
        let mut lexer = Lexer::new(input);
        let mut reads = 0;
        loop {
            reads += 1;
            match lexer.next_token() {
                Ok(Token::Eof) | Err(_) => break,
                Ok(_) => assert!(reads <= 2 * n + 1, "{input:?}"),
            }
        }
        assert!(reads <= 2 * n + 1, "{input:?}");
        assert!(matches!(lexer.next_token(), Ok(Token::Eof) | Err(_)));
    }
}
