use rlox::cursor::{is_decimal_digit, Cursor, EOF_CHAR};
use rlox::lexer::tokenize as lex;
use rlox::number::{Arithmetic, Number};
use rlox::token::{Token, TokenKind};

struct Doubles;

fn number(x: f64) -> Number {
    Number { bits: x.to_bits() }
}

fn value(n: Number) -> f64 {
    f64::from_bits(n.bits)
}

impl Arithmetic for Doubles {
    fn parse(&self, digits: &str) -> Number {
        number(digits.parse::<f64>().unwrap())
    }
    fn from_seconds(&self, seconds: u64) -> Number {
        number(seconds as f64)
    }
    fn format(&self, n: Number) -> String {
        format!("{}", value(n))
    }
    fn negate(&self, n: Number) -> Number {
        number(-value(n))
    }
    fn sum(&self, a: Number, b: Number) -> Number {
        number(value(a) + value(b))
    }
    fn difference(&self, a: Number, b: Number) -> Number {
        number(value(a) - value(b))
    }
    fn product(&self, a: Number, b: Number) -> Number {
        number(value(a) * value(b))
    }
    fn quotient(&self, a: Number, b: Number) -> Number {
        number(value(a) / value(b))
    }
    fn less(&self, a: Number, b: Number) -> bool {
        value(a) < value(b)
    }
    fn less_or_equal(&self, a: Number, b: Number) -> bool {
        value(a) <= value(b)
    }
    fn greater(&self, a: Number, b: Number) -> bool {
        value(a) > value(b)
    }
    fn greater_or_equal(&self, a: Number, b: Number) -> bool {
        value(a) >= value(b)
    }
    fn equal(&self, a: Number, b: Number) -> bool {
        value(a) == value(b)
    }
}

fn tokenize(source: &str) -> Vec<Token> {
    lex(source, &Doubles)
}

fn kinds(source: &str) -> Vec<String> {
    tokenize(source).iter().map(|t| format!("{:?}", t.value)).collect()
}

fn lexemes(source: &str) -> Vec<String> {
    tokenize(source).iter().map(|t| t.lexeme.clone()).collect()
}

#[test]
fn punctuation_and_operators() {
    assert_eq!(
        kinds("(){},.-+;*/ ! != = == > >= < <="),
        vec![
            "LeftParen", "RightParen", "LeftBrace", "RightBrace", "Comma", "Dot", "Minus", "Plus",
            "Semicolon", "Star", "Slash", "Bang", "Ne", "Eq", "EqEq", "Gt", "Ge", "Lt", "Le"
        ]
    );
}

#[test]
fn two_character_operators_keep_both_characters() {
    assert_eq!(lexemes("!= == >= <="), vec!["!=", "==", ">=", "<="]);
}

#[test]
fn keywords_are_reserved() {
    assert_eq!(
        kinds("and class else false fun for if nil or print return super this true var while"),
        vec![
            "And", "Class", "Else", "False", "Fun", "For", "If", "Nil", "Or", "Print", "Return",
            "Super", "This", "True", "Var", "While"
        ]
    );
}

#[test]
fn identifiers_carry_their_name() {
    let tokens = tokenize("foo _bar b4z classy");
    assert_eq!(tokens.len(), 4);
    for (token, name) in tokens.iter().zip(["foo", "_bar", "b4z", "classy"]) {
        assert!(matches!(&token.value, TokenKind::Identifier(n) if n == name));
        assert_eq!(token.lexeme, name);
    }
}

#[test]
fn unicode_letters_make_identifiers() {
    let tokens = tokenize("été");
    assert_eq!(tokens.len(), 1);
    assert!(matches!(&tokens[0].value, TokenKind::Identifier(n) if n == "été"));
    assert_eq!(tokens[0].length, 5);
}

#[test]
fn unicode_whitespace_is_skipped() {
    let tokens = tokenize("a\u{00a0}\t\r\nb");
    assert_eq!(tokens.len(), 2);
    assert_eq!(tokens[1].lexeme, "b");
}

#[test]
fn string_literal_keeps_interior_and_quotes() {
    let tokens = tokenize("\"hi there\"");
    assert_eq!(tokens.len(), 1);
    assert!(matches!(&tokens[0].value, TokenKind::String(s) if s == "hi there"));
    assert_eq!(tokens[0].lexeme, "\"hi there\"");
    assert_eq!(tokens[0].length, 10);
}

#[test]
fn unterminated_string_yields_eof() {
    let tokens = tokenize("1 \"abc");
    assert_eq!(tokens.len(), 2);
    assert!(matches!(tokens[1].value, TokenKind::Eof));
    assert_eq!(tokens[1].lexeme, "");
}

#[test]
fn numbers_keep_their_digits() {
    let tokens = tokenize("12 3.25 4. .5");
    let texts: Vec<String> = tokens.iter().map(|t| t.lexeme.clone()).collect();
    assert_eq!(texts, vec!["12", "3.25", "4", ".", ".", "5"]);
    assert!(matches!(&tokens[1].value, TokenKind::Number(n) if value(*n) == 3.25));
    assert!(matches!(&tokens[0].value, TokenKind::Number(n) if value(*n) == 12.0));
    assert!(matches!(tokens[3].value, TokenKind::Dot));
}

#[test]
fn line_comment_runs_to_end_of_line() {
    assert_eq!(lexemes("1 // two three\n4"), vec!["1", "4"]);
    assert_eq!(kinds("1 / 2")[1], "Slash");
    assert_eq!(kinds("1 / 2").len(), 3);
}

#[test]
fn unknown_characters_become_tokens() {
    let tokens = tokenize("a # b");
    assert_eq!(tokens.len(), 3);
    assert!(matches!(tokens[1].value, TokenKind::Unknown('#')));
    assert_eq!(tokens[1].lexeme, "#");
}

#[test]
fn trailing_whitespace_yields_eof_token() {
    let tokens = tokenize("1 ");
    assert_eq!(tokens.len(), 2);
    assert!(matches!(tokens[1].value, TokenKind::Eof));
}

#[test]
fn empty_input_has_no_tokens() {
    assert!(tokenize("").is_empty());
}

#[test]
fn length_counts_skipped_bytes() {
    let tokens = tokenize("  ab");
    assert_eq!(tokens.len(), 1);
    assert_eq!(tokens[0].length, 4);
    assert_eq!(tokens[0].lexeme, "ab");
}

fn same_kind(a: &Token, b: &Token) -> bool {
    format!("{:?}", a.value) == format!("{:?}", b.value)
}

#[test]
fn relexing_a_lexeme_gives_the_same_kind() {
    let source = "fun mk(a, b) { var s = \"x y\"; if (a >= 1.5 and !b) return s + s; while (nil) print -a / 2 * 3; } // end\n# x != y; x == y; x <= y; x < y; x > y; x = y; this.super; class clock_2 else for or true false";
    let tokens = tokenize(source);
    assert!(tokens.len() > 60);
    for token in tokens.iter() {
        let again = tokenize(&token.lexeme);
        assert_eq!(again.len(), 1, "{:?}", token);
        assert!(same_kind(token, &again[0]), "{:?} became {:?}", token, again[0]);
        assert_eq!(again[0].lexeme, token.lexeme);
    }
}

#[test]
fn cursor_peeks_two_characters() {
    let mut cursor = Cursor::new("ab");
    assert_eq!(cursor.first(), 'a');
    assert_eq!(cursor.second(), 'b');
    assert!(!cursor.is_eof());
    assert_eq!(cursor.bump(), Some('a'));
    assert_eq!(cursor.first(), 'b');
    assert_eq!(cursor.second(), EOF_CHAR);
    assert_eq!(cursor.bump(), Some('b'));
    assert_eq!(cursor.first(), EOF_CHAR);
    assert!(cursor.is_eof());
    assert_eq!(cursor.bump(), None);
}

#[test]
fn cursor_counts_bytes_since_reset() {
    let mut cursor = Cursor::new("aé€😀z");
    assert_eq!(cursor.len_consumed(), 0);
    cursor.bump();
    assert_eq!(cursor.len_consumed(), 1);
    cursor.bump();
    assert_eq!(cursor.len_consumed(), 3);
    cursor.bump();
    assert_eq!(cursor.len_consumed(), 6);
    cursor.reset_len_consumed();
    assert_eq!(cursor.len_consumed(), 0);
    cursor.bump();
    assert_eq!(cursor.len_consumed(), 4);
}

#[test]
fn cursor_eats_while_predicate_holds() {
    let mut cursor = Cursor::new("aaab");
    cursor.eat_while(|c| c == 'a');
    assert_eq!(cursor.first(), 'b');
    assert_eq!(cursor.len_consumed(), 3);
    cursor.eat_while(|_| true);
    assert!(cursor.is_eof());
}

#[test]
fn number_parts() {
    assert!(Cursor::is_part_number('7'));
    assert!(Cursor::is_part_number('.'));
    assert!(!Cursor::is_part_number('a'));
    assert!(is_decimal_digit('0') && is_decimal_digit('9') && !is_decimal_digit('x'));
}

#[test]
fn advance_token_reads_one_token() {
    let mut cursor = Cursor::new("  var x");
    let token = cursor.advance_token(&Doubles);
    assert!(matches!(token.value, TokenKind::Var));
    assert_eq!(token.length, 5);
    assert_eq!(cursor.first(), ' ');
}
