use wander::bindings::Bindings;
use wander::lexer::{Token, TokenTransformer};
use wander::preludes::CommonFunction;
use wander::{NoHostType, WanderError, WanderValue, introspect, run};

/// Rewrites the name `two` into the integer literal `2`.
struct TwoMacro {}

impl TokenTransformer for TwoMacro {
    fn transform(&self, tokens: &Vec<Token>) -> Result<Vec<Token>, WanderError> {
        let mut out = Vec::new();
        for t in tokens {
            match t {
                Token::Name(n) if n == "two" => out.push(Token::Int(2)),
                Token::Name(n) => out.push(Token::Name(n.clone())),
                Token::Int(v) => out.push(Token::Int(*v)),
                Token::Boolean(b) => out.push(Token::Boolean(*b)),
                Token::String(s) => out.push(Token::String(s.clone())),
                Token::Let => out.push(Token::Let),
                Token::In => out.push(Token::In),
                Token::End => out.push(Token::End),
                Token::If => out.push(Token::If),
                Token::Then => out.push(Token::Then),
                Token::Else => out.push(Token::Else),
                Token::Val => out.push(Token::Val),
                Token::Lambda => out.push(Token::Lambda),
                Token::Arrow => out.push(Token::Arrow),
                Token::Pipe => out.push(Token::Pipe),
                Token::OpenParen => out.push(Token::OpenParen),
                Token::CloseParen => out.push(Token::CloseParen),
                Token::OpenSquare => out.push(Token::OpenSquare),
                Token::CloseSquare => out.push(Token::CloseSquare),
                Token::OpenBrace => out.push(Token::OpenBrace),
                Token::CloseBrace => out.push(Token::CloseBrace),
                Token::Colon => out.push(Token::Colon),
                Token::EqualSign => out.push(Token::EqualSign),
                Token::Hash => out.push(Token::Hash),
                Token::SingleQuote => out.push(Token::SingleQuote),
                Token::QuestionMark => out.push(Token::QuestionMark),
                Token::Nothing => out.push(Token::Nothing),
                Token::Whitespace => out.push(Token::Whitespace),
                Token::Comment => out.push(Token::Comment),
            }
        }
        Ok(out)
    }
}

/// Rejects every stream.
struct RejectAll {}

impl TokenTransformer for RejectAll {
    fn transform(&self, _tokens: &Vec<Token>) -> Result<Vec<Token>, WanderError> {
        Err(WanderError("the stream was rejected".to_owned()))
    }
}

#[test]
fn transformer_rewrites_before_parsing() {
    let mut bindings: Bindings<NoHostType, CommonFunction, TwoMacro> = Bindings::new();
    bindings.bind_token_transformer("Macro".to_owned(), "two".to_owned(), TwoMacro {});
    let res = run("two", &mut bindings).unwrap();
    assert_eq!(res, WanderValue::Int(2));
    let res = run("[two two]", &mut bindings).unwrap();
    assert_eq!(
        res,
        WanderValue::List(vec![WanderValue::Int(2), WanderValue::Int(2)])
    );
}

#[test]
fn transformer_rejection_aborts_the_pipeline() {
    let mut bindings: Bindings<NoHostType, CommonFunction, RejectAll> = Bindings::new();
    bindings.bind_token_transformer("Macro".to_owned(), "no".to_owned(), RejectAll {});
    let res = run("5", &mut bindings);
    assert_eq!(res.unwrap_err().0, "the stream was rejected");
}

#[test]
fn introspection_shows_transformed_tokens() {
    let mut bindings: Bindings<NoHostType, CommonFunction, TwoMacro> = Bindings::new();
    bindings.bind_token_transformer("Macro".to_owned(), "two".to_owned(), TwoMacro {});
    let ins = introspect("two", &bindings).unwrap();
    assert_eq!(ins.tokens, vec![Token::Name("two".to_owned())]);
    assert_eq!(ins.tokens_transformed, vec![Token::Int(2)]);
}

#[test]
fn introspection_empties_transformed_tokens_on_rejection() {
    let mut bindings: Bindings<NoHostType, CommonFunction, RejectAll> = Bindings::new();
    bindings.bind_token_transformer("Macro".to_owned(), "no".to_owned(), RejectAll {});
    let ins = introspect("5", &bindings).unwrap();
    assert_eq!(ins.tokens, vec![Token::Int(5)]);
    assert!(ins.tokens_transformed.is_empty());
}

#[test]
fn reading_a_transformer_back() {
    let mut bindings: Bindings<NoHostType, CommonFunction, TwoMacro> = Bindings::new();
    bindings.bind_token_transformer("Macro".to_owned(), "two".to_owned(), TwoMacro {});
    assert!(bindings.read_token_transformer(&"Macro.two".to_owned()).is_some());
    assert!(bindings.read_token_transformer(&"Macro.other".to_owned()).is_none());
}
