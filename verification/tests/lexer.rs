use autosim::lexer::{tokenize, tokenize_spanned, LexError, Token};

#[test]
fn lex_simple_alphabet() {
    let tokens = tokenize("alfabeto { 'a', 'b' }").unwrap();
    assert_eq!(
        tokens,
        vec![
            Token::Alphabet,
            Token::BraceOpen,
            Token::CharLiteral('a'),
            Token::Comma,
            Token::CharLiteral('b'),
            Token::BraceClose,
        ]
    );
}

#[test]
fn lex_byte_spans() {
    let spanned = tokenize_spanned("automato AFD m").unwrap();
    let spans: Vec<_> = spanned.iter().map(|(_, r)| r.clone()).collect();
    assert_eq!(spans, vec![0..8, 9..12, 13..14]);
    assert_eq!(spanned[2].0, Token::Ident("m".to_string()));
}

#[test]
fn lex_spans_count_bytes_not_chars() {
    // 'é' takes two bytes in UTF-8.
    let spanned = tokenize_spanned("'é' x").unwrap();
    assert_eq!(spanned[0], (Token::CharLiteral('é'), 0..4));
    assert_eq!(spanned[1], (Token::Ident("x".to_string()), 5..6));
}

#[test]
fn lex_keywords_ignore_case() {
    let tokens = tokenize("ALFABETO Automato afd AfN EPS epsilon Estados INICIAL finais TRANSICOES Simular COM").unwrap();
    assert_eq!(
        tokens,
        vec![
            Token::Alphabet,
            Token::Automaton,
            Token::DFA,
            Token::NFA,
            Token::Epsilon,
            Token::Epsilon,
            Token::States,
            Token::Initial,
            Token::Final,
            Token::Transitions,
            Token::Simulate,
            Token::With,
        ]
    );
}

#[test]
fn lex_longest_match_makes_identifiers() {
    // A keyword followed by more identifier characters is an identifier.
    let tokens = tokenize("estados2 com_ epsilonx").unwrap();
    assert_eq!(
        tokens,
        vec![
            Token::Ident("estados2".to_string()),
            Token::Ident("com_".to_string()),
            Token::Ident("epsilonx".to_string()),
        ]
    );
}

#[test]
fn lex_comments_and_whitespace_skipped() {
    let tokens = tokenize("// comentário\n\t q0 -> q1 // fim").unwrap();
    assert_eq!(
        tokens,
        vec![Token::Ident("q0".to_string()), Token::Arrow, Token::Ident("q1".to_string())]
    );
}

#[test]
fn lex_string_literal() {
    let tokens = tokenize("simular m com \"abba\"").unwrap();
    assert_eq!(
        tokens,
        vec![
            Token::Simulate,
            Token::Ident("m".to_string()),
            Token::With,
            Token::StringLiteral("abba".to_string()),
        ]
    );
}

#[test]
fn lex_empty_input() {
    assert_eq!(tokenize("").unwrap(), vec![]);
    assert_eq!(tokenize_spanned("   \n").unwrap(), vec![]);
}

#[test]
fn lex_invalid_character() {
    let err = tokenize_spanned("alfabeto { @ }").unwrap_err();
    assert_eq!(err, LexError { span: 11..12, text: "@".to_string() });
    assert_eq!(tokenize("alfabeto { @ }").unwrap_err(), err);
}

#[test]
fn lex_error_message_text() {
    let err = tokenize("a $").unwrap_err();
    assert_eq!(err.message(), "token inválido `$` em 2..3");
}

#[test]
fn lex_lone_dash_is_error() {
    let err = tokenize("q0 - q1").unwrap_err();
    assert_eq!(err.span, 3..4);
    assert_eq!(err.text, "-");
}

#[test]
fn lex_token_texts() {
    assert_eq!(Token::BraceOpen.to_text(), "{");
    assert_eq!(Token::CharLiteral('x').to_text(), "'x'");
    assert_eq!(Token::StringLiteral("ab".to_string()).to_text(), "\"ab\"");
    assert_eq!(Token::DFA.to_text(), "AFD");
    assert_eq!(Token::Ident("q0".to_string()).to_text(), "q0");
}

#[test]
fn lex_plain_and_spanned_agree() {
    let src = "automato AFN m { estados { q0 } inicial q0 finais { } transicoes { q0 -> q0 com eps } }";
    let plain = tokenize(src).unwrap();
    let spanned: Vec<Token> = tokenize_spanned(src).unwrap().into_iter().map(|(t, _)| t).collect();
    assert_eq!(plain, spanned);
}

#[test]
fn lex_error_clone_keeps_span() {
    let err = tokenize("x #").unwrap_err();
    let copy = err.clone();
    assert_eq!(copy.span, 2..3);
    assert_eq!(copy, err);
}

#[test]
fn lex_ranges_in_order() {
    let src = "alfabeto { 'á', 'b' } // c\nautomato AFD m { }";
    let spanned = tokenize_spanned(src).unwrap();
    for w in spanned.windows(2) {
        assert!(w[0].1.end <= w[1].1.start);
    }
    for (_, r) in &spanned {
        assert!(r.start < r.end && r.end <= src.len());
    }
    assert_eq!(spanned.last().unwrap().1, src.len() - 1..src.len());
}
