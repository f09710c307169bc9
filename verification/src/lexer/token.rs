use vstd::prelude::*;

verus! {

/// A lexical unit of an AutoSim source file.
#[derive(Debug, PartialEq, Eq, Clone)]
pub enum Token {
    // Keywords
    Alphabet,
    Automaton,
    DFA,
    NFA,
    Epsilon,
    States,
    Initial,
    Final,
    Transitions,
    Simulate,
    With,
    // Symbols
    BraceOpen,
    BraceClose,
    Comma,
    Arrow,
    // Literals
    CharLiteral(char),
    StringLiteral(String),
    // Identifiers
    Ident(String),
}

/// The mathematical value of a [`Token`]: text is a sequence of characters.
pub enum TokenV {
    Alphabet,
    Automaton,
    DFA,
    NFA,
    Epsilon,
    States,
    Initial,
    Final,
    Transitions,
    Simulate,
    With,
    BraceOpen,
    BraceClose,
    Comma,
    Arrow,
    CharLiteral(char),
    StringLiteral(Seq<char>),
    Ident(Seq<char>),
}

impl View for Token {
    type V = TokenV;

    open spec fn view(&self) -> TokenV {
        match self {
            Token::Alphabet => TokenV::Alphabet,
            Token::Automaton => TokenV::Automaton,
            Token::DFA => TokenV::DFA,
            Token::NFA => TokenV::NFA,
            Token::Epsilon => TokenV::Epsilon,
            Token::States => TokenV::States,
            Token::Initial => TokenV::Initial,
            Token::Final => TokenV::Final,
            Token::Transitions => TokenV::Transitions,
            Token::Simulate => TokenV::Simulate,
            Token::With => TokenV::With,
            Token::BraceOpen => TokenV::BraceOpen,
            Token::BraceClose => TokenV::BraceClose,
            Token::Comma => TokenV::Comma,
            Token::Arrow => TokenV::Arrow,
            Token::CharLiteral(c) => TokenV::CharLiteral(*c),
            Token::StringLiteral(s) => TokenV::StringLiteral(s@),
            Token::Ident(s) => TokenV::Ident(s@),
        }
    }
}

/// How a token is written back as text: keywords in their canonical spelling,
/// literals with their quotes, identifiers as themselves.
pub open spec fn token_text(t: TokenV) -> Seq<char> {
    match t {
        TokenV::Alphabet => seq!['a', 'l', 'f', 'a', 'b', 'e', 't', 'o'],
        TokenV::Automaton => seq!['a', 'u', 't', 'o', 'm', 'a', 't', 'o'],
        TokenV::DFA => seq!['A', 'F', 'D'],
        TokenV::NFA => seq!['A', 'F', 'N'],
        TokenV::Epsilon => seq!['e', 'p', 's', 'i', 'l', 'o', 'n'],
        TokenV::States => seq!['e', 's', 't', 'a', 'd', 'o', 's'],
        TokenV::Initial => seq!['i', 'n', 'i', 'c', 'i', 'a', 'l'],
        TokenV::Final => seq!['f', 'i', 'n', 'a', 'i', 's'],
        TokenV::Transitions => seq!['t', 'r', 'a', 'n', 's', 'i', 'c', 'o', 'e', 's'],
        TokenV::Simulate => seq!['s', 'i', 'm', 'u', 'l', 'a', 'r'],
        TokenV::With => seq!['c', 'o', 'm'],
        TokenV::BraceOpen => seq!['{'],
        TokenV::BraceClose => seq!['}'],
        TokenV::Comma => seq![','],
        TokenV::Arrow => seq!['-', '>'],
        TokenV::CharLiteral(c) => seq!['\'', c, '\''],
        TokenV::StringLiteral(s) => seq!['"'] + s + seq!['"'],
        TokenV::Ident(s) => s,
    }
}

/// A string holding exactly the characters of `cs`.
pub fn string_of(cs: &[char]) -> (s: String)
    ensures
        s@ == cs@,
{
    let s = string_from(cs, 0, cs.len());
    assert(cs@.subrange(0, cs@.len() as int) == cs@);
    s
}

/// A string holding the characters of `cs` at positions `[from, to)`.
pub fn string_from(cs: &[char], from: usize, to: usize) -> (s: String)
    requires
        from <= to <= cs@.len(),
    ensures
        s@ == cs@.subrange(from as int, to as int),
{
    let mut s = String::new();
    let mut i: usize = from;
    while i < to
        invariant
            from <= i <= to <= cs@.len(),
            s@ == cs@.subrange(from as int, i as int),
        decreases to - i,
    {
        s.push(cs[i]);
        i = i + 1;
        assert(s@ == cs@.subrange(from as int, i as int));
    }
    s
}

impl Token {
    /// The token written back as text (what `Display` shows for it).
    pub fn to_text(&self) -> (s: String)
        ensures
            s@ == token_text(self@),
    {
        match self {
            Token::Alphabet => string_of(&['a', 'l', 'f', 'a', 'b', 'e', 't', 'o']),
            Token::Automaton => string_of(&['a', 'u', 't', 'o', 'm', 'a', 't', 'o']),
            Token::DFA => string_of(&['A', 'F', 'D']),
            Token::NFA => string_of(&['A', 'F', 'N']),
            Token::Epsilon => string_of(&['e', 'p', 's', 'i', 'l', 'o', 'n']),
            Token::States => string_of(&['e', 's', 't', 'a', 'd', 'o', 's']),
            Token::Initial => string_of(&['i', 'n', 'i', 'c', 'i', 'a', 'l']),
            Token::Final => string_of(&['f', 'i', 'n', 'a', 'i', 's']),
            Token::Transitions => string_of(&['t', 'r', 'a', 'n', 's', 'i', 'c', 'o', 'e', 's']),
            Token::Simulate => string_of(&['s', 'i', 'm', 'u', 'l', 'a', 'r']),
            Token::With => string_of(&['c', 'o', 'm']),
            Token::BraceOpen => string_of(&['{']),
            Token::BraceClose => string_of(&['}']),
            Token::Comma => string_of(&[',']),
            Token::Arrow => string_of(&['-', '>']),
            Token::CharLiteral(c) => string_of(&['\'', *c, '\'']),
            Token::StringLiteral(s) => {
                let mut r = String::new();
                r.push('"');
                r.append(s.as_str());
                r.push('"');
                r
            },
            Token::Ident(s) => s.clone(),
        }
    }

    /// A copy of the token with the same value.
    pub fn duplicate(&self) -> (t: Token)
        ensures
            t@ == self@,
    {
        match self {
            Token::Alphabet => Token::Alphabet,
            Token::Automaton => Token::Automaton,
            Token::DFA => Token::DFA,
            Token::NFA => Token::NFA,
            Token::Epsilon => Token::Epsilon,
            Token::States => Token::States,
            Token::Initial => Token::Initial,
            Token::Final => Token::Final,
            Token::Transitions => Token::Transitions,
            Token::Simulate => Token::Simulate,
            Token::With => Token::With,
            Token::BraceOpen => Token::BraceOpen,
            Token::BraceClose => Token::BraceClose,
            Token::Comma => Token::Comma,
            Token::Arrow => Token::Arrow,
            Token::CharLiteral(c) => Token::CharLiteral(*c),
            Token::StringLiteral(s) => Token::StringLiteral(s.clone()),
            Token::Ident(s) => Token::Ident(s.clone()),
        }
    }
}

} // verus!
