use vstd::prelude::*;
use vstd::string::StrSliceExecFns;

verus! {

/// One lexical token of the source language: punctuation, a keyword, a
/// whitespace marker, or a literal run of characters (an identifier or a
/// numeric constant, told apart later by position).
#[derive(Debug, PartialEq, Eq)]
pub enum Token {
    Function,
    ParenOpen,
    ParenClose,
    CurlyOpen,
    CurlyClose,
    SemiColon,
    Return,
    Comma,
    Tab,
    NewLine,
    Eq,
    DoubleEq,
    Sub,
    Add,
    Mul,
    Percent,
    Exclaim,
    GreaterThan,
    LessThan,
    Let,
    Const,
    NotEq,
    While,
    If,
    Else,
    Comment,
    WhiteSpace,
    Literal(String),
    Unknown,
}

/// The mathematical shape of a token: identical to `Token`, except that a
/// literal run is a sequence of characters rather than a `String`, so that
/// specification code can build one.
pub ghost enum TokenModel {
    Function,
    ParenOpen,
    ParenClose,
    CurlyOpen,
    CurlyClose,
    SemiColon,
    Return,
    Comma,
    Tab,
    NewLine,
    Eq,
    DoubleEq,
    Sub,
    Add,
    Mul,
    Percent,
    Exclaim,
    GreaterThan,
    LessThan,
    Let,
    Const,
    NotEq,
    While,
    If,
    Else,
    Comment,
    WhiteSpace,
    Literal(Seq<char>),
    Unknown,
}

pub open spec fn token_model(t: Token) -> TokenModel {
    match t {
        Token::Function => TokenModel::Function,
        Token::ParenOpen => TokenModel::ParenOpen,
        Token::ParenClose => TokenModel::ParenClose,
        Token::CurlyOpen => TokenModel::CurlyOpen,
        Token::CurlyClose => TokenModel::CurlyClose,
        Token::SemiColon => TokenModel::SemiColon,
        Token::Return => TokenModel::Return,
        Token::Comma => TokenModel::Comma,
        Token::Tab => TokenModel::Tab,
        Token::NewLine => TokenModel::NewLine,
        Token::Eq => TokenModel::Eq,
        Token::DoubleEq => TokenModel::DoubleEq,
        Token::Sub => TokenModel::Sub,
        Token::Add => TokenModel::Add,
        Token::Mul => TokenModel::Mul,
        Token::Percent => TokenModel::Percent,
        Token::Exclaim => TokenModel::Exclaim,
        Token::GreaterThan => TokenModel::GreaterThan,
        Token::LessThan => TokenModel::LessThan,
        Token::Let => TokenModel::Let,
        Token::Const => TokenModel::Const,
        Token::NotEq => TokenModel::NotEq,
        Token::While => TokenModel::While,
        Token::If => TokenModel::If,
        Token::Else => TokenModel::Else,
        Token::Comment => TokenModel::Comment,
        Token::WhiteSpace => TokenModel::WhiteSpace,
        Token::Literal(s) => TokenModel::Literal(s@),
        Token::Unknown => TokenModel::Unknown,
    }
}

pub open spec fn token_models(ts: Seq<Token>) -> Seq<TokenModel> {
    ts.map_values(|t: Token| token_model(t))
}

impl Clone for Token {
    fn clone(&self) -> (res: Self)
        ensures
            res == *self,
    {
        match self {
            Token::Function => Token::Function,
            Token::ParenOpen => Token::ParenOpen,
            Token::ParenClose => Token::ParenClose,
            Token::CurlyOpen => Token::CurlyOpen,
            Token::CurlyClose => Token::CurlyClose,
            Token::SemiColon => Token::SemiColon,
            Token::Return => Token::Return,
            Token::Comma => Token::Comma,
            Token::Tab => Token::Tab,
            Token::NewLine => Token::NewLine,
            Token::Eq => Token::Eq,
            Token::DoubleEq => Token::DoubleEq,
            Token::Sub => Token::Sub,
            Token::Add => Token::Add,
            Token::Mul => Token::Mul,
            Token::Percent => Token::Percent,
            Token::Exclaim => Token::Exclaim,
            Token::GreaterThan => Token::GreaterThan,
            Token::LessThan => Token::LessThan,
            Token::Let => Token::Let,
            Token::Const => Token::Const,
            Token::NotEq => Token::NotEq,
            Token::While => Token::While,
            Token::If => Token::If,
            Token::Else => Token::Else,
            Token::Comment => Token::Comment,
            Token::WhiteSpace => Token::WhiteSpace,
            Token::Literal(s) => Token::Literal(s.clone()),
            Token::Unknown => Token::Unknown,
        }
    }
}

/// Classification of a single character: the punctuation and whitespace
/// marks each map to their token; every other character belongs to a
/// literal run. The surface characters `<` and `>` intentionally map to
/// `GreaterThan` and `LessThan` respectively; the code generator swaps the
/// comparison direction back, so the two inversions cancel.
pub open spec fn spec_char_token(c: char) -> TokenModel {
    if c == '(' {
        TokenModel::ParenOpen
    } else if c == ')' {
        TokenModel::ParenClose
    } else if c == '}' {
        TokenModel::CurlyClose
    } else if c == '{' {
        TokenModel::CurlyOpen
    } else if c == ';' {
        TokenModel::SemiColon
    } else if c == '=' {
        TokenModel::Eq
    } else if c == '-' {
        TokenModel::Sub
    } else if c == '+' {
        TokenModel::Add
    } else if c == '%' {
        TokenModel::Percent
    } else if c == '*' {
        TokenModel::Mul
    } else if c == '!' {
        TokenModel::Exclaim
    } else if c == '<' {
        TokenModel::GreaterThan
    } else if c == '>' {
        TokenModel::LessThan
    } else if c == ',' {
        TokenModel::Comma
    } else if c == ' ' {
        TokenModel::WhiteSpace
    } else if c == '\n' {
        TokenModel::NewLine
    } else if c == '\t' {
        TokenModel::Tab
    } else {
        TokenModel::Unknown
    }
}

/// A literal run that spells a keyword becomes that keyword's token; any
/// other run is an identifier or numeric literal.
pub open spec fn spec_literal_token(run: Seq<char>) -> TokenModel {
    if run == "while"@ {
        TokenModel::While
    } else if run == "let"@ {
        TokenModel::Let
    } else if run == "return"@ {
        TokenModel::Return
    } else if run == "function"@ {
        TokenModel::Function
    } else if run == "const"@ {
        TokenModel::Const
    } else if run == "if"@ {
        TokenModel::If
    } else if run == "//"@ {
        TokenModel::Comment
    } else if run == "else"@ {
        TokenModel::Else
    } else {
        TokenModel::Literal(run)
    }
}

/// The pending literal run, flushed: nothing if it is empty, else one token.
pub open spec fn spec_flush(run: Seq<char>) -> Seq<TokenModel> {
    if run.len() == 0 {
        Seq::empty()
    } else {
        seq![spec_literal_token(run)]
    }
}

/// The tokens produced from position `i` of the input onward, with `run`
/// the literal characters accumulated so far: a separating character first
/// flushes the run, then stands for its own token; any other character
/// extends the run.
pub open spec fn spec_lex_rec(s: Seq<char>, i: int, run: Seq<char>) -> Seq<TokenModel>
    decreases s.len() - i,
{
    if i < 0 || i >= s.len() {
        spec_flush(run)
    } else if spec_char_token(s[i]) is Unknown {
        spec_lex_rec(s, i + 1, run.push(s[i]))
    } else {
        spec_flush(run) + seq![spec_char_token(s[i])] + spec_lex_rec(s, i + 1, Seq::empty())
    }
}

/// The token sequence of a whole input text.
pub open spec fn spec_lex(s: Seq<char>) -> Seq<TokenModel> {
    spec_lex_rec(s, 0, Seq::empty())
}

/// Relies on alloc's String::push, which vstd leaves unspecified: it
/// appends the given character to the end of the string.
pub assume_specification[ String::push ](s: &mut String, c: char)
    ensures
        final(s)@ == old(s)@.push(c),
;

pub(crate) fn str_eq(a: &str, b: &str) -> (r: bool)
    ensures
        r == (a@ == b@),
{
    let la = a.unicode_len();
    let lb = b.unicode_len();
    if la != lb {
        return false;
    }
    let mut i: usize = 0;
    while i < la
        invariant
            i <= la,
            la == a@.len(),
            la == b@.len(),
            forall|j: int| 0 <= j < i ==> a@[j] == b@[j],
        decreases la - i,
    {
        if a.get_char(i) != b.get_char(i) {
            return false;
        }
        i += 1;
    }
    proof {
        assert(a@ =~= b@);
    }
    true
}

fn get_byte_keyword(byte: &u8) -> (r: Token)
    ensures
        token_model(r) == spec_char_token(*byte as char),
{
    match *byte as char {
        '(' => Token::ParenOpen,
        ')' => Token::ParenClose,
        '}' => Token::CurlyClose,
        '{' => Token::CurlyOpen,
        ';' => Token::SemiColon,
        '=' => Token::Eq,
        '-' => Token::Sub,
        '+' => Token::Add,
        '%' => Token::Percent,
        '*' => Token::Mul,
        '!' => Token::Exclaim,
        '<' => Token::GreaterThan,
        '>' => Token::LessThan,
        ',' => Token::Comma,
        ' ' => Token::WhiteSpace,
        '\n' => Token::NewLine,
        '\t' => Token::Tab,
        _ => Token::Unknown,
    }
}

fn get_literal_keyword(keyword: &str) -> (r: Token)
    ensures
        token_model(r) == spec_literal_token(keyword@),
{
    if str_eq(keyword, "while") {
        Token::While
    } else if str_eq(keyword, "let") {
        Token::Let
    } else if str_eq(keyword, "return") {
        Token::Return
    } else if str_eq(keyword, "function") {
        Token::Function
    } else if str_eq(keyword, "const") {
        Token::Const
    } else if str_eq(keyword, "if") {
        Token::If
    } else if str_eq(keyword, "//") {
        Token::Comment
    } else if str_eq(keyword, "else") {
        Token::Else
    } else {
        Token::Literal(keyword.to_owned())
    }
}

/// Splits the input text into tokens: separating characters stand for
/// themselves, and maximal runs of all other characters become keyword or
/// literal tokens.
pub fn lex(stream: String) -> (r: Vec<Token>)
    ensures
        token_models(r@) == spec_lex(stream@),
{
    let s = stream.as_str();
    let n = s.unicode_len();
    let mut stream_token: Vec<Token> = Vec::new();
    let mut temp_str = String::new();
    let mut i: usize = 0;
    while i < n
        invariant
            i <= n,
            n == stream@.len(),
            s@ == stream@,
            spec_lex(stream@) == token_models(stream_token@) + spec_lex_rec(
                stream@,
                i as int,
                temp_str@,
            ),
        decreases n - i,
    {
        let c = s.get_char(i);
        let code = c as u32;
        let lexed = if code < 128 {
            let b = code as u8;
            proof {
                assert((b as char) as u32 == code);
                assert(b as char == c);
            }
            get_byte_keyword(&b)
        } else {
            proof {
                assert(spec_char_token(c) is Unknown);
            }
            Token::Unknown
        };
        let ghost prev_toks = stream_token@;
        let ghost prev_run = temp_str@;
        match lexed {
            Token::Unknown => {
                temp_str.push(c);
                proof {
                    assert(spec_char_token(stream@[i as int]) is Unknown);
                    assert(spec_lex_rec(stream@, i as int, prev_run) == spec_lex_rec(
                        stream@,
                        i + 1,
                        prev_run.push(c),
                    ));
                    assert(spec_lex(stream@) == token_models(stream_token@) + spec_lex_rec(
                        stream@,
                        i + 1,
                        temp_str@,
                    ));
                }
            },
            _ => {
                if !temp_str.as_str().is_empty() {
                    let kw = get_literal_keyword(temp_str.as_str());
                    stream_token.push(kw);
                    temp_str = String::new();
                }
                stream_token.push(lexed);
                proof {
                    let mids = spec_flush(prev_run) + seq![spec_char_token(stream@[i as int])];
                    assert(spec_lex_rec(stream@, i as int, prev_run) == spec_flush(prev_run) + seq![
                        spec_char_token(stream@[i as int]),
                    ] + spec_lex_rec(stream@, i + 1, Seq::empty()));
                    assert(token_models(stream_token@) =~= token_models(prev_toks) + mids);
                    assert(token_models(prev_toks) + mids + spec_lex_rec(
                        stream@,
                        i + 1,
                        Seq::empty(),
                    ) =~= token_models(prev_toks) + (mids + spec_lex_rec(
                        stream@,
                        i + 1,
                        Seq::empty(),
                    )));
                    assert(token_models(stream_token@) + spec_lex_rec(stream@, i + 1, Seq::empty())
                        =~= token_models(prev_toks) + spec_lex_rec(stream@, i as int, prev_run));
                    assert(temp_str@ == Seq::<char>::empty());
                    assert(spec_lex(stream@) == token_models(stream_token@) + spec_lex_rec(
                        stream@,
                        i + 1,
                        temp_str@,
                    ));
                }
            },
        }
        i += 1;
    }
    if !temp_str.as_str().is_empty() {
        let kw = get_literal_keyword(temp_str.as_str());
        let ghost prev_toks = stream_token@;
        stream_token.push(kw);
        proof {
            assert(token_models(stream_token@) =~= token_models(prev_toks) + spec_flush(temp_str@));
        }
    } else {
        proof {
            assert(token_models(stream_token@) + spec_flush(temp_str@) =~= token_models(
                stream_token@,
            ));
        }
    }
    stream_token
}

} // verus!
