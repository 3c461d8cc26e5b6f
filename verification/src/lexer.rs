//! The executable scanner.  A [`Lexer`] owns the input character sequence
//! and a cursor; [`Lexer::scan`] drives the cursor to the end of the input
//! and returns the token sequence, proved equal to what
//! [`crate::rules::scan_from`] says.

use vstd::prelude::*;
use vstd::string::StringExecFns;

use crate::rules::{
    count_char, digit_val, digits_val, find_char, is_digit, is_letter, is_num_char, is_word_char,
    keyword_of, lemma_count_char_push, lemma_find_char, lemma_num_run_end, lemma_step_in_bounds,
    lemma_word_run_end, num_run_end, num_token, scan_from, step, word_run_end, word_token,
};
use crate::token::{tokens_view, ScanError, Token, TokenTypes};

verus! {

/// Relies on `String::push`: it appends the given character to the end of
/// the string.
#[verifier::external_body]
fn push_char(s: &mut String, c: char)
    ensures
        final(s)@ == old(s)@.push(c),
{
    s.push(c);
}

/// Whether `c` is a decimal digit.
fn exec_is_digit(c: char) -> (b: bool)
    ensures
        b == is_digit(c),
{
    '0' <= c && c <= '9'
}

/// Whether `c` is a basic letter.
fn exec_is_letter(c: char) -> (b: bool)
    ensures
        b == is_letter(c),
{
    ('a' <= c && c <= 'z') || ('A' <= c && c <= 'Z')
}

/// Whether `c` may continue an identifier run.
fn exec_is_word_char(c: char) -> (b: bool)
    ensures
        b == is_word_char(c),
{
    exec_is_letter(c) || exec_is_digit(c) || c == '_' || c == '-'
}

/// Whether `c` may continue a numeric run.
fn exec_is_num_char(c: char) -> (b: bool)
    ensures
        b == is_num_char(c),
{
    exec_is_digit(c) || c == '.'
}

/// The reserved token that `name` denotes, or `None` when `name` is no
/// reserved word and stays an identifier.
fn keyword_token(name: &String) -> (r: Option<TokenTypes>)
    ensures
        match r {
            Option::Some(t) => keyword_of(name@) == Option::Some(t@),
            Option::None => keyword_of(name@) is None,
        },
{
    if *name == String::from_str("true") {
        Some(TokenTypes::Bool { value: Some(true) })
    } else if *name == String::from_str("false") {
        Some(TokenTypes::Bool { value: Some(false) })
    } else if *name == String::from_str("if") {
        Some(TokenTypes::If)
    } else if *name == String::from_str("else") {
        Some(TokenTypes::Else)
    } else if *name == String::from_str("elif") {
        Some(TokenTypes::ElseIf)
    } else if *name == String::from_str("fn") {
        Some(TokenTypes::Function)
    } else if *name == String::from_str("while") {
        Some(TokenTypes::While)
    } else if *name == String::from_str("for") {
        Some(TokenTypes::For)
    } else if *name == String::from_str("var") {
        Some(TokenTypes::Var)
    } else if *name == String::from_str("const") {
        Some(TokenTypes::Const)
    } else if *name == String::from_str("print") {
        Some(TokenTypes::Print)
    } else if *name == String::from_str("int") {
        Some(TokenTypes::Int { value: None })
    } else if *name == String::from_str("float") {
        Some(TokenTypes::Float { text: None })
    } else if *name == String::from_str("string") {
        Some(TokenTypes::Str { value: None })
    } else if *name == String::from_str("bool") {
        Some(TokenTypes::Bool { value: None })
    } else {
        None
    }
}

/// The scanner: the input character sequence, read-only for the scan's
/// duration, and a cursor into it.  Constructed once from a character
/// buffer, driven to completion by a single [`Lexer::scan`] call.
///
/// Every read through the cursor is proved in bounds, so no scan can
/// observe an out-of-range access, and no scanning function panics.
pub struct Lexer {
    contents: Vec<char>,
    current_pos: usize,
}

impl Lexer {
    /// The input character sequence.
    pub closed spec fn input(&self) -> Seq<char> {
        self.contents@
    }

    /// The cursor: the zero-based offset of the next character to read.
    pub closed spec fn pos(&self) -> int {
        self.current_pos as int
    }

    /// The cursor never leaves the input; at most it rests just past its
    /// last character.
    pub open spec fn wf(&self) -> bool {
        0 <= self.pos() <= self.input().len()
    }

    /// Makes a scanner over `contents` with the cursor at the start.
    pub fn new(contents: Vec<char>) -> (l: Lexer)
        ensures
            l.wf(),
            l.input() == contents@,
            l.pos() == 0,
    {
        Lexer { contents, current_pos: 0 }
    }

    /// One character of lookahead: the character `offset` places past the
    /// cursor, without consuming anything, or `None` past the end.
    fn scry(&self, offset: usize) -> (r: Option<char>)
        ensures
            match r {
                Option::Some(c) => self.pos() + offset < self.input().len() && c == self.input()[self.pos() + offset],
                Option::None => self.pos() + offset >= self.input().len(),
            },
    {
        if offset < self.contents.len() && self.current_pos < self.contents.len() - offset {
            Option::Some(self.contents[self.current_pos + offset])
        } else {
            Option::None
        }
    }

    /// Whether the cursor is at or past the end of the input.
    fn is_file_end(&self) -> (r: bool)
        requires
            self.wf(),
        ensures
            r == (self.pos() >= self.input().len()),
    {
        self.current_pos >= self.contents.len()
    }

    /// Discards a line comment: moves the cursor from the opening `#` to
    /// the next line break, or to the end of the input.  The line break
    /// itself is not consumed, so a commented line still ends its
    /// statement.
    fn skip_comment(&mut self)
        requires
            old(self).wf(),
            old(self).pos() < old(self).input().len(),
            old(self).input()[old(self).pos()] == '#',
        ensures
            final(self).input() == old(self).input(),
            final(self).wf(),
            final(self).pos() == find_char(old(self).input(), old(self).pos() + 1, '\n'),
    {
        let ghost s = self.input();
        let ghost start = self.pos() + 1;
        let ghost close = find_char(s, start, '\n');
        proof {
            lemma_find_char(s, start, '\n');
            assert(self.contents.len() == s.len());
        }
        self.current_pos = self.current_pos + 1;
        while self.current_pos < self.contents.len() && self.contents[self.current_pos] != '\n'
            invariant
                self.contents@ == s,
                0 < start <= self.pos() <= close,
                close == find_char(s, start, '\n'),
                close <= s.len(),
                forall|i: int| start <= i < close ==> s[i] != '\n',
                close < s.len() ==> s[close] == '\n',
            decreases s.len() - self.pos(),
        {
            proof {
                assert(self.contents.len() == s.len());
            }
            self.current_pos = self.current_pos + 1;
        }
    }

    /// Scans a quoted string literal opening at the cursor: the collected
    /// text, both quotes excluded, becomes the payload, or the scan fails
    /// when the input ends before a closing quote.
    fn scan_string(&mut self) -> (r: Result<TokenTypes, ScanError>)
        requires
            old(self).wf(),
            old(self).pos() < old(self).input().len(),
            old(self).input()[old(self).pos()] == '"',
        ensures
            final(self).input() == old(self).input(),
            final(self).wf(),
            ({
                let s = old(self).input();
                let close = find_char(s, old(self).pos() + 1, '"');
                if close < s.len() {
                    r matches Result::Ok(t) && t@ == (Token::Str {
                        value: Option::Some(s.subrange(old(self).pos() + 1, close)),
                    }) && !(t matches TokenTypes::NoToken) && final(self).pos() == close + 1
                } else {
                    r matches Result::Err(e) && e == ScanError::UnterminatedString
                }
            }),
    {
        let ghost s = self.input();
        let ghost start = self.pos() + 1;
        let ghost close = find_char(s, start, '"');
        proof {
            lemma_find_char(s, start, '"');
            assert(self.contents.len() == s.len());
        }
        self.current_pos = self.current_pos + 1;
        let mut buffer = String::new();
        proof {
            assert(buffer@ =~= s.subrange(start, start));
        }
        while self.current_pos < self.contents.len() && self.contents[self.current_pos] != '"'
            invariant
                self.contents@ == s,
                0 < start <= self.pos() <= close,
                close == find_char(s, start, '"'),
                close <= s.len(),
                forall|i: int| start <= i < close ==> s[i] != '"',
                close < s.len() ==> s[close] == '"',
                buffer@ == s.subrange(start, self.pos()),
            decreases s.len() - self.pos(),
        {
            let c = self.contents[self.current_pos];
            push_char(&mut buffer, c);
            proof {
                assert(self.contents.len() == s.len());
                assert(start <= self.pos() < s.len());
                assert(c == s[self.pos()]);
                let p = self.pos();
                assert forall|i: int| 0 <= i < p + 1 - start implies s.subrange(start, p + 1)[i]
                    == s.subrange(start, p).push(c)[i] by {
                    assert(s.subrange(start, p + 1)[i] == s[start + i]);
                }
                assert(s.subrange(start, p + 1) =~= s.subrange(start, p).push(c));
            }
            self.current_pos = self.current_pos + 1;
        }
        if self.current_pos < self.contents.len() {
            // The closing quote: consume it and hand the text back.
            self.current_pos = self.current_pos + 1;
            Result::Ok(TokenTypes::Str { value: Some(buffer) })
        } else {
            Result::Err(ScanError::UnterminatedString)
        }
    }

    /// Scans a numeric literal opening at the cursor: the whole run of
    /// digits and decimal points is consumed, then read as an integer or a
    /// decimal, or rejected as malformed.
    fn scan_number(&mut self) -> (r: Result<TokenTypes, ScanError>)
        requires
            old(self).wf(),
            old(self).pos() < old(self).input().len(),
            is_digit(old(self).input()[old(self).pos()]),
        ensures
            final(self).input() == old(self).input(),
            final(self).wf(),
            ({
                let s = old(self).input();
                let end = num_run_end(s, old(self).pos());
                match num_token(s.subrange(old(self).pos(), end)) {
                    Result::Ok(t) => r matches Result::Ok(tt) && tt@ == t && !(tt matches
                    TokenTypes::NoToken) && final(self).pos() == end,
                    Result::Err(e) => r matches Result::Err(e2) && e2 == e,
                }
            }),
    {
        let ghost s = self.input();
        let ghost start = self.pos();
        let ghost end = num_run_end(s, start);
        proof {
            lemma_num_run_end(s, start);
            assert(self.contents.len() == s.len());
            assert(s.subrange(start, start) =~= Seq::<char>::empty());
        }
        let mut buffer = String::new();
        let mut dots: usize = 0;
        let mut val: u64 = 0;
        let mut overflow: bool = false;
        while self.current_pos < self.contents.len() && exec_is_num_char(
            self.contents[self.current_pos],
        )
            invariant
                self.contents@ == s,
                0 <= start <= self.pos() <= end,
                end == num_run_end(s, start),
                end <= s.len(),
                forall|i: int| start <= i < end ==> is_num_char(s[i]),
                end < s.len() ==> !is_num_char(s[end]),
                buffer@ == s.subrange(start, self.pos()),
                dots == count_char(buffer@, '.'),
                dots <= buffer@.len(),
                dots == 0 ==> (overflow <==> digits_val(buffer@) > i64::MAX as nat),
                dots == 0 && !overflow ==> val == digits_val(buffer@),
            decreases s.len() - self.pos(),
        {
            let c = self.contents[self.current_pos];
            push_char(&mut buffer, c);
            proof {
                assert(self.contents.len() == s.len());
                let p = self.pos();
                assert(c == s[p]);
                assert forall|i: int| 0 <= i < p + 1 - start implies s.subrange(start, p + 1)[i]
                    == s.subrange(start, p).push(c)[i] by {
                    assert(s.subrange(start, p + 1)[i] == s[start + i]);
                }
                assert(s.subrange(start, p + 1) =~= s.subrange(start, p).push(c));
                lemma_count_char_push(s.subrange(start, p), '.', c);
                assert(s.subrange(start, p).push(c).drop_last() =~= s.subrange(start, p));
            }
            if c == '.' {
                dots = dots + 1;
            } else {
                proof {
                    assert(is_digit(c));
                    assert(digits_val(buffer@) == digits_val(buffer@.drop_last()) * 10
                        + digit_val(c));
                }
                if !overflow {
                    let d: u64 = (c as u32 - '0' as u32) as u64;
                    assert(d == digit_val(c));
                    match val.checked_mul(10) {
                        Some(v10) => match v10.checked_add(d) {
                            Some(v) => {
                                if v > 9223372036854775807u64 {
                                    overflow = true;
                                } else {
                                    val = v;
                                }
                            },
                            None => {
                                overflow = true;
                            },
                        },
                        None => {
                            overflow = true;
                        },
                    }
                } else {
                    proof {
                        assert(digits_val(buffer@.drop_last()) * 10 >= digits_val(
                            buffer@.drop_last(),
                        ));
                    }
                }
            }
            self.current_pos = self.current_pos + 1;
        }
        proof {
            assert(self.pos() == end);
            assert(buffer@ == s.subrange(start, end));
        }
        if dots == 0 {
            if overflow {
                Result::Err(ScanError::MalformedNumericLiteral)
            } else {
                Result::Ok(TokenTypes::Int { value: Some(val as i64) })
            }
        } else if dots == 1 {
            Result::Ok(TokenTypes::Float { text: Some(buffer) })
        } else {
            Result::Err(ScanError::MalformedNumericLiteral)
        }
    }

    /// Scans an identifier run opening at the cursor and classifies it:
    /// a reserved word yields its keyword token, anything else an
    /// identifier carrying the collected name.
    fn scan_word(&mut self) -> (r: Result<TokenTypes, ScanError>)
        requires
            old(self).wf(),
            old(self).pos() < old(self).input().len(),
            is_letter(old(self).input()[old(self).pos()]),
        ensures
            final(self).input() == old(self).input(),
            final(self).wf(),
            ({
                let s = old(self).input();
                let end = word_run_end(s, old(self).pos());
                r matches Result::Ok(t) && t@ == word_token(s.subrange(old(self).pos(), end))
                    && !(t matches TokenTypes::NoToken) && final(self).pos() == end
            }),
    {
        let ghost s = self.input();
        let ghost start = self.pos();
        let ghost end = word_run_end(s, start);
        proof {
            lemma_word_run_end(s, start);
            assert(self.contents.len() == s.len());
            assert(s.subrange(start, start) =~= Seq::<char>::empty());
        }
        let mut buffer = String::new();
        while self.current_pos < self.contents.len() && exec_is_word_char(
            self.contents[self.current_pos],
        )
            invariant
                self.contents@ == s,
                0 <= start <= self.pos() <= end,
                end == word_run_end(s, start),
                end <= s.len(),
                forall|i: int| start <= i < end ==> is_word_char(s[i]),
                end < s.len() ==> !is_word_char(s[end]),
                buffer@ == s.subrange(start, self.pos()),
            decreases s.len() - self.pos(),
        {
            let c = self.contents[self.current_pos];
            push_char(&mut buffer, c);
            proof {
                assert(self.contents.len() == s.len());
                let p = self.pos();
                assert(c == s[p]);
                assert forall|i: int| 0 <= i < p + 1 - start implies s.subrange(start, p + 1)[i]
                    == s.subrange(start, p).push(c)[i] by {
                    assert(s.subrange(start, p + 1)[i] == s[start + i]);
                }
                assert(s.subrange(start, p + 1) =~= s.subrange(start, p).push(c));
            }
            self.current_pos = self.current_pos + 1;
        }
        let ghost name = s.subrange(start, end);
        match keyword_token(&buffer) {
            Some(t) => {
                proof {
                    assert(!(word_token(name) is NoToken));
                }
                Result::Ok(t)
            },
            None => Result::Ok(TokenTypes::Identifier { name: buffer }),
        }
    }

    /// Performs one step of the scan: classifies the character at the
    /// cursor, consumes every character the classification requires, and
    /// returns the token of that step — [`TokenTypes::NoToken`] when the
    /// step produces none — or the error that aborts the scan.
    pub fn get_next_token(&mut self) -> (r: Result<TokenTypes, ScanError>)
        requires
            old(self).wf(),
            old(self).pos() < old(self).input().len(),
        ensures
            final(self).input() == old(self).input(),
            final(self).wf(),
            match step(old(self).input(), old(self).pos()) {
                Result::Ok(nt) => r matches Result::Ok(t) && t@ == nt.1 && final(self).pos()
                    == nt.0 && (t matches TokenTypes::NoToken <==> nt.1 is NoToken),
                Result::Err(e) => r matches Result::Err(e2) && e2 == e,
            },
    {
        proof {
            assert(self.contents.len() == self.input().len());
        }
        let c = self.contents[self.current_pos];
        if c == '\n' {
            self.current_pos = self.current_pos + 1;
            Result::Ok(TokenTypes::EndStatement)
        } else if c == '#' {
            self.skip_comment();
            Result::Ok(TokenTypes::NoToken)
        } else if c == ':' {
            self.current_pos = self.current_pos + 1;
            Result::Ok(TokenTypes::Colon)
        } else if c == '(' {
            self.current_pos = self.current_pos + 1;
            Result::Ok(TokenTypes::LeftParen)
        } else if c == ')' {
            self.current_pos = self.current_pos + 1;
            Result::Ok(TokenTypes::RightParen)
        } else if c == '[' {
            self.current_pos = self.current_pos + 1;
            Result::Ok(TokenTypes::LeftSquare)
        } else if c == ']' {
            self.current_pos = self.current_pos + 1;
            Result::Ok(TokenTypes::RightSquare)
        } else if c == '{' {
            self.current_pos = self.current_pos + 1;
            Result::Ok(TokenTypes::LeftCurly)
        } else if c == '}' {
            self.current_pos = self.current_pos + 1;
            Result::Ok(TokenTypes::RightCurly)
        } else if c == '"' {
            self.scan_string()
        } else if exec_is_digit(c) {
            self.scan_number()
        } else if c == '+' {
            match self.scry(1) {
                Some('+') => {
                    self.current_pos = self.current_pos + 2;
                    Result::Ok(TokenTypes::Inc)
                },
                Some('=') => {
                    self.current_pos = self.current_pos + 2;
                    Result::Ok(TokenTypes::AddAssign)
                },
                _ => {
                    self.current_pos = self.current_pos + 1;
                    Result::Ok(TokenTypes::Add)
                },
            }
        } else if c == '-' {
            match self.scry(1) {
                Some('-') => {
                    self.current_pos = self.current_pos + 2;
                    Result::Ok(TokenTypes::Dec)
                },
                Some('=') => {
                    self.current_pos = self.current_pos + 2;
                    Result::Ok(TokenTypes::SubAssign)
                },
                _ => {
                    self.current_pos = self.current_pos + 1;
                    Result::Ok(TokenTypes::Sub)
                },
            }
        } else if c == '/' {
            match self.scry(1) {
                Some('/') => {
                    self.current_pos = self.current_pos + 2;
                    Result::Ok(TokenTypes::IntDiv)
                },
                Some('=') => {
                    self.current_pos = self.current_pos + 2;
                    Result::Ok(TokenTypes::DivAssign)
                },
                _ => {
                    self.current_pos = self.current_pos + 1;
                    Result::Ok(TokenTypes::Div)
                },
            }
        } else if c == '*' {
            match self.scry(1) {
                Some('*') => {
                    self.current_pos = self.current_pos + 2;
                    Result::Ok(TokenTypes::Pow)
                },
                Some('=') => {
                    self.current_pos = self.current_pos + 2;
                    Result::Ok(TokenTypes::MultAssign)
                },
                _ => {
                    self.current_pos = self.current_pos + 1;
                    Result::Ok(TokenTypes::Mult)
                },
            }
        } else if c == '%' {
            match self.scry(1) {
                Some('=') => {
                    self.current_pos = self.current_pos + 2;
                    Result::Ok(TokenTypes::ModAssign)
                },
                _ => {
                    self.current_pos = self.current_pos + 1;
                    Result::Ok(TokenTypes::Mod)
                },
            }
        } else if c == '>' {
            match self.scry(1) {
                Some('=') => {
                    self.current_pos = self.current_pos + 2;
                    Result::Ok(TokenTypes::GreaterEqual)
                },
                _ => {
                    self.current_pos = self.current_pos + 1;
                    Result::Ok(TokenTypes::Greater)
                },
            }
        } else if c == '<' {
            match self.scry(1) {
                Some('=') => {
                    self.current_pos = self.current_pos + 2;
                    Result::Ok(TokenTypes::LessEqual)
                },
                _ => {
                    self.current_pos = self.current_pos + 1;
                    Result::Ok(TokenTypes::LessThan)
                },
            }
        } else if c == '=' {
            match self.scry(1) {
                Some('=') => {
                    self.current_pos = self.current_pos + 2;
                    Result::Ok(TokenTypes::Equal)
                },
                _ => {
                    self.current_pos = self.current_pos + 1;
                    Result::Ok(TokenTypes::Assign)
                },
            }
        } else if c == '!' {
            match self.scry(1) {
                Some('=') => {
                    self.current_pos = self.current_pos + 2;
                    Result::Ok(TokenTypes::NotEqual)
                },
                _ => {
                    self.current_pos = self.current_pos + 1;
                    Result::Ok(TokenTypes::Not)
                },
            }
        } else if c == '&' {
            match self.scry(1) {
                Some('&') => {
                    self.current_pos = self.current_pos + 2;
                    Result::Ok(TokenTypes::And)
                },
                _ => {
                    self.current_pos = self.current_pos + 1;
                    Result::Ok(TokenTypes::BitAnd)
                },
            }
        } else if c == '|' {
            match self.scry(1) {
                Some('|') => {
                    self.current_pos = self.current_pos + 2;
                    Result::Ok(TokenTypes::Or)
                },
                _ => {
                    self.current_pos = self.current_pos + 1;
                    Result::Ok(TokenTypes::BitOr)
                },
            }
        } else if c == '\u{00AC}' {
            self.current_pos = self.current_pos + 1;
            Result::Ok(TokenTypes::BitNot)
        } else if exec_is_letter(c) {
            self.scan_word()
        } else {
            // Whitespace and unrecognized characters: skip one character,
            // produce nothing.
            self.current_pos = self.current_pos + 1;
            Result::Ok(TokenTypes::NoToken)
        }
    }

    /// Scans the input to completion: drives the cursor to the end and
    /// returns every token recognized, in source order, or the first error
    /// raised.  The result is exactly what [`scan_from`] says of the input.
    pub fn scan(&mut self) -> (r: Result<Vec<TokenTypes>, ScanError>)
        requires
            old(self).wf(),
        ensures
            final(self).input() == old(self).input(),
            final(self).wf(),
            match scan_from(old(self).input(), old(self).pos()) {
                Result::Ok(ts) => r matches Result::Ok(v) && tokens_view(v@) == ts,
                Result::Err(e) => r matches Result::Err(e2) && e2 == e,
            },
    {
        let ghost s = self.input();
        let ghost p0 = self.pos();
        let mut tokens: Vec<TokenTypes> = Vec::new();
        proof {
            assert(tokens_view(tokens@) =~= Seq::<Token>::empty());
            match scan_from(s, p0) {
                Result::Ok(rest) => {
                    assert(tokens_view(tokens@) + rest =~= rest);
                },
                Result::Err(_) => {},
            }
        }
        while !self.is_file_end()
            invariant
                self.wf(),
                self.input() == s,
                s == old(self).input(),
                p0 == old(self).pos(),
                0 <= p0 <= s.len(),
                match scan_from(s, self.pos()) {
                    Result::Ok(rest) => scan_from(s, p0) matches Result::Ok(ts) && ts
                        == tokens_view(tokens@) + rest,
                    Result::Err(e) => scan_from(s, p0) == Result::Err::<Seq<Token>, ScanError>(e),
                },
            decreases s.len() - self.pos(),
        {
            let ghost p = self.pos();
            proof {
                lemma_step_in_bounds(s, p);
            }
            match self.get_next_token() {
                Result::Err(e) => {
                    proof {
                        assert(scan_from(s, p) == Result::Err::<Seq<Token>, ScanError>(e));
                    }
                    return Result::Err(e);
                },
                Result::Ok(t) => {
                    proof {
                        let nt = step(s, p)->Ok_0;
                        assert(self.pos() == nt.0);
                        match scan_from(s, self.pos()) {
                            Result::Ok(rest) => {
                                if nt.1 is NoToken {
                                    assert(scan_from(s, p) == Result::Ok::<Seq<Token>, ScanError>(
                                        rest,
                                    ));
                                } else {
                                    assert(scan_from(s, p) == Result::Ok::<Seq<Token>, ScanError>(
                                        seq![nt.1] + rest,
                                    ));
                                }
                            },
                            Result::Err(_) => {},
                        }
                    }
                    match t {
                        TokenTypes::NoToken => {},
                        _ => {
                            let ghost old_tokens = tokens@;
                            let ghost tok = t@;
                            tokens.push(t);
                            proof {
                                assert(tokens_view(tokens@) =~= tokens_view(old_tokens).push(tok));
                                match scan_from(s, self.pos()) {
                                    Result::Ok(rest) => {
                                        assert(tokens_view(old_tokens) + (seq![tok] + rest) =~= (
                                        tokens_view(old_tokens).push(tok)) + rest);
                                    },
                                    Result::Err(_) => {},
                                }
                            }
                        },
                    }
                },
            }
        }
        proof {
            assert(self.pos() == s.len());
            assert(scan_from(s, self.pos()) == Result::Ok::<Seq<Token>, ScanError>(
                Seq::<Token>::empty(),
            ));
            match scan_from(s, p0) {
                Result::Ok(_) => {
                    assert(tokens_view(tokens@) + Seq::<Token>::empty() =~= tokens_view(tokens@));
                },
                Result::Err(_) => {},
            }
        }
        Result::Ok(tokens)
    }
}

} // verus!
