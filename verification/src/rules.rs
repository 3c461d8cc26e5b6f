//! The scanning rules, as mathematics: character classes, run boundaries,
//! numeric and keyword interpretation, the one-step relation [`step`], and
//! the whole-input relation [`scan_from`].  The executable scanner in
//! [`crate::lexer`] is proved to return exactly what these functions say.

use vstd::prelude::*;

use crate::token::{ScanError, Token};

verus! {

/// A decimal digit.
pub open spec fn is_digit(c: char) -> bool {
    '0' <= c && c <= '9'
}

/// A basic letter, the only characters that may open an identifier.
pub open spec fn is_letter(c: char) -> bool {
    ('a' <= c && c <= 'z') || ('A' <= c && c <= 'Z')
}

/// A character that may continue an identifier run.
pub open spec fn is_word_char(c: char) -> bool {
    is_letter(c) || is_digit(c) || c == '_' || c == '-'
}

/// A character that may continue a numeric run: digits and the decimal point.
pub open spec fn is_num_char(c: char) -> bool {
    is_digit(c) || c == '.'
}

/// The value of a single decimal digit.
pub open spec fn digit_val(c: char) -> nat
    recommends
        is_digit(c),
{
    (c as u32 - '0' as u32) as nat
}

/// The value of a digit run read as a base-ten numeral.
pub open spec fn digits_val(s: Seq<char>) -> nat
    decreases s.len(),
{
    if s.len() == 0 {
        0
    } else {
        digits_val(s.drop_last()) * 10 + digit_val(s.last())
    }
}

/// How many times the character `c` occurs in `s`.
pub open spec fn count_char(s: Seq<char>, c: char) -> nat
    decreases s.len(),
{
    if s.len() == 0 {
        0
    } else {
        (if s[0] == c {
            1nat
        } else {
            0nat
        }) + count_char(s.drop_first(), c)
    }
}

/// Appending one character raises the count of that character by one and
/// leaves every other count unchanged.
pub proof fn lemma_count_char_push(s: Seq<char>, c: char, x: char)
    ensures
        count_char(s.push(x), c) == count_char(s, c) + (if x == c {
            1int
        } else {
            0int
        }),
    decreases s.len(),
{
    let t = s.push(x);
    assert(t.len() == s.len() + 1);
    if s.len() == 0 {
        assert(t[0] == x);
        assert(t.drop_first() =~= Seq::<char>::empty());
        assert(count_char(t, c) == (if t[0] == c { 1nat } else { 0nat }) + count_char(t.drop_first(), c));
        assert(count_char(t.drop_first(), c) == 0);
        assert(count_char(s, c) == 0);
    } else {
        assert(t[0] == s[0]);
        assert(t.drop_first() =~= s.drop_first().push(x));
        lemma_count_char_push(s.drop_first(), c, x);
        assert(count_char(t, c) == (if t[0] == c { 1nat } else { 0nat }) + count_char(t.drop_first(), c));
        assert(count_char(s, c) == (if s[0] == c { 1nat } else { 0nat }) + count_char(s.drop_first(), c));
    }
}

/// The first position at or after `pos` holding the character `c`, or the
/// end of the input if there is none.
pub open spec fn find_char(s: Seq<char>, pos: int, c: char) -> int
    decreases s.len() - pos,
    when 0 <= pos <= s.len()
{
    if pos >= s.len() {
        pos
    } else if s[pos] == c {
        pos
    } else {
        find_char(s, pos + 1, c)
    }
}

/// The end of the numeric run opening at `pos`: the first position at or
/// after `pos` whose character is neither a digit nor a decimal point, or
/// the end of the input.
pub open spec fn num_run_end(s: Seq<char>, pos: int) -> int
    decreases s.len() - pos,
    when 0 <= pos <= s.len()
{
    if pos >= s.len() {
        pos
    } else if !is_num_char(s[pos]) {
        pos
    } else {
        num_run_end(s, pos + 1)
    }
}

/// The end of the identifier run opening at `pos`.
pub open spec fn word_run_end(s: Seq<char>, pos: int) -> int
    decreases s.len() - pos,
    when 0 <= pos <= s.len()
{
    if pos >= s.len() {
        pos
    } else if !is_word_char(s[pos]) {
        pos
    } else {
        word_run_end(s, pos + 1)
    }
}

/// The token that a collected numeric run denotes, or the error that the
/// run raises.  A run without a decimal point is an integer literal and
/// must fit in `i64`; a run with exactly one decimal point is a decimal
/// literal carried as its text; a run with several decimal points is
/// malformed.
pub open spec fn num_token(text: Seq<char>) -> Result<Token, ScanError> {
    let dots = count_char(text, '.');
    if dots == 0 {
        if digits_val(text) <= i64::MAX as nat {
            Result::Ok(Token::Int { value: Option::Some(digits_val(text) as i64) })
        } else {
            Result::Err(ScanError::MalformedNumericLiteral)
        }
    } else if dots == 1 {
        Result::Ok(Token::Float { text: Option::Some(text) })
    } else {
        Result::Err(ScanError::MalformedNumericLiteral)
    }
}

/// The reserved words, matched case-sensitively, and the tokens they denote.
pub open spec fn keyword_of(name: Seq<char>) -> Option<Token> {
    if name == "true"@ {
        Option::Some(Token::Bool { value: Option::Some(true) })
    } else if name == "false"@ {
        Option::Some(Token::Bool { value: Option::Some(false) })
    } else if name == "if"@ {
        Option::Some(Token::If)
    } else if name == "else"@ {
        Option::Some(Token::Else)
    } else if name == "elif"@ {
        Option::Some(Token::ElseIf)
    } else if name == "fn"@ {
        Option::Some(Token::Function)
    } else if name == "while"@ {
        Option::Some(Token::While)
    } else if name == "for"@ {
        Option::Some(Token::For)
    } else if name == "var"@ {
        Option::Some(Token::Var)
    } else if name == "const"@ {
        Option::Some(Token::Const)
    } else if name == "print"@ {
        Option::Some(Token::Print)
    } else if name == "int"@ {
        Option::Some(Token::Int { value: Option::None })
    } else if name == "float"@ {
        Option::Some(Token::Float { text: Option::None })
    } else if name == "string"@ {
        Option::Some(Token::Str { value: Option::None })
    } else if name == "bool"@ {
        Option::Some(Token::Bool { value: Option::None })
    } else {
        Option::None
    }
}

/// The token that a collected identifier run denotes: the reserved token if
/// the run matches a reserved word, else an identifier carrying the run.
pub open spec fn word_token(name: Seq<char>) -> Token {
    match keyword_of(name) {
        Option::Some(t) => t,
        Option::None => Token::Identifier { name },
    }
}

/// One step of the scan at position `pos`: the position after every
/// character the step consumes, and the token it emits ([`Token::NoToken`]
/// when the step emits nothing), or the error that aborts the scan.
pub open spec fn step(s: Seq<char>, pos: int) -> Result<(int, Token), ScanError>
    recommends
        0 <= pos < s.len(),
{
    let c = s[pos];
    if c == '\n' {
        Result::Ok((pos + 1, Token::EndStatement))
    } else if c == '#' {
        // A line comment: everything up to the line break is discarded.
        // The line break itself is left for the next step, so a commented
        // line still ends its statement.
        Result::Ok((find_char(s, pos + 1, '\n'), Token::NoToken))
    } else if c == ':' {
        Result::Ok((pos + 1, Token::Colon))
    } else if c == '(' {
        Result::Ok((pos + 1, Token::LeftParen))
    } else if c == ')' {
        Result::Ok((pos + 1, Token::RightParen))
    } else if c == '[' {
        Result::Ok((pos + 1, Token::LeftSquare))
    } else if c == ']' {
        Result::Ok((pos + 1, Token::RightSquare))
    } else if c == '{' {
        Result::Ok((pos + 1, Token::LeftCurly))
    } else if c == '}' {
        Result::Ok((pos + 1, Token::RightCurly))
    } else if c == '"' {
        let close = find_char(s, pos + 1, '"');
        if close < s.len() {
            Result::Ok((close + 1, Token::Str { value: Option::Some(s.subrange(pos + 1, close)) }))
        } else {
            Result::Err(ScanError::UnterminatedString)
        }
    } else if is_digit(c) {
        let end = num_run_end(s, pos);
        match num_token(s.subrange(pos, end)) {
            Result::Ok(t) => Result::Ok((end, t)),
            Result::Err(e) => Result::Err(e),
        }
    } else if c == '+' {
        if pos + 1 < s.len() && s[pos + 1] == '+' {
            Result::Ok((pos + 2, Token::Inc))
        } else if pos + 1 < s.len() && s[pos + 1] == '=' {
            Result::Ok((pos + 2, Token::AddAssign))
        } else {
            Result::Ok((pos + 1, Token::Add))
        }
    } else if c == '-' {
        if pos + 1 < s.len() && s[pos + 1] == '-' {
            Result::Ok((pos + 2, Token::Dec))
        } else if pos + 1 < s.len() && s[pos + 1] == '=' {
            Result::Ok((pos + 2, Token::SubAssign))
        } else {
            Result::Ok((pos + 1, Token::Sub))
        }
    } else if c == '/' {
        if pos + 1 < s.len() && s[pos + 1] == '/' {
            Result::Ok((pos + 2, Token::IntDiv))
        } else if pos + 1 < s.len() && s[pos + 1] == '=' {
            Result::Ok((pos + 2, Token::DivAssign))
        } else {
            Result::Ok((pos + 1, Token::Div))
        }
    } else if c == '*' {
        if pos + 1 < s.len() && s[pos + 1] == '*' {
            Result::Ok((pos + 2, Token::Pow))
        } else if pos + 1 < s.len() && s[pos + 1] == '=' {
            Result::Ok((pos + 2, Token::MultAssign))
        } else {
            Result::Ok((pos + 1, Token::Mult))
        }
    } else if c == '%' {
        if pos + 1 < s.len() && s[pos + 1] == '=' {
            Result::Ok((pos + 2, Token::ModAssign))
        } else {
            Result::Ok((pos + 1, Token::Mod))
        }
    } else if c == '>' {
        if pos + 1 < s.len() && s[pos + 1] == '=' {
            Result::Ok((pos + 2, Token::GreaterEqual))
        } else {
            Result::Ok((pos + 1, Token::Greater))
        }
    } else if c == '<' {
        if pos + 1 < s.len() && s[pos + 1] == '=' {
            Result::Ok((pos + 2, Token::LessEqual))
        } else {
            Result::Ok((pos + 1, Token::LessThan))
        }
    } else if c == '=' {
        if pos + 1 < s.len() && s[pos + 1] == '=' {
            Result::Ok((pos + 2, Token::Equal))
        } else {
            Result::Ok((pos + 1, Token::Assign))
        }
    } else if c == '!' {
        if pos + 1 < s.len() && s[pos + 1] == '=' {
            Result::Ok((pos + 2, Token::NotEqual))
        } else {
            Result::Ok((pos + 1, Token::Not))
        }
    } else if c == '&' {
        if pos + 1 < s.len() && s[pos + 1] == '&' {
            Result::Ok((pos + 2, Token::And))
        } else {
            Result::Ok((pos + 1, Token::BitAnd))
        }
    } else if c == '|' {
        if pos + 1 < s.len() && s[pos + 1] == '|' {
            Result::Ok((pos + 2, Token::Or))
        } else {
            Result::Ok((pos + 1, Token::BitOr))
        }
    } else if c == '\u{00AC}' {
        Result::Ok((pos + 1, Token::BitNot))
    } else if is_letter(c) {
        let end = word_run_end(s, pos);
        Result::Ok((end, word_token(s.subrange(pos, end))))
    } else {
        // Whitespace and unrecognized characters are skipped silently.
        Result::Ok((pos + 1, Token::NoToken))
    }
}

/// Bounds of [`find_char`]: the result lies between `pos` and the end of
/// the input, no position before it holds `c`, and it holds `c` unless it
/// is the end of the input.
pub proof fn lemma_find_char(s: Seq<char>, pos: int, c: char)
    requires
        0 <= pos <= s.len(),
    ensures
        pos <= find_char(s, pos, c) <= s.len(),
        forall|i: int| pos <= i < find_char(s, pos, c) ==> s[i] != c,
        find_char(s, pos, c) < s.len() ==> s[find_char(s, pos, c)] == c,
    decreases s.len() - pos,
{
    if pos < s.len() && s[pos] != c {
        lemma_find_char(s, pos + 1, c);
    }
}

/// Bounds of [`num_run_end`]: every character of the run is a numeric
/// character, the run ends at the end of the input or before a
/// non-numeric character, and the run is nonempty when it opens on a
/// numeric character.
pub proof fn lemma_num_run_end(s: Seq<char>, pos: int)
    requires
        0 <= pos <= s.len(),
    ensures
        pos <= num_run_end(s, pos) <= s.len(),
        forall|i: int| pos <= i < num_run_end(s, pos) ==> is_num_char(s[i]),
        num_run_end(s, pos) < s.len() ==> !is_num_char(s[num_run_end(s, pos)]),
        pos < s.len() && is_num_char(s[pos]) ==> num_run_end(s, pos) > pos,
    decreases s.len() - pos,
{
    if pos < s.len() && is_num_char(s[pos]) {
        lemma_num_run_end(s, pos + 1);
    }
}

/// Bounds of [`word_run_end`], as for [`lemma_num_run_end`].
pub proof fn lemma_word_run_end(s: Seq<char>, pos: int)
    requires
        0 <= pos <= s.len(),
    ensures
        pos <= word_run_end(s, pos) <= s.len(),
        forall|i: int| pos <= i < word_run_end(s, pos) ==> is_word_char(s[i]),
        word_run_end(s, pos) < s.len() ==> !is_word_char(s[word_run_end(s, pos)]),
        pos < s.len() && is_word_char(s[pos]) ==> word_run_end(s, pos) > pos,
    decreases s.len() - pos,
{
    if pos < s.len() && is_word_char(s[pos]) {
        lemma_word_run_end(s, pos + 1);
    }
}

/// Every successful step consumes at least one character and never runs
/// past the end of the input.
pub proof fn lemma_step_in_bounds(s: Seq<char>, pos: int)
    requires
        0 <= pos < s.len(),
    ensures
        step(s, pos) matches Result::Ok(r) ==> pos < r.0 <= s.len(),
{
    let c = s[pos];
    if c == '#' {
        lemma_find_char(s, pos + 1, '\n');
    } else if c == '"' {
        lemma_find_char(s, pos + 1, '"');
    } else if is_digit(c) {
        lemma_num_run_end(s, pos);
    } else if is_letter(c) {
        lemma_word_run_end(s, pos);
    }
}

/// The whole scan from position `pos`: the ordered sequence of all tokens
/// the steps emit, in source order, or the error raised by the first
/// failing step.
pub open spec fn scan_from(s: Seq<char>, pos: int) -> Result<Seq<Token>, ScanError>
    decreases s.len() - pos,
    when 0 <= pos <= s.len()
    via scan_from_decreases
{
    if pos >= s.len() {
        Result::Ok(Seq::empty())
    } else {
        match step(s, pos) {
            Result::Err(e) => Result::Err(e),
            Result::Ok((next, tok)) => match scan_from(s, next) {
                Result::Err(e) => Result::Err(e),
                Result::Ok(rest) => if tok is NoToken {
                    Result::Ok(rest)
                } else {
                    Result::Ok(seq![tok] + rest)
                },
            },
        }
    }
}

#[via_fn]
proof fn scan_from_decreases(s: Seq<char>, pos: int) {
    if pos < s.len() {
        lemma_step_in_bounds(s, pos);
    }
}

} // verus!
