//! The general properties of the scan, stated over the rules of
//! [`crate::rules`] and proved once and for all: blank input yields only
//! statement boundaries, every operator lexeme scans back to its one
//! token, reserved words always beat identifiers, and numeric text scans
//! back to its value.

use vstd::prelude::*;

use crate::rules::{
    count_char, digit_val, digits_val, is_digit, is_letter, is_num_char, is_word_char, keyword_of,
    lemma_num_run_end, lemma_word_run_end, num_run_end, num_token, scan_from, step, word_run_end,
    word_token,
};
use crate::token::{ScanError, Token};

verus! {

/// An input that scans to exactly one token: its first step consumes the
/// whole input and emits the token.
proof fn lemma_single_token(s: Seq<char>, next: int, t: Token)
    requires
        0 < s.len(),
        step(s, 0) == Result::Ok::<(int, Token), ScanError>((next, t)),
        next == s.len(),
        !(t is NoToken),
    ensures
        scan_from(s, 0) == Result::Ok::<Seq<Token>, ScanError>(seq![t]),
{
    assert(scan_from(s, next) == Result::Ok::<Seq<Token>, ScanError>(Seq::<Token>::empty()));
    assert(seq![t] + Seq::<Token>::empty() =~= seq![t]);
}

/// A character that carries no token at all: blank space or a line break.
pub open spec fn is_blank_char(c: char) -> bool {
    c == ' ' || c == '\t' || c == '\n'
}

proof fn lemma_blank_from(s: Seq<char>, pos: int)
    requires
        0 <= pos <= s.len(),
        forall|i: int| 0 <= i < s.len() ==> is_blank_char(s[i]),
    ensures
        scan_from(s, pos) matches Result::Ok(ts) && ts.len() == count_char(
            s.subrange(pos, s.len() as int),
            '\n',
        ) && (forall|i: int| 0 <= i < ts.len() ==> ts[i] == Token::EndStatement),
    decreases s.len() - pos,
{
    if pos >= s.len() {
        assert(s.subrange(pos, s.len() as int) =~= Seq::<char>::empty());
    } else {
        lemma_blank_from(s, pos + 1);
        assert(s.subrange(pos, s.len() as int).drop_first() =~= s.subrange(
            pos + 1,
            s.len() as int,
        ));
        assert(s.subrange(pos, s.len() as int)[0] == s[pos]);
        if s[pos] == '\n' {
            assert(step(s, pos) == Result::Ok::<(int, Token), ScanError>((
                pos + 1,
                Token::EndStatement,
            )));
        } else {
            assert(step(s, pos) == Result::Ok::<(int, Token), ScanError>((pos + 1, Token::NoToken)));
        }
    }
}

/// For all input containing only blank space and line breaks, the scan
/// succeeds and its output holds exactly one statement boundary per line
/// break and nothing else.
pub proof fn lemma_blank_input(s: Seq<char>)
    requires
        forall|i: int| 0 <= i < s.len() ==> is_blank_char(s[i]),
    ensures
        scan_from(s, 0) matches Result::Ok(ts) && ts.len() == count_char(s, '\n') && (forall|
            i: int,
        |
            0 <= i < ts.len() ==> ts[i] == Token::EndStatement),
{
    lemma_blank_from(s, 0);
    assert(s.subrange(0, s.len() as int) =~= s);
}

/// The canonical text of each operator token; `None` for every token that
/// is no operator.
pub open spec fn operator_text(t: Token) -> Option<Seq<char>> {
    match t {
        Token::Add => Option::Some(seq!['+']),
        Token::Sub => Option::Some(seq!['-']),
        Token::Div => Option::Some(seq!['/']),
        Token::Mult => Option::Some(seq!['*']),
        Token::Mod => Option::Some(seq!['%']),
        Token::Assign => Option::Some(seq!['=']),
        Token::LessThan => Option::Some(seq!['<']),
        Token::Greater => Option::Some(seq!['>']),
        Token::Not => Option::Some(seq!['!']),
        Token::BitAnd => Option::Some(seq!['&']),
        Token::BitOr => Option::Some(seq!['|']),
        Token::BitNot => Option::Some(seq!['\u{00AC}']),
        Token::IntDiv => Option::Some(seq!['/', '/']),
        Token::Pow => Option::Some(seq!['*', '*']),
        Token::Inc => Option::Some(seq!['+', '+']),
        Token::Dec => Option::Some(seq!['-', '-']),
        Token::AddAssign => Option::Some(seq!['+', '=']),
        Token::SubAssign => Option::Some(seq!['-', '=']),
        Token::DivAssign => Option::Some(seq!['/', '=']),
        Token::MultAssign => Option::Some(seq!['*', '=']),
        Token::ModAssign => Option::Some(seq!['%', '=']),
        Token::Equal => Option::Some(seq!['=', '=']),
        Token::NotEqual => Option::Some(seq!['!', '=']),
        Token::LessEqual => Option::Some(seq!['<', '=']),
        Token::GreaterEqual => Option::Some(seq!['>', '=']),
        Token::And => Option::Some(seq!['&', '&']),
        Token::Or => Option::Some(seq!['|', '|']),
        _ => Option::None,
    }
}

/// Scanning the canonical text of any operator lexeme yields exactly that
/// one token — never two tokens of shorter forms: the scan matches the
/// longest operator first.
pub proof fn lemma_operator_round_trip(t: Token)
    ensures
        operator_text(t) matches Option::Some(s) ==> scan_from(s, 0)
            == Result::Ok::<Seq<Token>, ScanError>(seq![t]),
{
    match t {
        Token::Add => {
            let s = seq!['+'];
            assert(s.len() == 1 && s[0] == '+');
            assert(step(s, 0) == Result::Ok::<(int, Token), ScanError>((1, Token::Add)));
            lemma_single_token(s, 1, Token::Add);
        },
        Token::Sub => {
            let s = seq!['-'];
            assert(s.len() == 1 && s[0] == '-');
            assert(step(s, 0) == Result::Ok::<(int, Token), ScanError>((1, Token::Sub)));
            lemma_single_token(s, 1, Token::Sub);
        },
        Token::Div => {
            let s = seq!['/'];
            assert(s.len() == 1 && s[0] == '/');
            assert(step(s, 0) == Result::Ok::<(int, Token), ScanError>((1, Token::Div)));
            lemma_single_token(s, 1, Token::Div);
        },
        Token::Mult => {
            let s = seq!['*'];
            assert(s.len() == 1 && s[0] == '*');
            assert(step(s, 0) == Result::Ok::<(int, Token), ScanError>((1, Token::Mult)));
            lemma_single_token(s, 1, Token::Mult);
        },
        Token::Mod => {
            let s = seq!['%'];
            assert(s.len() == 1 && s[0] == '%');
            assert(step(s, 0) == Result::Ok::<(int, Token), ScanError>((1, Token::Mod)));
            lemma_single_token(s, 1, Token::Mod);
        },
        Token::Assign => {
            let s = seq!['='];
            assert(s.len() == 1 && s[0] == '=');
            assert(step(s, 0) == Result::Ok::<(int, Token), ScanError>((1, Token::Assign)));
            lemma_single_token(s, 1, Token::Assign);
        },
        Token::LessThan => {
            let s = seq!['<'];
            assert(s.len() == 1 && s[0] == '<');
            assert(step(s, 0) == Result::Ok::<(int, Token), ScanError>((1, Token::LessThan)));
            lemma_single_token(s, 1, Token::LessThan);
        },
        Token::Greater => {
            let s = seq!['>'];
            assert(s.len() == 1 && s[0] == '>');
            assert(step(s, 0) == Result::Ok::<(int, Token), ScanError>((1, Token::Greater)));
            lemma_single_token(s, 1, Token::Greater);
        },
        Token::Not => {
            let s = seq!['!'];
            assert(s.len() == 1 && s[0] == '!');
            assert(step(s, 0) == Result::Ok::<(int, Token), ScanError>((1, Token::Not)));
            lemma_single_token(s, 1, Token::Not);
        },
        Token::BitAnd => {
            let s = seq!['&'];
            assert(s.len() == 1 && s[0] == '&');
            assert(step(s, 0) == Result::Ok::<(int, Token), ScanError>((1, Token::BitAnd)));
            lemma_single_token(s, 1, Token::BitAnd);
        },
        Token::BitOr => {
            let s = seq!['|'];
            assert(s.len() == 1 && s[0] == '|');
            assert(step(s, 0) == Result::Ok::<(int, Token), ScanError>((1, Token::BitOr)));
            lemma_single_token(s, 1, Token::BitOr);
        },
        Token::BitNot => {
            let s = seq!['\u{00AC}'];
            assert(s.len() == 1 && s[0] == '\u{00AC}');
            assert(step(s, 0) == Result::Ok::<(int, Token), ScanError>((1, Token::BitNot)));
            lemma_single_token(s, 1, Token::BitNot);
        },
        Token::IntDiv => {
            let s = seq!['/', '/'];
            assert(s.len() == 2 && s[0] == '/' && s[1] == '/');
            assert(step(s, 0) == Result::Ok::<(int, Token), ScanError>((2, Token::IntDiv)));
            lemma_single_token(s, 2, Token::IntDiv);
        },
        Token::Pow => {
            let s = seq!['*', '*'];
            assert(s.len() == 2 && s[0] == '*' && s[1] == '*');
            assert(step(s, 0) == Result::Ok::<(int, Token), ScanError>((2, Token::Pow)));
            lemma_single_token(s, 2, Token::Pow);
        },
        Token::Inc => {
            let s = seq!['+', '+'];
            assert(s.len() == 2 && s[0] == '+' && s[1] == '+');
            assert(step(s, 0) == Result::Ok::<(int, Token), ScanError>((2, Token::Inc)));
            lemma_single_token(s, 2, Token::Inc);
        },
        Token::Dec => {
            let s = seq!['-', '-'];
            assert(s.len() == 2 && s[0] == '-' && s[1] == '-');
            assert(step(s, 0) == Result::Ok::<(int, Token), ScanError>((2, Token::Dec)));
            lemma_single_token(s, 2, Token::Dec);
        },
        Token::AddAssign => {
            let s = seq!['+', '='];
            assert(s.len() == 2 && s[0] == '+' && s[1] == '=');
            assert(step(s, 0) == Result::Ok::<(int, Token), ScanError>((2, Token::AddAssign)));
            lemma_single_token(s, 2, Token::AddAssign);
        },
        Token::SubAssign => {
            let s = seq!['-', '='];
            assert(s.len() == 2 && s[0] == '-' && s[1] == '=');
            assert(step(s, 0) == Result::Ok::<(int, Token), ScanError>((2, Token::SubAssign)));
            lemma_single_token(s, 2, Token::SubAssign);
        },
        Token::DivAssign => {
            let s = seq!['/', '='];
            assert(s.len() == 2 && s[0] == '/' && s[1] == '=');
            assert(step(s, 0) == Result::Ok::<(int, Token), ScanError>((2, Token::DivAssign)));
            lemma_single_token(s, 2, Token::DivAssign);
        },
        Token::MultAssign => {
            let s = seq!['*', '='];
            assert(s.len() == 2 && s[0] == '*' && s[1] == '=');
            assert(step(s, 0) == Result::Ok::<(int, Token), ScanError>((2, Token::MultAssign)));
            lemma_single_token(s, 2, Token::MultAssign);
        },
        Token::ModAssign => {
            let s = seq!['%', '='];
            assert(s.len() == 2 && s[0] == '%' && s[1] == '=');
            assert(step(s, 0) == Result::Ok::<(int, Token), ScanError>((2, Token::ModAssign)));
            lemma_single_token(s, 2, Token::ModAssign);
        },
        Token::Equal => {
            let s = seq!['=', '='];
            assert(s.len() == 2 && s[0] == '=' && s[1] == '=');
            assert(step(s, 0) == Result::Ok::<(int, Token), ScanError>((2, Token::Equal)));
            lemma_single_token(s, 2, Token::Equal);
        },
        Token::NotEqual => {
            let s = seq!['!', '='];
            assert(s.len() == 2 && s[0] == '!' && s[1] == '=');
            assert(step(s, 0) == Result::Ok::<(int, Token), ScanError>((2, Token::NotEqual)));
            lemma_single_token(s, 2, Token::NotEqual);
        },
        Token::LessEqual => {
            let s = seq!['<', '='];
            assert(s.len() == 2 && s[0] == '<' && s[1] == '=');
            assert(step(s, 0) == Result::Ok::<(int, Token), ScanError>((2, Token::LessEqual)));
            lemma_single_token(s, 2, Token::LessEqual);
        },
        Token::GreaterEqual => {
            let s = seq!['>', '='];
            assert(s.len() == 2 && s[0] == '>' && s[1] == '=');
            assert(step(s, 0) == Result::Ok::<(int, Token), ScanError>((2, Token::GreaterEqual)));
            lemma_single_token(s, 2, Token::GreaterEqual);
        },
        Token::And => {
            let s = seq!['&', '&'];
            assert(s.len() == 2 && s[0] == '&' && s[1] == '&');
            assert(step(s, 0) == Result::Ok::<(int, Token), ScanError>((2, Token::And)));
            lemma_single_token(s, 2, Token::And);
        },
        Token::Or => {
            let s = seq!['|', '|'];
            assert(s.len() == 2 && s[0] == '|' && s[1] == '|');
            assert(step(s, 0) == Result::Ok::<(int, Token), ScanError>((2, Token::Or)));
            lemma_single_token(s, 2, Token::Or);
        },
        _ => {},
    }
}

/// An input that is one whole identifier run scans to exactly one token:
/// the reserved token when the run matches a reserved word — never an
/// identifier — and an identifier carrying the run otherwise.
pub proof fn lemma_word_scan(s: Seq<char>)
    requires
        0 < s.len(),
        is_letter(s[0]),
        forall|i: int| 0 <= i < s.len() ==> is_word_char(s[i]),
    ensures
        scan_from(s, 0) == Result::Ok::<Seq<Token>, ScanError>(seq![word_token(s)]),
        keyword_of(s) matches Option::Some(k) ==> word_token(s) == k && !(k is Identifier),
{
    lemma_word_run_end(s, 0);
    assert(word_run_end(s, 0) == s.len());
    assert(s.subrange(0, s.len() as int) =~= s);
    assert(step(s, 0) == Result::Ok::<(int, Token), ScanError>((
        s.len() as int,
        word_token(s),
    )));
    assert(!(word_token(s) is NoToken));
    lemma_single_token(s, s.len() as int, word_token(s));
}

/// No character occurs in a sequence that is free of it.
proof fn lemma_count_char_absent(s: Seq<char>, c: char)
    requires
        forall|i: int| 0 <= i < s.len() ==> s[i] != c,
    ensures
        count_char(s, c) == 0,
    decreases s.len(),
{
    if s.len() > 0 {
        assert(forall|i: int| 0 <= i < s.drop_first().len() ==> s.drop_first()[i] == s[i + 1]);
        lemma_count_char_absent(s.drop_first(), c);
    }
}

/// An input that is one whole numeric run scans to exactly the token that
/// the run denotes, or fails with exactly the error the run raises.
pub proof fn lemma_numeric_scan(s: Seq<char>)
    requires
        0 < s.len(),
        is_digit(s[0]),
        forall|i: int| 0 <= i < s.len() ==> is_num_char(s[i]),
    ensures
        scan_from(s, 0) == (match num_token(s) {
            Result::Ok(t) => Result::Ok::<Seq<Token>, ScanError>(seq![t]),
            Result::Err(e) => Result::Err::<Seq<Token>, ScanError>(e),
        }),
{
    lemma_num_run_end(s, 0);
    assert(num_run_end(s, 0) == s.len());
    assert(s.subrange(0, s.len() as int) =~= s);
    match num_token(s) {
        Result::Ok(t) => {
            assert(step(s, 0) == Result::Ok::<(int, Token), ScanError>((s.len() as int, t)));
            assert(!(t is NoToken));
            lemma_single_token(s, s.len() as int, t);
        },
        Result::Err(e) => {
            assert(step(s, 0) == Result::Err::<(int, Token), ScanError>(e));
        },
    }
}

/// The digit character of a value below ten.
pub open spec fn digit_char(d: nat) -> char
    recommends
        d < 10,
{
    (('0' as u8) + d) as char
}

/// The canonical decimal text of a non-negative integer.
pub open spec fn digits_of(n: nat) -> Seq<char>
    decreases n,
{
    if n < 10 {
        seq![digit_char(n)]
    } else {
        digits_of(n / 10).push(digit_char(n % 10))
    }
}

proof fn lemma_digits_of(n: nat)
    ensures
        digits_of(n).len() >= 1,
        forall|i: int| 0 <= i < digits_of(n).len() ==> is_digit(#[trigger] digits_of(n)[i]),
        digits_val(digits_of(n)) == n,
    decreases n,
{
    vstd::arithmetic::div_mod::lemma_fundamental_div_mod(n as int, 10);
    if n < 10 {
        let c = digit_char(n);
        assert(c as u32 == '0' as u32 + n);
        assert(is_digit(c));
        assert(digit_val(c) == n);
        let s = seq![c];
        assert(s.last() == c);
        assert(s.drop_last() =~= Seq::<char>::empty());
        assert(digits_val(s.drop_last()) == 0);
        assert(digits_val(s) == digit_val(c));
    } else {
        lemma_digits_of(n / 10);
        let s0 = digits_of(n / 10);
        let c = digit_char(n % 10);
        assert(c as u32 == '0' as u32 + n % 10);
        assert(is_digit(c));
        assert(digit_val(c) == n % 10);
        assert(s0.push(c).last() == c);
        assert(s0.push(c).drop_last() =~= s0);
        assert(digits_val(s0.push(c)) == digits_val(s0) * 10 + digit_val(c));
        assert(forall|i: int| 0 <= i < s0.len() ==> s0.push(c)[i] == s0[i]);
    }
}

/// Numeric round trip, integers: scanning the canonical text of any
/// non-negative `i64` yields a single integer token whose payload is that
/// very value.
pub proof fn lemma_int_round_trip(n: i64)
    requires
        0 <= n,
    ensures
        scan_from(digits_of(n as nat), 0) == Result::Ok::<Seq<Token>, ScanError>(
            seq![Token::Int { value: Option::Some(n) }],
        ),
{
    let s = digits_of(n as nat);
    lemma_digits_of(n as nat);
    assert(forall|i: int| 0 <= i < s.len() ==> s[i] != '.');
    lemma_count_char_absent(s, '.');
    assert(num_token(s) == Result::Ok::<Token, ScanError>(
        Token::Int { value: Option::Some(n) },
    ));
    lemma_numeric_scan(s);
}

/// The text of a decimal literal: a run of digits and decimal points that
/// opens on a digit and holds exactly one point.
pub open spec fn is_decimal_text(s: Seq<char>) -> bool {
    &&& 0 < s.len()
    &&& is_digit(s[0])
    &&& count_char(s, '.') == 1
    &&& forall|i: int| 0 <= i < s.len() ==> is_num_char(s[i])
}

/// Numeric round trip, decimals: scanning the text of any decimal value
/// yields a single decimal token whose payload is that very text.
pub proof fn lemma_decimal_round_trip(s: Seq<char>)
    requires
        is_decimal_text(s),
    ensures
        scan_from(s, 0) == Result::Ok::<Seq<Token>, ScanError>(
            seq![Token::Float { text: Option::Some(s) }],
        ),
{
    lemma_numeric_scan(s);
}

/// Keyword precedence: every input that matches a reserved word scans to
/// the reserved token kind, never to an identifier, although reserved
/// words are collected by the same rule as identifiers.
pub proof fn lemma_keyword_precedence(s: Seq<char>)
    requires
        keyword_of(s) is Some,
    ensures
        keyword_of(s) matches Option::Some(k) ==> scan_from(s, 0)
            == Result::Ok::<Seq<Token>, ScanError>(seq![k]) && !(k is Identifier),
{
    if s == "true"@ {
        reveal_strlit("true");
        assert(0 < s.len() && is_letter(s[0]));
        assert(forall|i: int| 0 <= i < s.len() ==> is_word_char(s[i]));
        lemma_word_scan(s);
    } else     if s == "false"@ {
        reveal_strlit("false");
        assert(0 < s.len() && is_letter(s[0]));
        assert(forall|i: int| 0 <= i < s.len() ==> is_word_char(s[i]));
        lemma_word_scan(s);
    } else     if s == "if"@ {
        reveal_strlit("if");
        assert(0 < s.len() && is_letter(s[0]));
        assert(forall|i: int| 0 <= i < s.len() ==> is_word_char(s[i]));
        lemma_word_scan(s);
    } else     if s == "else"@ {
        reveal_strlit("else");
        assert(0 < s.len() && is_letter(s[0]));
        assert(forall|i: int| 0 <= i < s.len() ==> is_word_char(s[i]));
        lemma_word_scan(s);
    } else     if s == "elif"@ {
        reveal_strlit("elif");
        assert(0 < s.len() && is_letter(s[0]));
        assert(forall|i: int| 0 <= i < s.len() ==> is_word_char(s[i]));
        lemma_word_scan(s);
    } else     if s == "fn"@ {
        reveal_strlit("fn");
        assert(0 < s.len() && is_letter(s[0]));
        assert(forall|i: int| 0 <= i < s.len() ==> is_word_char(s[i]));
        lemma_word_scan(s);
    } else     if s == "while"@ {
        reveal_strlit("while");
        assert(0 < s.len() && is_letter(s[0]));
        assert(forall|i: int| 0 <= i < s.len() ==> is_word_char(s[i]));
        lemma_word_scan(s);
    } else     if s == "for"@ {
        reveal_strlit("for");
        assert(0 < s.len() && is_letter(s[0]));
        assert(forall|i: int| 0 <= i < s.len() ==> is_word_char(s[i]));
        lemma_word_scan(s);
    } else     if s == "var"@ {
        reveal_strlit("var");
        assert(0 < s.len() && is_letter(s[0]));
        assert(forall|i: int| 0 <= i < s.len() ==> is_word_char(s[i]));
        lemma_word_scan(s);
    } else     if s == "const"@ {
        reveal_strlit("const");
        assert(0 < s.len() && is_letter(s[0]));
        assert(forall|i: int| 0 <= i < s.len() ==> is_word_char(s[i]));
        lemma_word_scan(s);
    } else     if s == "print"@ {
        reveal_strlit("print");
        assert(0 < s.len() && is_letter(s[0]));
        assert(forall|i: int| 0 <= i < s.len() ==> is_word_char(s[i]));
        lemma_word_scan(s);
    } else     if s == "int"@ {
        reveal_strlit("int");
        assert(0 < s.len() && is_letter(s[0]));
        assert(forall|i: int| 0 <= i < s.len() ==> is_word_char(s[i]));
        lemma_word_scan(s);
    } else     if s == "float"@ {
        reveal_strlit("float");
        assert(0 < s.len() && is_letter(s[0]));
        assert(forall|i: int| 0 <= i < s.len() ==> is_word_char(s[i]));
        lemma_word_scan(s);
    } else     if s == "string"@ {
        reveal_strlit("string");
        assert(0 < s.len() && is_letter(s[0]));
        assert(forall|i: int| 0 <= i < s.len() ==> is_word_char(s[i]));
        lemma_word_scan(s);
    } else     if s == "bool"@ {
        reveal_strlit("bool");
        assert(0 < s.len() && is_letter(s[0]));
        assert(forall|i: int| 0 <= i < s.len() ==> is_word_char(s[i]));
        lemma_word_scan(s);
    }
}

} // verus!
