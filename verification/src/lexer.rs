//! The lexer: from a cursor into a character buffer to the next token. It is
//! a pure function of the buffer and the cursor, specified by `next_token_s`;
//! callers probe ahead by copying the cursor and discarding the probe when
//! the token is not what they need.
use vstd::prelude::*;

use crate::ast::{Op, N, NV};
use crate::numerics::num_of_text;

verus! {

/// A token produced by the lexer, consumed by the parser.
pub enum Token {
    BlockStart,
    BlockEnd,
    If,
    Else,
    Comma,
    ParStart,
    ParEnd,
    While,
    Quoted(String),
    Bin(Op),
    N(N),
    Let(String),
    Fail(String),
    Assoc,
    ArrayStart,
    ArrayEnd,
}

/// The mathematical shape of a token.
#[verifier::ext_equal]
pub enum TokenV {
    BlockStart,
    BlockEnd,
    If,
    Else,
    Comma,
    ParStart,
    ParEnd,
    While,
    Quoted(Seq<char>),
    Bin(Op),
    N(NV),
    Let(Seq<char>),
    Fail(Seq<char>),
    Assoc,
    ArrayStart,
    ArrayEnd,
}

impl View for Token {
    type V = TokenV;

    open spec fn view(&self) -> TokenV {
        match self {
            Token::BlockStart => TokenV::BlockStart,
            Token::BlockEnd => TokenV::BlockEnd,
            Token::If => TokenV::If,
            Token::Else => TokenV::Else,
            Token::Comma => TokenV::Comma,
            Token::ParStart => TokenV::ParStart,
            Token::ParEnd => TokenV::ParEnd,
            Token::While => TokenV::While,
            Token::Quoted(s) => TokenV::Quoted(s@),
            Token::Bin(op) => TokenV::Bin(*op),
            Token::N(n) => TokenV::N(n@),
            Token::Let(s) => TokenV::Let(s@),
            Token::Fail(s) => TokenV::Fail(s@),
            Token::Assoc => TokenV::Assoc,
            Token::ArrayStart => TokenV::ArrayStart,
            Token::ArrayEnd => TokenV::ArrayEnd,
        }
    }
}

/// Appends one character to a string. Relies on `String::push`.
#[verifier::external_body]
pub(crate) fn push_char(s: &mut String, c: char)
    ensures
        final(s)@ == old(s)@.push(c),
{
    s.push(c);
}

/// Whether a character is Unicode alphanumeric; a function of the character
/// alone.
pub uninterp spec fn alnum_of(c: char) -> bool;

/// Relies on `char::is_alphanumeric`: whether the character is Unicode
/// alphabetic or numeric.
#[verifier::external_body]
fn exec_is_alphanumeric(c: char) -> (r: bool)
    ensures
        r == alnum_of(c),
{
    c.is_alphanumeric()
}

/// The characters the lexer skips between tokens.
pub open spec fn is_ws(c: char) -> bool {
    c == ' ' || c == '\n'
}

/// The characters a numeric literal is scanned from: digits and the dot.
pub open spec fn is_num_char(c: char) -> bool {
    (48 <= c as u32 && c as u32 <= 57) || c == '.'
}

/// The characters an identifier is scanned from.
pub open spec fn is_word_char(c: char) -> bool {
    alnum_of(c) || c == '_'
}

/// The cursor after skipping whitespace.
pub open spec fn skip_ws_s(code: Seq<char>, i: int) -> int
    decreases code.len() - i,
{
    if 0 <= i < code.len() && is_ws(code[i]) {
        skip_ws_s(code, i + 1)
    } else {
        i
    }
}

/// Skipping whitespace only moves the cursor forward, and not past the end.
pub proof fn lemma_skip_ws_s(code: Seq<char>, i: int)
    ensures
        i <= skip_ws_s(code, i),
        i <= code.len() ==> skip_ws_s(code, i) <= code.len(),
    decreases code.len() - i,
{
    if 0 <= i < code.len() && is_ws(code[i]) {
        lemma_skip_ws_s(code, i + 1);
    }
}

/// The end of the run of digits and dots that starts at `i`.
pub open spec fn scan_num_end(code: Seq<char>, i: int) -> int
    decreases code.len() - i,
{
    if 0 <= i < code.len() && is_num_char(code[i]) {
        scan_num_end(code, i + 1)
    } else {
        i
    }
}

/// Scanning a number only moves the cursor forward, and not past the end.
pub proof fn lemma_scan_num_end(code: Seq<char>, i: int)
    ensures
        i <= scan_num_end(code, i),
        i <= code.len() ==> scan_num_end(code, i) <= code.len(),
    decreases code.len() - i,
{
    if 0 <= i < code.len() && is_num_char(code[i]) {
        lemma_scan_num_end(code, i + 1);
    }
}

/// The end of the run of word characters that starts at `i`.
pub open spec fn scan_word_end(code: Seq<char>, i: int) -> int
    decreases code.len() - i,
{
    if 0 <= i < code.len() && is_word_char(code[i]) {
        scan_word_end(code, i + 1)
    } else {
        i
    }
}

/// Scanning a word only moves the cursor forward, and not past the end.
pub proof fn lemma_scan_word_end(code: Seq<char>, i: int)
    ensures
        i <= scan_word_end(code, i),
        i <= code.len() ==> scan_word_end(code, i) <= code.len(),
    decreases code.len() - i,
{
    if 0 <= i < code.len() && is_word_char(code[i]) {
        lemma_scan_word_end(code, i + 1);
    }
}

/// The position of the first closing quote at `i` or after, or the length of
/// the buffer where there is none.
pub open spec fn quote_end(code: Seq<char>, i: int) -> int
    decreases code.len() - i,
{
    if 0 <= i < code.len() {
        if code[i] == '"' {
            i
        } else {
            quote_end(code, i + 1)
        }
    } else {
        code.len() as int
    }
}

/// The first closing quote is at the start position or after, and not past
/// the end.
pub proof fn lemma_quote_end(code: Seq<char>, i: int)
    requires
        0 <= i <= code.len(),
    ensures
        i <= quote_end(code, i) <= code.len(),
    decreases code.len() - i,
{
    if i < code.len() && code[i] != '"' {
        lemma_quote_end(code, i + 1);
    }
}

/// The next token at cursor `i`, and the cursor after it. Recognized in
/// priority order: a quoted string; the keywords `if`, `else`, `while` and
/// `let` (each only when followed by a separator, so that identifiers merely
/// prefixed by a keyword are not misread); a numeric literal (on a failed
/// number parse the digits are not consumed as a number); an identifier; the
/// two-character operators; the single-character tokens. An unrecognized
/// character is skipped; at exhaustion the lexer reports an error token,
/// which the parser reads as "no further token here".
pub open spec fn next_token_s(code: Seq<char>, i: int) -> (TokenV, int)
    decreases code.len() - i, 1int,
        via next_token_s_dec
{
    let j = skip_ws_s(code, i);
    if j >= code.len() {
        (TokenV::Fail("i>code"@), j)
    } else if code[j] == '"' {
        let q = quote_end(code, j + 1);
        if q < code.len() {
            (TokenV::Quoted(code.subrange(j + 1, q)), q + 1)
        } else {
            (TokenV::Fail("i>code"@), code.len() - 1)
        }
    } else if j + 2 < code.len() && code[j] == 'i' && code[j + 1] == 'f' && (code[j + 2] == ' '
        || code[j + 2] == '{') {
        (TokenV::If, j + 2)
    } else if j + 4 < code.len() && code[j] == 'e' && code[j + 1] == 'l' && code[j + 2] == 's'
        && code[j + 3] == 'e' && (code[j + 4] == ' ' || code[j + 4] == '{') {
        (TokenV::Else, j + 4)
    } else if j + 5 < code.len() && code[j] == 'w' && code[j + 1] == 'h' && code[j + 2] == 'i'
        && code[j + 3] == 'l' && code[j + 4] == 'e' && (code[j + 5] == ' ' || code[j + 5] == '{') {
        (TokenV::While, j + 5)
    } else if j + 4 < code.len() && code[j] == 'l' && code[j + 1] == 'e' && code[j + 2] == 't'
        && code[j + 3] == ' ' {
        let a = skip_ws_s(code, j + 4);
        let w = scan_word_end(code, a);
        if w == a {
            (TokenV::Fail("no id after let # "@), a)
        } else {
            let b = skip_ws_s(code, w);
            if b >= code.len() || code[b] != '=' {
                (TokenV::Fail("no equal after let 'id' # "@), b)
            } else {
                (TokenV::Let(code.subrange(a, w)), b + 1)
            }
        }
    } else {
        after_keywords_s(code, j)
    }
}

/// The token chain after the keyword forms: number, identifier, operators,
/// or skipping one unrecognized character.
pub open spec fn after_keywords_s(code: Seq<char>, j: int) -> (TokenV, int)
    decreases code.len() - j, 0int,
{
    let d = scan_num_end(code, j);
    let parsed = num_of_text(code.subrange(j, d));
    if d > j && parsed is Some {
        (TokenV::N(NV::Num(parsed->Some_0)), d)
    } else {
        let w = scan_word_end(code, j);
        if w > j {
            (TokenV::N(NV::Get(code.subrange(j, w))), w)
        } else if j + 2 <= code.len() && code[j] == '=' && code[j + 1] == '=' {
            (TokenV::Bin(Op::Equals), j + 2)
        } else if j + 2 <= code.len() && code[j] == '!' && code[j + 1] == '=' {
            (TokenV::Bin(Op::NotEquals), j + 2)
        } else if j + 2 <= code.len() && code[j] == '+' && code[j + 1] == '+' {
            (TokenV::Bin(Op::Plus2), j + 2)
        } else if j + 2 <= code.len() && code[j] == '<' && code[j + 1] == '<' {
            (TokenV::Bin(Op::Shift), j + 2)
        } else if j + 2 <= code.len() && code[j] == '=' && code[j + 1] == '>' {
            (TokenV::Assoc, j + 2)
        } else if code[j] == '{' {
            (TokenV::BlockStart, j + 1)
        } else if code[j] == '}' {
            (TokenV::BlockEnd, j + 1)
        } else if code[j] == ',' {
            (TokenV::Comma, j + 1)
        } else if code[j] == '(' {
            (TokenV::ParStart, j + 1)
        } else if code[j] == ')' {
            (TokenV::ParEnd, j + 1)
        } else if code[j] == '=' {
            (TokenV::Bin(Op::Assign), j + 1)
        } else if code[j] == '+' {
            (TokenV::Bin(Op::Plus), j + 1)
        } else if code[j] == '-' {
            (TokenV::Bin(Op::Minus), j + 1)
        } else if code[j] == '*' {
            (TokenV::Bin(Op::Mul), j + 1)
        } else if code[j] == '/' {
            (TokenV::Bin(Op::Div), j + 1)
        } else if code[j] == '>' {
            (TokenV::Bin(Op::Greater), j + 1)
        } else if code[j] == '<' {
            (TokenV::Bin(Op::Lesser), j + 1)
        } else if code[j] == '%' {
            (TokenV::Bin(Op::Modulus), j + 1)
        } else if code[j] == '&' {
            (TokenV::Bin(Op::And), j + 1)
        } else if code[j] == '|' {
            (TokenV::Bin(Op::Or), j + 1)
        } else if code[j] == '[' {
            (TokenV::ArrayStart, j + 1)
        } else if code[j] == ']' {
            (TokenV::ArrayEnd, j + 1)
        } else if 0 <= j < code.len() {
            next_token_s(code, j + 1)
        } else {
            (TokenV::Fail("i>code"@), j)
        }
    }
}

#[via_fn]
proof fn next_token_s_dec(code: Seq<char>, i: int) {
    lemma_skip_ws_s(code, i);
}

/// The lexer moves the cursor forward, never past the end, and strictly
/// forward whenever it produces a real token.
pub proof fn lemma_next_token_s_bounds(code: Seq<char>, i: int)
    requires
        0 <= i <= code.len(),
    ensures
        i <= next_token_s(code, i).1 <= code.len(),
        !(next_token_s(code, i).0 is Fail) ==> next_token_s(code, i).1 > i,
    decreases code.len() - i,
{
    lemma_skip_ws_s(code, i);
    let j = skip_ws_s(code, i);
    if j >= code.len() {
    } else {
        if code[j] == '"' {
            lemma_quote_end(code, j + 1);
        } else {
            lemma_scan_num_end(code, j);
            lemma_scan_word_end(code, j);
            lemma_skip_ws_s(code, j + 4);
            let a = skip_ws_s(code, j + 4);
            lemma_scan_word_end(code, a);
            let w = scan_word_end(code, a);
            if 0 <= a <= code.len() {
                if 0 <= w <= code.len() {
                    lemma_skip_ws_s(code, w);
                }
            }
            if next_token_s(code, i) == after_keywords_s(code, j) {
                let d = scan_num_end(code, j);
                let w2 = scan_word_end(code, j);
                if !(d > j && num_of_text(code.subrange(j, d)) is Some) && !(w2 > j) {
                    if !two_char_at(code, j) && !single_char_at(code, j) {
                        lemma_next_token_s_bounds(code, j + 1);
                    }
                }
            }
        }
    }
}

/// Whether one of the two-character operators stands at `j`.
pub open spec fn two_char_at(code: Seq<char>, j: int) -> bool {
    j + 2 <= code.len() && ((code[j] == '=' && code[j + 1] == '=') || (code[j] == '!' && code[j + 1]
        == '=') || (code[j] == '+' && code[j + 1] == '+') || (code[j] == '<' && code[j + 1] == '<')
        || (code[j] == '=' && code[j + 1] == '>'))
}

/// Whether one of the single-character tokens stands at `j`.
pub open spec fn single_char_at(code: Seq<char>, j: int) -> bool {
    0 <= j < code.len() && (code[j] == '{' || code[j] == '}' || code[j] == ',' || code[j] == '('
        || code[j] == ')' || code[j] == '=' || code[j] == '+' || code[j] == '-' || code[j] == '*'
        || code[j] == '/' || code[j] == '>' || code[j] == '<' || code[j] == '%' || code[j] == '&'
        || code[j] == '|' || code[j] == '[' || code[j] == ']')
}

/// The cursor after skipping whitespace, computed.
fn skip_ws(code: &Vec<char>, i: usize) -> (r: usize)
    requires
        i <= code@.len(),
    ensures
        r as int == skip_ws_s(code@, i as int),
        skip_ws_s(code@, r as int) == r as int,
        i <= r <= code@.len(),
{
    let mut k = i;
    while k < code.len() && (code[k] == ' ' || code[k] == '\n')
        invariant
            i <= k <= code@.len(),
            skip_ws_s(code@, i as int) == skip_ws_s(code@, k as int),
        decreases code@.len() - k,
    {
        k = k + 1;
    }
    k
}

/// The end of the run of digits and dots starting at `i`, computed.
fn scan_num(code: &Vec<char>, i: usize) -> (r: usize)
    requires
        i <= code@.len(),
    ensures
        r as int == scan_num_end(code@, i as int),
        i <= r <= code@.len(),
{
    let mut k = i;
    while k < code.len() && ((code[k] as u32 >= 48 && code[k] as u32 <= 57) || code[k] == '.')
        invariant
            i <= k <= code@.len(),
            scan_num_end(code@, i as int) == scan_num_end(code@, k as int),
        decreases code@.len() - k,
    {
        k = k + 1;
    }
    k
}

/// The end of the run of word characters starting at `i`, computed.
fn scan_word(code: &Vec<char>, i: usize) -> (r: usize)
    requires
        i <= code@.len(),
    ensures
        r as int == scan_word_end(code@, i as int),
        i <= r <= code@.len(),
{
    let mut k = i;
    loop
        invariant
            i <= k <= code@.len(),
            scan_word_end(code@, i as int) == scan_word_end(code@, k as int),
        ensures
            i <= k <= code@.len(),
            scan_word_end(code@, i as int) == k as int,
        decreases code@.len() - k,
    {
        if k < code.len() {
            let c = code[k];
            if exec_is_alphanumeric(c) || c == '_' {
                k = k + 1;
                continue;
            }
        }
        break;
    }
    k
}

/// The position of the first closing quote at `i` or after, computed.
fn find_quote(code: &Vec<char>, i: usize) -> (r: usize)
    requires
        i <= code@.len(),
    ensures
        r as int == quote_end(code@, i as int),
        i <= r <= code@.len(),
{
    let mut k = i;
    while k < code.len() && code[k] != '"'
        invariant
            i <= k <= code@.len(),
            quote_end(code@, i as int) == quote_end(code@, k as int),
        decreases code@.len() - k,
    {
        k = k + 1;
    }
    k
}

/// The characters of `code` between `from` and `to`, as a string.
pub(crate) fn collect_chars(code: &Vec<char>, from: usize, to: usize) -> (s: String)
    requires
        from <= to <= code@.len(),
    ensures
        s@ == code@.subrange(from as int, to as int),
{
    let mut s = String::new();
    let mut k = from;
    proof {
        assert(s@ =~= code@.subrange(from as int, from as int));
    }
    while k < to
        invariant
            from <= k <= to <= code@.len(),
            s@ == code@.subrange(from as int, k as int),
        decreases to - k,
    {
        push_char(&mut s, code[k]);
        k = k + 1;
        proof {
            assert(s@ =~= code@.subrange(from as int, k as int));
        }
    }
    s
}

/// The characters of `code` between `from` and `to`, as a vector.
fn collect_vec(code: &Vec<char>, from: usize, to: usize) -> (v: Vec<char>)
    requires
        from <= to <= code@.len(),
    ensures
        v@ == code@.subrange(from as int, to as int),
{
    let mut v: Vec<char> = Vec::new();
    let mut k = from;
    proof {
        assert(v@ =~= code@.subrange(from as int, from as int));
    }
    while k < to
        invariant
            from <= k <= to <= code@.len(),
            v@ == code@.subrange(from as int, k as int),
        decreases to - k,
    {
        v.push(code[k]);
        k = k + 1;
        proof {
            assert(v@ =~= code@.subrange(from as int, k as int));
        }
    }
    v
}

/// Advances the cursor past whitespace and exactly one token, and returns
/// that token; the result is exactly what the lexer model says.
pub fn next_token(i: &mut usize, code: &Vec<char>) -> (res: Token)
    requires
        *old(i) <= code@.len(),
    ensures
        res@ == next_token_s(code@, *old(i) as int).0,
        *final(i) as int == next_token_s(code@, *old(i) as int).1,
        *old(i) <= *final(i) <= code@.len(),
        !(res@ is Fail) ==> *final(i) > *old(i),
{
    proof {
        lemma_next_token_s_bounds(code@, *i as int);
    }
    let mut cur = *i;
    loop
        invariant
            *old(i) <= cur <= code@.len(),
            next_token_s(code@, *old(i) as int) == next_token_s(code@, cur as int),
        decreases code@.len() - cur,
    {
        cur = skip_ws(code, cur);
        if cur >= code.len() {
            *i = cur;
            return Token::Fail("i>code".to_owned());
        }
        let rem = code.len() - cur;
        let c0 = code[cur];
        if c0 == '"' {
            let q = find_quote(code, cur + 1);
            if q < code.len() {
                let s = collect_chars(code, cur + 1, q);
                *i = q + 1;
                return Token::Quoted(s);
            } else {
                *i = code.len() - 1;
                return Token::Fail("i>code".to_owned());
            }
        }
        if rem > 2 && c0 == 'i' && code[cur + 1] == 'f' && (code[cur + 2] == ' '
            || code[cur + 2] == '{') {
            *i = cur + 2;
            return Token::If;
        }
        if rem > 4 && c0 == 'e' && code[cur + 1] == 'l' && code[cur + 2] == 's'
            && code[cur + 3] == 'e' && (code[cur + 4] == ' ' || code[cur + 4] == '{') {
            *i = cur + 4;
            return Token::Else;
        }
        if rem > 5 && c0 == 'w' && code[cur + 1] == 'h' && code[cur + 2] == 'i'
            && code[cur + 3] == 'l' && code[cur + 4] == 'e' && (code[cur + 5] == ' '
            || code[cur + 5] == '{') {
            *i = cur + 5;
            return Token::While;
        }
        if rem > 4 && c0 == 'l' && code[cur + 1] == 'e' && code[cur + 2] == 't'
            && code[cur + 3] == ' ' {
            let a = skip_ws(code, cur + 4);
            let w = scan_word(code, a);
            if w == a {
                *i = a;
                return Token::Fail("no id after let # ".to_owned());
            }
            let id = collect_chars(code, a, w);
            let b = skip_ws(code, w);
            if b >= code.len() || code[b] != '=' {
                *i = b;
                return Token::Fail("no equal after let 'id' # ".to_owned());
            }
            *i = b + 1;
            return Token::Let(id);
        }
        let d = scan_num(code, cur);
        if d > cur {
            let digits = collect_vec(code, cur, d);
            match crate::numerics::exec_num_of_text(&digits) {
                Some(bits) => {
                    *i = d;
                    return Token::N(N::Num(bits));
                },
                None => {},
            }
        }
        let w = scan_word(code, cur);
        if w > cur {
            let id = collect_chars(code, cur, w);
            *i = w;
            return Token::N(N::Get(id));
        }
        if rem >= 2 {
            let c1 = code[cur + 1];
            if c0 == '=' && c1 == '=' {
                *i = cur + 2;
                return Token::Bin(Op::Equals);
            }
            if c0 == '!' && c1 == '=' {
                *i = cur + 2;
                return Token::Bin(Op::NotEquals);
            }
            if c0 == '+' && c1 == '+' {
                *i = cur + 2;
                return Token::Bin(Op::Plus2);
            }
            if c0 == '<' && c1 == '<' {
                *i = cur + 2;
                return Token::Bin(Op::Shift);
            }
            if c0 == '=' && c1 == '>' {
                *i = cur + 2;
                return Token::Assoc;
            }
        }
        let single = match c0 {
            '{' => Some(Token::BlockStart),
            '}' => Some(Token::BlockEnd),
            ',' => Some(Token::Comma),
            '(' => Some(Token::ParStart),
            ')' => Some(Token::ParEnd),
            '=' => Some(Token::Bin(Op::Assign)),
            '+' => Some(Token::Bin(Op::Plus)),
            '-' => Some(Token::Bin(Op::Minus)),
            '*' => Some(Token::Bin(Op::Mul)),
            '/' => Some(Token::Bin(Op::Div)),
            '>' => Some(Token::Bin(Op::Greater)),
            '<' => Some(Token::Bin(Op::Lesser)),
            '%' => Some(Token::Bin(Op::Modulus)),
            '&' => Some(Token::Bin(Op::And)),
            '|' => Some(Token::Bin(Op::Or)),
            '[' => Some(Token::ArrayStart),
            ']' => Some(Token::ArrayEnd),
            _ => None,
        };
        match single {
            Some(tok) => {
                *i = cur + 1;
                return tok;
            },
            None => {},
        }
        cur = cur + 1;
    }
}

} // verus!
