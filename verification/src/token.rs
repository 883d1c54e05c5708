use vstd::prelude::*;

use crate::text::str_eq;

verus! {

/// The kind of a token, with the text or value it carries.
#[derive(Debug, PartialEq, Eq)]
pub enum TokenKind {
    Plus,
    Minus,
    Mul,
    Div,
    LParen,
    RParen,
    LBrace,
    RBrace,
    Mod,
    Fn,
    Semi,
    Colon,
    ColonColon,
    Ret,
    Let,
    Mut,
    Assign,
    Comma,
    Eq,
    Ne,
    Gt,
    Ge,
    Lt,
    Le,
    And,
    Or,
    If,
    Else,
    Arrow,
    While,
    Not,
    Identifier(String),
    Num(i32),
    String(String),
    Bool(bool),
}

/// One token of a source text.
#[derive(Debug, PartialEq, Eq)]
pub struct Token {
    pub kind: TokenKind,
}

/// The model of a [`TokenKind`]: texts are character sequences.
pub enum Tok {
    Plus,
    Minus,
    Mul,
    Div,
    LParen,
    RParen,
    LBrace,
    RBrace,
    Mod,
    Fn,
    Semi,
    Colon,
    ColonColon,
    Ret,
    Let,
    Mut,
    Assign,
    Comma,
    Eq,
    Ne,
    Gt,
    Ge,
    Lt,
    Le,
    And,
    Or,
    If,
    Else,
    Arrow,
    While,
    Not,
    Identifier(Seq<char>),
    Num(i32),
    String(Seq<char>),
    Bool(bool),
}

impl TokenKind {
    pub open spec fn view(&self) -> Tok {
        match self {
            TokenKind::Plus => Tok::Plus,
            TokenKind::Minus => Tok::Minus,
            TokenKind::Mul => Tok::Mul,
            TokenKind::Div => Tok::Div,
            TokenKind::LParen => Tok::LParen,
            TokenKind::RParen => Tok::RParen,
            TokenKind::LBrace => Tok::LBrace,
            TokenKind::RBrace => Tok::RBrace,
            TokenKind::Mod => Tok::Mod,
            TokenKind::Fn => Tok::Fn,
            TokenKind::Semi => Tok::Semi,
            TokenKind::Colon => Tok::Colon,
            TokenKind::ColonColon => Tok::ColonColon,
            TokenKind::Ret => Tok::Ret,
            TokenKind::Let => Tok::Let,
            TokenKind::Mut => Tok::Mut,
            TokenKind::Assign => Tok::Assign,
            TokenKind::Comma => Tok::Comma,
            TokenKind::Eq => Tok::Eq,
            TokenKind::Ne => Tok::Ne,
            TokenKind::Gt => Tok::Gt,
            TokenKind::Ge => Tok::Ge,
            TokenKind::Lt => Tok::Lt,
            TokenKind::Le => Tok::Le,
            TokenKind::And => Tok::And,
            TokenKind::Or => Tok::Or,
            TokenKind::If => Tok::If,
            TokenKind::Else => Tok::Else,
            TokenKind::Arrow => Tok::Arrow,
            TokenKind::While => Tok::While,
            TokenKind::Not => Tok::Not,
            TokenKind::Identifier(s) => Tok::Identifier(s@),
            TokenKind::Num(n) => Tok::Num(*n),
            TokenKind::String(s) => Tok::String(s@),
            TokenKind::Bool(b) => Tok::Bool(*b),
        }
    }
}

impl Token {
    pub open spec fn view(&self) -> Tok {
        self.kind@
    }
}

/// The token kinds of a token sequence.
pub open spec fn toks(v: Seq<Token>) -> Seq<Tok> {
    v.map_values(|t: Token| t@)
}

/// `char::is_whitespace`: the Unicode `White_Space` property.
pub uninterp spec fn unicode_white_space(c: char) -> bool;

/// `char::is_numeric`: the Unicode general categories for numbers.
pub uninterp spec fn unicode_numeric(c: char) -> bool;

/// `char::is_alphanumeric`: alphabetic or numeric in Unicode.
pub uninterp spec fn unicode_alphanumeric(c: char) -> bool;

pub open spec fn is_ascii_digit(c: char) -> bool {
    '0' <= c && c <= '9'
}

pub open spec fn is_ascii_letter(c: char) -> bool {
    ('a' <= c && c <= 'z') || ('A' <= c && c <= 'Z')
}

/// Calls `char::is_whitespace`. Claimed: the result is the Unicode
/// `White_Space` property of `c`, which among ASCII characters holds of the
/// space and of the control characters tab through carriage return.
#[verifier::external_body]
fn is_whitespace(c: char) -> (r: bool)
    ensures
        r == unicode_white_space(c),
        (c as u32) < 128 ==> (r <==> (c == ' ' || ('\t' <= c && c <= '\r'))),
{
    c.is_whitespace()
}

/// Calls `char::is_numeric`. Claimed: the result is whether `c` is in a
/// Unicode number category, which among ASCII characters holds of the ten
/// decimal digits only.
#[verifier::external_body]
fn is_numeric(c: char) -> (r: bool)
    ensures
        r == unicode_numeric(c),
        (c as u32) < 128 ==> (r <==> is_ascii_digit(c)),
{
    c.is_numeric()
}

/// Calls `char::is_alphanumeric`. Claimed: the result is whether `c` is
/// alphabetic or numeric in Unicode, which among ASCII characters holds of
/// the letters and the decimal digits.
#[verifier::external_body]
fn is_alphanumeric(c: char) -> (r: bool)
    ensures
        r == unicode_alphanumeric(c),
        (c as u32) < 128 ==> (r <==> (is_ascii_letter(c) || is_ascii_digit(c))),
{
    c.is_alphanumeric()
}

/// Calls `String::push`. Claimed: `c` is appended to `s`.
#[verifier::external_body]
fn push_char(s: &mut String, c: char)
    ensures
        final(s)@ == old(s)@.push(c),
{
    s.push(c)
}

/// Whether `c` is white space: by the ASCII table below 128, by the Unicode
/// `White_Space` property above.
pub open spec fn white_space(c: char) -> bool {
    if (c as u32) < 128 {
        c == ' ' || ('\t' <= c && c <= '\r')
    } else {
        unicode_white_space(c)
    }
}

/// Whether `c` is numeric: the decimal digits below 128, the Unicode number
/// categories above.
pub open spec fn numeric(c: char) -> bool {
    if (c as u32) < 128 {
        is_ascii_digit(c)
    } else {
        unicode_numeric(c)
    }
}

/// Whether `c` is alphanumeric: the letters and digits below 128, the
/// Unicode alphabetic or numeric characters above.
pub open spec fn alphanumeric(c: char) -> bool {
    if (c as u32) < 128 {
        is_ascii_letter(c) || is_ascii_digit(c)
    } else {
        unicode_alphanumeric(c)
    }
}

/// The character at `i`, if there is one.
pub open spec fn char_at(s: Seq<char>, i: int) -> Option<char> {
    if 0 <= i < s.len() {
        Some(s[i])
    } else {
        None
    }
}

/// The first index at or after `i` that holds `c`, or the length of `s`.
pub open spec fn find_char(s: Seq<char>, i: int, c: char) -> int
    decreases s.len() - i,
{
    if i >= s.len() {
        s.len() as int
    } else if s[i] == c {
        i
    } else {
        find_char(s, i + 1, c)
    }
}

/// The end of the run of numeric characters that starts at `i`.
pub open spec fn numeric_end(s: Seq<char>, i: int) -> int
    decreases s.len() - i,
{
    if i >= s.len() || !numeric(s[i]) {
        if i >= s.len() { s.len() as int } else { i }
    } else {
        numeric_end(s, i + 1)
    }
}

/// The end of the run of alphanumeric characters that starts at `i`.
pub open spec fn alphanumeric_end(s: Seq<char>, i: int) -> int
    decreases s.len() - i,
{
    if i >= s.len() || !alphanumeric(s[i]) {
        if i >= s.len() { s.len() as int } else { i }
    } else {
        alphanumeric_end(s, i + 1)
    }
}

/// Whether every character in `s[i..e]` is an ASCII decimal digit.
pub open spec fn all_ascii_digits(s: Seq<char>, i: int, e: int) -> bool {
    forall|k: int| i <= k < e ==> is_ascii_digit(#[trigger] s[k])
}

/// The number that the decimal digits `s[i..e]` denote.
pub open spec fn digits_value(s: Seq<char>, i: int, e: int) -> int
    decreases e - i,
{
    if e <= i {
        0
    } else {
        digits_value(s, i, e - 1) * 10 + ((s[e - 1] as int) - ('0' as int))
    }
}

/// The token that a word of alphanumeric characters is: a keyword, a
/// boolean literal, or an identifier.
pub open spec fn word_token(w: Seq<char>) -> Tok {
    if w == "mod"@ {
        Tok::Mod
    } else if w == "fn"@ {
        Tok::Fn
    } else if w == "return"@ {
        Tok::Ret
    } else if w == "let"@ {
        Tok::Let
    } else if w == "mut"@ {
        Tok::Mut
    } else if w == "if"@ {
        Tok::If
    } else if w == "else"@ {
        Tok::Else
    } else if w == "while"@ {
        Tok::While
    } else if w == "true"@ {
        Tok::Bool(true)
    } else if w == "false"@ {
        Tok::Bool(false)
    } else {
        Tok::Identifier(w)
    }
}

/// A token made of one character, or of that character and the next one
/// when the next one is `second`.
pub open spec fn one_or_two(s: Seq<char>, i: int, second: char, two: Tok, one: Tok) -> Option<(Option<Tok>, int)> {
    if char_at(s, i + 1) == Some(second) {
        Some((Some(two), i + 2))
    } else {
        Some((Some(one), i + 1))
    }
}

/// One step of the lexer at index `i < s.len()`: the token found there, if
/// any, and the index where the next step starts; `None` where the text
/// cannot be lexed.
pub open spec fn lex_step(s: Seq<char>, i: int) -> Option<(Option<Tok>, int)> {
    let c = s[i];
    if white_space(c) {
        Some((None, i + 1))
    } else if c == '/' && char_at(s, i + 1) == Some('/') {
        Some((None, find_char(s, i + 2, '\n')))
    } else if c == '+' {
        Some((Some(Tok::Plus), i + 1))
    } else if c == '-' {
        one_or_two(s, i, '>', Tok::Arrow, Tok::Minus)
    } else if c == '*' {
        Some((Some(Tok::Mul), i + 1))
    } else if c == '/' {
        Some((Some(Tok::Div), i + 1))
    } else if c == '(' {
        Some((Some(Tok::LParen), i + 1))
    } else if c == ')' {
        Some((Some(Tok::RParen), i + 1))
    } else if c == '{' {
        Some((Some(Tok::LBrace), i + 1))
    } else if c == '}' {
        Some((Some(Tok::RBrace), i + 1))
    } else if c == ';' {
        Some((Some(Tok::Semi), i + 1))
    } else if c == ':' {
        one_or_two(s, i, ':', Tok::ColonColon, Tok::Colon)
    } else if c == '=' {
        one_or_two(s, i, '=', Tok::Eq, Tok::Assign)
    } else if c == '!' {
        one_or_two(s, i, '=', Tok::Ne, Tok::Not)
    } else if c == '<' {
        one_or_two(s, i, '=', Tok::Le, Tok::Lt)
    } else if c == '>' {
        one_or_two(s, i, '=', Tok::Ge, Tok::Gt)
    } else if c == '&' {
        if char_at(s, i + 1) == Some('&') {
            Some((Some(Tok::And), i + 2))
        } else {
            Some((None, i + 1))
        }
    } else if c == '|' {
        if char_at(s, i + 1) == Some('|') {
            Some((Some(Tok::Or), i + 2))
        } else {
            Some((None, i + 1))
        }
    } else if c == ',' {
        Some((Some(Tok::Comma), i + 1))
    } else if c == '"' {
        let q = find_char(s, i + 1, '"');
        Some((Some(Tok::String(s.subrange(i + 1, q))), if q < s.len() { q + 1 } else { q }))
    } else if numeric(c) {
        let e = numeric_end(s, i + 1);
        if all_ascii_digits(s, i, e) && digits_value(s, i, e) <= u32::MAX {
            Some((Some(Tok::Num(digits_value(s, i, e) as i32)), e))
        } else {
            None
        }
    } else if alphanumeric(c) {
        let e = alphanumeric_end(s, i + 1);
        Some((Some(word_token(s.subrange(i, e))), e))
    } else {
        None
    }
}

/// `t` in front of `rest`, where there is a token.
pub open spec fn with_token(t: Option<Tok>, rest: Seq<Tok>) -> Seq<Tok> {
    match t {
        Some(k) => seq![k] + rest,
        None => rest,
    }
}

/// The tokens of `s[i..]`, or `None` where the text holds a character that
/// no token starts with, a number with a non-ASCII digit, or a number above
/// `u32::MAX`.
pub open spec fn lex(s: Seq<char>, i: int) -> Option<Seq<Tok>>
    decreases s.len() - i,
{
    if i >= s.len() {
        Some(Seq::empty())
    } else {
        match lex_step(s, i) {
            None => None,
            Some((t, j)) => if i < j && j <= s.len() {
                match lex(s, j) {
                    None => None,
                    Some(rest) => Some(with_token(t, rest)),
                }
            } else {
                None
            },
        }
    }
}

/// The tokens of a whole text.
pub open spec fn lex_text(s: Seq<char>) -> Option<Seq<Tok>> {
    lex(s, 0)
}

/// `prefix` in front of a lexing result.
pub open spec fn after(prefix: Seq<Tok>, r: Option<Seq<Tok>>) -> Option<Seq<Tok>> {
    match r {
        None => None,
        Some(rest) => Some(prefix + rest),
    }
}

/// The characters of `input`.
fn chars_of(input: &str) -> (v: Vec<char>)
    ensures
        v@ == input@,
{
    broadcast use vstd::string::group_string_axioms;
    let mut v: Vec<char> = Vec::new();
    for c in it: input.chars()
        invariant
            v@ == it.seq().take(it.index()),
    {
        v.push(c);
    }
    assert(v@ =~= input@);
    v
}

pub open spec fn opt_view(t: Option<TokenKind>) -> Option<Tok> {
    match t {
        Some(k) => Some(k@),
        None => None,
    }
}

proof fn lemma_find_char_bounds(s: Seq<char>, i: int, c: char)
    requires
        0 <= i,
    ensures
        i <= s.len() ==> i <= find_char(s, i, c) <= s.len(),
        i > s.len() ==> find_char(s, i, c) == s.len(),
        find_char(s, i, c) < s.len() ==> s[find_char(s, i, c)] == c,
    decreases s.len() - i,
{
    if i < s.len() && s[i] != c {
        lemma_find_char_bounds(s, i + 1, c);
    }
}

proof fn lemma_numeric_end_bounds(s: Seq<char>, i: int)
    requires
        0 <= i <= s.len(),
    ensures
        i <= numeric_end(s, i) <= s.len(),
    decreases s.len() - i,
{
    if i < s.len() && numeric(s[i]) {
        lemma_numeric_end_bounds(s, i + 1);
    }
}

proof fn lemma_alphanumeric_end_bounds(s: Seq<char>, i: int)
    requires
        0 <= i <= s.len(),
    ensures
        i <= alphanumeric_end(s, i) <= s.len(),
    decreases s.len() - i,
{
    if i < s.len() && alphanumeric(s[i]) {
        lemma_alphanumeric_end_bounds(s, i + 1);
    }
}

proof fn lemma_alphanumeric_end_run(s: Seq<char>, i: int)
    requires
        0 <= i <= s.len(),
    ensures
        forall|k: int| i <= k < alphanumeric_end(s, i) ==> alphanumeric(#[trigger] s[k]),
        alphanumeric_end(s, i) < s.len() ==> !alphanumeric(s[alphanumeric_end(s, i)]),
    decreases s.len() - i,
{
    if i < s.len() && alphanumeric(s[i]) {
        lemma_alphanumeric_end_run(s, i + 1);
    }
}

/// The text that a word token is written as: each keyword's own spelling,
/// and an identifier's name.
pub open spec fn word_text(t: Tok) -> Option<Seq<char>> {
    match t {
        Tok::Mod => Some("mod"@),
        Tok::Fn => Some("fn"@),
        Tok::Ret => Some("return"@),
        Tok::Let => Some("let"@),
        Tok::Mut => Some("mut"@),
        Tok::If => Some("if"@),
        Tok::Else => Some("else"@),
        Tok::While => Some("while"@),
        Tok::Bool(true) => Some("true"@),
        Tok::Bool(false) => Some("false"@),
        Tok::Identifier(w) => Some(w),
        _ => None,
    }
}

/// The text that an operator or punctuation token is written as.
pub open spec fn punct_text(t: Tok) -> Option<Seq<char>> {
    match t {
        Tok::Plus => Some(seq!['+']),
        Tok::Minus => Some(seq!['-']),
        Tok::Mul => Some(seq!['*']),
        Tok::Div => Some(seq!['/']),
        Tok::LParen => Some(seq!['(']),
        Tok::RParen => Some(seq![')']),
        Tok::LBrace => Some(seq!['{']),
        Tok::RBrace => Some(seq!['}']),
        Tok::Semi => Some(seq![';']),
        Tok::Colon => Some(seq![':']),
        Tok::ColonColon => Some(seq![':', ':']),
        Tok::Assign => Some(seq!['=']),
        Tok::Comma => Some(seq![',']),
        Tok::Eq => Some(seq!['=', '=']),
        Tok::Ne => Some(seq!['!', '=']),
        Tok::Gt => Some(seq!['>']),
        Tok::Ge => Some(seq!['>', '=']),
        Tok::Lt => Some(seq!['<']),
        Tok::Le => Some(seq!['<', '=']),
        Tok::And => Some(seq!['&', '&']),
        Tok::Or => Some(seq!['|', '|']),
        Tok::Arrow => Some(seq!['-', '>']),
        Tok::Not => Some(seq!['!']),
        _ => None,
    }
}

/// An operator or punctuation token is read from exactly its own text: the
/// characters that one step of the lexer consumes for it are the ones it is
/// written as (so `<=` is read as `Le` and `<` alone as `Lt`).
pub proof fn lemma_punct_lexes_its_text(s: Seq<char>, i: int)
    requires
        0 <= i < s.len(),
    ensures
        lex_step(s, i) matches Some((Some(t), e)) ==> (punct_text(t) matches Some(x) ==> i < e <= s.len()
            && s.subrange(i, e) == x),
{
    if i + 1 < s.len() {
        assert(s.subrange(i, i + 2) =~= seq![s[i], s[i + 1]]);
    }
    assert(s.subrange(i, i + 1) =~= seq![s[i]]);
}

/// Whether a word is one of the keywords.
pub open spec fn is_keyword(w: Seq<char>) -> bool {
    w == "mod"@ || w == "fn"@ || w == "return"@ || w == "let"@ || w == "mut"@ || w == "if"@ || w == "else"@
        || w == "while"@ || w == "true"@ || w == "false"@
}

/// A word, a run of alphanumeric characters that starts with one that is
/// not a digit, lexes to one token that is written exactly as the whole run:
/// its keyword where the run is a keyword, and otherwise the identifier with
/// exactly the run's characters.
pub proof fn lemma_word_lexes(s: Seq<char>, i: int)
    requires
        0 <= i < s.len(),
        alphanumeric(s[i]),
        !numeric(s[i]),
        !white_space(s[i]),
    ensures
        lex_step(s, i) matches Some((Some(t), e)) && i < e <= s.len()
            && (forall|k: int| i <= k < e ==> alphanumeric(#[trigger] s[k]))
            && (e < s.len() ==> !alphanumeric(s[e]))
            && word_text(t) == Some(s.subrange(i, e))
            && (t is Identifier <==> !is_keyword(s.subrange(i, e))),
{
    lemma_alphanumeric_end_bounds(s, i + 1);
    lemma_alphanumeric_end_run(s, i + 1);
}

proof fn lemma_digits_value_grows(s: Seq<char>, i: int, k: int, e: int)
    requires
        i <= k <= e,
        all_ascii_digits(s, i, e),
    ensures
        0 <= digits_value(s, i, k) <= digits_value(s, i, e),
    decreases e - i,
{
    if k < e {
        lemma_digits_value_grows(s, i, k, e - 1);
        assert(is_ascii_digit(s[e - 1]));
    } else if i < k {
        lemma_digits_value_grows(s, i, k - 1, k - 1);
        assert(is_ascii_digit(s[k - 1]));
    }
}

/// The first index at or after `i` that holds `c`, or the length of `s`.
fn find_char_at(s: &Vec<char>, i: usize, c: char) -> (r: usize)
    requires
        i <= s.len(),
    ensures
        r == find_char(s@, i as int, c),
        i <= r <= s.len(),
{
    let mut k = i;
    while k < s.len() && s[k] != c
        invariant
            i <= k <= s.len(),
            find_char(s@, i as int, c) == find_char(s@, k as int, c),
        decreases s.len() - k,
    {
        k = k + 1;
    }
    proof { lemma_find_char_bounds(s@, i as int, c); }
    k
}

/// The characters `s[i..e]` as a string.
fn substring(s: &Vec<char>, i: usize, e: usize) -> (r: String)
    requires
        i <= e <= s.len(),
    ensures
        r@ == s@.subrange(i as int, e as int),
{
    let mut r = String::new();
    let mut k = i;
    while k < e
        invariant
            i <= k <= e <= s.len(),
            r@ == s@.subrange(i as int, k as int),
        decreases e - k,
    {
        push_char(&mut r, s[k]);
        k = k + 1;
        assert(r@ =~= s@.subrange(i as int, k as int));
    }
    r
}

/// The token kind of a word (see [`word_token`]).
fn word_kind(w: String) -> (t: TokenKind)
    ensures
        t@ == word_token(w@),
{
    let ws = w.as_str();
    if str_eq(ws, "mod") {
        TokenKind::Mod
    } else if str_eq(ws, "fn") {
        TokenKind::Fn
    } else if str_eq(ws, "return") {
        TokenKind::Ret
    } else if str_eq(ws, "let") {
        TokenKind::Let
    } else if str_eq(ws, "mut") {
        TokenKind::Mut
    } else if str_eq(ws, "if") {
        TokenKind::If
    } else if str_eq(ws, "else") {
        TokenKind::Else
    } else if str_eq(ws, "while") {
        TokenKind::While
    } else if str_eq(ws, "true") {
        TokenKind::Bool(true)
    } else if str_eq(ws, "false") {
        TokenKind::Bool(false)
    } else {
        TokenKind::Identifier(w)
    }
}

/// The number that starts at `i`, where `s[i]` is numeric, and the index
/// after it.
fn lex_number(s: &Vec<char>, i: usize) -> (r: Option<(i32, usize)>)
    requires
        i < s.len(),
        numeric(s@[i as int]),
    ensures
        ({
            let e = numeric_end(s@, i + 1);
            match r {
                None => !(all_ascii_digits(s@, i as int, e) && digits_value(s@, i as int, e) <= u32::MAX),
                Some((v, j)) => all_ascii_digits(s@, i as int, e) && digits_value(s@, i as int, e) <= u32::MAX
                    && v == digits_value(s@, i as int, e) as i32 && j == e && i < j <= s.len(),
            }
        }),
{
    let ghost e = numeric_end(s@, i + 1);
    proof { lemma_numeric_end_bounds(s@, i + 1); }
    let mut num: u32 = 0;
    let mut k = i;
    while k < s.len() && is_numeric(s[k])
        invariant
            i <= k <= s.len(),
            k <= e <= s.len(),
            i < s.len(),
            numeric(s@[i as int]),
            e == numeric_end(s@, i + 1),
            k == i || numeric_end(s@, k as int) == e,
            all_ascii_digits(s@, i as int, k as int),
            num == digits_value(s@, i as int, k as int),
        decreases s.len() - k,
    {
        let c = s[k];
        proof {
            lemma_numeric_end_bounds(s@, k + 1);
        }
        if !('0' <= c && c <= '9') {
            assert(!all_ascii_digits(s@, i as int, e));
            return None;
        }
        let d = (c as u32) - ('0' as u32);
        let next = match num.checked_mul(10) {
            Some(m) => m.checked_add(d),
            None => None,
        };
        match next {
            None => {
                proof {
                    assert(digits_value(s@, i as int, k + 1) > u32::MAX);
                    if all_ascii_digits(s@, i as int, e) {
                        lemma_digits_value_grows(s@, i as int, k + 1, e);
                    }
                }
                return None;
            },
            Some(v) => {
                num = v;
            },
        }
        k = k + 1;
    }
    proof {
        if k == i {
            assert(false);
        }
    }
    Some((num as i32, k))
}

/// The run of alphanumeric characters that starts at `i`, where `s[i]` is
/// alphanumeric, and the index after it.
fn lex_word(s: &Vec<char>, i: usize) -> (r: (String, usize))
    requires
        i < s.len(),
        alphanumeric(s@[i as int]),
    ensures
        r.1 == alphanumeric_end(s@, i + 1),
        r.0@ == s@.subrange(i as int, r.1 as int),
        i < r.1 <= s.len(),
{
    let ghost e = alphanumeric_end(s@, i + 1);
    proof { lemma_alphanumeric_end_bounds(s@, i + 1); }
    let mut word = String::new();
    let mut k = i;
    while k < s.len() && is_alphanumeric(s[k])
        invariant
            i <= k <= e <= s.len(),
            i < s.len(),
            alphanumeric(s@[i as int]),
            e == alphanumeric_end(s@, i + 1),
            k == i || alphanumeric_end(s@, k as int) == e,
            word@ == s@.subrange(i as int, k as int),
        decreases s.len() - k,
    {
        proof { lemma_alphanumeric_end_bounds(s@, k + 1); }
        push_char(&mut word, s[k]);
        k = k + 1;
        assert(word@ =~= s@.subrange(i as int, k as int));
    }
    proof {
        if k == i {
            assert(false);
        }
    }
    (word, k)
}

/// One step of the lexer (see [`lex_step`]).
fn lex_one(s: &Vec<char>, i: usize) -> (r: Option<(Option<TokenKind>, usize)>)
    requires
        i < s.len(),
    ensures
        match r {
            None => lex_step(s@, i as int) is None,
            Some((t, j)) => lex_step(s@, i as int) == Some((opt_view(t), j as int)) && i < j <= s.len(),
        },
{
    let n = s.len();
    let c = s[i];
    let next: Option<char> = if i + 1 < n { Some(s[i + 1]) } else { None };
    assert(next == char_at(s@, i + 1));
    if is_whitespace(c) {
        return Some((None, i + 1));
    }
    if c == '/' && next == Some('/') {
        let j = find_char_at(s, i + 2, '\n');
        return Some((None, j));
    }
    if c == '+' {
        Some((Some(TokenKind::Plus), i + 1))
    } else if c == '-' {
        if next == Some('>') { Some((Some(TokenKind::Arrow), i + 2)) } else { Some((Some(TokenKind::Minus), i + 1)) }
    } else if c == '*' {
        Some((Some(TokenKind::Mul), i + 1))
    } else if c == '/' {
        Some((Some(TokenKind::Div), i + 1))
    } else if c == '(' {
        Some((Some(TokenKind::LParen), i + 1))
    } else if c == ')' {
        Some((Some(TokenKind::RParen), i + 1))
    } else if c == '{' {
        Some((Some(TokenKind::LBrace), i + 1))
    } else if c == '}' {
        Some((Some(TokenKind::RBrace), i + 1))
    } else if c == ';' {
        Some((Some(TokenKind::Semi), i + 1))
    } else if c == ':' {
        if next == Some(':') { Some((Some(TokenKind::ColonColon), i + 2)) } else { Some((Some(TokenKind::Colon), i + 1)) }
    } else if c == '=' {
        if next == Some('=') { Some((Some(TokenKind::Eq), i + 2)) } else { Some((Some(TokenKind::Assign), i + 1)) }
    } else if c == '!' {
        if next == Some('=') { Some((Some(TokenKind::Ne), i + 2)) } else { Some((Some(TokenKind::Not), i + 1)) }
    } else if c == '<' {
        if next == Some('=') { Some((Some(TokenKind::Le), i + 2)) } else { Some((Some(TokenKind::Lt), i + 1)) }
    } else if c == '>' {
        if next == Some('=') { Some((Some(TokenKind::Ge), i + 2)) } else { Some((Some(TokenKind::Gt), i + 1)) }
    } else if c == '&' {
        if next == Some('&') { Some((Some(TokenKind::And), i + 2)) } else { Some((None, i + 1)) }
    } else if c == '|' {
        if next == Some('|') { Some((Some(TokenKind::Or), i + 2)) } else { Some((None, i + 1)) }
    } else if c == ',' {
        Some((Some(TokenKind::Comma), i + 1))
    } else if c == '"' {
        let q = find_char_at(s, i + 1, '"');
        let text = substring(s, i + 1, q);
        let j = if q < n { q + 1 } else { q };
        Some((Some(TokenKind::String(text)), j))
    } else if is_numeric(c) {
        match lex_number(s, i) {
            None => {
                assert(lex_step(s@, i as int) is None);
                None
            },
            Some((v, j)) => Some((Some(TokenKind::Num(v)), j)),
        }
    } else if is_alphanumeric(c) {
        let (word, j) = lex_word(s, i);
        proof { lemma_alphanumeric_end_bounds(s@, i + 1); }
        Some((Some(word_kind(word)), j))
    } else {
        assert(lex_step(s@, i as int) is None);
        None
    }
}

/// The tokens of `input`, or `None` where it cannot be lexed (see [`lex`]).
pub fn try_tokenize(input: &str) -> (r: Option<Vec<Token>>)
    ensures
        r is None <==> lex_text(input@) is None,
        r matches Some(v) ==> lex_text(input@) == Some(toks(v@)),
{
    let s = chars_of(input);
    let n = s.len();
    let mut tokens: Vec<Token> = Vec::new();
    let mut i: usize = 0;
    assert(toks(tokens@) =~= Seq::<Tok>::empty());
    assert(after(Seq::<Tok>::empty(), lex(s@, 0)) =~= lex(s@, 0));
    while i < n
        invariant
            s@ == input@,
            n == s.len(),
            i <= n,
            lex(s@, 0) == after(toks(tokens@), lex(s@, i as int)),
        decreases n - i,
    {
        match lex_one(&s, i) {
            None => {
                return None;
            },
            Some((t, j)) => {
                let ghost before = tokens@;
                match t {
                    Some(k) => {
                        tokens.push(Token { kind: k });
                        assert(toks(tokens@) =~= toks(before).push(k@));
                        proof {
                            match lex(s@, j as int) {
                                None => {},
                                Some(rest) => {
                                    assert(toks(before) + (seq![k@] + rest) =~= toks(tokens@) + rest);
                                },
                            }
                        }
                    },
                    None => {},
                }
                i = j;
            },
        }
    }
    assert(toks(tokens@) + Seq::<Tok>::empty() =~= toks(tokens@));
    Some(tokens)
}

/// The tokens of `input`, where it can be lexed (see [`lex`]).
pub fn tokenize(input: &str) -> (r: Vec<Token>)
    requires
        lex_text(input@) is Some,
    ensures
        lex_text(input@) == Some(toks(r@)),
{
    match try_tokenize(input) {
        Some(v) => v,
        None => Vec::new(),
    }
}

} // verus!
