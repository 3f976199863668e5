//! The lexer: turns source text into tokens. Inside a `render` block it
//! switches to template modes, where tags, attributes and text are tokens.

use vstd::prelude::*;
use crate::syntax::chars::{
    utf8_len_prefix, ascii_digit, char_indices, digit_value, is_alphabetic, is_alphanumeric, is_ascii_digit, is_whitespace,
    unicode_alphabetic, unicode_alphanumeric, unicode_whitespace,
};
use crate::syntax::token::{kind_text, tokens_view, KindV, Span, Token, TokenKind};
use crate::text::{decimal, push_char, push_str, push_usize, string_of};

verus! {

/// What the lexer is reading: code, the content of a template element, or
/// the inside of a template tag.
#[derive(Debug, Clone, Copy, PartialEq, Eq, Structural)]
pub enum LexerMode {
    Normal,
    TemplateContent,
    TemplateTag,
}

/// The lexer state over a source text.
pub struct Lexer {
    chars: Vec<(usize, char)>,
    input_len: usize,
    pos: usize,
    line: usize,
    col: usize,
    mode_stack: Vec<LexerMode>,
    brace_depths: Vec<usize>,
    just_saw_render: bool,
}

/// The message for a character that starts no token.
pub open spec fn unexpected_message(c: char, line: nat, col: nat) -> Seq<char> {
    "Unexpected character '"@ + seq![c] + "' at "@ + decimal(line) + ":"@ + decimal(col)
}

/// The message for a character that starts nothing inside a template tag.
pub open spec fn unexpected_in_tag_message(c: char, line: nat, col: nat) -> Seq<char> {
    "Unexpected character '"@ + seq![c] + "' in template tag at "@ + decimal(line) + ":"@ + decimal(col)
}

/// The message for a string literal without its closing quote.
pub open spec fn unterminated_message(line: nat, col: nat) -> Seq<char> {
    "Unterminated string literal at "@ + decimal(line) + ":"@ + decimal(col)
}

/// The message for a backslash at the end of the input inside a string literal.
pub open spec fn unterminated_escape_message(line: nat, col: nat) -> Seq<char> {
    "Unterminated escape in string at "@ + decimal(line) + ":"@ + decimal(col)
}

/// The message for a closing tag `</tag` that no `>` follows.
pub open spec fn unclosed_tag_message(tag: Seq<char>, line: nat, col: nat) -> Seq<char> {
    "Expected '>' to close tag </"@ + tag + "> at "@ + decimal(line) + ":"@ + decimal(col)
}

/// The message for an integer literal that does not fit in `i64`.
pub open spec fn too_large_message() -> Seq<char> {
    "Invalid integer: number too large to fit in target type"@
}

/// The character that an escape `\x` stands for.
pub open spec fn escaped(x: char) -> char {
    if x == 'n' {
        '\n'
    } else if x == 't' {
        '\t'
    } else if x == 'r' {
        '\r'
    } else {
        x
    }
}

/// The end of a string literal whose body starts at `i`.
pub enum StrEnd {
    /// The closing quote: the text read, and the index after the quote.
    Closed(Seq<char>, nat),
    /// A backslash is the last character.
    EscapeAtEnd,
    /// No closing quote.
    Open,
}

/// Reads the body of a string literal from index `i`: text up to the first
/// unescaped `"`, with `\n`, `\t`, `\r` decoded and any other escaped
/// character kept as it is.
pub open spec fn string_body(cs: Seq<char>, i: int) -> StrEnd
    decreases cs.len() - i,
{
    if i < 0 || i >= cs.len() {
        StrEnd::Open
    } else if cs[i] == '"' {
        StrEnd::Closed(Seq::empty(), (i + 1) as nat)
    } else if cs[i] == '\\' {
        if i + 1 >= cs.len() {
            StrEnd::EscapeAtEnd
        } else {
            match string_body(cs, i + 2) {
                StrEnd::Closed(t, e) => StrEnd::Closed(seq![escaped(cs[i + 1])] + t, e),
                other => other,
            }
        }
    } else {
        match string_body(cs, i + 1) {
            StrEnd::Closed(t, e) => StrEnd::Closed(seq![cs[i]] + t, e),
            other => other,
        }
    }
}

/// A character that continues an identifier.
pub open spec fn ident_char(c: char) -> bool {
    unicode_alphanumeric(c) || c == '_'
}

/// A character that continues a tag or event name.
pub open spec fn name_char(c: char) -> bool {
    unicode_alphanumeric(c) || c == '-' || c == '_'
}

/// The keyword token of a word, or an identifier.
pub open spec fn keyword_kind(w: Seq<char>) -> Option<TokenKind> {
    if w == "component"@ {
        Some(TokenKind::Component)
    } else if w == "export"@ {
        Some(TokenKind::Export)
    } else if w == "signal"@ {
        Some(TokenKind::Signal)
    } else if w == "computed"@ {
        Some(TokenKind::Computed)
    } else if w == "fn"@ {
        Some(TokenKind::Fn)
    } else if w == "render"@ {
        Some(TokenKind::Render)
    } else if w == "extern"@ {
        Some(TokenKind::Extern)
    } else if w == "let"@ {
        Some(TokenKind::Let)
    } else if w == "mut"@ {
        Some(TokenKind::Mut)
    } else if w == "if"@ {
        Some(TokenKind::If)
    } else if w == "else"@ {
        Some(TokenKind::Else)
    } else if w == "return"@ {
        Some(TokenKind::Return)
    } else if w == "true"@ {
        Some(TokenKind::True)
    } else if w == "false"@ {
        Some(TokenKind::False)
    } else {
        None
    }
}

/// The value of a string of decimal digits.
pub open spec fn digits_value(ds: Seq<char>) -> int
    decreases ds.len(),
{
    if ds.len() == 0 {
        0
    } else {
        digits_value(ds.drop_last()) * 10 + digit_value(ds.last())
    }
}

/// The operator token that starts with `c`, with the number of characters it
/// takes: `c` alone, or `c` and the character after it.
pub open spec fn operator_token(c: char, next: Option<char>) -> Option<(TokenKind, nat)> {
    if c == '(' {
        Some((TokenKind::OpenParen, 1))
    } else if c == ')' {
        Some((TokenKind::CloseParen, 1))
    } else if c == '[' {
        Some((TokenKind::OpenBracket, 1))
    } else if c == ']' {
        Some((TokenKind::CloseBracket, 1))
    } else if c == ':' {
        Some((TokenKind::Colon, 1))
    } else if c == ';' {
        Some((TokenKind::Semicolon, 1))
    } else if c == ',' {
        Some((TokenKind::Comma, 1))
    } else if c == '.' {
        Some((TokenKind::Dot, 1))
    } else if c == '%' {
        Some((TokenKind::Percent, 1))
    } else if c == '+' {
        if next == Some('=') { Some((TokenKind::PlusEq, 2)) } else { Some((TokenKind::Plus, 1)) }
    } else if c == '-' {
        if next == Some('>') {
            Some((TokenKind::Arrow, 2))
        } else if next == Some('=') {
            Some((TokenKind::MinusEq, 2))
        } else {
            Some((TokenKind::Minus, 1))
        }
    } else if c == '*' {
        if next == Some('=') { Some((TokenKind::StarEq, 2)) } else { Some((TokenKind::Star, 1)) }
    } else if c == '/' {
        if next == Some('=') { Some((TokenKind::SlashEq, 2)) } else { Some((TokenKind::Slash, 1)) }
    } else if c == '=' {
        if next == Some('=') { Some((TokenKind::EqEq, 2)) } else { Some((TokenKind::Eq, 1)) }
    } else if c == '!' {
        if next == Some('=') { Some((TokenKind::NotEq, 2)) } else { Some((TokenKind::Not, 1)) }
    } else if c == '<' {
        if next == Some('=') { Some((TokenKind::LtEq, 2)) } else { Some((TokenKind::Lt, 1)) }
    } else if c == '>' {
        if next == Some('=') { Some((TokenKind::GtEq, 2)) } else { Some((TokenKind::Gt, 1)) }
    } else if c == '&' && next == Some('&') {
        Some((TokenKind::AndAnd, 2))
    } else if c == '|' && next == Some('|') {
        Some((TokenKind::OrOr, 2))
    } else {
        None
    }
}

/// Prepends `acc` to the text of a string literal's end.
pub open spec fn prepend(acc: Seq<char>, r: StrEnd) -> StrEnd {
    match r {
        StrEnd::Closed(t, e) => StrEnd::Closed(acc + t, e),
        other => other,
    }
}

/// The longest run of identifier characters from `i`.
pub open spec fn ident_run(cs: Seq<char>, i: int) -> Seq<char>
    decreases cs.len() - i,
{
    if 0 <= i < cs.len() && ident_char(cs[i]) {
        seq![cs[i]] + ident_run(cs, i + 1)
    } else {
        Seq::empty()
    }
}

/// The longest run of tag-name characters from `i`.
pub open spec fn name_run(cs: Seq<char>, i: int) -> Seq<char>
    decreases cs.len() - i,
{
    if 0 <= i < cs.len() && name_char(cs[i]) {
        seq![cs[i]] + name_run(cs, i + 1)
    } else {
        Seq::empty()
    }
}

/// The text of a number literal from `i`: digits, with at most one `.` that
/// a digit follows.
pub open spec fn number_run(cs: Seq<char>, i: int, seen_dot: bool) -> Seq<char>
    decreases cs.len() - i,
{
    if 0 <= i < cs.len() && ascii_digit(cs[i]) {
        seq![cs[i]] + number_run(cs, i + 1, seen_dot)
    } else if 0 <= i && i + 1 < cs.len() && cs[i] == '.' && !seen_dot && ascii_digit(cs[i + 1]) {
        seq!['.'] + number_run(cs, i + 1, true)
    } else {
        Seq::empty()
    }
}

/// The text run of template content from `i`: up to the first `<`, `{`,
/// `}` or `"`.
pub open spec fn content_run(cs: Seq<char>, i: int) -> Seq<char>
    decreases cs.len() - i,
{
    if 0 <= i < cs.len() && !(cs[i] == '<' || cs[i] == '{' || cs[i] == '}' || cs[i] == '"') {
        seq![cs[i]] + content_run(cs, i + 1)
    } else {
        Seq::empty()
    }
}

/// `t` without its leading and trailing whitespace.
pub open spec fn trim(t: Seq<char>) -> Seq<char>
    decreases t.len(),
{
    if t.len() > 0 && unicode_whitespace(t[0]) {
        trim(t.drop_first())
    } else if t.len() > 0 && unicode_whitespace(t.last()) {
        trim(t.drop_last())
    } else {
        t
    }
}

/// `s` followed by the line and column `line:col`.
pub open spec fn at(s: Seq<char>, line: nat, col: nat) -> Seq<char> {
    s + decimal(line) + ":"@ + decimal(col)
}

/// The line and column of index `i` of a text: both count from 1, and each
/// line break starts a new line.
pub open spec fn line_col_at(cs: Seq<char>, i: int) -> (nat, nat)
    decreases i,
{
    if i <= 0 {
        (1, 1)
    } else {
        let (l, c) = line_col_at(cs, i - 1);
        if cs[i - 1] == '\n' {
            (l + 1, 1)
        } else {
            (l, c + 1)
        }
    }
}

/// The index after a `//` comment whose text starts at `j`: past its line
/// break, or the end of the text.
pub open spec fn line_end(cs: Seq<char>, j: int) -> int
    decreases cs.len() - j,
{
    if 0 <= j < cs.len() {
        if cs[j] == '\n' {
            j + 1
        } else {
            line_end(cs, j + 1)
        }
    } else {
        j
    }
}

/// The index after a `/*` comment whose text starts at `j`: past its `*/`,
/// or the end of the text.
pub open spec fn block_end(cs: Seq<char>, j: int) -> int
    decreases cs.len() - j,
{
    if 0 <= j < cs.len() {
        if cs[j] == '*' && j + 1 < cs.len() && cs[j + 1] == '/' {
            j + 2
        } else {
            block_end(cs, j + 1)
        }
    } else {
        j
    }
}

pub proof fn lemma_line_end_bounds(cs: Seq<char>, j: int)
    requires
        0 <= j <= cs.len(),
    ensures
        j <= line_end(cs, j) <= cs.len(),
    decreases cs.len() - j,
{
    if j < cs.len() && cs[j] != '\n' {
        lemma_line_end_bounds(cs, j + 1);
    }
}

pub proof fn lemma_block_end_bounds(cs: Seq<char>, j: int)
    requires
        0 <= j <= cs.len(),
    ensures
        j <= block_end(cs, j) <= cs.len(),
    decreases cs.len() - j,
{
    if j < cs.len() && !(cs[j] == '*' && j + 1 < cs.len() && cs[j + 1] == '/') {
        lemma_block_end_bounds(cs, j + 1);
    }
}

/// The index of the first character from `i` that is neither whitespace nor
/// inside a comment.
pub open spec fn skip_ws(cs: Seq<char>, i: int) -> int
    decreases cs.len() - i,
{
    if 0 <= i < cs.len() && unicode_whitespace(cs[i]) {
        skip_ws(cs, i + 1)
    } else if 0 <= i && i + 1 < cs.len() && cs[i] == '/' && cs[i + 1] == '/' {
        proof {
            lemma_line_end_bounds(cs, i + 2);
        }
        skip_ws(cs, line_end(cs, i + 2))
    } else if 0 <= i && i + 1 < cs.len() && cs[i] == '/' && cs[i + 1] == '*' {
        proof {
            lemma_block_end_bounds(cs, i + 2);
        }
        skip_ws(cs, block_end(cs, i + 2))
    } else {
        i
    }
}

/// Skipping stops at a character that is neither whitespace nor the start of a comment.
pub proof fn lemma_skip_ws_stops(cs: Seq<char>, i: int)
    requires
        0 <= i <= cs.len(),
    ensures
        ({
            let j = skip_ws(cs, i);
            &&& !(0 <= j < cs.len() && unicode_whitespace(cs[j]))
            &&& !(0 <= j && j + 1 < cs.len() && cs[j] == '/' && (cs[j + 1] == '/' || cs[j + 1] == '*'))
        }),
    decreases cs.len() - i,
{
    if i < cs.len() && unicode_whitespace(cs[i]) {
        lemma_skip_ws_stops(cs, i + 1);
    } else if i + 1 < cs.len() && cs[i] == '/' && cs[i + 1] == '/' {
        lemma_line_end_bounds(cs, i + 2);
        lemma_skip_ws_stops(cs, line_end(cs, i + 2));
    } else if i + 1 < cs.len() && cs[i] == '/' && cs[i + 1] == '*' {
        lemma_block_end_bounds(cs, i + 2);
        lemma_skip_ws_stops(cs, block_end(cs, i + 2));
    }
}

/// Skipping moves forward, and stays within the text.
pub proof fn lemma_skip_ws_bounds(cs: Seq<char>, i: int)
    requires
        0 <= i <= cs.len(),
    ensures
        i <= skip_ws(cs, i) <= cs.len(),
    decreases cs.len() - i,
{
    if i < cs.len() && unicode_whitespace(cs[i]) {
        lemma_skip_ws_bounds(cs, i + 1);
    } else if i + 1 < cs.len() && cs[i] == '/' && cs[i + 1] == '/' {
        lemma_line_end_bounds(cs, i + 2);
        lemma_skip_ws_bounds(cs, line_end(cs, i + 2));
    } else if i + 1 < cs.len() && cs[i] == '/' && cs[i + 1] == '*' {
        lemma_block_end_bounds(cs, i + 2);
        lemma_skip_ws_bounds(cs, block_end(cs, i + 2));
    }
}

/// The modes after leaving the top one (none to leave on an empty stack).
pub open spec fn modes_pop(m: Seq<LexerMode>) -> Seq<LexerMode> {
    if m.len() > 0 {
        m.drop_last()
    } else {
        m
    }
}

/// Every character of `t` is an ASCII digit.
pub open spec fn all_digits(t: Seq<char>) -> bool {
    forall|i: int| 0 <= i < t.len() ==> ascii_digit(#[trigger] t[i])
}

/// The value of digits is never negative.
proof fn lemma_digits_nonneg(t: Seq<char>)
    requires
        all_digits(t),
    ensures
        digits_value(t) >= 0,
    decreases t.len(),
{
    if t.len() > 0 {
        assert(ascii_digit(t[t.len() - 1]));
        assert forall|i: int| 0 <= i < t.drop_last().len() implies ascii_digit(#[trigger] t.drop_last()[i]) by {
            assert(t.drop_last()[i] == t[i]);
        }
        lemma_digits_nonneg(t.drop_last());
    }
}

/// Appends `line:col`.
fn push_line_col(s: &mut String, line: usize, col: usize)
    ensures
        final(s)@ == old(s)@ + decimal(line as nat) + ":"@ + decimal(col as nat),
{
    push_usize(s, line);
    push_str(s, ":");
    push_usize(s, col);
}

/// The message `<prefix><c><middle><line>:<col>`.
fn char_message(prefix: &str, c: char, middle: &str, line: usize, col: usize) -> (m: String)
    ensures
        m@ == prefix@ + seq![c] + middle@ + decimal(line as nat) + ":"@ + decimal(col as nat),
{
    let mut m = string_of(prefix);
    push_char(&mut m, c);
    push_str(&mut m, middle);
    push_line_col(&mut m, line, col);
    m
}

/// `t` without its leading and trailing whitespace (`str::trim`).
fn trim_text(t: &String) -> (r: String)
    ensures
        r@ == trim(t@),
{
    let cs = char_indices(t.as_str());
    let n = cs.len();
    let mut a: usize = 0;
    let mut b: usize = n;
    proof { lemma_trim_window(t@, 0, n as int); }
    while a < b && is_whitespace(cs[a].1)
        invariant
            n == t@.len(),
            cs@.len() == n,
            forall|i: int| 0 <= i < n ==> (#[trigger] cs@[i]).1 == t@[i],
            a <= b <= n,
            b == n,
            trim(t@) == trim(t@.subrange(a as int, b as int)),
        decreases b - a,
    {
        proof {
            let w = t@.subrange(a as int, b as int);
            assert(w[0] == t@[a as int]);
            assert(w.drop_first() =~= t@.subrange(a + 1, b as int));
        }
        a += 1;
    }
    while a < b && is_whitespace(cs[b - 1].1)
        invariant
            n == t@.len(),
            cs@.len() == n,
            forall|i: int| 0 <= i < n ==> (#[trigger] cs@[i]).1 == t@[i],
            a <= b <= n,
            a < b ==> !unicode_whitespace(t@[a as int]),
            trim(t@) == trim(t@.subrange(a as int, b as int)),
        decreases b - a,
    {
        proof {
            let w = t@.subrange(a as int, b as int);
            assert(w[0] == t@[a as int]);
            assert(w.last() == t@[b - 1]);
            assert(w.drop_last() =~= t@.subrange(a as int, b - 1));
        }
        b -= 1;
    }
    let mut r = String::new();
    let mut i = a;
    while i < b
        invariant
            n == t@.len(),
            cs@.len() == n,
            forall|k: int| 0 <= k < n ==> (#[trigger] cs@[k]).1 == t@[k],
            a <= i <= b <= n,
            r@ == t@.subrange(a as int, i as int),
        decreases b - i,
    {
        push_char(&mut r, cs[i].1);
        assert(r@ =~= t@.subrange(a as int, i + 1));
        i += 1;
    }
    proof {
        let w = t@.subrange(a as int, b as int);
        if w.len() > 0 {
            assert(w[0] == t@[a as int]);
            assert(w.last() == t@[b - 1]);
        }
    }
    r
}

/// Trimming a whole text starts from its full window.
proof fn lemma_trim_window(t: Seq<char>, a: int, b: int)
    requires
        a == 0,
        b == t.len(),
    ensures
        trim(t) == trim(t.subrange(a, b)),
{
    assert(t.subrange(a, b) =~= t);
}

impl Lexer {
    /// Reads a string literal that starts at the next character (a `"`).
    fn lex_string_literal(&mut self, start_line: usize, start_col: usize) -> (r: Result<TokenKind, String>)
        requires
            old(self).wf(),
            old(self).char_at(old(self).position() as int) == Some('"'),
        ensures
            final(self).wf(),
            final(self).text() == old(self).text(),
            final(self).modes() == old(self).modes(),
            final(self).depths() == old(self).depths(),
            final(self).after_render() == old(self).after_render(),
            old(self).position() < final(self).position(),
            match string_body(old(self).text(), old(self).position() as int + 1) {
                StrEnd::Closed(t, e) => r matches Ok(TokenKind::StringLit(s)) && s@ == t && final(self).position()
                    == e,
                StrEnd::EscapeAtEnd => r matches Err(m) && m@ == unterminated_escape_message(
                    start_line as nat,
                    start_col as nat,
                ),
                StrEnd::Open => r matches Err(m) && m@ == unterminated_message(start_line as nat, start_col as nat),
            },
    {
        let ghost cs = self.text();
        let ghost start = self.position() as int + 1;
        self.advance();
        let mut s = String::new();
        while self.pos < self.chars.len()
            invariant
                self.wf(),
                cs == self.text(),
                self.text() == old(self).text(),
                self.modes() == old(self).modes(),
                self.depths() == old(self).depths(),
                self.after_render() == old(self).after_render(),
                old(self).position() < self.position(),
                start == old(self).position() as int + 1,
                string_body(cs, start) == prepend(s@, string_body(cs, self.position() as int)),
            decreases self.text().len() - self.position(),
        {
            let ch = self.chars[self.pos].1;
            let ghost here = self.position() as int;
            assert(cs[here] == ch);
            if ch == '"' {
                self.advance();
                assert(string_body(cs, here) == StrEnd::Closed(Seq::empty(), (here + 1) as nat));
                assert(s@ + Seq::empty() =~= s@);
                return Ok(TokenKind::StringLit(s));
            } else if ch == '\\' {
                self.advance();
                match self.advance() {
                    Some(x) => {
                        let e = if x == 'n' {
                            '\n'
                        } else if x == 't' {
                            '\t'
                        } else if x == 'r' {
                            '\r'
                        } else {
                            x
                        };
                        let ghost before = s@;
                        push_char(&mut s, e);
                        proof {
                            assert(e == escaped(cs[here + 1]));
                            match string_body(cs, here + 2) {
                                StrEnd::Closed(t, _) => {
                                    assert(before + (seq![e] + t) =~= before.push(e) + t);
                                },
                                _ => {},
                            }
                        }
                    },
                    None => {
                        assert(string_body(cs, here) == StrEnd::EscapeAtEnd);
                        let mut m = string_of("Unterminated escape in string at ");
                        push_line_col(&mut m, start_line, start_col);
                        return Err(m);
                    },
                }
            } else {
                let ghost before = s@;
                push_char(&mut s, ch);
                self.advance();
                proof {
                    match string_body(cs, here + 1) {
                        StrEnd::Closed(t, _) => {
                            assert(before + (seq![ch] + t) =~= before.push(ch) + t);
                        },
                        _ => {},
                    }
                }
            }
        }
        let mut m = string_of("Unterminated string literal at ");
        push_line_col(&mut m, start_line, start_col);
        Err(m)
    }

    /// Reads an identifier or keyword that starts at the next character.
    fn lex_ident_or_keyword(&mut self) -> (k: TokenKind)
        requires
            old(self).wf(),
        ensures
            final(self).wf(),
            final(self).text() == old(self).text(),
            final(self).modes() == old(self).modes(),
            final(self).depths() == old(self).depths(),
            final(self).position() == old(self).position() + ident_run(old(self).text(), old(self).position() as int).len(),
            match keyword_kind(ident_run(old(self).text(), old(self).position() as int)) {
                Some(kw) => k == kw,
                None => k matches TokenKind::Ident(w) && w@ == ident_run(old(self).text(), old(self).position() as int),
            },
            final(self).after_render() == (ident_run(old(self).text(), old(self).position() as int) == "render"@
                || old(self).after_render()),
    {
        let ghost cs = self.text();
        let ghost start = self.position() as int;
        let mut ident = String::new();
        loop
            invariant
                self.wf(),
                cs == self.text(),
                self.text() == old(self).text(),
                self.modes() == old(self).modes(),
                self.depths() == old(self).depths(),
                self.after_render() == old(self).after_render(),
                start <= self.position(),
                start == old(self).position(),
                self.position() == start + ident@.len(),
                ident_run(cs, start) == ident@ + ident_run(cs, self.position() as int),
            ensures
                self.wf(),
                self.text() == old(self).text(),
                self.modes() == old(self).modes(),
                self.depths() == old(self).depths(),
                self.after_render() == old(self).after_render(),
                self.position() == start + ident@.len(),
                start == old(self).position(),
                ident_run(cs, start) == ident@,
            decreases self.text().len() - self.position(),
        {
            match self.peek() {
                Some(ch) => {
                    if is_alphanumeric(ch) || ch == '_' {
                        let ghost before = ident@;
                        push_char(&mut ident, ch);
                        self.advance();
                        assert(before + (seq![ch] + ident_run(cs, self.position() as int)) =~= ident@ + ident_run(
                            cs,
                            self.position() as int,
                        ));
                    } else {
                        assert(ident@ + Seq::empty() =~= ident@);
                        break;
                    }
                },
                None => {
                    assert(ident@ + Seq::empty() =~= ident@);
                    break;
                },
            }
        }
        proof {
            reveal_strlit("component");
            reveal_strlit("export");
            reveal_strlit("signal");
            reveal_strlit("computed");
            reveal_strlit("fn");
            reveal_strlit("render");
            reveal_strlit("extern");
            reveal_strlit("let");
            reveal_strlit("mut");
            reveal_strlit("if");
            reveal_strlit("else");
            reveal_strlit("return");
            reveal_strlit("true");
            reveal_strlit("false");
            assert("export"@[0] != "render"@[0]);
            assert("signal"@[0] != "render"@[0]);
            assert("extern"@[0] != "render"@[0]);
            assert("return"@[2] != "render"@[2]);
        }
        if ident == string_of("component") {
            TokenKind::Component
        } else if ident == string_of("export") {
            TokenKind::Export
        } else if ident == string_of("signal") {
            TokenKind::Signal
        } else if ident == string_of("computed") {
            TokenKind::Computed
        } else if ident == string_of("fn") {
            TokenKind::Fn
        } else if ident == string_of("render") {
            self.just_saw_render = true;
            TokenKind::Render
        } else if ident == string_of("extern") {
            TokenKind::Extern
        } else if ident == string_of("let") {
            TokenKind::Let
        } else if ident == string_of("mut") {
            TokenKind::Mut
        } else if ident == string_of("if") {
            TokenKind::If
        } else if ident == string_of("else") {
            TokenKind::Else
        } else if ident == string_of("return") {
            TokenKind::Return
        } else if ident == string_of("true") {
            TokenKind::True
        } else if ident == string_of("false") {
            TokenKind::False
        } else {
            TokenKind::Ident(ident)
        }
    }

    /// Reads a tag or event name that starts at the next character.
    fn lex_name(&mut self) -> (name: String)
        requires
            old(self).wf(),
        ensures
            final(self).wf(),
            final(self).text() == old(self).text(),
            final(self).modes() == old(self).modes(),
            final(self).depths() == old(self).depths(),
            final(self).after_render() == old(self).after_render(),
            name@ == name_run(old(self).text(), old(self).position() as int),
            final(self).position() == old(self).position() + name@.len(),
    {
        let ghost cs = self.text();
        let ghost start = self.position() as int;
        let mut name = String::new();
        loop
            invariant
                self.wf(),
                cs == self.text(),
                self.text() == old(self).text(),
                self.modes() == old(self).modes(),
                self.depths() == old(self).depths(),
                self.after_render() == old(self).after_render(),
                self.position() == start + name@.len(),
                name_run(cs, start) == name@ + name_run(cs, self.position() as int),
            ensures
                self.wf(),
                self.text() == old(self).text(),
                self.modes() == old(self).modes(),
                self.depths() == old(self).depths(),
                self.after_render() == old(self).after_render(),
                self.position() == start + name@.len(),
                name_run(cs, start) == name@,
            decreases self.text().len() - self.position(),
        {
            match self.peek() {
                Some(ch) => {
                    if is_alphanumeric(ch) || ch == '-' || ch == '_' {
                        let ghost before = name@;
                        push_char(&mut name, ch);
                        self.advance();
                        assert(before + (seq![ch] + name_run(cs, self.position() as int)) =~= name@ + name_run(
                            cs,
                            self.position() as int,
                        ));
                    } else {
                        assert(name@ + Seq::empty() =~= name@);
                        break;
                    }
                },
                None => {
                    assert(name@ + Seq::empty() =~= name@);
                    break;
                },
            }
        }
        name
    }
}

impl Lexer {
    /// The characters of the source.
    pub closed spec fn text(&self) -> Seq<char> {
        Seq::new(self.chars@.len(), |i: int| self.chars@[i].1)
    }

    /// The index of the next character to read.
    pub closed spec fn position(&self) -> nat {
        self.pos as nat
    }

    /// The line and column of the next character.
    pub closed spec fn line_col(&self) -> (nat, nat) {
        (self.line as nat, self.col as nat)
    }

    /// The byte offset of the next character (the source length at its end).
    pub closed spec fn byte_offset(&self) -> nat {
        if self.pos < self.chars@.len() {
            self.chars@[self.pos as int].0 as nat
        } else {
            self.input_len as nat
        }
    }

    /// The stack of modes.
    pub closed spec fn modes(&self) -> Seq<LexerMode> {
        self.mode_stack@
    }

    /// The brace depths of the code blocks opened from templates.
    pub closed spec fn depths(&self) -> Seq<usize> {
        self.brace_depths@
    }

    /// Whether the last word read was `render`, whose block opens a template.
    pub closed spec fn after_render(&self) -> bool {
        self.just_saw_render
    }

    /// The state is consistent: the position is within the text, the line
    /// and column count no more than the characters read, and so does every
    /// brace depth.
    pub closed spec fn wf(&self) -> bool {
        &&& self.pos <= self.chars@.len()
        &&& self.chars@.len() < usize::MAX
        &&& 1 <= self.line <= self.pos + 1
        &&& 1 <= self.col <= self.pos + 1
        &&& self.line_col() == line_col_at(self.text(), self.pos as int)
        &&& forall|i: int| 0 <= i < self.chars@.len() ==> (#[trigger] self.chars@[i]).0 == utf8_len_prefix(self.text(), i)
        &&& self.input_len == utf8_len_prefix(self.text(), self.chars@.len() as int)
        &&& forall|i: int| 0 <= i < self.brace_depths@.len() ==> 1 <= #[trigger] self.brace_depths@[i] <= self.pos
    }

    /// The byte offset of the next character is that of its index in the text.
    pub proof fn lemma_byte_offset(&self)
        requires
            self.wf(),
        ensures
            self.byte_offset() == utf8_len_prefix(self.text(), self.position() as int),
    {
        if self.pos < self.chars@.len() {
            assert(self.chars@[self.pos as int].0 == utf8_len_prefix(self.text(), self.pos as int));
        }
    }

    /// The mode on top of the stack (`Normal` when the stack is empty).
    pub open spec fn mode(&self) -> LexerMode {
        if self.modes().len() == 0 {
            LexerMode::Normal
        } else {
            self.modes().last()
        }
    }

    /// The character at `i`, if there is one.
    pub open spec fn char_at(&self, i: int) -> Option<char> {
        if 0 <= i < self.text().len() {
            Some(self.text()[i])
        } else {
            None
        }
    }

    /// A lexer at the start of `input`, in `Normal` mode, at line 1, column 1.
    pub fn new(input: &str) -> (l: Self)
        requires
            input@.len() < usize::MAX,
        ensures
            l.wf(),
            l.text() == input@,
            l.position() == 0,
            l.line_col() == (1nat, 1nat),
            l.modes() == seq![LexerMode::Normal],
            l.depths() == Seq::<usize>::empty(),
            !l.after_render(),
            l.state() == initial_state(),
    {
        let chars = char_indices(input);
        let input_len = input.as_bytes().len();
        let mut mode_stack: Vec<LexerMode> = Vec::new();
        mode_stack.push(LexerMode::Normal);
        let l = Lexer {
            chars,
            input_len,
            pos: 0,
            line: 1,
            col: 1,
            mode_stack,
            brace_depths: Vec::new(),
            just_saw_render: false,
        };
        assert(l.text() =~= input@);
        assert(l.modes() =~= seq![LexerMode::Normal]);
        assert(input@.subrange(0, input@.len() as int) =~= input@);
        l
    }

    /// The current mode.
    fn current_mode(&self) -> (m: LexerMode)
        ensures
            m == self.mode(),
    {
        if self.mode_stack.len() == 0 {
            LexerMode::Normal
        } else {
            self.mode_stack[self.mode_stack.len() - 1]
        }
    }

    /// The next character, if any.
    fn peek(&self) -> (c: Option<char>)
        ensures
            c == self.char_at(self.position() as int),
    {
        if self.pos < self.chars.len() {
            Some(self.chars[self.pos].1)
        } else {
            None
        }
    }

    /// The character `offset` places after the next one, if any.
    fn peek_offset(&self, offset: usize) -> (c: Option<char>)
        requires
            self.position() + offset <= usize::MAX,
        ensures
            c == self.char_at(self.position() as int + offset),
    {
        let idx = self.pos + offset;
        if idx < self.chars.len() {
            Some(self.chars[idx].1)
        } else {
            None
        }
    }

    /// The byte offset of the next character.
    fn current_byte_idx(&self) -> (b: usize)
        ensures
            b == self.byte_offset(),
    {
        if self.pos < self.chars.len() {
            self.chars[self.pos].0
        } else {
            self.input_len
        }
    }

    /// Reads the next character, moving the line and column past it.
    fn advance(&mut self) -> (c: Option<char>)
        requires
            old(self).wf(),
        ensures
            final(self).wf(),
            c == old(self).char_at(old(self).position() as int),
            final(self).text() == old(self).text(),
            final(self).modes() == old(self).modes(),
            final(self).depths() == old(self).depths(),
            final(self).after_render() == old(self).after_render(),
            match c {
                Some(ch) => final(self).position() == old(self).position() + 1 && final(self).line_col() == (if ch
                    == '\n' {
                    (old(self).line_col().0 + 1, 1nat)
                } else {
                    (old(self).line_col().0, old(self).line_col().1 + 1)
                }),
                None => final(self).position() == old(self).position() && final(self).line_col() == old(
                    self,
                ).line_col(),
            },
    {
        if self.pos < self.chars.len() {
            let c = self.chars[self.pos].1;
            self.pos += 1;
            if c == '\n' {
                self.line += 1;
                self.col = 1;
            } else {
                self.col += 1;
            }
            Some(c)
        } else {
            None
        }
    }

    /// Skips whitespace, `//` comments up to the end of their line and
    /// `/* */` comments up to their end (or the end of the input): the
    /// position moves to `skip_ws` of it.
    fn skip_whitespace_and_comments(&mut self)
        requires
            old(self).wf(),
        ensures
            final(self).wf(),
            final(self).text() == old(self).text(),
            final(self).modes() == old(self).modes(),
            final(self).depths() == old(self).depths(),
            final(self).after_render() == old(self).after_render(),
            final(self).position() == skip_ws(old(self).text(), old(self).position() as int),
            old(self).position() <= final(self).position(),
            !(final(self).char_at(final(self).position() as int) matches Some(c) && unicode_whitespace(c)),
            !(final(self).char_at(final(self).position() as int) == Some('/') && (final(self).char_at(
                final(self).position() as int + 1,
            ) == Some('/') || final(self).char_at(final(self).position() as int + 1) == Some('*'))),
    {
        let ghost cs = self.text();
        proof {
            lemma_skip_ws_bounds(cs, self.position() as int);
            lemma_skip_ws_stops(cs, self.position() as int);
        }
        let ghost s0 = self.position() as int;
        loop
            invariant
                self.wf(),
                cs == self.text(),
                self.text() == old(self).text(),
                self.modes() == old(self).modes(),
                self.depths() == old(self).depths(),
                self.after_render() == old(self).after_render(),
                s0 == old(self).position(),
                skip_ws(cs, s0) == skip_ws(cs, self.position() as int),
            ensures
                self.wf(),
                self.text() == old(self).text(),
                self.modes() == old(self).modes(),
                self.depths() == old(self).depths(),
                self.after_render() == old(self).after_render(),
                self.position() == skip_ws(cs, s0),
            decreases self.text().len() - self.position(),
        {
            let ghost start = self.position();
            loop
                invariant
                    self.wf(),
                    cs == self.text(),
                    self.text() == old(self).text(),
                    self.modes() == old(self).modes(),
                    self.depths() == old(self).depths(),
                    self.after_render() == old(self).after_render(),
                    start <= self.position(),
                    skip_ws(cs, s0) == skip_ws(cs, self.position() as int),
                ensures
                    self.wf(),
                    self.text() == old(self).text(),
                    self.modes() == old(self).modes(),
                    self.depths() == old(self).depths(),
                    self.after_render() == old(self).after_render(),
                    start <= self.position(),
                    skip_ws(cs, s0) == skip_ws(cs, self.position() as int),
                    !(self.char_at(self.position() as int) matches Some(c) && unicode_whitespace(c)),
                decreases self.text().len() - self.position(),
            {
                match self.peek() {
                    Some(c) => {
                        if is_whitespace(c) {
                            self.advance();
                        } else {
                            break;
                        }
                    },
                    None => break,
                }
            }
            let ghost p = self.position() as int;
            if self.peek() == Some('/') && self.peek_offset(1) == Some('/') {
                self.advance();
                self.advance();
                proof {
                    lemma_line_end_bounds(cs, p + 2);
                }
                loop
                    invariant_except_break
                        line_end(cs, p + 2) == line_end(cs, self.position() as int),
                    invariant
                        self.wf(),
                        cs == self.text(),
                        self.text() == old(self).text(),
                        self.modes() == old(self).modes(),
                        self.depths() == old(self).depths(),
                        self.after_render() == old(self).after_render(),
                        p + 2 <= self.position(),
                    ensures
                        self.wf(),
                        self.text() == old(self).text(),
                        self.modes() == old(self).modes(),
                        self.depths() == old(self).depths(),
                        self.after_render() == old(self).after_render(),
                        line_end(cs, p + 2) == self.position(),
                    decreases self.text().len() - self.position(),
                {
                    match self.peek() {
                        Some(c) => {
                            self.advance();
                            if c == '\n' {
                                break;
                            }
                        },
                        None => break,
                    }
                }
            } else if self.peek() == Some('/') && self.peek_offset(1) == Some('*') {
                self.advance();
                self.advance();
                proof {
                    lemma_block_end_bounds(cs, p + 2);
                }
                loop
                    invariant_except_break
                        block_end(cs, p + 2) == block_end(cs, self.position() as int),
                    invariant
                        self.wf(),
                        cs == self.text(),
                        self.text() == old(self).text(),
                        self.modes() == old(self).modes(),
                        self.depths() == old(self).depths(),
                        self.after_render() == old(self).after_render(),
                        p + 2 <= self.position(),
                    ensures
                        self.wf(),
                        self.text() == old(self).text(),
                        self.modes() == old(self).modes(),
                        self.depths() == old(self).depths(),
                        self.after_render() == old(self).after_render(),
                        block_end(cs, p + 2) == self.position(),
                    decreases self.text().len() - self.position(),
                {
                    match self.peek() {
                        Some(c) => {
                            if c == '*' && self.peek_offset(1) == Some('/') {
                                self.advance();
                                self.advance();
                                break;
                            }
                            self.advance();
                        },
                        None => break,
                    }
                }
            } else {
                break;
            }
        }
    }
}

impl Lexer {
    /// Reads a number literal that starts at the next character (a digit).
    fn lex_number(&mut self) -> (r: Result<TokenKind, String>)
        requires
            old(self).wf(),
            old(self).char_at(old(self).position() as int) matches Some(c) && ascii_digit(c),
        ensures
            final(self).wf(),
            final(self).text() == old(self).text(),
            final(self).modes() == old(self).modes(),
            final(self).depths() == old(self).depths(),
            final(self).after_render() == old(self).after_render(),
            ({
                let t = number_run(old(self).text(), old(self).position() as int, false);
                &&& final(self).position() == old(self).position() + t.len()
                &&& t.len() > 0
                &&& if t.contains('.') {
                    r matches Ok(TokenKind::FloatLit(x)) && x@ == t
                } else if digits_value(t) <= i64::MAX {
                    r == Ok::<TokenKind, String>(TokenKind::IntLit(digits_value(t) as i64))
                } else {
                    r matches Err(m) && m@ == too_large_message()
                }
            }),
    {
        let ghost cs = self.text();
        let ghost start = self.position() as int;
        let mut num_str = String::new();
        let mut is_float = false;
        let mut value: i64 = 0;
        let mut overflow = false;
        loop
            invariant
                self.wf(),
                cs == self.text(),
                self.text() == old(self).text(),
                self.modes() == old(self).modes(),
                self.depths() == old(self).depths(),
                self.after_render() == old(self).after_render(),
                start == old(self).position(),
                self.position() == start + num_str@.len(),
                number_run(cs, start, false) == num_str@ + number_run(cs, self.position() as int, is_float),
                is_float == num_str@.contains('.'),
                !is_float ==> all_digits(num_str@),
                !is_float && !overflow ==> value == digits_value(num_str@),
                !is_float && overflow ==> digits_value(num_str@) > i64::MAX,
                value >= 0,
            ensures
                self.wf(),
                self.text() == old(self).text(),
                self.modes() == old(self).modes(),
                self.depths() == old(self).depths(),
                self.after_render() == old(self).after_render(),
                self.position() == start + num_str@.len(),
                number_run(cs, start, false) == num_str@,
                is_float == num_str@.contains('.'),
                !is_float && !overflow ==> value == digits_value(num_str@),
                !is_float && overflow ==> digits_value(num_str@) > i64::MAX,
            decreases self.text().len() - self.position(),
        {
            let ghost here = self.position() as int;
            let ghost before = num_str@;
            match self.peek() {
                Some(ch) => {
                    if is_ascii_digit(ch) {
                        push_char(&mut num_str, ch);
                        self.advance();
                        proof {
                            assert(before + (seq![ch] + number_run(cs, here + 1, is_float)) =~= num_str@
                                + number_run(cs, here + 1, is_float));
                            assert(num_str@.drop_last() =~= before);
                            assert(num_str@.last() == ch);
                            if num_str@.contains('.') {
                                let i = choose|i: int| 0 <= i < num_str@.len() && num_str@[i] == '.';
                                if i < before.len() {
                                    assert(before[i] == '.');
                                }
                            }
                            if before.contains('.') {
                                let i = choose|i: int| 0 <= i < before.len() && before[i] == '.';
                                assert(num_str@[i] == '.');
                            }
                            if !is_float {
                                assert forall|i: int| 0 <= i < num_str@.len() implies ascii_digit(#[trigger] num_str@[i]) by {
                                    if i < before.len() {
                                        assert(num_str@[i] == before[i]);
                                    }
                                }
                                lemma_digits_nonneg(before);
                            }
                        }
                        if !is_float && !overflow {
                            let d = (ch as u32 - '0' as u32) as i64;
                            match value.checked_mul(10) {
                                Some(v10) => {
                                    match v10.checked_add(d) {
                                        Some(v) => {
                                            value = v;
                                        },
                                        None => {
                                            overflow = true;
                                        },
                                    }
                                },
                                None => {
                                    overflow = true;
                                },
                            }
                        }
                    } else if ch == '.' && !is_float && match self.peek_offset(1) {
                        Some(n) => is_ascii_digit(n),
                        None => false,
                    } {
                        is_float = true;
                        push_char(&mut num_str, ch);
                        self.advance();
                        proof {
                            assert(before + (seq!['.'] + number_run(cs, here + 1, true)) =~= num_str@
                                + number_run(cs, here + 1, true));
                            assert(num_str@[num_str@.len() - 1] == '.');
                        }
                    } else {
                        assert(num_str@ + Seq::empty() =~= num_str@);
                        break;
                    }
                },
                None => {
                    assert(num_str@ + Seq::empty() =~= num_str@);
                    break;
                },
            }
        }
        proof {
            let c0 = cs[start];
            assert(number_run(cs, start, false).len() > 0);
        }
        if is_float {
            Ok(TokenKind::FloatLit(num_str))
        } else if overflow {
            Err(string_of("Invalid integer: number too large to fit in target type"))
        } else {
            Ok(TokenKind::IntLit(value))
        }
    }
}

impl Lexer {
    /// Reads the token of code that starts with `c`, the next character (see `normal_kind`).
    fn normal_token_kind(&mut self, c: char, start_line: usize, start_col: usize) -> (r: Result<TokenKind, String>)
        requires
            old(self).wf(),
            old(self).char_at(old(self).position() as int) == Some(c),
            old(self).line_col() == (start_line as nat, start_col as nat),
        ensures
            final(self).wf(),
            final(self).text() == old(self).text(),
            normal_kind(*old(self), *final(self), c, r),
            r is Ok ==> old(self).position() < final(self).position(),
    {
        let ghost before = *self;
        let next = self.peek_offset(1);
        if c == '{' {
            self.advance();
            if self.just_saw_render {
                self.just_saw_render = false;
                self.mode_stack.push(LexerMode::TemplateContent);
            } else if self.brace_depths.len() > 0 {
                let k = self.brace_depths.len() - 1;
                let d = self.brace_depths[k];
                self.brace_depths.set(k, d + 1);
            }
            return Ok(TokenKind::OpenBrace);
        }
        if c == '}' {
            self.advance();
            if self.brace_depths.len() > 0 {
                let k = self.brace_depths.len() - 1;
                let d = self.brace_depths[k];
                if d == 1 {
                    self.brace_depths.pop();
                    self.mode_stack.pop();
                    assert(self.depths() =~= before.depths().drop_last());
                } else {
                    assert(d > 0) by {
                        assert(before.depths()[k as int] == d);
                    }
                    self.brace_depths.set(k, d - 1);
                }
            }
            return Ok(TokenKind::CloseBrace);
        }
        let single = if c == '(' {
            Some(TokenKind::OpenParen)
        } else if c == ')' {
            Some(TokenKind::CloseParen)
        } else if c == '[' {
            Some(TokenKind::OpenBracket)
        } else if c == ']' {
            Some(TokenKind::CloseBracket)
        } else if c == ':' {
            Some(TokenKind::Colon)
        } else if c == ';' {
            Some(TokenKind::Semicolon)
        } else if c == ',' {
            Some(TokenKind::Comma)
        } else if c == '.' {
            Some(TokenKind::Dot)
        } else if c == '%' {
            Some(TokenKind::Percent)
        } else {
            None
        };
        if let Some(k) = single {
            self.advance();
            return Ok(k);
        }
        let pair = if c == '+' {
            Some((TokenKind::Plus, if next == Some('=') { Some(TokenKind::PlusEq) } else { None }))
        } else if c == '*' {
            Some((TokenKind::Star, if next == Some('=') { Some(TokenKind::StarEq) } else { None }))
        } else if c == '/' {
            Some((TokenKind::Slash, if next == Some('=') { Some(TokenKind::SlashEq) } else { None }))
        } else if c == '=' {
            Some((TokenKind::Eq, if next == Some('=') { Some(TokenKind::EqEq) } else { None }))
        } else if c == '!' {
            Some((TokenKind::Not, if next == Some('=') { Some(TokenKind::NotEq) } else { None }))
        } else if c == '<' {
            Some((TokenKind::Lt, if next == Some('=') { Some(TokenKind::LtEq) } else { None }))
        } else if c == '>' {
            Some((TokenKind::Gt, if next == Some('=') { Some(TokenKind::GtEq) } else { None }))
        } else if c == '-' {
            Some((
                TokenKind::Minus,
                if next == Some('>') {
                    Some(TokenKind::Arrow)
                } else if next == Some('=') {
                    Some(TokenKind::MinusEq)
                } else {
                    None
                },
            ))
        } else {
            None
        };
        if let Some((one, two)) = pair {
            self.advance();
            match two {
                Some(k) => {
                    self.advance();
                    return Ok(k);
                },
                None => {
                    return Ok(one);
                },
            }
        }
        if c == '&' || c == '|' {
            self.advance();
            if self.peek() == Some(c) {
                self.advance();
                return Ok(if c == '&' { TokenKind::AndAnd } else { TokenKind::OrOr });
            }
            let m = char_message("Unexpected character '", c, "' at ", start_line, start_col);
            return Err(m);
        }
        if c == '"' {
            return self.lex_string_literal(start_line, start_col);
        }
        if is_ascii_digit(c) {
            return self.lex_number();
        }
        if is_alphabetic(c) || c == '_' {
            proof {
                let cs = self.text();
                let i = self.position() as int;
                assert(cs[i] == c);
                assert(ident_char(cs[i]));
                assert(ident_run(cs, i).len() > 0);
            }
            return Ok(self.lex_ident_or_keyword());
        }
        Err(char_message("Unexpected character '", c, "' at ", start_line, start_col))
    }
}

/// The token kind that the inside of a tag starting with `c` gives, and what
/// reading it does.
pub open spec fn tag_kind(before: Lexer, after: Lexer, c: char, r: Result<TokenKind, String>) -> bool {
    let cs = before.text();
    let i = before.position() as int;
    let (line, col) = before.line_col();
    let same = after.modes() == before.modes() && after.depths() == before.depths();
    &&& after.after_render() == before.after_render()
    &&& if c == '/' && before.char_at(i + 1) == Some('>') {
        r == Ok::<TokenKind, String>(TokenKind::TagSelfClose) && after.position() == i + 2 && after.modes()
            == modes_pop(before.modes()) && after.depths() == before.depths()
    } else if c == '>' {
        r == Ok::<TokenKind, String>(TokenKind::TagEnd) && after.position() == i + 1 && after.modes() == modes_pop(
            before.modes(),
        ) && after.depths() == before.depths()
    } else if c == '=' {
        r == Ok::<TokenKind, String>(TokenKind::Eq) && after.position() == i + 1 && same
    } else if c == '@' {
        let n = name_run(cs, i + 1);
        r matches Ok(TokenKind::AtEvent(x)) && x@ == n && after.position() == i + 1 + n.len() && same
    } else if c == '"' {
        same && match string_body(cs, i + 1) {
            StrEnd::Closed(t, e) => r matches Ok(TokenKind::StringLit(x)) && x@ == t && after.position() == e,
            StrEnd::EscapeAtEnd => r matches Err(m) && m@ == unterminated_escape_message(line, col),
            StrEnd::Open => r matches Err(m) && m@ == unterminated_message(line, col),
        }
    } else if c == '{' {
        r == Ok::<TokenKind, String>(TokenKind::OpenBrace) && after.position() == i + 1 && after.modes()
            == before.modes().push(LexerMode::Normal) && after.depths() == before.depths().push(1)
    } else if unicode_alphabetic(c) || c == '_' || c == '-' {
        let n = name_run(cs, i);
        &&& name_char(c)
        &&& r matches Ok(TokenKind::Ident(x)) && x@ == n && after.position() == i + n.len() && same
    } else {
        r matches Err(m) && m@ == unexpected_in_tag_message(c, line, col)
    }
}

/// The token kind that template content starting with `c` gives (`None`
/// for text that is only whitespace), and what reading it does.
pub open spec fn content_kind(before: Lexer, after: Lexer, c: char, r: Result<Option<TokenKind>, String>) -> bool {
    let cs = before.text();
    let i = before.position() as int;
    let (line, col) = before.line_col();
    &&& after.after_render() == before.after_render()
    &&& if c == '<' && before.char_at(i + 1) == Some('/') {
        let j1 = skip_ws(cs, i + 2);
        let n = name_run(cs, j1);
        let j2 = skip_ws(cs, j1 + n.len());
        &&& after.modes() == before.modes()
        &&& after.depths() == before.depths()
        &&& if 0 <= j2 < cs.len() && cs[j2] == '>' {
            r matches Ok(Some(TokenKind::TagClose(x))) && x@ == n && after.position() == j2 + 1
        } else {
            r matches Err(m) && m@ == unclosed_tag_message(n, line_col_at(cs, j2).0, line_col_at(cs, j2).1)
        }
    } else if c == '<' {
        let n = name_run(cs, i + 1);
        r matches Ok(Some(TokenKind::TagOpen(x))) && x@ == n && after.position() == i + 1 + n.len()
            && after.modes() == before.modes().push(LexerMode::TemplateTag) && after.depths() == before.depths()
    } else if c == '"' {
        after.modes() == before.modes() && after.depths() == before.depths() && match string_body(cs, i + 1) {
            StrEnd::Closed(t, e) => r matches Ok(Some(TokenKind::StringLit(x))) && x@ == t && after.position()
                == e,
            StrEnd::EscapeAtEnd => r matches Err(m) && m@ == unterminated_escape_message(line, col),
            StrEnd::Open => r matches Err(m) && m@ == unterminated_message(line, col),
        }
    } else if c == '{' {
        r == Ok::<Option<TokenKind>, String>(Some(TokenKind::OpenBrace)) && after.position() == i + 1
            && after.modes() == before.modes().push(LexerMode::Normal) && after.depths() == before.depths().push(1)
    } else if c == '}' {
        r == Ok::<Option<TokenKind>, String>(Some(TokenKind::CloseBrace)) && after.position() == i + 1
            && after.modes() == modes_pop(before.modes()) && after.depths() == before.depths()
    } else {
        let t = content_run(cs, i);
        &&& after.position() == i + t.len()
        &&& after.modes() == before.modes()
        &&& after.depths() == before.depths()
        &&& if trim(t).len() > 0 {
            r matches Ok(Some(TokenKind::StringLit(x))) && x@ == trim(t)
        } else {
            r == Ok::<Option<TokenKind>, String>(None)
        }
    }
}

impl Lexer {
    /// Reads the token inside a template tag that starts with `c`, the next
    /// character (see `tag_kind`).
    fn tag_token_kind(&mut self, c: char, start_line: usize, start_col: usize) -> (r: Result<TokenKind, String>)
        requires
            old(self).wf(),
            old(self).char_at(old(self).position() as int) == Some(c),
            old(self).line_col() == (start_line as nat, start_col as nat),
        ensures
            final(self).wf(),
            final(self).text() == old(self).text(),
            tag_kind(*old(self), *final(self), c, r),
            r is Ok ==> old(self).position() < final(self).position(),
    {
        if c == '/' && self.peek_offset(1) == Some('>') {
            self.advance();
            self.advance();
            self.mode_stack.pop();
            return Ok(TokenKind::TagSelfClose);
        }
        if c == '>' {
            self.advance();
            self.mode_stack.pop();
            return Ok(TokenKind::TagEnd);
        }
        if c == '=' {
            self.advance();
            return Ok(TokenKind::Eq);
        }
        if c == '@' {
            self.advance();
            let name = self.lex_name();
            return Ok(TokenKind::AtEvent(name));
        }
        if c == '"' {
            return self.lex_string_literal(start_line, start_col);
        }
        if c == '{' {
            self.advance();
            self.mode_stack.push(LexerMode::Normal);
            self.brace_depths.push(1);
            return Ok(TokenKind::OpenBrace);
        }
        if is_alphabetic(c) || c == '_' || c == '-' {
            proof {
                let cs = self.text();
                let i = self.position() as int;
                assert(cs[i] == c);
                assert(name_char(cs[i]));
                assert(name_run(cs, i).len() > 0);
            }
            let name = self.lex_name();
            return Ok(TokenKind::Ident(name));
        }
        Err(char_message("Unexpected character '", c, "' in template tag at ", start_line, start_col))
    }

    /// Reads the token of template content that starts with `c`, the next
    /// character (see `content_kind`).
    fn content_token_kind(&mut self, c: char, start_line: usize, start_col: usize) -> (r: Result<Option<TokenKind>, String>)
        requires
            old(self).wf(),
            old(self).char_at(old(self).position() as int) == Some(c),
            old(self).line_col() == (start_line as nat, start_col as nat),
        ensures
            final(self).wf(),
            final(self).text() == old(self).text(),
            content_kind(*old(self), *final(self), c, r),
            old(self).position() < final(self).position(),
    {
        let ghost cs = self.text();
        let ghost i = self.position() as int;
        if c == '<' && self.peek_offset(1) == Some('/') {
            self.advance();
            self.advance();
            self.skip_whitespace_and_comments();
            let tag = self.lex_name();
            self.skip_whitespace_and_comments();
            if self.peek() == Some('>') {
                self.advance();
            } else {
                let mut m = string_of("Expected '>' to close tag </");
                push_str(&mut m, tag.as_str());
                push_str(&mut m, "> at ");
                push_line_col(&mut m, self.line, self.col);
                return Err(m);
            }
            return Ok(Some(TokenKind::TagClose(tag)));
        }
        if c == '<' {
            self.advance();
            let tag = self.lex_name();
            self.mode_stack.push(LexerMode::TemplateTag);
            return Ok(Some(TokenKind::TagOpen(tag)));
        }
        if c == '"' {
            return match self.lex_string_literal(start_line, start_col) {
                Ok(k) => Ok(Some(k)),
                Err(m) => Err(m),
            };
        }
        if c == '{' {
            self.advance();
            self.mode_stack.push(LexerMode::Normal);
            self.brace_depths.push(1);
            return Ok(Some(TokenKind::OpenBrace));
        }
        if c == '}' {
            self.advance();
            self.mode_stack.pop();
            return Ok(Some(TokenKind::CloseBrace));
        }
        let mut text = String::new();
        loop
            invariant
                self.wf(),
                cs == self.text(),
                self.text() == old(self).text(),
                self.modes() == old(self).modes(),
                self.depths() == old(self).depths(),
                self.after_render() == old(self).after_render(),
                i == old(self).position(),
                self.position() == i + text@.len(),
                content_run(cs, i) == text@ + content_run(cs, self.position() as int),
            ensures
                self.wf(),
                self.text() == old(self).text(),
                self.modes() == old(self).modes(),
                self.depths() == old(self).depths(),
                self.after_render() == old(self).after_render(),
                self.position() == i + text@.len(),
                content_run(cs, i) == text@,
            decreases self.text().len() - self.position(),
        {
            match self.peek() {
                Some(ch) => {
                    if ch == '<' || ch == '{' || ch == '}' || ch == '"' {
                        assert(text@ + Seq::empty() =~= text@);
                        break;
                    }
                    let ghost before = text@;
                    push_char(&mut text, ch);
                    self.advance();
                    assert(before + (seq![ch] + content_run(cs, self.position() as int)) =~= text@ + content_run(
                        cs,
                        self.position() as int,
                    ));
                },
                None => {
                    assert(text@ + Seq::empty() =~= text@);
                    break;
                },
            }
        }
        proof {
            assert(cs[i] == c);
            assert(content_run(cs, i).len() > 0);
        }
        let trimmed = trim_text(&text);
        if trimmed.as_str().is_empty() {
            return Ok(None);
        }
        Ok(Some(TokenKind::StringLit(trimmed)))
    }

    /// Reads one step in the current mode from `c`, the next character (see `step_of`).
    fn read_step(&mut self, c: char, start_line: usize, start_col: usize) -> (r: Result<Option<TokenKind>, String>)
        requires
            old(self).wf(),
            old(self).char_at(old(self).position() as int) == Some(c),
            old(self).line_col() == (start_line as nat, start_col as nat),
        ensures
            final(self).wf(),
            final(self).text() == old(self).text(),
            agrees(step_of(old(self).text(), old(self).state()), r, final(self).state()),
            r is Ok ==> old(self).position() < final(self).position(),
            r matches Ok(Some(k)) ==> !(k is Eof),
    {
        let ghost before = *self;
        proof {
            reveal(step_of);
        }
        match self.current_mode() {
            LexerMode::Normal => {
                let k = self.normal_token_kind(c, start_line, start_col);
                proof {
                    lemma_normal_agrees(before, *self, c, k);
                }
                match k {
                    Ok(k) => Ok(Some(k)),
                    Err(m) => Err(m),
                }
            },
            LexerMode::TemplateTag => {
                let k = self.tag_token_kind(c, start_line, start_col);
                proof {
                    lemma_tag_agrees(before, *self, c, k);
                }
                match k {
                    Ok(k) => Ok(Some(k)),
                    Err(m) => Err(m),
                }
            },
            LexerMode::TemplateContent => {
                let k = self.content_token_kind(c, start_line, start_col);
                proof {
                    lemma_content_agrees(before, *self, c, k);
                }
                k
            },
        }
    }

    /// Reads the next token: skips whitespace and comments, then reads in
    /// the current mode; text that is only whitespace is skipped too. At the
    /// end of the input the token is `Eof` (see `next_of`).
    pub fn next_token(&mut self) -> (r: Result<Token, String>)
        requires
            old(self).wf(),
        ensures
            final(self).wf(),
            final(self).text() == old(self).text(),
            match next_of(old(self).text(), old(self).state()) {
                (Ok(t), st) => r matches Ok(tok) && tok@ == t && final(self).state() == st,
                (Err(m), _) => r matches Err(e) && e@ == m,
            },
            r matches Ok(t) ==> {
                &&& t.span.end == final(self).byte_offset()
                &&& (t.kind is Eof ==> final(self).position() == final(self).text().len())
                &&& (!(t.kind is Eof) ==> old(self).position() < final(self).position())
            },
    {
        let ghost cs = self.text();
        loop
            invariant
                self.wf(),
                cs == self.text(),
                self.text() == old(self).text(),
                old(self).position() <= self.position(),
                next_of(cs, old(self).state()) == next_of(cs, self.state()),
            decreases self.text().len() - self.position(),
        {
            self.skip_whitespace_and_comments();
            let ghost before = *self;
            proof {
                before.lemma_byte_offset();
            }
            let start_byte = self.current_byte_idx();
            let start_line = self.line;
            let start_col = self.col;
            let c = match self.peek() {
                Some(ch) => ch,
                None => {
                    let span = Span::new(start_byte, start_byte, start_line, start_col);
                    return Ok(Token::new(TokenKind::Eof, span));
                },
            };
            let kind = match self.read_step(c, start_line, start_col) {
                Ok(Some(k)) => Ok(k),
                Ok(None) => {
                    continue;
                },
                Err(m) => Err(m),
            };
            proof {
                self.lemma_byte_offset();
            }
            return match kind {
                Ok(k) => {
                    let end_byte = self.current_byte_idx();
                    proof {
                        if k is Eof {
                            assert(false);
                        }
                    }
                    Ok(Token::new(k, Span::new(start_byte, end_byte, start_line, start_col)))
                },
                Err(m) => Err(m),
            };
        }
    }

    /// Reads every token up to and including `Eof` (see `tokens_from`).
    pub fn tokenize(&mut self) -> (r: Result<Vec<Token>, String>)
        requires
            old(self).wf(),
        ensures
            match tokens_from(old(self).text(), old(self).state()) {
                Ok(ts) => r matches Ok(v) && tokens_view(v@) == ts,
                Err(m) => r matches Err(e) && e@ == m,
            },
            r matches Ok(v) ==> {
                &&& v@.len() > 0
                &&& v@.last().kind is Eof
                &&& forall|i: int| 0 <= i < v@.len() - 1 ==> !(#[trigger] v@[i].kind is Eof)
            },
    {
        let ghost cs = self.text();
        let mut tokens: Vec<Token> = Vec::new();
        loop
            invariant
                self.wf(),
                cs == self.text(),
                cs == old(self).text(),
                forall|i: int| 0 <= i < tokens@.len() ==> !(#[trigger] tokens@[i].kind is Eof),
                tokens_from(cs, old(self).state()) == prefixed(tokens_view(tokens@), tokens_from(cs, self.state())),
            decreases self.text().len() - self.position(),
        {
            let ghost st = self.state();
            let tok = self.next_token();
            let tok = match tok {
                Ok(t) => t,
                Err(e) => {
                    return Err(e);
                },
            };
            let is_eof = tok.kind.is_eof();
            let ghost pre = tokens_view(tokens@);
            tokens.push(tok);
            proof {
                assert(tokens_view(tokens@) =~= pre.push(tok@));
                if !is_eof {
                    lemma_next_progress(cs, st);
                    match tokens_from(cs, self.state()) {
                        Ok(ts) => {
                            assert(pre + (seq![tok@] + ts) =~= pre.push(tok@) + ts);
                        },
                        Err(_) => {},
                    }
                } else {
                    assert(tok@.0 == KindV::Plain(TokenKind::Eof));
                    assert(pre + seq![tok@] =~= pre.push(tok@));
                }
            }
            if is_eof {
                return Ok(tokens);
            }
        }
    }
}

/// `pre` put before the tokens of a result.
pub open spec fn prefixed(pre: Seq<(KindV, Span)>, r: Result<Seq<(KindV, Span)>, Seq<char>>) -> Result<
    Seq<(KindV, Span)>,
    Seq<char>,
> {
    match r {
        Ok(ts) => Ok(pre + ts),
        Err(m) => Err(m),
    }
}

/// A step agrees with what was read and with the state after it.
pub open spec fn agrees(
    step: (Result<Option<KindV>, Seq<char>>, LexState),
    r: Result<Option<TokenKind>, String>,
    after: LexState,
) -> bool {
    match step.0 {
        Ok(Some(k)) => r matches Ok(Some(x)) && x@ == k && after == step.1,
        Ok(None) => r is Ok && r->Ok_0 is None && after == step.1,
        Err(m) => r matches Err(e) && e@ == m,
    }
}

/// A token kind read, as one that may be absent.
pub open spec fn lifted(r: Result<TokenKind, String>) -> Result<Option<TokenKind>, String> {
    match r {
        Ok(k) => Ok(Some(k)),
        Err(e) => Err(e),
    }
}

proof fn lemma_normal_agrees(before: Lexer, after: Lexer, c: char, r: Result<TokenKind, String>)
    requires
        before.wf(),
        before.char_at(before.position() as int) == Some(c),
        normal_kind(before, after, c, r),
    ensures
        agrees(normal_step(before.text(), before.state()), lifted(r), after.state()),
{
}

proof fn lemma_tag_agrees(before: Lexer, after: Lexer, c: char, r: Result<TokenKind, String>)
    requires
        before.wf(),
        before.char_at(before.position() as int) == Some(c),
        tag_kind(before, after, c, r),
    ensures
        agrees(tag_step(before.text(), before.state()), lifted(r), after.state()),
{
}

proof fn lemma_content_agrees(before: Lexer, after: Lexer, c: char, r: Result<Option<TokenKind>, String>)
    requires
        before.wf(),
        before.char_at(before.position() as int) == Some(c),
        content_kind(before, after, c, r),
    ensures
        agrees(content_step(before.text(), before.state()), r, after.state()),
{
}

/// What reading `{` in code does: opening a render block enters template
/// content; inside a code block opened from a template, it nests one deeper.
pub open spec fn open_brace_effect(before: Lexer, after: Lexer) -> bool {
    if before.after_render() {
        after.modes() == before.modes().push(LexerMode::TemplateContent) && after.depths() == before.depths()
            && !after.after_render()
    } else if before.depths().len() > 0 {
        let d = before.depths();
        after.modes() == before.modes() && after.depths() == d.update(d.len() - 1, (d.last() + 1) as usize)
            && after.after_render() == before.after_render()
    } else {
        after.modes() == before.modes() && after.depths() == before.depths() && after.after_render()
            == before.after_render()
    }
}

/// What reading `}` in code does: it closes one level of the innermost code
/// block opened from a template, and the last level returns to the template.
pub open spec fn close_brace_effect(before: Lexer, after: Lexer) -> bool {
    &&& after.after_render() == before.after_render()
    &&& if before.depths().len() > 0 {
        let d = before.depths();
        if d.last() == 1 {
            after.depths() == d.drop_last() && after.modes() == modes_pop(before.modes())
        } else {
            after.depths() == d.update(d.len() - 1, (d.last() - 1) as usize) && after.modes() == before.modes()
        }
    } else {
        after.modes() == before.modes() && after.depths() == before.depths()
    }
}

/// The token kind that code starting with `c` gives, and what reading it does.
pub open spec fn normal_kind(before: Lexer, after: Lexer, c: char, r: Result<TokenKind, String>) -> bool {
    let cs = before.text();
    let i = before.position() as int;
    let (line, col) = before.line_col();
    if c == '{' {
        r == Ok::<TokenKind, String>(TokenKind::OpenBrace) && after.position() == i + 1 && open_brace_effect(
            before,
            after,
        )
    } else if c == '}' {
        r == Ok::<TokenKind, String>(TokenKind::CloseBrace) && after.position() == i + 1 && close_brace_effect(
            before,
            after,
        )
    } else if operator_token(c, before.char_at(i + 1)) is Some {
        let (k, n) = operator_token(c, before.char_at(i + 1))->Some_0;
        r == Ok::<TokenKind, String>(k) && after.position() == i + n && after.modes() == before.modes()
            && after.depths() == before.depths() && after.after_render() == before.after_render()
    } else if c == '&' || c == '|' {
        r matches Err(m) && m@ == at("Unexpected character '"@ + seq![c] + "' at "@, line, col)
    } else if c == '"' {
        &&& after.modes() == before.modes()
        &&& after.depths() == before.depths()
        &&& after.after_render() == before.after_render()
        &&& match string_body(cs, i + 1) {
            StrEnd::Closed(t, e) => r matches Ok(TokenKind::StringLit(x)) && x@ == t && after.position() == e,
            StrEnd::EscapeAtEnd => r matches Err(m) && m@ == unterminated_escape_message(line, col),
            StrEnd::Open => r matches Err(m) && m@ == unterminated_message(line, col),
        }
    } else if ascii_digit(c) {
        let t = number_run(cs, i, false);
        &&& after.modes() == before.modes()
        &&& after.depths() == before.depths()
        &&& after.after_render() == before.after_render()
        &&& after.position() == i + t.len()
        &&& if t.contains('.') {
            r matches Ok(TokenKind::FloatLit(x)) && x@ == t
        } else if digits_value(t) <= i64::MAX {
            r == Ok::<TokenKind, String>(TokenKind::IntLit(digits_value(t) as i64))
        } else {
            r matches Err(m) && m@ == too_large_message()
        }
    } else if unicode_alphabetic(c) || c == '_' {
        let w = ident_run(cs, i);
        &&& ident_char(c)
        &&& after.modes() == before.modes()
        &&& after.depths() == before.depths()
        &&& after.position() == i + w.len()
        &&& match keyword_kind(w) {
            Some(kw) => r == Ok::<TokenKind, String>(kw),
            None => r matches Ok(TokenKind::Ident(x)) && x@ == w,
        }
        &&& after.after_render() == (w == "render"@ || before.after_render())
    } else {
        r matches Err(m) && m@ == unexpected_message(c, line, col)
    }
}


// ---------------------------------------------------------------------------
// Reading as a function of the text.

/// What reading depends on besides the text: the position, the stack of
/// modes, the brace depths of the code blocks opened from templates, and
/// whether the last word read was `render`.
pub struct LexState {
    pub pos: nat,
    pub modes: Seq<LexerMode>,
    pub depths: Seq<usize>,
    pub render: bool,
}

impl Lexer {
    /// The state of this lexer.
    pub open spec fn state(&self) -> LexState {
        LexState { pos: self.position(), modes: self.modes(), depths: self.depths(), render: self.after_render() }
    }
}

/// The state at the start of a text: code, at the first character.
pub open spec fn initial_state() -> LexState {
    LexState { pos: 0, modes: seq![LexerMode::Normal], depths: Seq::empty(), render: false }
}

/// The mode on top of the stack (`Normal` when the stack is empty).
pub open spec fn mode_of(st: LexState) -> LexerMode {
    if st.modes.len() == 0 {
        LexerMode::Normal
    } else {
        st.modes.last()
    }
}

/// The character at `i`, if there is one.
pub open spec fn char_of(cs: Seq<char>, i: int) -> Option<char> {
    if 0 <= i < cs.len() {
        Some(cs[i])
    } else {
        None
    }
}

/// The byte offset of index `i` of a text.
pub open spec fn byte_at(cs: Seq<char>, i: int) -> usize {
    utf8_len_prefix(cs, i) as usize
}

/// `st` at position `pos`, with the rest unchanged.
pub open spec fn moved(st: LexState, pos: int) -> LexState {
    LexState { pos: pos as nat, ..st }
}

/// The state after `{` in code (see `open_brace_effect`).
pub open spec fn open_brace_state(st: LexState) -> LexState {
    let p = st.pos + 1;
    if st.render {
        LexState { pos: p, modes: st.modes.push(LexerMode::TemplateContent), depths: st.depths, render: false }
    } else if st.depths.len() > 0 {
        LexState { pos: p, depths: st.depths.update(st.depths.len() - 1, (st.depths.last() + 1) as usize), ..st }
    } else {
        LexState { pos: p, ..st }
    }
}

/// The state after `}` in code (see `close_brace_effect`).
pub open spec fn close_brace_state(st: LexState) -> LexState {
    let p = st.pos + 1;
    if st.depths.len() > 0 {
        if st.depths.last() == 1 {
            LexState { pos: p, modes: modes_pop(st.modes), depths: st.depths.drop_last(), render: st.render }
        } else {
            LexState { pos: p, depths: st.depths.update(st.depths.len() - 1, (st.depths.last() - 1) as usize), ..st }
        }
    } else {
        LexState { pos: p, ..st }
    }
}

/// A string literal whose quote is at the position.
pub open spec fn string_step(cs: Seq<char>, st: LexState, line: nat, col: nat) -> (
    Result<Option<KindV>, Seq<char>>,
    LexState,
) {
    match string_body(cs, st.pos as int + 1) {
        StrEnd::Closed(t, e) => (Ok(Some(KindV::StringLit(t))), moved(st, e as int)),
        StrEnd::EscapeAtEnd => (Err(unterminated_escape_message(line, col)), st),
        StrEnd::Open => (Err(unterminated_message(line, col)), st),
    }
}

/// One token of code, at the position (see `normal_kind`).
pub open spec fn normal_step(cs: Seq<char>, st: LexState) -> (Result<Option<KindV>, Seq<char>>, LexState) {
    let i = st.pos as int;
    let c = cs[i];
    let (line, col) = line_col_at(cs, i);
    if c == '{' {
        (Ok(Some(KindV::Plain(TokenKind::OpenBrace))), open_brace_state(st))
    } else if c == '}' {
        (Ok(Some(KindV::Plain(TokenKind::CloseBrace))), close_brace_state(st))
    } else if operator_token(c, char_of(cs, i + 1)) is Some {
        let (k, n) = operator_token(c, char_of(cs, i + 1))->Some_0;
        (Ok(Some(KindV::Plain(k))), moved(st, i + n))
    } else if c == '&' || c == '|' {
        (Err(at("Unexpected character '"@ + seq![c] + "' at "@, line, col)), st)
    } else if c == '"' {
        string_step(cs, st, line, col)
    } else if ascii_digit(c) {
        let t = number_run(cs, i, false);
        let next = moved(st, i + t.len());
        if t.contains('.') {
            (Ok(Some(KindV::FloatLit(t))), next)
        } else if digits_value(t) <= i64::MAX {
            (Ok(Some(KindV::IntLit(digits_value(t) as i64))), next)
        } else {
            (Err(too_large_message()), next)
        }
    } else if (unicode_alphabetic(c) || c == '_') && ident_char(c) {
        let w = ident_run(cs, i);
        let k = match keyword_kind(w) {
            Some(kw) => KindV::Plain(kw),
            None => KindV::Ident(w),
        };
        (Ok(Some(k)), LexState { pos: (i + w.len()) as nat, render: w == "render"@ || st.render, ..st })
    } else {
        (Err(unexpected_message(c, line, col)), st)
    }
}

/// One token inside a template tag, at the position (see `tag_kind`).
pub open spec fn tag_step(cs: Seq<char>, st: LexState) -> (Result<Option<KindV>, Seq<char>>, LexState) {
    let i = st.pos as int;
    let c = cs[i];
    let (line, col) = line_col_at(cs, i);
    if c == '/' && char_of(cs, i + 1) == Some('>') {
        (Ok(Some(KindV::Plain(TokenKind::TagSelfClose))), LexState { pos: (i + 2) as nat, modes: modes_pop(st.modes), ..st })
    } else if c == '>' {
        (Ok(Some(KindV::Plain(TokenKind::TagEnd))), LexState { pos: (i + 1) as nat, modes: modes_pop(st.modes), ..st })
    } else if c == '=' {
        (Ok(Some(KindV::Plain(TokenKind::Eq))), moved(st, i + 1))
    } else if c == '@' {
        let n = name_run(cs, i + 1);
        (Ok(Some(KindV::AtEvent(n))), moved(st, i + 1 + n.len()))
    } else if c == '"' {
        string_step(cs, st, line, col)
    } else if c == '{' {
        (
            Ok(Some(KindV::Plain(TokenKind::OpenBrace))),
            LexState {
                pos: (i + 1) as nat,
                modes: st.modes.push(LexerMode::Normal),
                depths: st.depths.push(1),
                render: st.render,
            },
        )
    } else if (unicode_alphabetic(c) || c == '_' || c == '-') && name_char(c) {
        let n = name_run(cs, i);
        (Ok(Some(KindV::Ident(n))), moved(st, i + n.len()))
    } else {
        (Err(unexpected_in_tag_message(c, line, col)), st)
    }
}

/// One token of template content, at the position, or nothing for text that
/// is only whitespace (see `content_kind`).
pub open spec fn content_step(cs: Seq<char>, st: LexState) -> (Result<Option<KindV>, Seq<char>>, LexState) {
    let i = st.pos as int;
    let c = cs[i];
    let (line, col) = line_col_at(cs, i);
    if c == '<' && char_of(cs, i + 1) == Some('/') {
        let j1 = skip_ws(cs, i + 2);
        let n = name_run(cs, j1);
        let j2 = skip_ws(cs, j1 + n.len());
        if 0 <= j2 < cs.len() && cs[j2] == '>' {
            (Ok(Some(KindV::TagClose(n))), moved(st, j2 + 1))
        } else {
            (Err(unclosed_tag_message(n, line_col_at(cs, j2).0, line_col_at(cs, j2).1)), st)
        }
    } else if c == '<' {
        let n = name_run(cs, i + 1);
        (
            Ok(Some(KindV::TagOpen(n))),
            LexState { pos: (i + 1 + n.len()) as nat, modes: st.modes.push(LexerMode::TemplateTag), ..st },
        )
    } else if c == '"' {
        string_step(cs, st, line, col)
    } else if c == '{' {
        (
            Ok(Some(KindV::Plain(TokenKind::OpenBrace))),
            LexState {
                pos: (i + 1) as nat,
                modes: st.modes.push(LexerMode::Normal),
                depths: st.depths.push(1),
                render: st.render,
            },
        )
    } else if c == '}' {
        (Ok(Some(KindV::Plain(TokenKind::CloseBrace))), LexState { pos: (i + 1) as nat, modes: modes_pop(st.modes), ..st })
    } else {
        let t = content_run(cs, i);
        let next = moved(st, i + t.len());
        if trim(t).len() > 0 {
            (Ok(Some(KindV::StringLit(trim(t)))), next)
        } else {
            (Ok(None), next)
        }
    }
}

/// One step of reading in the current mode, at the position.
#[verifier::opaque]
pub open spec fn step_of(cs: Seq<char>, st: LexState) -> (Result<Option<KindV>, Seq<char>>, LexState) {
    match mode_of(st) {
        LexerMode::Normal => normal_step(cs, st),
        LexerMode::TemplateTag => tag_step(cs, st),
        LexerMode::TemplateContent => content_step(cs, st),
    }
}

proof fn lemma_ident_run_len(cs: Seq<char>, i: int)
    requires
        0 <= i <= cs.len(),
    ensures
        i + ident_run(cs, i).len() <= cs.len(),
        i < cs.len() && ident_char(cs[i]) ==> ident_run(cs, i).len() > 0,
    decreases cs.len() - i,
{
    if i < cs.len() && ident_char(cs[i]) {
        lemma_ident_run_len(cs, i + 1);
    }
}

proof fn lemma_name_run_len(cs: Seq<char>, i: int)
    requires
        0 <= i <= cs.len(),
    ensures
        i + name_run(cs, i).len() <= cs.len(),
        i < cs.len() && name_char(cs[i]) ==> name_run(cs, i).len() > 0,
    decreases cs.len() - i,
{
    if i < cs.len() && name_char(cs[i]) {
        lemma_name_run_len(cs, i + 1);
    }
}

proof fn lemma_content_run_len(cs: Seq<char>, i: int)
    requires
        0 <= i <= cs.len(),
    ensures
        i + content_run(cs, i).len() <= cs.len(),
        i < cs.len() && !(cs[i] == '<' || cs[i] == '{' || cs[i] == '}' || cs[i] == '"') ==> content_run(cs, i).len()
            > 0,
    decreases cs.len() - i,
{
    if i < cs.len() && !(cs[i] == '<' || cs[i] == '{' || cs[i] == '}' || cs[i] == '"') {
        lemma_content_run_len(cs, i + 1);
    }
}

proof fn lemma_number_run_len(cs: Seq<char>, i: int, d: bool)
    requires
        0 <= i <= cs.len(),
    ensures
        i + number_run(cs, i, d).len() <= cs.len(),
        i < cs.len() && ascii_digit(cs[i]) ==> number_run(cs, i, d).len() > 0,
    decreases cs.len() - i,
{
    if i < cs.len() && ascii_digit(cs[i]) {
        lemma_number_run_len(cs, i + 1, d);
    } else if i + 1 < cs.len() && cs[i] == '.' && !d && ascii_digit(cs[i + 1]) {
        lemma_number_run_len(cs, i + 1, true);
    }
}

proof fn lemma_string_body_end(cs: Seq<char>, i: int)
    requires
        0 <= i,
    ensures
        string_body(cs, i) matches StrEnd::Closed(_, e) ==> i < e <= cs.len(),
    decreases cs.len() - i,
{
    if i < cs.len() && cs[i] != '"' {
        if cs[i] == '\\' {
            if i + 1 < cs.len() {
                lemma_string_body_end(cs, i + 2);
            }
        } else {
            lemma_string_body_end(cs, i + 1);
        }
    }
}

/// A step that reads a token or skips text moves forward, within the text.
pub proof fn lemma_step_progress(cs: Seq<char>, st: LexState)
    requires
        st.pos < cs.len(),
    ensures
        step_of(cs, st).0 is Ok ==> st.pos < step_of(cs, st).1.pos <= cs.len(),
{
    reveal(step_of);
    let i = st.pos as int;
    lemma_ident_run_len(cs, i);
    lemma_name_run_len(cs, i);
    lemma_name_run_len(cs, i + 1);
    lemma_content_run_len(cs, i);
    lemma_number_run_len(cs, i, false);
    lemma_string_body_end(cs, i + 1);
    if cs[i] == '<' && char_of(cs, i + 1) == Some('/') {
        let j1 = skip_ws(cs, i + 2);
        lemma_skip_ws_bounds(cs, i + 2);
        lemma_name_run_len(cs, j1);
        lemma_skip_ws_bounds(cs, j1 + name_run(cs, j1).len());
    }
}

/// The next token from a state: whitespace and comments are skipped, then
/// one step is read in the current mode (again, after text that is only
/// whitespace); at the end of the text the token is `Eof`. A token's span
/// runs from the byte offset where it starts to the one after it, at the
/// line and column where it starts.
pub open spec fn next_of(cs: Seq<char>, st: LexState) -> (Result<(KindV, Span), Seq<char>>, LexState)
    decreases cs.len() - st.pos,
{
    if st.pos > cs.len() {
        (Err(Seq::empty()), st)
    } else {
        let j = skip_ws(cs, st.pos as int);
        let (line, col) = line_col_at(cs, j);
        let st1 = moved(st, j);
        if j >= cs.len() {
            (
                Ok((
                    KindV::Plain(TokenKind::Eof),
                    Span { start: byte_at(cs, j), end: byte_at(cs, j), line: line as usize, col: col as usize },
                )),
                st1,
            )
        } else {
            let (r, st2) = step_of(cs, st1);
            match r {
                Ok(Some(k)) => (
                    Ok((
                        k,
                        Span {
                            start: byte_at(cs, j),
                            end: byte_at(cs, st2.pos as int),
                            line: line as usize,
                            col: col as usize,
                        },
                    )),
                    st2,
                ),
                Ok(None) => {
                    proof {
                        lemma_skip_ws_bounds(cs, st.pos as int);
                        lemma_step_progress(cs, st1);
                    }
                    next_of(cs, st2)
                },
                Err(m) => (Err(m), st2),
            }
        }
    }
}

/// Reading a token moves forward within the text, and strictly so for a
/// token other than `Eof`.
pub proof fn lemma_next_progress(cs: Seq<char>, st: LexState)
    requires
        st.pos <= cs.len(),
    ensures
        next_of(cs, st).0 is Ok ==> st.pos <= next_of(cs, st).1.pos <= cs.len(),
        next_of(cs, st).0 matches Ok(t) && t.0 != KindV::Plain(TokenKind::Eof) ==> st.pos < next_of(cs, st).1.pos,
    decreases cs.len() - st.pos,
{
    let j = skip_ws(cs, st.pos as int);
    lemma_skip_ws_bounds(cs, st.pos as int);
    if j < cs.len() {
        let st1 = moved(st, j);
        lemma_step_progress(cs, st1);
        if step_of(cs, st1).0 == Ok::<Option<KindV>, Seq<char>>(None) {
            lemma_next_progress(cs, step_of(cs, st1).1);
        }
    }
}

/// The tokens from a state up to and including `Eof`, or the first error.
pub open spec fn tokens_from(cs: Seq<char>, st: LexState) -> Result<Seq<(KindV, Span)>, Seq<char>>
    decreases cs.len() - st.pos,
{
    if st.pos > cs.len() {
        Err(Seq::empty())
    } else {
        match next_of(cs, st) {
            (Err(m), _) => Err(m),
            (Ok(t), st2) => if t.0 == KindV::Plain(TokenKind::Eof) {
                Ok(seq![t])
            } else {
                proof {
                    lemma_next_progress(cs, st);
                }
                match tokens_from(cs, st2) {
                    Ok(ts) => Ok(seq![t] + ts),
                    Err(m) => Err(m),
                }
            },
        }
    }
}

/// The tokens of a whole source text, up to and including `Eof`, or the
/// first lexing error.
pub open spec fn lex(input: Seq<char>) -> Result<Seq<(KindV, Span)>, Seq<char>> {
    tokens_from(input, initial_state())
}


/// The operators and delimiters: the kinds whose text is one or two
/// punctuation characters.
pub open spec fn symbol_kind(k: TokenKind) -> bool {
    match k {
        TokenKind::Plus | TokenKind::Minus | TokenKind::Star | TokenKind::Slash | TokenKind::Percent | TokenKind::Eq | TokenKind::PlusEq | TokenKind::MinusEq | TokenKind::StarEq | TokenKind::SlashEq | TokenKind::EqEq | TokenKind::NotEq | TokenKind::Lt | TokenKind::LtEq | TokenKind::Gt | TokenKind::GtEq | TokenKind::AndAnd | TokenKind::OrOr | TokenKind::Not | TokenKind::OpenBrace | TokenKind::CloseBrace | TokenKind::OpenParen | TokenKind::CloseParen | TokenKind::OpenBracket | TokenKind::CloseBracket | TokenKind::Colon | TokenKind::Semicolon | TokenKind::Comma | TokenKind::Arrow | TokenKind::Dot => true,
        _ => false,
    }
}

/// A text of one or two characters that the first step of code reads whole
/// as the token `k` lexes to `k`, then `Eof`.
proof fn lemma_lex_single(cs: Seq<char>, k: TokenKind)
    requires
        1 <= cs.len() <= 2,
        !unicode_whitespace(cs[0]),
        !(cs.len() == 2 && cs[0] == '/' && (cs[1] == '/' || cs[1] == '*')),
        normal_step(cs, initial_state()).0 == Ok::<Option<KindV>, Seq<char>>(Some(KindV::Plain(k))),
        normal_step(cs, initial_state()).1.pos == cs.len(),
        k != TokenKind::Eof,
    ensures
        lex(cs) matches Ok(ts) && ts.len() == 2 && ts[0].0 == KindV::Plain(k) && ts[1].0 == KindV::Plain(
            TokenKind::Eof,
        ),
{
    reveal(step_of);
    let st0 = initial_state();
    assert(skip_ws(cs, 0) == 0);
    assert(moved(st0, 0) == st0);
    let st2 = normal_step(cs, st0).1;
    assert(step_of(cs, st0) == normal_step(cs, st0));
    assert(skip_ws(cs, cs.len() as int) == cs.len());
    assert(next_of(cs, st2).0 matches Ok(t) && t.0 == KindV::Plain(TokenKind::Eof));
    assert(tokens_from(cs, st2) matches Ok(ts) && ts.len() == 1 && ts[0].0 == KindV::Plain(TokenKind::Eof));
    assert(next_of(cs, st0).0 matches Ok(t) && t.0 == KindV::Plain(k));
    assert(next_of(cs, st0).1 == st2);
}

/// Law: the text of an operator or a delimiter lexes back to that one
/// token, followed by `Eof`.
pub proof fn law_symbol_text_lexes(k: TokenKind)
    requires
        symbol_kind(k),
    ensures
        lex(kind_text(k)) matches Ok(ts) && ts.len() == 2 && ts[0].0 == KindV::Plain(k) && ts[1].0
            == KindV::Plain(TokenKind::Eof),
{
    match k {
        TokenKind::Plus => {
            reveal_strlit("+");
            assert(kind_text(k) =~= seq!['+']);
            lemma_lex_single(seq!['+'], k);
        },
        TokenKind::Minus => {
            reveal_strlit("-");
            assert(kind_text(k) =~= seq!['-']);
            lemma_lex_single(seq!['-'], k);
        },
        TokenKind::Star => {
            reveal_strlit("*");
            assert(kind_text(k) =~= seq!['*']);
            lemma_lex_single(seq!['*'], k);
        },
        TokenKind::Slash => {
            reveal_strlit("/");
            assert(kind_text(k) =~= seq!['/']);
            lemma_lex_single(seq!['/'], k);
        },
        TokenKind::Percent => {
            reveal_strlit("%");
            assert(kind_text(k) =~= seq!['%']);
            lemma_lex_single(seq!['%'], k);
        },
        TokenKind::Eq => {
            reveal_strlit("=");
            assert(kind_text(k) =~= seq!['=']);
            lemma_lex_single(seq!['='], k);
        },
        TokenKind::PlusEq => {
            reveal_strlit("+=");
            assert(kind_text(k) =~= seq!['+', '=']);
            lemma_lex_single(seq!['+', '='], k);
        },
        TokenKind::MinusEq => {
            reveal_strlit("-=");
            assert(kind_text(k) =~= seq!['-', '=']);
            lemma_lex_single(seq!['-', '='], k);
        },
        TokenKind::StarEq => {
            reveal_strlit("*=");
            assert(kind_text(k) =~= seq!['*', '=']);
            lemma_lex_single(seq!['*', '='], k);
        },
        TokenKind::SlashEq => {
            reveal_strlit("/=");
            assert(kind_text(k) =~= seq!['/', '=']);
            lemma_lex_single(seq!['/', '='], k);
        },
        TokenKind::EqEq => {
            reveal_strlit("==");
            assert(kind_text(k) =~= seq!['=', '=']);
            lemma_lex_single(seq!['=', '='], k);
        },
        TokenKind::NotEq => {
            reveal_strlit("!=");
            assert(kind_text(k) =~= seq!['!', '=']);
            lemma_lex_single(seq!['!', '='], k);
        },
        TokenKind::Lt => {
            reveal_strlit("<");
            assert(kind_text(k) =~= seq!['<']);
            lemma_lex_single(seq!['<'], k);
        },
        TokenKind::LtEq => {
            reveal_strlit("<=");
            assert(kind_text(k) =~= seq!['<', '=']);
            lemma_lex_single(seq!['<', '='], k);
        },
        TokenKind::Gt => {
            reveal_strlit(">");
            assert(kind_text(k) =~= seq!['>']);
            lemma_lex_single(seq!['>'], k);
        },
        TokenKind::GtEq => {
            reveal_strlit(">=");
            assert(kind_text(k) =~= seq!['>', '=']);
            lemma_lex_single(seq!['>', '='], k);
        },
        TokenKind::AndAnd => {
            reveal_strlit("&&");
            assert(kind_text(k) =~= seq!['&', '&']);
            lemma_lex_single(seq!['&', '&'], k);
        },
        TokenKind::OrOr => {
            reveal_strlit("||");
            assert(kind_text(k) =~= seq!['|', '|']);
            lemma_lex_single(seq!['|', '|'], k);
        },
        TokenKind::Not => {
            reveal_strlit("!");
            assert(kind_text(k) =~= seq!['!']);
            lemma_lex_single(seq!['!'], k);
        },
        TokenKind::OpenBrace => {
            reveal_strlit("{");
            assert(kind_text(k) =~= seq!['{']);
            lemma_lex_single(seq!['{'], k);
        },
        TokenKind::CloseBrace => {
            reveal_strlit("}");
            assert(kind_text(k) =~= seq!['}']);
            lemma_lex_single(seq!['}'], k);
        },
        TokenKind::OpenParen => {
            reveal_strlit("(");
            assert(kind_text(k) =~= seq!['(']);
            lemma_lex_single(seq!['('], k);
        },
        TokenKind::CloseParen => {
            reveal_strlit(")");
            assert(kind_text(k) =~= seq![')']);
            lemma_lex_single(seq![')'], k);
        },
        TokenKind::OpenBracket => {
            reveal_strlit("[");
            assert(kind_text(k) =~= seq!['[']);
            lemma_lex_single(seq!['['], k);
        },
        TokenKind::CloseBracket => {
            reveal_strlit("]");
            assert(kind_text(k) =~= seq![']']);
            lemma_lex_single(seq![']'], k);
        },
        TokenKind::Colon => {
            reveal_strlit(":");
            assert(kind_text(k) =~= seq![':']);
            lemma_lex_single(seq![':'], k);
        },
        TokenKind::Semicolon => {
            reveal_strlit(";");
            assert(kind_text(k) =~= seq![';']);
            lemma_lex_single(seq![';'], k);
        },
        TokenKind::Comma => {
            reveal_strlit(",");
            assert(kind_text(k) =~= seq![',']);
            lemma_lex_single(seq![','], k);
        },
        TokenKind::Arrow => {
            reveal_strlit("->");
            assert(kind_text(k) =~= seq!['-', '>']);
            lemma_lex_single(seq!['-', '>'], k);
        },
        TokenKind::Dot => {
            reveal_strlit(".");
            assert(kind_text(k) =~= seq!['.']);
            lemma_lex_single(seq!['.'], k);
        },
        _ => {},
    }
}


/// A character of a tag, attribute or event name: a letter or digit, `-` or `_`.
pub open spec fn in_tag_name(c: char) -> bool {
    c == '-' || c == '_' || unicode_alphanumeric(c)
}

/// Law: a name inside a tag is the longest run of letters, digits, `-` and
/// `_`: where `cs[i..i + n]` is such a run and the character after it (if
/// any) is not one of them, the name read from `i` is exactly that run.
pub proof fn law_name_run_is_longest(cs: Seq<char>, i: int, n: int)
    requires
        0 <= i,
        0 <= n,
        i + n <= cs.len(),
        forall|k: int| i <= k < i + n ==> in_tag_name(#[trigger] cs[k]),
        i + n < cs.len() ==> !in_tag_name(cs[i + n]),
    ensures
        name_run(cs, i) == cs.subrange(i, i + n),
    decreases n,
{
    if n == 0 {
        assert(cs.subrange(i, i) =~= Seq::<char>::empty());
    } else {
        assert(in_tag_name(cs[i]));
        law_name_run_is_longest(cs, i + 1, n - 1);
        assert(cs.subrange(i, i + n) =~= seq![cs[i]] + cs.subrange(i + 1, i + n));
    }
}

/// Law: in a tag, a name that starts with a letter, `_` or `-` is read whole
/// as one identifier: where `cs[i..i + n]` (with `n >= 1`) is a longest run
/// of letters, digits, `-` and `_`, the tag step at `i` gives `Ident` of that
/// run and moves past it.
pub proof fn law_tag_name_token(cs: Seq<char>, st: LexState, n: int)
    requires
        st.pos + n <= cs.len(),
        1 <= n,
        forall|k: int| st.pos <= k < st.pos + n ==> in_tag_name(#[trigger] cs[k]),
        st.pos + n < cs.len() ==> !in_tag_name(cs[st.pos + n]),
        unicode_alphabetic(cs[st.pos as int]) || cs[st.pos as int] == '_' || cs[st.pos as int] == '-',
        !(cs[st.pos as int] == '/' || cs[st.pos as int] == '>' || cs[st.pos as int] == '=' || cs[st.pos as int]
            == '@' || cs[st.pos as int] == '"' || cs[st.pos as int] == '{'),
    ensures
        tag_step(cs, st) == (
            Ok::<Option<KindV>, Seq<char>>(Some(KindV::Ident(cs.subrange(st.pos as int, st.pos + n)))),
            moved(st, st.pos + n),
        ),
{
    let i = st.pos as int;
    law_name_run_is_longest(cs, i, n);
    assert(in_tag_name(cs[i]));
}


/// Law: in a tag, `@` and the longest run of letters, digits, `-` and `_`
/// after it are read as one event name.
pub proof fn law_tag_event_token(cs: Seq<char>, st: LexState, n: int)
    requires
        st.pos + 1 + n <= cs.len(),
        0 <= n,
        cs[st.pos as int] == '@',
        forall|k: int| st.pos + 1 <= k < st.pos + 1 + n ==> in_tag_name(#[trigger] cs[k]),
        st.pos + 1 + n < cs.len() ==> !in_tag_name(cs[st.pos + 1 + n]),
    ensures
        tag_step(cs, st) == (
            Ok::<Option<KindV>, Seq<char>>(Some(KindV::AtEvent(cs.subrange(st.pos as int + 1, st.pos + 1 + n)))),
            moved(st, st.pos + 1 + n),
        ),
{
    law_name_run_is_longest(cs, st.pos as int + 1, n);
}

} // verus!
