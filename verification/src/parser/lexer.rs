use vstd::prelude::*;

use crate::diagnostics::{diag, diags_view, push_diag, Diagnostic, SpecDiagnostic};
use crate::parser::keyword::{keyword_of, keyword_of_chars};
use crate::parser::numeric::{
    all_digits, is_sign, parses_as_f64, parses_as_f64_chars, parses_as_i64, parses_as_i64_chars, unsigned_part,
};
use crate::position::{Position, SpecPosition};
use crate::text::{chars_match, chars_of, lemma_line_end, line_end, string_from_chars};

verus! {

/// Turns source text into tokens.
#[derive(Debug, Clone)]
pub struct Lexer {
    input: Vec<char>,
    index: usize,
    position: Position,
    pub diagnostics: Vec<Diagnostic>,
}

#[derive(Debug, Clone)]
pub struct Token {
    pub ty: TokenType,
    pub value: String,
    pub position: Position,
}

#[derive(Debug, Clone, Copy, PartialEq, Eq, Structural)]
pub enum TokenType {
    Keyword,
    Symbol,
    StringLiteral,
    IntLiteral,
    FloatLiteral,
    BoolLiteral,
    LParen,
    RParen,
}

/// The mathematical value of a [`Token`].
pub struct SpecToken {
    pub ty: TokenType,
    pub value: Seq<char>,
    pub position: SpecPosition,
}

impl View for Token {
    type V = SpecToken;

    open spec fn view(&self) -> SpecToken {
        SpecToken { ty: self.ty, value: self.value@, position: self.position@ }
    }
}

/// The values of a sequence of tokens.
pub open spec fn tokens_view(ts: Seq<Token>) -> Seq<SpecToken> {
    ts.map_values(|t: Token| t@)
}

impl Token {
    /// A copy of this token.
    pub fn duplicate(&self) -> (r: Token)
        ensures
            r@ == self@,
    {
        Token { ty: self.ty, value: self.value.clone(), position: self.position.duplicate() }
    }
}

/// The state of a [`Lexer`]: its input, how far it has read, where that is, and what it reported.
pub struct SpecLexer {
    pub input: Seq<char>,
    pub index: usize,
    pub position: SpecPosition,
    pub diagnostics: Seq<SpecDiagnostic>,
}

impl View for Lexer {
    type V = SpecLexer;

    closed spec fn view(&self) -> SpecLexer {
        SpecLexer {
            input: self.input@,
            index: self.index,
            position: self.position@,
            diagnostics: diags_view(self.diagnostics@),
        }
    }
}

pub open spec fn at(file: Seq<char>, line: usize, col: usize) -> SpecPosition {
    SpecPosition { file, line, col }
}

/// The characters that end a symbol. Square brackets group as parentheses do.
pub open spec fn is_delimiter(c: char) -> bool {
    c == ' ' || c == '\t' || c == '\n' || c == '\r' || c == '(' || c == ')' || c == '[' || c == ']' || c == '"'
}

/// The index at which a symbol that starts at `i` ends: the first delimiter, or the end of input.
pub open spec fn symbol_end(input: Seq<char>, i: int) -> int
    decreases input.len() - i,
{
    if i >= input.len() || is_delimiter(input[i]) {
        i
    } else {
        symbol_end(input, i + 1)
    }
}

/// How a symbol reads: `true` and `false` are booleans, then keywords, then what parses
/// as an `i64`, then what parses as an `f64`; anything else is a plain symbol.
pub open spec fn symbol_type(sym: Seq<char>) -> TokenType {
    if sym == seq!['t', 'r', 'u', 'e'] || sym == seq!['f', 'a', 'l', 's', 'e'] {
        TokenType::BoolLiteral
    } else if keyword_of(sym) is Some {
        TokenType::Keyword
    } else if parses_as_i64(sym) {
        TokenType::IntLiteral
    } else if parses_as_f64(sym) {
        TokenType::FloatLiteral
    } else {
        TokenType::Symbol
    }
}

/// The character that an escape `\c` stands for in a string literal.
pub open spec fn unescape(c: char) -> char {
    if c == 'n' {
        '\n'
    } else if c == 't' {
        '\t'
    } else if c == 'r' {
        '\r'
    } else {
        c
    }
}

/// How the body of a string literal ends.
pub enum StringEnd {
    /// A closing quote; the value read, and the index after the quote.
    Closed(Seq<char>, int),
    /// The input ran out (possibly right after a backslash); the index reached, and the
    /// index whose position the diagnostic reports.
    InputEnded(int, int),
    /// A line break came first; the index after it.
    LineEnded(int),
}

/// Reads a string literal's body from index `i`, having read `acc` so far.
pub open spec fn scan_string(input: Seq<char>, i: int, acc: Seq<char>) -> StringEnd
    decreases input.len() - i,
{
    if i >= input.len() {
        StringEnd::InputEnded(i, i)
    } else if input[i] == '"' {
        StringEnd::Closed(acc, i + 1)
    } else if input[i] == '\\' {
        if i + 1 >= input.len() {
            StringEnd::InputEnded(i + 2, i + 1)
        } else {
            scan_string(input, i + 2, acc.push(unescape(input[i + 1])))
        }
    } else if input[i] == '\n' {
        StringEnd::LineEnded(i + 1)
    } else {
        scan_string(input, i + 1, acc.push(input[i]))
    }
}

/// The index at which a string literal's scan stops.
pub open spec fn string_end_index(r: StringEnd) -> int {
    match r {
        StringEnd::Closed(_, end) => end,
        StringEnd::InputEnded(end, _) => end,
        StringEnd::LineEnded(end) => end,
    }
}

pub proof fn lemma_scan_string_bounds(input: Seq<char>, i: int, acc: Seq<char>)
    requires
        0 <= i <= input.len(),
    ensures
        i < string_end_index(scan_string(input, i, acc)) <= input.len() + 1 || (i == input.len()
            && string_end_index(scan_string(input, i, acc)) == i),
        match scan_string(input, i, acc) {
            StringEnd::InputEnded(end, at) => at == input.len() && (end == at || end == at + 1),
            _ => string_end_index(scan_string(input, i, acc)) <= input.len(),
        },
    decreases input.len() - i,
{
    if i < input.len() && input[i] != '"' {
        if input[i] == '\\' {
            if i + 1 < input.len() {
                lemma_scan_string_bounds(input, i + 2, acc.push(unescape(input[i + 1])));
            }
        } else if input[i] != '\n' {
            lemma_scan_string_bounds(input, i + 1, acc.push(input[i]));
        }
    }
}

pub proof fn lemma_symbol_end_bounds(input: Seq<char>, i: int)
    requires
        0 <= i <= input.len(),
    ensures
        i <= symbol_end(input, i) <= input.len(),
        forall|j: int| i <= j < symbol_end(input, i) ==> !is_delimiter(#[trigger] input[j]),
    decreases input.len() - i,
{
    if i < input.len() && !is_delimiter(input[i]) {
        lemma_symbol_end_bounds(input, i + 1);
    }
}

/// Whether a comment starts at index `i`: `;;`, which runs to the end of the line.
pub open spec fn is_comment_start(input: Seq<char>, i: int) -> bool {
    0 <= i && i + 1 < input.len() && input[i] == ';' && input[i + 1] == ';'
}

/// The tokens and diagnostics of the input from index `i` on, at the given line and column.
pub open spec fn lex_from(input: Seq<char>, file: Seq<char>, i: int, line: usize, col: usize) -> (
    Seq<SpecToken>,
    Seq<SpecDiagnostic>,
)
    decreases input.len() + 1 - i,
{
    if i < 0 || i >= input.len() {
        (seq![], seq![])
    } else {
        let c = input[i];
        let here = at(file, line, col);
        if c == ' ' || c == '\t' || c == '\r' {
            lex_from(input, file, i + 1, line, (col + 1) as usize)
        } else if c == '\n' {
            lex_from(input, file, i + 1, (line + 1) as usize, 1)
        } else if c == '(' || c == ')' || c == '[' || c == ']' {
            let ty = if c == '(' || c == '[' { TokenType::LParen } else { TokenType::RParen };
            let (ts, ds) = lex_from(input, file, i + 1, line, (col + 1) as usize);
            (seq![SpecToken { ty, value: seq![], position: here }] + ts, ds)
        } else if is_comment_start(input, i) {
            let e = line_end(input, i);
            proof {
                lemma_line_end(input, i);
            }
            lex_from(input, file, e, line, (col + (e - i)) as usize)
        } else if c == '"' {
            let r = scan_string(input, i + 1, seq![]);
            let end = string_end_index(r);
            proof {
                lemma_scan_string_bounds(input, i + 1, seq![]);
            }
            let (ts, ds) = lex_from(input, file, end, line, (col + (end - i)) as usize);
            match r {
                StringEnd::Closed(v, _) => (
                    seq![SpecToken { ty: TokenType::StringLiteral, value: v, position: here }] + ts,
                    ds,
                ),
                StringEnd::InputEnded(_, at_index) => (
                    ts,
                    seq![diag(at(file, line, (col + (at_index - i)) as usize), "Unterminated string literal")]
                        + ds,
                ),
                StringEnd::LineEnded(_) => (ts, seq![diag(here, "Unterminated string literal")] + ds),
            }
        } else {
            let e = symbol_end(input, i);
            proof {
                lemma_symbol_end_bounds(input, i + 1);
            }
            let sym = input.subrange(i, e);
            let (ts, ds) = lex_from(input, file, e, line, (col + (e - i)) as usize);
            (seq![SpecToken { ty: symbol_type(sym), value: sym, position: here }] + ts, ds)
        }
    }
}

impl SpecLexer {
    /// Whether the state is one that lexing reaches: the column and line grow at most
    /// once per character read, and the input is short enough for them to fit.
    pub open spec fn wf(self) -> bool {
        &&& self.input.len() + 3 <= usize::MAX
        &&& self.index <= self.input.len() + 1
        &&& 1 <= self.position.col <= self.index + 1
        &&& 1 <= self.position.line <= self.index + 1
    }

    /// What the rest of the input lexes to.
    pub open spec fn rest(self) -> (Seq<SpecToken>, Seq<SpecDiagnostic>) {
        lex_from(self.input, self.position.file, self.index as int, self.position.line, self.position.col)
    }
}

impl Lexer {
    /// A lexer at the start of `source_code`, line 1, column 1 of `filename`.
    pub fn new(filename: String, source_code: &str) -> (r: Self)
        requires
            source_code@.len() + 3 <= usize::MAX,
        ensures
            r@.wf(),
            r@.input == source_code@,
            r@.index == 0,
            r@.position == at(filename@, 1, 1),
            r@.diagnostics == Seq::<SpecDiagnostic>::empty(),
    {
        let chars: Vec<char> = chars_of(source_code);
        let r = Lexer {
            input: chars,
            index: 0,
            position: Position { file: filename, line: 1, col: 1 },
            diagnostics: Vec::new(),
        };
        assert(r@.diagnostics =~= Seq::<SpecDiagnostic>::empty());
        r
    }

    /// The diagnostics reported so far.
    pub fn into_diagnostics(self) -> (r: Vec<Diagnostic>)
        ensures
            diags_view(r@) == self@.diagnostics,
    {
        self.diagnostics
    }

    /// Reads all the remaining input: returns its tokens, and adds its diagnostics
    /// (unterminated string literals) to `diagnostics`.
    pub fn tokenize(&mut self) -> (r: Vec<Token>)
        requires
            old(self)@.wf(),
        ensures
            final(self)@.wf(),
            final(self)@.input == old(self)@.input,
            final(self)@.index >= final(self)@.input.len(),
            tokens_view(r@) == old(self)@.rest().0,
            final(self)@.diagnostics == old(self)@.diagnostics + old(self)@.rest().1,
    {
        let mut tokens: Vec<Token> = Vec::new();
        while self.index < self.input.len()
            invariant
                self@.wf(),
                self@.input == old(self)@.input,
                self@.position.file == old(self)@.position.file,
                tokens_view(tokens@) + self@.rest().0 == old(self)@.rest().0,
                self@.diagnostics + self@.rest().1 == old(self)@.diagnostics + old(self)@.rest().1,
            decreases self.input.len() + 1 - self.index,
        {
            let ghost before = self@;
            let ghost old_tokens = tokens@;
            let ch = self.input[self.index];
            if ch == ' ' || ch == '\t' || ch == '\r' {
                self.advance();
            } else if ch == '\n' {
                self.advance();
                self.position.line = self.position.line + 1;
                self.position.col = 1;
            } else if ch == '(' || ch == ')' || ch == '[' || ch == ']' {
                let ty = if ch == '(' || ch == '[' { TokenType::LParen } else { TokenType::RParen };
                let t = Token { ty, value: string_from_chars(&[]), position: self.get_position() };
                assert(t@.value =~= seq![]);
                tokens.push(t);
                self.advance();
                assert(tokens_view(tokens@) =~= tokens_view(old_tokens).push(t@));
            } else if self.index + 1 < self.input.len() && ch == ';' && self.input[self.index + 1] == ';' {
                proof {
                    lemma_line_end(self@.input, self.index + 1);
                    assert(line_end(self@.input, self.index as int) == line_end(self@.input, self.index + 1));
                }
                self.skip_comment();
            } else if ch == '"' {
                proof {
                    lemma_scan_string_bounds(self@.input, self.index + 1, seq![]);
                }
                match self.read_string() {
                    Some(string) => {
                        tokens.push(string);
                        assert(tokens_view(tokens@) =~= tokens_view(old_tokens).push(string@));
                    },
                    None => {},
                }
            } else {
                proof {
                    lemma_symbol_end_bounds(self@.input, self.index as int);
                }
                let mut symbol = self.read_symbol();
                symbol.ty = symbol_token_type(symbol.value.as_str());
                tokens.push(symbol);
                assert(tokens_view(tokens@) =~= tokens_view(old_tokens).push(symbol@));
            }
        }
        tokens
    }

    /// Reads a string literal whose opening quote is the current character.
    fn read_string(&mut self) -> (r: Option<Token>)
        requires
            old(self)@.wf(),
            old(self)@.index < old(self)@.input.len(),
            old(self)@.input[old(self)@.index as int] == '"',
        ensures
            final(self)@.wf(),
            final(self)@.input == old(self)@.input,
            ({
                let i = old(self)@.index as int;
                let line = old(self)@.position.line;
                let col = old(self)@.position.col;
                let file = old(self)@.position.file;
                let sr = scan_string(old(self)@.input, i + 1, seq![]);
                let end = string_end_index(sr);
                &&& final(self)@.index == end
                &&& final(self)@.position == at(file, line, (col + (end - i)) as usize)
                &&& match sr {
                    StringEnd::Closed(v, _) => r is Some && r->0@ == SpecToken {
                        ty: TokenType::StringLiteral,
                        value: v,
                        position: at(file, line, col),
                    } && final(self)@.diagnostics == old(self)@.diagnostics,
                    StringEnd::InputEnded(_, at_index) => r is None && final(self)@.diagnostics
                        == old(self)@.diagnostics.push(
                        diag(at(file, line, (col + (at_index - i)) as usize), "Unterminated string literal"),
                    ),
                    StringEnd::LineEnded(_) => r is None && final(self)@.diagnostics
                        == old(self)@.diagnostics.push(diag(at(file, line, col), "Unterminated string literal")),
                }
            }),
    {
        let pos = self.get_position();
        let ghost start = self.index as int;
        self.advance();
        let mut value: Vec<char> = Vec::new();
        proof {
            lemma_scan_string_bounds(self@.input, self.index as int, seq![]);
        }
        while self.index < self.input.len()
            invariant
                self@.wf(),
                self@.input == old(self)@.input,
                self@.diagnostics == old(self)@.diagnostics,
                start == old(self)@.index,
                old(self)@.wf(),
                start < self.index <= self@.input.len(),
                self@.position == at(
                    old(self)@.position.file,
                    old(self)@.position.line,
                    (old(self)@.position.col + (self.index - start)) as usize,
                ),
                pos@ == old(self)@.position,
                scan_string(self@.input, start + 1, seq![]) == scan_string(
                    self@.input,
                    self.index as int,
                    value@,
                ),
            decreases self.input.len() - self.index,
        {
            let ch = self.input[self.index];
            if ch == '"' {
                self.advance();
                return Some(Token { ty: TokenType::StringLiteral, value: string_from_chars(value.as_slice()), position: pos });
            } else if ch == '\\' {
                self.advance();
                if self.index >= self.input.len() {
                    let p = self.get_position();
                    push_diag(&mut self.diagnostics, Diagnostic::new(p, "Unterminated string literal"));
                    self.advance();
                    return None;
                }
                let c = self.input[self.index];
                let u = if c == 'n' { '\n' } else if c == 't' { '\t' } else if c == 'r' { '\r' } else { c };
                value.push(u);
                self.advance();
            } else if ch == '\n' {
                self.advance();
                push_diag(&mut self.diagnostics, Diagnostic::new(pos, "Unterminated string literal"));
                return None;
            } else {
                value.push(ch);
                self.advance();
            }
        }
        let p = self.get_position();
        push_diag(&mut self.diagnostics, Diagnostic::new(p, "Unterminated string literal"));
        None
    }

    /// Skips a comment, which starts at the current character: up to the end of the line,
    /// the line break left to be read.
    fn skip_comment(&mut self)
        requires
            old(self)@.wf(),
            old(self)@.index < old(self)@.input.len(),
        ensures
            final(self)@.wf(),
            final(self)@.input == old(self)@.input,
            final(self)@.diagnostics == old(self)@.diagnostics,
            ({
                let i = old(self)@.index as int;
                let e = line_end(old(self)@.input, i);
                &&& final(self)@.index == e
                &&& final(self)@.position == at(
                    old(self)@.position.file,
                    old(self)@.position.line,
                    (old(self)@.position.col + (e - i)) as usize,
                )
            }),
    {
        let ghost start = self.index as int;
        proof {
            lemma_line_end(self@.input, start);
        }
        while self.index < self.input.len() && self.input[self.index] != '\n'
            invariant
                self@.wf(),
                self@.input == old(self)@.input,
                self@.diagnostics == old(self)@.diagnostics,
                start == old(self)@.index,
                old(self)@.wf(),
                start <= self.index <= self@.input.len(),
                self@.position == at(
                    old(self)@.position.file,
                    old(self)@.position.line,
                    (old(self)@.position.col + (self.index - start)) as usize,
                ),
                line_end(self@.input, start) == line_end(self@.input, self.index as int),
            decreases self.input.len() - self.index,
        {
            self.advance();
        }
    }

    /// Reads the symbol that starts at the current character, which is no delimiter.
    fn read_symbol(&mut self) -> (r: Token)
        requires
            old(self)@.wf(),
            old(self)@.index < old(self)@.input.len(),
            !is_delimiter(old(self)@.input[old(self)@.index as int]),
        ensures
            final(self)@.wf(),
            final(self)@.input == old(self)@.input,
            final(self)@.diagnostics == old(self)@.diagnostics,
            ({
                let i = old(self)@.index as int;
                let e = symbol_end(old(self)@.input, i);
                &&& final(self)@.index == e
                &&& final(self)@.position == at(
                    old(self)@.position.file,
                    old(self)@.position.line,
                    (old(self)@.position.col + (e - i)) as usize,
                )
                &&& r@ == SpecToken {
                    ty: TokenType::Symbol,
                    value: old(self)@.input.subrange(i, e),
                    position: old(self)@.position,
                }
            }),
    {
        let mut symbol: Vec<char> = Vec::new();
        let pos = self.get_position();
        let ghost start = self.index as int;
        while self.index < self.input.len() && !is_delimiter_char(self.input[self.index])
            invariant
                self@.wf(),
                self@.input == old(self)@.input,
                self@.diagnostics == old(self)@.diagnostics,
                start == old(self)@.index,
                old(self)@.wf(),
                start <= self.index <= self@.input.len(),
                self@.position == at(
                    old(self)@.position.file,
                    old(self)@.position.line,
                    (old(self)@.position.col + (self.index - start)) as usize,
                ),
                pos@ == old(self)@.position,
                symbol@ == self@.input.subrange(start, self.index as int),
                symbol_end(self@.input, start) == symbol_end(self@.input, self.index as int),
            decreases self.input.len() - self.index,
        {
            symbol.push(self.input[self.index]);
            self.advance();
            assert(symbol@ =~= self@.input.subrange(start, self.index as int));
        }
        Token { ty: TokenType::Symbol, value: string_from_chars(symbol.as_slice()), position: pos }
    }

    fn get_position(&self) -> (r: Position)
        ensures
            r@ == self@.position,
    {
        self.position.duplicate()
    }

    fn advance(&mut self)
        requires
            old(self)@.wf(),
            old(self)@.index <= old(self)@.input.len(),
        ensures
            final(self)@.wf(),
            final(self)@.input == old(self)@.input,
            final(self)@.diagnostics == old(self)@.diagnostics,
            final(self)@.index == old(self)@.index + 1,
            final(self)@.position == at(
                old(self)@.position.file,
                old(self)@.position.line,
                (old(self)@.position.col + 1) as usize,
            ),
    {
        self.index = self.index + 1;
        self.position.col = self.position.col + 1;
    }
}

fn is_delimiter_char(c: char) -> (r: bool)
    ensures
        r == is_delimiter(c),
{
    c == ' ' || c == '\t' || c == '\n' || c == '\r' || c == '(' || c == ')' || c == '[' || c == ']' || c == '"'
}

/// The token type of a symbol with text `value`.
pub fn symbol_token_type(value: &str) -> (r: TokenType)
    ensures
        r == symbol_type(value@),
{
    let cs = chars_of(value);
    let w_true = ['t', 'r', 'u', 'e'];
    let w_false = ['f', 'a', 'l', 's', 'e'];
    assert(w_true@ =~= seq!['t', 'r', 'u', 'e']);
    assert(w_false@ =~= seq!['f', 'a', 'l', 's', 'e']);
    if chars_match(cs.as_slice(), &w_true) || chars_match(cs.as_slice(), &w_false) {
        TokenType::BoolLiteral
    } else if keyword_of_chars(cs.as_slice()).is_some() {
        TokenType::Keyword
    } else if parses_as_i64_chars(cs.as_slice()) {
        TokenType::IntLiteral
    } else if parses_as_f64_chars(cs.as_slice()) {
        TokenType::FloatLiteral
    } else {
        TokenType::Symbol
    }
}

/// A token as the lexer makes it: a parenthesis has no text; a symbol, keyword, number or
/// boolean has a nonempty text with no delimiter in it, and its type is the one its text
/// reads as.
pub open spec fn well_formed_token(t: SpecToken) -> bool {
    match t.ty {
        TokenType::LParen | TokenType::RParen => t.value.len() == 0,
        TokenType::StringLiteral => true,
        _ => {
            &&& t.value.len() > 0
            &&& t.ty == symbol_type(t.value)
            &&& forall|j: int| 0 <= j < t.value.len() ==> !is_delimiter(#[trigger] t.value[j])
        },
    }
}

/// Every token the lexer makes is well formed; in particular a keyword token spells a
/// keyword, an integer token reads as an `i64` and a float token as an `f64`.
pub proof fn lemma_lexed_tokens_well_formed(input: Seq<char>, file: Seq<char>, i: int, line: usize, col: usize)
    ensures
        forall|k: int|
            0 <= k < lex_from(input, file, i, line, col).0.len() ==> well_formed_token(
                #[trigger] lex_from(input, file, i, line, col).0[k],
            ),
        forall|k: int|
            0 <= k < lex_from(input, file, i, line, col).0.len() && (#[trigger] lex_from(
                input,
                file,
                i,
                line,
                col,
            ).0[k]).ty == TokenType::Keyword ==> keyword_of(lex_from(input, file, i, line, col).0[k].value) is Some,
    decreases input.len() + 1 - i,
{
    if 0 <= i < input.len() {
        let c = input[i];
        if c == ' ' || c == '\t' || c == '\r' {
            lemma_lexed_tokens_well_formed(input, file, i + 1, line, (col + 1) as usize);
        } else if c == '\n' {
            lemma_lexed_tokens_well_formed(input, file, i + 1, (line + 1) as usize, 1);
        } else if c == '(' || c == ')' || c == '[' || c == ']' {
            lemma_lexed_tokens_well_formed(input, file, i + 1, line, (col + 1) as usize);
        } else if is_comment_start(input, i) {
            lemma_line_end(input, i);
            let e = line_end(input, i);
            lemma_lexed_tokens_well_formed(input, file, e, line, (col + (e - i)) as usize);
        } else if c == '"' {
            let r = scan_string(input, i + 1, seq![]);
            let end = string_end_index(r);
            lemma_scan_string_bounds(input, i + 1, seq![]);
            lemma_lexed_tokens_well_formed(input, file, end, line, (col + (end - i)) as usize);
        } else {
            let e = symbol_end(input, i);
            lemma_symbol_end_bounds(input, i);
            lemma_symbol_end_bounds(input, i + 1);
            assert(!is_delimiter(c));
            assert(e == symbol_end(input, i + 1));
            let sym = input.subrange(i, e);
            assert forall|j: int| 0 <= j < sym.len() implies !is_delimiter(#[trigger] sym[j]) by {
                assert(sym[j] == input[i + j]);
            }
            lemma_lexed_tokens_well_formed(input, file, e, line, (col + (e - i)) as usize);
        }
    }
}

/// A token's text as it stands in the source, a square bracket read as a parenthesis.
pub open spec fn token_text(t: SpecToken) -> Seq<char> {
    match t.ty {
        TokenType::LParen => seq!['('],
        TokenType::RParen => seq![')'],
        _ => t.value,
    }
}

/// The texts of `ts`, one after the other.
pub open spec fn texts(ts: Seq<SpecToken>) -> Seq<char>
    decreases ts.len(),
{
    if ts.len() == 0 {
        seq![]
    } else {
        token_text(ts[0]) + texts(ts.drop_first())
    }
}

pub open spec fn is_blank_char(c: char) -> bool {
    c == ' ' || c == '\t' || c == '\r' || c == '\n'
}

/// `s` without its blanks, square brackets read as parentheses.
pub open spec fn squeezed(s: Seq<char>) -> Seq<char>
    decreases s.len(),
{
    if s.len() == 0 {
        seq![]
    } else {
        let c = s[0];
        let rest = squeezed(s.drop_first());
        if is_blank_char(c) {
            rest
        } else if c == '[' {
            seq!['('] + rest
        } else if c == ']' {
            seq![')'] + rest
        } else {
            seq![c] + rest
        }
    }
}

/// A source with no string literal and no comment.
pub open spec fn plain_source(s: Seq<char>) -> bool {
    forall|i: int| 0 <= i < s.len() ==> s[i] != '"' && !is_comment_start(s, i)
}

proof fn lemma_texts_cons(t: SpecToken, ts: Seq<SpecToken>)
    ensures
        texts(seq![t] + ts) == token_text(t) + texts(ts),
{
    assert((seq![t] + ts).drop_first() =~= ts);
}

proof fn lemma_squeezed_step(s: Seq<char>, i: int)
    requires
        0 <= i < s.len(),
    ensures
        squeezed(s.skip(i)) == {
            let c = s[i];
            let rest = squeezed(s.skip(i + 1));
            if is_blank_char(c) {
                rest
            } else if c == '[' {
                seq!['('] + rest
            } else if c == ']' {
                seq![')'] + rest
            } else {
                seq![c] + rest
            }
        },
{
    assert(s.skip(i).drop_first() =~= s.skip(i + 1));
    assert(s.skip(i)[0] == s[i]);
}

proof fn lemma_squeezed_symbol(s: Seq<char>, i: int, j: int)
    requires
        0 <= i <= j <= s.len(),
        forall|k: int| i <= k < j ==> !is_delimiter(#[trigger] s[k]),
    ensures
        squeezed(s.skip(i)) == s.subrange(i, j) + squeezed(s.skip(j)),
    decreases j - i,
{
    broadcast use crate::text::group_seq_concat;

    if i == j {
        assert(s.subrange(i, j) =~= Seq::<char>::empty());
    } else {
        lemma_squeezed_step(s, i);
        lemma_squeezed_symbol(s, i + 1, j);
        assert(s.subrange(i, j) =~= seq![s[i]] + s.subrange(i + 1, j));
    }
}

proof fn lemma_lex_texts(input: Seq<char>, file: Seq<char>, i: int, line: usize, col: usize)
    requires
        plain_source(input),
        0 <= i <= input.len(),
    ensures
        texts(lex_from(input, file, i, line, col).0) == squeezed(input.skip(i)),
        lex_from(input, file, i, line, col).1.len() == 0,
    decreases input.len() + 1 - i,
{
    if i == input.len() {
        assert(input.skip(i) =~= Seq::<char>::empty());
    } else {
        let c = input[i];
        let here = at(file, line, col);
        lemma_squeezed_step(input, i);
        if c == ' ' || c == '\t' || c == '\r' {
            lemma_lex_texts(input, file, i + 1, line, (col + 1) as usize);
        } else if c == '\n' {
            lemma_lex_texts(input, file, i + 1, (line + 1) as usize, 1);
        } else if c == '(' || c == ')' || c == '[' || c == ']' {
            let ty = if c == '(' || c == '[' { TokenType::LParen } else { TokenType::RParen };
            lemma_lex_texts(input, file, i + 1, line, (col + 1) as usize);
            lemma_texts_cons(
                SpecToken { ty, value: seq![], position: here },
                lex_from(input, file, i + 1, line, (col + 1) as usize).0,
            );
        } else {
            assert(!is_comment_start(input, i));
            let e = symbol_end(input, i);
            lemma_symbol_end_bounds(input, i);
            lemma_symbol_end_bounds(input, i + 1);
            assert(e == symbol_end(input, i + 1));
            let sym = input.subrange(i, e);
            lemma_lex_texts(input, file, e, line, (col + (e - i)) as usize);
            lemma_squeezed_symbol(input, i, e);
            let t = SpecToken { ty: symbol_type(sym), value: sym, position: here };
            lemma_texts_cons(t, lex_from(input, file, e, line, (col + (e - i)) as usize).0);
            assert(symbol_type(sym) != TokenType::LParen && symbol_type(sym) != TokenType::RParen);
        }
    }
}

/// Outside string literals and comments, the tokens spell the source: their texts, one
/// after the other, are the source without its blanks (square brackets read as
/// parentheses), and nothing is reported.
pub proof fn lemma_tokens_spell_the_source(input: Seq<char>, file: Seq<char>)
    requires
        plain_source(input),
    ensures
        texts(lex_from(input, file, 0, 1, 1).0) == squeezed(input),
        lex_from(input, file, 0, 1, 1).1.len() == 0,
{
    lemma_lex_texts(input, file, 0, 1, 1);
    assert(input.skip(0) =~= input);
}

/// Whether `a` comes strictly before `b` in the source.
pub open spec fn before(a: SpecPosition, b: SpecPosition) -> bool {
    a.line < b.line || (a.line == b.line && a.col < b.col)
}

/// Whether `p` is at or after line `line`, column `col`.
pub open spec fn at_or_after(p: SpecPosition, line: usize, col: usize) -> bool {
    p.line > line || (p.line == line && p.col >= col)
}

/// The tokens `ts` are all in `file`, at or after line `line`, column `col`, each strictly
/// after those before it.
pub open spec fn ordered_from(ts: Seq<SpecToken>, file: Seq<char>, line: usize, col: usize) -> bool {
    &&& forall|k: int| 0 <= k < ts.len() ==> (#[trigger] ts[k]).position.file == file
    &&& forall|k: int| 0 <= k < ts.len() ==> at_or_after((#[trigger] ts[k]).position, line, col)
    &&& forall|k: int, m: int| 0 <= k < m < ts.len() ==> before((#[trigger] ts[k]).position, (#[trigger] ts[m]).position)
}

proof fn lemma_ordered_later(ts: Seq<SpecToken>, file: Seq<char>, line: usize, col: usize, line2: usize, col2: usize)
    requires
        ordered_from(ts, file, line2, col2),
        line2 > line || (line2 == line && col2 >= col),
    ensures
        ordered_from(ts, file, line, col),
{
    assert forall|k: int| 0 <= k < ts.len() implies at_or_after((#[trigger] ts[k]).position, line, col) by {
        assert(at_or_after(ts[k].position, line2, col2));
    }
}

proof fn lemma_ordered_cons(t: SpecToken, ts: Seq<SpecToken>, file: Seq<char>, line: usize, col: usize, col2: usize)
    requires
        ordered_from(ts, file, line, col2),
        col2 > col,
        t.position == at(file, line, col),
    ensures
        ordered_from(seq![t] + ts, file, line, col),
{
    let all = seq![t] + ts;
    assert forall|k: int| 0 <= k < all.len() implies (#[trigger] all[k]).position.file == file
        && at_or_after(all[k].position, line, col) by {
        if k > 0 {
            assert(all[k] == ts[k - 1]);
            assert(at_or_after(ts[k - 1].position, line, col2));
        }
    }
    assert forall|k: int, m: int| 0 <= k < m < all.len() implies before((#[trigger] all[k]).position, (#[trigger] all[m]).position) by {
        assert(all[m] == ts[m - 1]);
        if k > 0 {
            assert(all[k] == ts[k - 1]);
        } else {
            assert(at_or_after(ts[m - 1].position, line, col2));
        }
    }
}

proof fn lemma_lex_positions(input: Seq<char>, file: Seq<char>, i: int, line: usize, col: usize)
    requires
        input.len() + 3 <= usize::MAX,
        0 <= i <= input.len() + 1,
        1 <= col <= i + 1,
        1 <= line <= i + 1,
    ensures
        ordered_from(lex_from(input, file, i, line, col).0, file, line, col),
    decreases input.len() + 1 - i,
{
    if 0 <= i < input.len() {
        let c = input[i];
        let here = at(file, line, col);
        if c == ' ' || c == '\t' || c == '\r' {
            lemma_lex_positions(input, file, i + 1, line, (col + 1) as usize);
            lemma_ordered_later(lex_from(input, file, i + 1, line, (col + 1) as usize).0, file, line, col, line, (col + 1) as usize);
        } else if c == '\n' {
            lemma_lex_positions(input, file, i + 1, (line + 1) as usize, 1);
            lemma_ordered_later(lex_from(input, file, i + 1, (line + 1) as usize, 1).0, file, line, col, (line + 1) as usize, 1);
        } else if c == '(' || c == ')' || c == '[' || c == ']' {
            let ty = if c == '(' || c == '[' { TokenType::LParen } else { TokenType::RParen };
            lemma_lex_positions(input, file, i + 1, line, (col + 1) as usize);
            lemma_ordered_cons(
                SpecToken { ty, value: seq![], position: here },
                lex_from(input, file, i + 1, line, (col + 1) as usize).0,
                file,
                line,
                col,
                (col + 1) as usize,
            );
        } else if is_comment_start(input, i) {
            lemma_line_end(input, i);
            let e = line_end(input, i);
            lemma_lex_positions(input, file, e, line, (col + (e - i)) as usize);
            lemma_ordered_later(lex_from(input, file, e, line, (col + (e - i)) as usize).0, file, line, col, line, (col + (e - i)) as usize);
        } else if c == '"' {
            let r = scan_string(input, i + 1, seq![]);
            let end = string_end_index(r);
            lemma_scan_string_bounds(input, i + 1, seq![]);
            let col2 = (col + (end - i)) as usize;
            let rest = lex_from(input, file, end, line, col2).0;
            lemma_lex_positions(input, file, end, line, col2);
            lemma_ordered_later(rest, file, line, col, line, col2);
            if let StringEnd::Closed(v, _) = r {
                lemma_ordered_cons(SpecToken { ty: TokenType::StringLiteral, value: v, position: here }, rest, file, line, col, col2);
            }
        } else {
            let e = symbol_end(input, i);
            lemma_symbol_end_bounds(input, i + 1);
            let col2 = (col + (e - i)) as usize;
            let sym = input.subrange(i, e);
            lemma_lex_positions(input, file, e, line, col2);
            lemma_ordered_cons(
                SpecToken { ty: symbol_type(sym), value: sym, position: here },
                lex_from(input, file, e, line, col2).0,
                file,
                line,
                col,
                col2,
            );
        }
    }
}

/// The tokens the lexer makes stand in the order of the source, each strictly after those
/// before it, all in the file lexed.
pub proof fn lemma_token_positions_increase(input: Seq<char>, file: Seq<char>)
    requires
        input.len() + 3 <= usize::MAX,
    ensures
        ordered_from(lex_from(input, file, 0, 1, 1).0, file, 1, 1),
{
    lemma_lex_positions(input, file, 0, 1, 1);
}


/// What `parse::<f64>` accepts and nothing read before it takes is a float: a symbol
/// that is neither `true` nor `false` nor a keyword, that does not parse as an `i64`
/// but parses as an `f64` (sign included), lexes as a float literal.
pub proof fn lemma_float_symbols(sym: Seq<char>)
    requires
        sym != seq!['t', 'r', 'u', 'e'],
        sym != seq!['f', 'a', 'l', 's', 'e'],
        keyword_of(sym) is None,
        !parses_as_i64(sym),
        parses_as_f64(sym),
    ensures
        symbol_type(sym) == TokenType::FloatLiteral,
{
}

/// A sign in front of a number keeps it a number: where a symbol with no sign of its
/// own lexes as an int or a float literal, the same symbol behind `+` or `-` lexes as a
/// number too; and where it lexes as a float and is not all digits, the signed symbol
/// lexes as a float.
pub proof fn lemma_signed_numbers(sym: Seq<char>, sign: char)
    requires
        sym.len() > 0,
        !is_sign(sym[0]),
        is_sign(sign),
    ensures
        (symbol_type(sym) == TokenType::IntLiteral || symbol_type(sym) == TokenType::FloatLiteral) ==> (
        symbol_type(seq![sign] + sym) == TokenType::IntLiteral || symbol_type(seq![sign] + sym)
            == TokenType::FloatLiteral),
        (symbol_type(sym) == TokenType::FloatLiteral && !all_digits(sym)) ==> symbol_type(seq![sign] + sym)
            == TokenType::FloatLiteral,
{
    let t = seq![sign] + sym;
    assert(t[0] == sign);
    assert(t.skip(1) =~= sym);
    assert(unsigned_part(t) == sym);
    assert(unsigned_part(sym) == sym);
    assert(t != seq!['t', 'r', 'u', 'e']) by {
        assert(seq!['t', 'r', 'u', 'e'][0] == 't');
    }
    assert(t != seq!['f', 'a', 'l', 's', 'e']) by {
        assert(seq!['f', 'a', 'l', 's', 'e'][0] == 'f');
    }
    assert(keyword_of(t) is None) by {
        assert(seq!['l', 'e', 't'][0] == 'l');
        assert(seq!['m', 'u', 't'][0] == 'm');
        assert(seq!['s', 'e', 't', '!'][0] == 's');
        assert(seq!['d', 'e', 'f'][0] == 'd');
        assert(seq!['f', 'n'][0] == 'f');
        assert(seq!['i', 'f'][0] == 'i');
        assert(seq![':', 'e', 'l', 's', 'e'][0] == ':');
        assert(seq![':', 'e', 'l', 'i', 'f'][0] == ':');
        assert(seq!['b', 'l', 'o', 'c', 'k'][0] == 'b');
        assert(seq!['o', 'r'][0] == 'o');
        assert(seq!['a', 'n', 'd'][0] == 'a');
        assert(seq!['n', 'o', 't'][0] == 'n');
    }
    assert(parses_as_f64(t) == parses_as_f64(sym));
    if parses_as_i64(sym) {
        assert(parses_as_i64(t));
    }
    if !all_digits(sym) {
        assert(!parses_as_i64(t));
    }
}

} // verus!
