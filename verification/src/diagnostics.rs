//! Diagnostics, and how the terminal shows them.
use vstd::prelude::*;

use crate::position::{Position, SpecPosition};
use crate::text::{chars_of, decimal, decimal_string, lines, lines_from, nth_line, string_from_chars};

verus! {

/// A message about a place in the source.
#[derive(Debug, Clone)]
pub struct Diagnostic {
    pub position: Position,
    pub msg: String,
}

/// The mathematical value of a [`Diagnostic`].
pub struct SpecDiagnostic {
    pub position: SpecPosition,
    pub msg: Seq<char>,
}

impl View for Diagnostic {
    type V = SpecDiagnostic;

    open spec fn view(&self) -> SpecDiagnostic {
        SpecDiagnostic { position: self.position@, msg: self.msg@ }
    }
}

/// The diagnostic with message `msg` at `position`.
pub open spec fn diag(position: SpecPosition, msg: &str) -> SpecDiagnostic {
    SpecDiagnostic { position, msg: msg@ }
}

/// The values of a sequence of diagnostics.
pub open spec fn diags_view(ds: Seq<Diagnostic>) -> Seq<SpecDiagnostic> {
    ds.map_values(|d: Diagnostic| d@)
}

/// Appending one diagnostic appends its value.
pub proof fn lemma_diags_push(ds: Seq<Diagnostic>, d: Diagnostic)
    ensures
        diags_view(ds.push(d)) == diags_view(ds).push(d@),
{
    assert(diags_view(ds.push(d)) =~= diags_view(ds).push(d@));
}

/// Appending a sequence of diagnostics appends their values.
pub proof fn lemma_diags_append(ds: Seq<Diagnostic>, es: Seq<Diagnostic>)
    ensures
        diags_view(ds + es) == diags_view(ds) + diags_view(es),
{
    assert(diags_view(ds + es) =~= diags_view(ds) + diags_view(es));
}

impl Diagnostic {
    /// The diagnostic with message `msg` at `position`.
    pub fn new(position: Position, msg: &str) -> (r: Self)
        ensures
            r@ == diag(position@, msg),
    {
        Self { position: position, msg: crate::text::owned(msg) }
    }

    /// The diagnostic as plain text: `file:line:col`, then the message on a line of its own.
    pub fn to_string(&self) -> (r: String)
        ensures
            r@ == self.position.file@ + ":"@ + decimal(self.position.line as nat) + ":"@ + decimal(
                self.position.col as nat,
            ) + "\n"@ + self.msg@,
    {
        let mut out = self.position.file.clone();
        out.append(":");
        out.append(decimal_string(self.position.line).as_str());
        out.append(":");
        out.append(decimal_string(self.position.col).as_str());
        out.append("\n");
        out.append(self.msg.as_str());
        out
    }

    /// A copy of this diagnostic.
    pub fn duplicate(&self) -> (r: Self)
        ensures
            r@ == self@,
    {
        Diagnostic { position: self.position.duplicate(), msg: self.msg.clone() }
    }
}

/// Pushes `d` onto `ds`.
pub fn push_diag(ds: &mut Vec<Diagnostic>, d: Diagnostic)
    ensures
        diags_view(final(ds)@) == diags_view(old(ds)@).push(d@),
{
    let ghost before = ds@;
    ds.push(d);
    proof { lemma_diags_push(before, d); }
}

/// Reports the diagnostic `msg` at `position`.
pub fn report(ds: &mut Vec<Diagnostic>, position: Position, msg: &str)
    ensures
        diags_view(final(ds)@) == diags_view(old(ds)@) + seq![diag(position@, msg)],
{
    let d = Diagnostic::new(position, msg);
    push_diag(ds, d);
    assert(diags_view(old(ds)@).push(d@) =~= diags_view(old(ds)@) + seq![d@]);
}

/// Moves the diagnostics of `es` to the end of `ds`.
pub fn append_diags(ds: &mut Vec<Diagnostic>, es: Vec<Diagnostic>)
    ensures
        diags_view(final(ds)@) == diags_view(old(ds)@) + diags_view(es@),
{
    let ghost before = ds@;
    let ghost added = es@;
    let mut es = es;
    ds.append(&mut es);
    proof { lemma_diags_append(before, added); }
}

/// `n` spaces.
pub open spec fn spaces(n: nat) -> Seq<char> {
    Seq::new(n, |i: int| ' ')
}

/// What stands under the first `n` characters of `line` before the caret: a tab under a
/// tab, a space under anything else.
pub open spec fn caret_padding(line: Seq<char>, n: nat) -> Seq<char> {
    let m = if n < line.len() {
        n
    } else {
        line.len()
    };
    Seq::new(m, |i: int| if line[i] == '\t' { '\t' } else { ' ' })
}

/// The terminal code `code` when colors are used, else nothing.
pub open spec fn paint(use_color: bool, code: Seq<char>) -> Seq<char> {
    if use_color {
        code
    } else {
        seq![]
    }
}

/// The first line of a rendered diagnostic: `error: file:line:col`.
pub open spec fn render_header(d: SpecDiagnostic, use_color: bool) -> Seq<char> {
    let red = paint(use_color, "\x1b[31m"@);
    let bold = paint(use_color, "\x1b[1m"@);
    let reset = paint(use_color, "\x1b[0m"@);
    bold + red + "error"@ + reset + bold + ":"@ + reset + reset + " "@ + d.position.file + ":"@ + decimal(
        d.position.line as nat,
    ) + ":"@ + decimal(d.position.col as nat)
}

/// A diagnostic as the terminal shows it: a header, the message, and, where the source
/// has the diagnostic's line, that line with a caret under the diagnostic's column.
pub open spec fn render(source: Option<Seq<char>>, d: SpecDiagnostic, use_color: bool) -> Seq<char> {
    let red = paint(use_color, "\x1b[31m"@);
    let blue = paint(use_color, "\x1b[34m"@);
    let bold = paint(use_color, "\x1b[1m"@);
    let reset = paint(use_color, "\x1b[0m"@);
    let head = render_header(d, use_color) + "\n"@ + bold + d.msg + reset;
    let k = if d.position.line == 0 {
        0
    } else {
        d.position.line - 1
    };
    match source {
        None => head,
        Some(src) => if k >= lines(src).len() {
            head
        } else {
            let line = lines(src)[k];
            let gutter = decimal(d.position.line as nat);
            let caret_col: nat = if d.position.col == 0 {
                0
            } else {
                (d.position.col - 1) as nat
            };
            head + "\n "@ + blue + gutter + reset + " | "@ + line + "\n "@ + spaces(gutter.len()) + " | "@ + red
                + caret_padding(line, caret_col) + "^"@ + reset
        },
    }
}

fn paint_exec(use_color: bool, code: &str) -> (r: &str)
    ensures
        r@ == paint(use_color, code@),
{
    if use_color {
        code
    } else {
        proof {
            reveal_strlit("");
        }
        ""
    }
}

/// Renders `diagnostic` for the terminal, with the line of `source` it points at, if
/// `source` has it, and with terminal colors if `use_color`.
pub fn render_diagnostic(source: Option<&str>, diagnostic: &Diagnostic, use_color: bool) -> (r: String)
    ensures
        r@ == render(
            match source {
                Some(s) => Some(s@),
                None => None,
            },
            diagnostic@,
            use_color,
        ),
{
    let red = paint_exec(use_color, "\x1b[31m");
    let blue = paint_exec(use_color, "\x1b[34m");
    let bold = paint_exec(use_color, "\x1b[1m");
    let reset = paint_exec(use_color, "\x1b[0m");
    let line_text = decimal_string(diagnostic.position.line);
    let col_text = decimal_string(diagnostic.position.col);
    let mut out = String::new();
    out.append(bold);
    out.append(red);
    out.append("error");
    out.append(reset);
    out.append(bold);
    out.append(":");
    out.append(reset);
    out.append(reset);
    out.append(" ");
    out.append(diagnostic.position.file.as_str());
    out.append(":");
    out.append(line_text.as_str());
    out.append(":");
    out.append(col_text.as_str());
    assert(out@ == render_header(diagnostic@, use_color));
    out.append("\n");
    out.append(bold);
    out.append(diagnostic.msg.as_str());
    out.append(reset);
    let ghost head = out@;
    let src = match source {
        None => {
            return out;
        },
        Some(src) => src,
    };
    let chars = chars_of(src);
    let k = if diagnostic.position.line == 0 {
        0
    } else {
        diagnostic.position.line - 1
    };
    let line = match nth_line(&chars, k) {
        None => {
            return out;
        },
        Some(line) => line,
    };
    let caret_col = if diagnostic.position.col == 0 {
        0
    } else {
        diagnostic.position.col - 1
    };
    let mut padding: Vec<char> = Vec::new();
    let mut i: usize = 0;
    while i < caret_col && i < line.len()
        invariant
            i <= line@.len(),
            i <= caret_col,
            padding@ =~= Seq::new(i as nat, |j: int| if line@[j] == '\t' { '\t' } else { ' ' }),
        decreases line.len() - i,
    {
        if line[i] == '\t' {
            padding.push('\t');
        } else {
            padding.push(' ');
        }
        i = i + 1;
    }
    assert(padding@ =~= caret_padding(line@, caret_col as nat));
    let mut gap: Vec<char> = Vec::new();
    let mut g: usize = 0;
    while g < line_text.as_str().unicode_len()
        invariant
            g <= line_text@.len(),
            gap@ =~= spaces(g as nat),
        decreases line_text@.len() - g,
    {
        gap.push(' ');
        g = g + 1;
    }
    out.append("\n ");
    out.append(blue);
    out.append(line_text.as_str());
    out.append(reset);
    out.append(" | ");
    out.append(string_from_chars(line.as_slice()).as_str());
    out.append("\n ");
    out.append(string_from_chars(gap.as_slice()).as_str());
    out.append(" | ");
    out.append(red);
    out.append(string_from_chars(padding.as_slice()).as_str());
    out.append("^");
    out.append(reset);
    out
}

/// Renders each of `diagnostics`, in order.
pub fn render_diagnostics(source: Option<&str>, diagnostics: &[Diagnostic], use_color: bool) -> (r: Vec<String>)
    ensures
        r@.len() == diagnostics@.len(),
        forall|i: int|
            0 <= i < r@.len() ==> #[trigger] r@[i]@ == render(
                match source {
                    Some(s) => Some(s@),
                    None => None,
                },
                diagnostics@[i]@,
                use_color,
            ),
{
    let mut out: Vec<String> = Vec::new();
    let mut i: usize = 0;
    while i < diagnostics.len()
        invariant
            i <= diagnostics@.len(),
            out@.len() == i,
            forall|j: int|
                0 <= j < i ==> #[trigger] out@[j]@ == render(
                    match source {
                        Some(s) => Some(s@),
                        None => None,
                    },
                    diagnostics@[j]@,
                    use_color,
                ),
        decreases diagnostics.len() - i,
    {
        out.push(render_diagnostic(source, &diagnostics[i], use_color));
        i = i + 1;
    }
    out
}

/// Where the digits and the `m` of a terminal code that continues at index `i` end (the
/// index after the `m`), or `-1` when no such code is there.
pub open spec fn code_end(s: Seq<char>, i: int) -> int
    decreases s.len() - i,
{
    if i < 0 || i >= s.len() {
        -1
    } else if s[i] == 'm' {
        i + 1
    } else if '0' <= s[i] <= '9' {
        code_end(s, i + 1)
    } else {
        -1
    }
}

pub proof fn lemma_code_end_bounds(s: Seq<char>, i: int)
    ensures
        code_end(s, i) == -1 || (i < code_end(s, i) <= s.len()),
    decreases s.len() - i,
{
    if 0 <= i < s.len() && s[i] != 'm' && '0' <= s[i] <= '9' {
        lemma_code_end_bounds(s, i + 1);
    }
}

/// The length of the terminal code `ESC [ digits m` that starts `s`, or 0 when none does.
pub open spec fn leading_code(s: Seq<char>) -> int {
    if s.len() >= 2 && s[0] == '\x1b' && s[1] == '[' && code_end(s, 2) > 0 {
        code_end(s, 2)
    } else {
        0
    }
}

/// `s` with every terminal code `ESC [ digits m` taken out.
pub open spec fn strip_codes(s: Seq<char>) -> Seq<char>
    decreases s.len(),
{
    if s.len() == 0 {
        seq![]
    } else {
        proof {
            lemma_code_end_bounds(s, 2);
        }
        let k = leading_code(s);
        if k > 0 {
            strip_codes(s.skip(k))
        } else {
            seq![s[0]] + strip_codes(s.skip(1))
        }
    }
}

/// Whether every escape character of `s` starts a whole terminal code.
pub open spec fn whole_codes(s: Seq<char>) -> bool
    decreases s.len(),
{
    if s.len() == 0 {
        true
    } else {
        proof {
            lemma_code_end_bounds(s, 2);
        }
        let k = leading_code(s);
        if k > 0 {
            whole_codes(s.skip(k))
        } else {
            s[0] != '\x1b' && whole_codes(s.skip(1))
        }
    }
}

/// Whether `s` holds no escape character.
pub open spec fn no_escape(s: Seq<char>) -> bool {
    forall|i: int| 0 <= i < s.len() ==> s[i] != '\x1b'
}

proof fn lemma_code_end_append(a: Seq<char>, b: Seq<char>, i: int)
    requires
        0 <= i,
        code_end(a, i) > 0,
    ensures
        code_end(a + b, i) == code_end(a, i),
    decreases a.len() - i,
{
    if a[i] != 'm' {
        lemma_code_end_append(a, b, i + 1);
    }
}

proof fn lemma_strip_append(a: Seq<char>, b: Seq<char>)
    requires
        whole_codes(a),
    ensures
        strip_codes(a + b) == strip_codes(a) + strip_codes(b),
        whole_codes(b) ==> whole_codes(a + b),
    decreases a.len(),
{
    if a.len() == 0 {
        assert(a + b =~= b);
    } else {
        lemma_code_end_bounds(a, 2);
        let k = leading_code(a);
        if k > 0 {
            lemma_code_end_append(a, b, 2);
            assert(leading_code(a + b) == k);
            assert((a + b).skip(k) =~= a.skip(k) + b);
            lemma_strip_append(a.skip(k), b);
        } else {
            assert((a + b)[0] == a[0]);
            assert(leading_code(a + b) == 0);
            assert((a + b).skip(1) =~= a.skip(1) + b);
            lemma_strip_append(a.skip(1), b);
            assert(seq![a[0]] + (strip_codes(a.skip(1)) + strip_codes(b)) =~= (seq![a[0]] + strip_codes(a.skip(1)))
                + strip_codes(b));
        }
    }
}

proof fn lemma_plain_text(t: Seq<char>)
    requires
        no_escape(t),
    ensures
        whole_codes(t),
        strip_codes(t) == t,
    decreases t.len(),
{
    if t.len() > 0 {
        assert(leading_code(t) == 0);
        assert(no_escape(t.skip(1)));
        lemma_plain_text(t.skip(1));
        assert(seq![t[0]] + t.skip(1) =~= t);
    }
}

proof fn lemma_code(c: Seq<char>)
    requires
        c.len() >= 3,
        c[0] == '\x1b',
        c[1] == '[',
        c.last() == 'm',
        forall|i: int| 2 <= i < c.len() - 1 ==> '0' <= #[trigger] c[i] <= '9',
    ensures
        whole_codes(c),
        strip_codes(c) == Seq::<char>::empty(),
{
    assert forall|i: int| 2 <= i <= c.len() - 1 implies code_end(c, i) == c.len() by {
        lemma_code_end_down(c, i);
    }
    assert(leading_code(c) == c.len());
    lemma_code_end_bounds(c, 2);
    let rest = c.skip(c.len() as int);
    assert(rest =~= Seq::<char>::empty());
    assert(whole_codes(rest));
    assert(strip_codes(rest) == Seq::<char>::empty());
    assert(whole_codes(c) == whole_codes(rest));
    assert(strip_codes(c) == strip_codes(rest));
}

proof fn lemma_code_end_down(c: Seq<char>, i: int)
    requires
        c.len() >= 3,
        c.last() == 'm',
        forall|j: int| 2 <= j < c.len() - 1 ==> '0' <= #[trigger] c[j] <= '9',
        2 <= i <= c.len() - 1,
    ensures
        code_end(c, i) == c.len(),
    decreases c.len() - i,
{
    if i < c.len() - 1 {
        lemma_code_end_down(c, i + 1);
    }
}

proof fn lemma_paint(use_color: bool, c: Seq<char>)
    requires
        c.len() >= 3,
        c[0] == '\x1b',
        c[1] == '[',
        c.last() == 'm',
        forall|i: int| 2 <= i < c.len() - 1 ==> '0' <= #[trigger] c[i] <= '9',
    ensures
        whole_codes(paint(use_color, c)),
        strip_codes(paint(use_color, c)) == Seq::<char>::empty(),
{
    if use_color {
        lemma_code(c);
    }
}

proof fn lemma_decimal_plain(n: nat)
    ensures
        no_escape(decimal(n)),
    decreases n,
{
    if n >= 10 {
        lemma_decimal_plain(n / 10);
    }
}


/// One more piece: what stripping gives grows by what stripping the piece gives.
proof fn lemma_step(h: Seq<char>, g: Seq<char>, p: Seq<char>, q: Seq<char>)
    requires
        whole_codes(h),
        strip_codes(h) == g,
        no_escape(g),
        whole_codes(p),
        strip_codes(p) == q,
        no_escape(q),
    ensures
        whole_codes(h + p),
        strip_codes(h + p) == g + q,
        no_escape(g + q),
{
    lemma_strip_append(h, p);
    assert forall|i: int| 0 <= i < (g + q).len() implies (g + q)[i] != '\x1b' by {
        if i < g.len() {
            assert((g + q)[i] == g[i]);
        } else {
            assert((g + q)[i] == q[i - g.len()]);
        }
    }
}

proof fn lemma_text_piece(t: Seq<char>)
    requires
        no_escape(t),
    ensures
        whole_codes(t),
        strip_codes(t) == t,
        no_escape(t),
{
    lemma_plain_text(t);
}

proof fn lemma_code_piece(use_color: bool, c: Seq<char>)
    requires
        c.len() >= 3,
        c[0] == '\x1b',
        c[1] == '[',
        c.last() == 'm',
        forall|i: int| 2 <= i < c.len() - 1 ==> '0' <= #[trigger] c[i] <= '9',
    ensures
        whole_codes(paint(use_color, c)),
        strip_codes(paint(use_color, c)) == paint(false, c),
        no_escape(paint(false, c)),
{
    lemma_paint(use_color, c);
}

/// The lines of a text with no escape character hold none.
proof fn lemma_lines_plain(s: Seq<char>, i: int)
    requires
        no_escape(s),
    ensures
        forall|k: int| 0 <= k < lines_from(s, i).len() ==> no_escape(#[trigger] lines_from(s, i)[k]),
    decreases s.len() - i,
{
    if 0 <= i < s.len() {
        crate::text::lemma_line_end(s, i);
        let e = crate::text::line_end(s, i);
        let raw = s.subrange(i, e);
        assert(no_escape(raw));
        assert(raw.len() > 0 ==> no_escape(raw.drop_last()));
        if e < s.len() {
            lemma_lines_plain(s, e + 1);
            let line = lines_from(s, i)[0];
            assert(no_escape(line));
            assert forall|k: int| 0 <= k < lines_from(s, i).len() implies no_escape(#[trigger] lines_from(s, i)[k]) by {
                if k > 0 {
                    assert(lines_from(s, i)[k] == lines_from(s, e + 1)[k - 1]);
                }
            }
        }
    }
}

/// Colors only add terminal codes: with them taken out, the colored rendering of a
/// diagnostic is the plain one, which holds no escape character (where the message, the
/// file name and the source hold none).
pub proof fn lemma_colors_only_add_codes(source: Option<Seq<char>>, d: SpecDiagnostic)
    requires
        no_escape(d.msg),
        no_escape(d.position.file),
        source matches Some(src) ==> no_escape(src),
    ensures
        strip_codes(render(source, d, true)) == render(source, d, false),
        no_escape(render(source, d, false)),
{
    reveal_strlit("\x1b[31m");
    reveal_strlit("\x1b[34m");
    reveal_strlit("\x1b[1m");
    reveal_strlit("\x1b[0m");
    reveal_strlit("error");
    reveal_strlit(":");
    reveal_strlit(" ");
    reveal_strlit("\n");
    reveal_strlit("\n ");
    reveal_strlit(" | ");
    reveal_strlit("^");
    lemma_code_piece(true, "\x1b[31m"@);
    lemma_code_piece(true, "\x1b[34m"@);
    lemma_code_piece(true, "\x1b[1m"@);
    lemma_code_piece(true, "\x1b[0m"@);
    lemma_text_piece("error"@);
    lemma_text_piece(":"@);
    lemma_text_piece(" "@);
    lemma_text_piece("\n"@);
    lemma_text_piece("\n "@);
    lemma_text_piece(" | "@);
    lemma_text_piece("^"@);
    lemma_text_piece(d.msg);
    lemma_text_piece(d.position.file);
    lemma_decimal_plain(d.position.line as nat);
    lemma_decimal_plain(d.position.col as nat);
    lemma_text_piece(decimal(d.position.line as nat));
    lemma_text_piece(decimal(d.position.col as nat));
    {
        let ht0 = paint(true, "\x1b[1m"@);
        let hf0 = paint(false, "\x1b[1m"@);
        lemma_step(ht0, hf0, paint(true, "\x1b[31m"@), paint(false, "\x1b[31m"@));
        let ht1 = ht0 + paint(true, "\x1b[31m"@);
        let hf1 = hf0 + paint(false, "\x1b[31m"@);
        lemma_step(ht1, hf1, "error"@, "error"@);
        let ht2 = ht1 + "error"@;
        let hf2 = hf1 + "error"@;
        lemma_step(ht2, hf2, paint(true, "\x1b[0m"@), paint(false, "\x1b[0m"@));
        let ht3 = ht2 + paint(true, "\x1b[0m"@);
        let hf3 = hf2 + paint(false, "\x1b[0m"@);
        lemma_step(ht3, hf3, paint(true, "\x1b[1m"@), paint(false, "\x1b[1m"@));
        let ht4 = ht3 + paint(true, "\x1b[1m"@);
        let hf4 = hf3 + paint(false, "\x1b[1m"@);
        lemma_step(ht4, hf4, ":"@, ":"@);
        let ht5 = ht4 + ":"@;
        let hf5 = hf4 + ":"@;
        lemma_step(ht5, hf5, paint(true, "\x1b[0m"@), paint(false, "\x1b[0m"@));
        let ht6 = ht5 + paint(true, "\x1b[0m"@);
        let hf6 = hf5 + paint(false, "\x1b[0m"@);
        lemma_step(ht6, hf6, paint(true, "\x1b[0m"@), paint(false, "\x1b[0m"@));
        let ht7 = ht6 + paint(true, "\x1b[0m"@);
        let hf7 = hf6 + paint(false, "\x1b[0m"@);
        lemma_step(ht7, hf7, " "@, " "@);
        let ht8 = ht7 + " "@;
        let hf8 = hf7 + " "@;
        lemma_step(ht8, hf8, d.position.file, d.position.file);
        let ht9 = ht8 + d.position.file;
        let hf9 = hf8 + d.position.file;
        lemma_step(ht9, hf9, ":"@, ":"@);
        let ht10 = ht9 + ":"@;
        let hf10 = hf9 + ":"@;
        lemma_step(ht10, hf10, decimal(d.position.line as nat), decimal(d.position.line as nat));
        let ht11 = ht10 + decimal(d.position.line as nat);
        let hf11 = hf10 + decimal(d.position.line as nat);
        lemma_step(ht11, hf11, ":"@, ":"@);
        let ht12 = ht11 + ":"@;
        let hf12 = hf11 + ":"@;
        lemma_step(ht12, hf12, decimal(d.position.col as nat), decimal(d.position.col as nat));
        let ht13 = ht12 + decimal(d.position.col as nat);
        let hf13 = hf12 + decimal(d.position.col as nat);
        assert(ht13 == render_header(d, true));
        assert(hf13 == render_header(d, false));
        lemma_step(ht13, hf13, "\n"@, "\n"@);
        let at0 = ht13 + "\n"@;
        let af0 = hf13 + "\n"@;
        lemma_step(at0, af0, paint(true, "\x1b[1m"@), paint(false, "\x1b[1m"@));
        let at1 = at0 + paint(true, "\x1b[1m"@);
        let af1 = af0 + paint(false, "\x1b[1m"@);
        lemma_step(at1, af1, d.msg, d.msg);
        let at2 = at1 + d.msg;
        let af2 = af1 + d.msg;
        lemma_step(at2, af2, paint(true, "\x1b[0m"@), paint(false, "\x1b[0m"@));
        let at3 = at2 + paint(true, "\x1b[0m"@);
        let af3 = af2 + paint(false, "\x1b[0m"@);
        let k = if d.position.line == 0 {
            0
        } else {
            d.position.line - 1
        };
        match source {
            None => {
                assert(at3 == render(source, d, true));
                assert(af3 == render(source, d, false));
            },
            Some(src) => {
                if k >= lines(src).len() {
                    assert(at3 == render(source, d, true));
                    assert(af3 == render(source, d, false));
                } else {
                    lemma_lines_plain(src, 0);
                    let line = lines(src)[k];
                    let gutter = decimal(d.position.line as nat);
                    let caret_col: nat = if d.position.col == 0 {
                        0
                    } else {
                        (d.position.col - 1) as nat
                    };
                    lemma_text_piece(line);
                    lemma_text_piece(gutter);
                    lemma_text_piece(spaces(gutter.len()));
                    lemma_text_piece(caret_padding(line, caret_col));
                    lemma_step(at3, af3, "\n "@, "\n "@);
                    let st0 = at3 + "\n "@;
                    let sf0 = af3 + "\n "@;
                    lemma_step(st0, sf0, paint(true, "\x1b[34m"@), paint(false, "\x1b[34m"@));
                    let st1 = st0 + paint(true, "\x1b[34m"@);
                    let sf1 = sf0 + paint(false, "\x1b[34m"@);
                    lemma_step(st1, sf1, gutter, gutter);
                    let st2 = st1 + gutter;
                    let sf2 = sf1 + gutter;
                    lemma_step(st2, sf2, paint(true, "\x1b[0m"@), paint(false, "\x1b[0m"@));
                    let st3 = st2 + paint(true, "\x1b[0m"@);
                    let sf3 = sf2 + paint(false, "\x1b[0m"@);
                    lemma_step(st3, sf3, " | "@, " | "@);
                    let st4 = st3 + " | "@;
                    let sf4 = sf3 + " | "@;
                    lemma_step(st4, sf4, line, line);
                    let st5 = st4 + line;
                    let sf5 = sf4 + line;
                    lemma_step(st5, sf5, "\n "@, "\n "@);
                    let st6 = st5 + "\n "@;
                    let sf6 = sf5 + "\n "@;
                    lemma_step(st6, sf6, spaces(gutter.len()), spaces(gutter.len()));
                    let st7 = st6 + spaces(gutter.len());
                    let sf7 = sf6 + spaces(gutter.len());
                    lemma_step(st7, sf7, " | "@, " | "@);
                    let st8 = st7 + " | "@;
                    let sf8 = sf7 + " | "@;
                    lemma_step(st8, sf8, paint(true, "\x1b[31m"@), paint(false, "\x1b[31m"@));
                    let st9 = st8 + paint(true, "\x1b[31m"@);
                    let sf9 = sf8 + paint(false, "\x1b[31m"@);
                    lemma_step(st9, sf9, caret_padding(line, caret_col), caret_padding(line, caret_col));
                    let st10 = st9 + caret_padding(line, caret_col);
                    let sf10 = sf9 + caret_padding(line, caret_col);
                    lemma_step(st10, sf10, "^"@, "^"@);
                    let st11 = st10 + "^"@;
                    let sf11 = sf10 + "^"@;
                    lemma_step(st11, sf11, paint(true, "\x1b[0m"@), paint(false, "\x1b[0m"@));
                    let st12 = st11 + paint(true, "\x1b[0m"@);
                    let sf12 = sf11 + paint(false, "\x1b[0m"@);
                    assert(st12 == render(source, d, true));
                    assert(sf12 == render(source, d, false));
                }
            },
        }
    }
}

} // verus!
