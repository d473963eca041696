//! The printer: builds the token trees of the Rust code that the converter
//! writes, group by group.
use vstd::prelude::*;
use crate::token::Delimiter;

verus! {

broadcast use vstd::std_specs::vec::group_vec_axioms, vstd::seq::group_seq_axioms;

/// Whether a punctuation character is joined to the next one.
#[derive(Debug, Clone, Copy, PartialEq, Eq, Structural)]
pub enum Spacing {
    Joint,
    Alone,
}

/// Where an identifier of the output points: the macro's call site, or just
/// after it.
#[derive(Debug, Clone, Copy, PartialEq, Eq, Structural)]
pub enum SpanPos {
    CallSite,
    AfterCallSite,
}

/// A literal of the output: a string, an `i64`, or an `f64` given by its text.
#[derive(Debug, PartialEq)]
pub enum OutLiteral {
    Str(String),
    Integer(i64),
    Float(String),
}

/// A token tree of the output.
#[derive(Debug, PartialEq)]
pub enum OutTree {
    Ident(String, SpanPos),
    Punct(char, Spacing),
    Literal(OutLiteral),
    Group(Delimiter, Vec<OutTree>),
}

/// The value of an output literal.
pub enum OutLiteralView {
    Str(Seq<char>),
    Integer(i64),
    Float(Seq<char>),
}

/// The value of an output token tree.
pub enum OutTreeView {
    Ident(Seq<char>, SpanPos),
    Punct(char, Spacing),
    Literal(OutLiteralView),
    Group(Delimiter, Seq<OutTreeView>),
}

impl OutLiteral {
    pub open spec fn value(self) -> OutLiteralView {
        match self {
            OutLiteral::Str(s) => OutLiteralView::Str(s@),
            OutLiteral::Integer(n) => OutLiteralView::Integer(n),
            OutLiteral::Float(s) => OutLiteralView::Float(s@),
        }
    }
}

impl OutTree {
    /// The value of an output tree.
    pub open spec fn value(self) -> OutTreeView
        decreases self,
    {
        match self {
            OutTree::Ident(s, sp) => OutTreeView::Ident(s@, sp),
            OutTree::Punct(c, sp) => OutTreeView::Punct(c, sp),
            OutTree::Literal(l) => OutTreeView::Literal(l.value()),
            OutTree::Group(d, ts) => {
                proof {
                    assert(decreases_to!(ts => ts@));
                }
                OutTreeView::Group(d, OutTree::values(ts@))
            },
        }
    }

    /// The values of a sequence of output trees.
    pub open spec fn values(s: Seq<OutTree>) -> Seq<OutTreeView>
        decreases s,
    {
        Seq::new(s.len(), |i: int| if 0 <= i < s.len() { s[i].value() } else { OutTreeView::Punct(' ', Spacing::Alone) })
    }
}

impl View for OutTree {
    type V = OutTreeView;

    open spec fn view(&self) -> OutTreeView {
        self.value()
    }
}

/// The state of the printer: the span of the next identifier, and the groups
/// being built, outermost first, each with its delimiter and its trees so far.
pub struct Printer {
    span: SpanPos,
    output: Vec<(Delimiter, Vec<OutTree>)>,
}

/// The value of the printer's state.
pub struct PrinterView {
    pub span: SpanPos,
    pub levels: Seq<(Delimiter, Seq<OutTreeView>)>,
}

impl View for Printer {
    type V = PrinterView;

    closed spec fn view(&self) -> PrinterView {
        PrinterView {
            span: self.span,
            levels: Seq::new(self.output@.len(), |i: int| (self.output@[i].0, OutTree::values(self.output@[i].1@))),
        }
    }
}

/// The printer after appending `ts` to the innermost group.
pub open spec fn spec_push_all(p: PrinterView, ts: Seq<OutTreeView>) -> PrinterView {
    let last = p.levels.len() - 1;
    PrinterView {
        span: p.span,
        levels: p.levels.update(last, (p.levels[last].0, p.levels[last].1 + ts)),
    }
}

/// Appending nothing leaves the printer as it was.
pub proof fn lemma_push_all_empty(p: PrinterView)
    requires
        p.levels.len() > 0,
    ensures
        spec_push_all(p, Seq::empty()) == p,
{
    let last = p.levels.len() - 1;
    assert(p.levels[last].1 + Seq::<OutTreeView>::empty() =~= p.levels[last].1);
    assert(spec_push_all(p, Seq::empty()).levels =~= p.levels);
}

/// Appending `a` and then `b` is appending `a + b`.
pub proof fn lemma_push_all_twice(p: PrinterView, a: Seq<OutTreeView>, b: Seq<OutTreeView>)
    requires
        p.levels.len() > 0,
    ensures
        spec_push_all(spec_push_all(p, a), b) == spec_push_all(p, a + b),
{
    let last = p.levels.len() - 1;
    assert(p.levels[last].1 + a + b =~= p.levels[last].1 + (a + b));
    assert(spec_push_all(spec_push_all(p, a), b).levels =~= spec_push_all(p, a + b).levels);
}

/// Writing `a` and then `b` is writing `a + b`.
pub proof fn lemma_emit_then_push(p: PrinterView, a: Seq<OutTreeView>, b: Seq<OutTreeView>)
    requires
        p.levels.len() > 0,
    ensures
        spec_push_all(spec_emit(p, a), b) == spec_emit(p, a + b),
        spec_emit(spec_emit(p, a), b) == spec_emit(p, a + b),
{
    lemma_push_all_twice(p, a, b);
}

/// Opening a group, filling it with `args` and closing it writes the group.
pub proof fn lemma_group(p: PrinterView, d: Delimiter, args: Seq<OutTreeView>)
    requires
        p.levels.len() > 0,
    ensures
        spec_close(spec_push_all(spec_open(p, d), args)) == spec_push_all(p, seq![OutTreeView::Group(d, args)]),
{
    let q = spec_push_all(spec_open(p, d), args);
    assert(Seq::<OutTreeView>::empty() + args =~= args);
    assert(q.levels.drop_last() =~= p.levels);
}

/// The head `Atom::ctor` of a call.
pub open spec fn call_head(first: SpanPos, ctor: Seq<char>) -> Seq<OutTreeView> {
    seq![OutTreeView::Ident("Atom"@, first)] + path_sep() + seq![ident_after(ctor)]
}

/// The head `typ::ctor` of a call inside a call.
pub open spec fn path_head(typ: Seq<char>, ctor: Seq<char>) -> Seq<OutTreeView> {
    seq![ident_after(typ)] + path_sep() + seq![ident_after(ctor)]
}

/// Writing a call head, its arguments and the closing parenthesis writes the
/// whole call.
pub proof fn lemma_call(p: PrinterView, ctor: Seq<char>, args: Seq<OutTreeView>)
    requires
        p.levels.len() > 0,
    ensures
        spec_close(spec_push_all(spec_open(spec_emit(p, call_head(p.span, ctor)), Delimiter::Parenthesis), args))
            == spec_emit(p, atom_call(p.span, ctor, args)),
{
    let q = spec_emit(p, call_head(p.span, ctor));
    lemma_group(q, Delimiter::Parenthesis, args);
    lemma_emit_then_push(p, call_head(p.span, ctor), seq![OutTreeView::Group(Delimiter::Parenthesis, args)]);
    assert(call_head(p.span, ctor) + seq![OutTreeView::Group(Delimiter::Parenthesis, args)] =~= atom_call(p.span, ctor, args));
}

/// Writing a call head inside a call, its arguments and the closing
/// parenthesis writes the inner call.
pub proof fn lemma_inner_call(q: PrinterView, typ: Seq<char>, ctor: Seq<char>, args: Seq<OutTreeView>)
    requires
        q.levels.len() > 0,
    ensures
        spec_close(spec_push_all(spec_open(spec_push_all(q, path_head(typ, ctor)), Delimiter::Parenthesis), args))
            == spec_push_all(q, path_head(typ, ctor) + seq![OutTreeView::Group(Delimiter::Parenthesis, args)]),
{
    let r = spec_push_all(q, path_head(typ, ctor));
    lemma_group(r, Delimiter::Parenthesis, args);
    lemma_push_all_twice(q, path_head(typ, ctor), seq![OutTreeView::Group(Delimiter::Parenthesis, args)]);
}

/// The printer after opening a group with delimiter `d`.
pub open spec fn spec_open(p: PrinterView, d: Delimiter) -> PrinterView {
    PrinterView { span: p.span, levels: p.levels.push((d, Seq::empty())) }
}

/// The printer after closing the innermost group, which becomes a tree of the
/// group around it.
pub open spec fn spec_close(p: PrinterView) -> PrinterView {
    let inner = p.levels.last();
    spec_push_all(
        PrinterView { span: p.span, levels: p.levels.drop_last() },
        seq![OutTreeView::Group(inner.0, inner.1)],
    )
}

/// The delimiter and the direction (opening or not) of a delimiter character.
pub open spec fn delimiter_of(c: char) -> Option<(bool, Delimiter)> {
    if c == '(' {
        Some((true, Delimiter::Parenthesis))
    } else if c == '{' {
        Some((true, Delimiter::Brace))
    } else if c == '[' {
        Some((true, Delimiter::Bracket))
    } else if c == ')' {
        Some((false, Delimiter::Parenthesis))
    } else if c == '}' {
        Some((false, Delimiter::Brace))
    } else if c == ']' {
        Some((false, Delimiter::Bracket))
    } else {
        None
    }
}

/// The character at index `i`, a space out of range.
pub open spec fn char_at(chars: Seq<char>, i: int) -> char {
    if 0 <= i < chars.len() {
        chars[i]
    } else {
        ' '
    }
}

/// The punctuation trees of `chars`: each joined to the next, the last alone.
pub open spec fn punct_trees(chars: Seq<char>) -> Seq<OutTreeView> {
    Seq::new(
        chars.len(),
        |i: int| OutTreeView::Punct(char_at(chars, i), if i == chars.len() - 1 { Spacing::Alone } else { Spacing::Joint }),
    )
}

/// Whether `c` is a character that a punctuation token may hold.
pub open spec fn is_punct_char(c: char) -> bool {
    c == '=' || c == '<' || c == '>' || c == '!' || c == '~' || c == '+' || c == '-' || c == '*' || c == '/' || c
        == '%' || c == '^' || c == '&' || c == '|' || c == '@' || c == '.' || c == ',' || c == ';' || c == ':' || c
        == '#' || c == '$' || c == '?' || c == '\''
}

/// Whether `c` is an ASCII letter, an ASCII digit or an underscore.
pub open spec fn is_ascii_word_char(c: char) -> bool {
    ('a' <= c && c <= 'z') || ('A' <= c && c <= 'Z') || ('0' <= c && c <= '9') || c == '_'
}

/// Whether `name` can be the text of an identifier as far as its ASCII
/// characters go: it is not empty, its ASCII characters are letters, digits or
/// underscores, and it does not start with an ASCII digit.
pub open spec fn is_ident_text(name: Seq<char>) -> bool {
    &&& name.len() > 0
    &&& forall|i: int| 0 <= i < name.len() && (#[trigger] name[i] as u32) < 128 ==> is_ascii_word_char(name[i])
    &&& !('0' <= name[0] && name[0] <= '9')
}

/// The first `k` characters of `chars` as punctuation joined to the next.
pub open spec fn joined(chars: Seq<char>, k: nat) -> Seq<OutTreeView> {
    Seq::new(k, |i: int| OutTreeView::Punct(char_at(chars, i), Spacing::Joint))
}

/// An identifier at the span after the call site.
pub open spec fn ident_after(name: Seq<char>) -> OutTreeView {
    OutTreeView::Ident(name, SpanPos::AfterCallSite)
}

/// The path separator `::`.
pub open spec fn path_sep() -> Seq<OutTreeView> {
    seq![OutTreeView::Punct(':', Spacing::Joint), OutTreeView::Punct(':', Spacing::Alone)]
}

/// The code `Atom::ctor(args)`, its first identifier at span `first`.
pub open spec fn atom_call(first: SpanPos, ctor: Seq<char>, args: Seq<OutTreeView>) -> Seq<OutTreeView> {
    seq![OutTreeView::Ident("Atom"@, first)] + path_sep() + seq![
        ident_after(ctor),
        OutTreeView::Group(Delimiter::Parenthesis, args),
    ]
}

/// The code `Atom::gnd(Type::ctor(lit))`.
pub open spec fn grounded_call(first: SpanPos, typ: Seq<char>, ctor: Seq<char>, lit: OutLiteralView) -> Seq<OutTreeView> {
    atom_call(first, "gnd"@, seq![ident_after(typ)] + path_sep() + seq![
        ident_after(ctor),
        OutTreeView::Group(Delimiter::Parenthesis, seq![OutTreeView::Literal(lit)]),
    ])
}

/// The code for the symbol `name`.
pub open spec fn symbol_code(first: SpanPos, name: Seq<char>) -> Seq<OutTreeView> {
    atom_call(first, "sym"@, seq![OutTreeView::Literal(OutLiteralView::Str(name))])
}

/// The code for the variable `name`.
pub open spec fn variable_code(first: SpanPos, name: Seq<char>) -> Seq<OutTreeView> {
    atom_call(first, "var"@, seq![OutTreeView::Literal(OutLiteralView::Str(name))])
}

/// The code for the boolean written `b`.
pub open spec fn bool_code(first: SpanPos, b: Seq<char>) -> Seq<OutTreeView> {
    atom_call(first, "gnd"@, seq![
        ident_after("Bool"@),
        OutTreeView::Group(Delimiter::Parenthesis, seq![ident_after(b)]),
    ])
}

/// The code for the integer `n`.
pub open spec fn integer_code(first: SpanPos, n: i64) -> Seq<OutTreeView> {
    grounded_call(first, "Number"@, "Integer"@, OutLiteralView::Integer(n))
}

/// The code for the float whose text is `text`.
pub open spec fn float_code(first: SpanPos, text: Seq<char>) -> Seq<OutTreeView> {
    grounded_call(first, "Number"@, "Float"@, OutLiteralView::Float(text))
}

/// The code for the string `s`.
pub open spec fn str_code(first: SpanPos, s: Seq<char>) -> Seq<OutTreeView> {
    grounded_call(first, "Str"@, "from_str"@, OutLiteralView::Str(s))
}

/// The printer after starting an expression: `Atom::expr` is written, then a
/// parenthesis and a bracket are opened.
pub open spec fn spec_expr_start(p: PrinterView) -> PrinterView {
    spec_open(spec_open(spec_emit(p, call_head(p.span, "expr"@)), Delimiter::Parenthesis), Delimiter::Bracket)
}

/// The printer after ending an expression: the bracket and the parenthesis
/// are closed.
pub open spec fn spec_expr_end(p: PrinterView) -> PrinterView {
    spec_close(spec_close(p))
}

/// The printer after one of the calls that write an atom: `code` is appended
/// at the current span, and later identifiers point after the call site.
pub open spec fn spec_emit(p: PrinterView, code: Seq<OutTreeView>) -> PrinterView {
    PrinterView { span: SpanPos::AfterCallSite, ..spec_push_all(p, code) }
}

/// Starting an expression, writing its children `xs` and ending it writes
/// `Atom::expr([xs])`.
pub proof fn law_expression(p: PrinterView, xs: Seq<OutTreeView>)
    requires
        p.levels.len() > 0,
    ensures
        spec_expr_end(spec_push_all(spec_expr_start(p), xs)) == spec_emit(
            p,
            atom_call(p.span, "expr"@, seq![OutTreeView::Group(Delimiter::Bracket, xs)]),
        ),
{
    let q = spec_open(spec_emit(p, call_head(p.span, "expr"@)), Delimiter::Parenthesis);
    lemma_group(q, Delimiter::Bracket, xs);
    let inner = seq![OutTreeView::Group(Delimiter::Bracket, xs)];
    assert(spec_push_all(q, inner) == spec_push_all(spec_open(spec_emit(p, call_head(p.span, "expr"@)), Delimiter::Parenthesis), inner));
    lemma_call(p, "expr"@, inner);
}

impl Printer {
    /// A printer with one group, without delimiter, and no trees.
    pub fn new() -> (r: Printer)
        ensures
            r@.span == SpanPos::CallSite,
            r@.levels == seq![(Delimiter::Invisible, Seq::<OutTreeView>::empty())],
    {
        let mut output: Vec<(Delimiter, Vec<OutTree>)> = Vec::new();
        output.push((Delimiter::Invisible, Vec::new()));
        let r = Printer { span: SpanPos::CallSite, output };
        assert(OutTree::values(r.output@[0].1@) =~= Seq::<OutTreeView>::empty());
        assert(r@.levels =~= seq![(Delimiter::Invisible, Seq::<OutTreeView>::empty())]);
        r
    }

    /// The trees written, once every group opened has been closed.
    pub fn get_token_stream(&mut self) -> (r: Vec<OutTree>)
        requires
            old(self)@.levels.len() == 1,
        ensures
            OutTree::values(r@) == old(self)@.levels[0].1,
            final(self)@.levels.len() == 0,
            final(self)@.span == old(self)@.span,
    {
        match self.output.pop() {
            Some((_, stream)) => stream,
            None => Vec::new(),
        }
    }

    /// Appends a tree to the innermost group.
    pub fn push(&mut self, tt: OutTree)
        requires
            old(self)@.levels.len() > 0,
        ensures
            final(self)@ == spec_push_all(old(self)@, seq![tt@]),
    {
        let ghost old_view = self@;
        let ghost old_output = self.output@;
        let ghost tv = tt@;
        let (d, mut last) = match self.output.pop() {
            Some(x) => x,
            None => (Delimiter::Invisible, Vec::new()),
        };
        let ghost old_last = last@;
        last.push(tt);
        let ghost lv = last;
        self.output.push((d, last));
        proof {
            assert(OutTree::values(lv@) =~= OutTree::values(old_last).push(tv));
            let n = old_output.len() - 1;
            assert(self.output@ =~= old_output.update(n, (d, lv)));
            let expect = spec_push_all(old_view, seq![tv]).levels;
            assert forall|i: int| 0 <= i < self.output@.len() implies #[trigger] self@.levels[i] == expect[i] by {
                if i < n {
                    assert(self.output@[i] == old_output[i]);
                }
            }
            assert(self@.levels =~= expect);
        }
    }

    /// The span for the next identifier; identifiers after the first point
    /// just after the call site.
    pub fn span(&mut self) -> (r: SpanPos)
        ensures
            r == old(self)@.span,
            final(self)@ == (PrinterView { span: SpanPos::AfterCallSite, ..old(self)@ }),
    {
        let span = self.span;
        self.span = SpanPos::AfterCallSite;
        span
    }

    /// Writes an identifier.
    pub fn ident(&mut self, name: &str) -> (r: &mut Self)
        requires
            old(self)@.levels.len() > 0,
            is_ident_text(name@),
        ensures
            (*r)@ == spec_emit(old(self)@, seq![OutTreeView::Ident(name@, old(self)@.span)]),
            *final(self) == *final(r),
    {
        let span = self.span();
        self.push(OutTree::Ident(String::from_str(name), span));
        self
    }

    /// Writes the punctuation `chars`, each character joined to the next.
    pub fn punct(&mut self, chars: &str) -> (r: &mut Self)
        requires
            old(self)@.levels.len() > 0,
            chars@.len() > 0,
            forall|i: int| 0 <= i < chars@.len() ==> is_punct_char(#[trigger] chars@[i]),
        ensures
            (*r)@ == spec_push_all(old(self)@, punct_trees(chars@)),
            *final(self) == *final(r),
    {
        let ghost start = self@;
        let n = chars.unicode_len();
        let mut i: usize = 0;
        proof {
            lemma_push_all_empty(start);
            assert(joined(chars@, 0) =~= Seq::<OutTreeView>::empty());
        }
        while i + 1 < n
            invariant
                n == chars@.len(),
                n > 0,
                i + 1 <= n,
                self@ == spec_push_all(start, joined(chars@, i as nat)),
                start.levels.len() > 0,
            decreases n - i,
        {
            let c = chars.get_char(i);
            self.push(OutTree::Punct(c, Spacing::Joint));
            proof {
                lemma_push_all_twice(start, joined(chars@, i as nat), seq![OutTreeView::Punct(c, Spacing::Joint)]);
                assert(joined(chars@, i as nat) + seq![OutTreeView::Punct(c, Spacing::Joint)] =~= joined(chars@, (i + 1) as nat));
            }
            i = i + 1;
        }
        let c = chars.get_char(i);
        self.push(OutTree::Punct(c, Spacing::Alone));
        proof {
            lemma_push_all_twice(start, joined(chars@, i as nat), seq![OutTreeView::Punct(c, Spacing::Alone)]);
            assert(joined(chars@, i as nat) + seq![OutTreeView::Punct(c, Spacing::Alone)] =~= punct_trees(chars@));
        }
        self
    }

    /// Opens or closes a group; `d` is one of `(`, `{`, `[`, `)`, `}`, `]`. A
    /// closing delimiter must match the innermost open group.
    pub fn group(&mut self, d: char) -> (r: &mut Self)
        requires
            delimiter_of(d) is Some,
            delimiter_of(d) matches Some((open, delim)) ==> (!open ==> {
                &&& old(self)@.levels.len() > 1
                &&& old(self)@.levels.last().0 == delim
            }),
        ensures
            delimiter_of(d) matches Some((open, delim)) && (*r)@ == if open {
                spec_open(old(self)@, delim)
            } else {
                spec_close(old(self)@)
            },
            *final(self) == *final(r),
    {
        let ghost old_view = self@;
        let ghost old_output = self.output@;
        let (open, delimiter) = if d == '(' {
            (true, Delimiter::Parenthesis)
        } else if d == '{' {
            (true, Delimiter::Brace)
        } else if d == '[' {
            (true, Delimiter::Bracket)
        } else if d == ')' {
            (false, Delimiter::Parenthesis)
        } else if d == '}' {
            (false, Delimiter::Brace)
        } else {
            (false, Delimiter::Bracket)
        };
        if open {
            self.output.push((delimiter, Vec::new()));
            proof {
                assert(OutTree::values(Seq::<OutTree>::empty()) =~= Seq::<OutTreeView>::empty());
                assert forall|i: int| 0 <= i < self.output@.len() implies #[trigger] self@.levels[i] == spec_open(old_view, delimiter).levels[i] by {
                    if i < old_output.len() {
                        assert(self.output@[i] == old_output[i]);
                    }
                }
                assert(self@.levels =~= spec_open(old_view, delimiter).levels);
            }
        } else {
            let stream = match self.output.pop() {
                Some((_, stream)) => stream,
                None => Vec::new(),
            };
            proof {
                assert(self@.levels =~= old_view.levels.drop_last()) by {
                    assert forall|i: int| 0 <= i < self.output@.len() implies #[trigger] self@.levels[i] == old_view.levels.drop_last()[i] by {
                        assert(self.output@[i] == old_output[i]);
                    }
                }
            }
            self.push(OutTree::Group(delimiter, stream));
        }
        self
    }

    /// Writes a literal.
    pub fn literal(&mut self, lit: OutLiteral) -> (r: &mut Self)
        requires
            old(self)@.levels.len() > 0,
        ensures
            (*r)@ == spec_push_all(old(self)@, seq![OutTreeView::Literal(lit.value())]),
            *final(self) == *final(r),
    {
        self.push(OutTree::Literal(lit));
        self
    }

    /// Writes a string literal.
    pub fn string(&mut self, text: &str) -> (r: &mut Self)
        requires
            old(self)@.levels.len() > 0,
        ensures
            (*r)@ == spec_push_all(old(self)@, seq![OutTreeView::Literal(OutLiteralView::Str(text@))]),
            *final(self) == *final(r),
    {
        self.push(OutTree::Literal(OutLiteral::Str(String::from_str(text))));
        self
    }

    /// Writes `Atom::ctor(`, leaving the parenthesis open.
    fn call_start(&mut self, ctor: &str)
        requires
            old(self)@.levels.len() > 0,
            is_ident_text(ctor@),
        ensures
            final(self)@ == spec_open(spec_emit(old(self)@, call_head(old(self)@.span, ctor@)), Delimiter::Parenthesis),
    {
        let ghost p0 = self@;
        let ghost a = seq![OutTreeView::Ident("Atom"@, p0.span)];
        let ghost b = seq![ident_after(ctor@)];
        proof {
            reveal_strlit("::");
            reveal_strlit("Atom");
            assert(punct_trees("::"@) =~= path_sep());
            lemma_emit_then_push(p0, a, path_sep());
            lemma_emit_then_push(p0, a + path_sep(), b);
        }
        self.ident("Atom");
        assert(self@ == spec_emit(p0, a));
        self.punct("::");
        assert(self@ == spec_emit(p0, a + path_sep()));
        self.ident(ctor);
        assert(self@ == spec_emit(p0, a + path_sep() + b));
        self.group('(');
    }

    /// Writes `typ::ctor(`, leaving the parenthesis open; identifiers already
    /// point after the call site.
    fn path_call_start(&mut self, typ: &str, ctor: &str)
        requires
            old(self)@.levels.len() > 0,
            is_ident_text(typ@),
            is_ident_text(ctor@),
            old(self)@.span == SpanPos::AfterCallSite,
        ensures
            final(self)@ == spec_open(spec_push_all(old(self)@, path_head(typ@, ctor@)), Delimiter::Parenthesis),
    {
        let ghost p0 = self@;
        let ghost a = seq![ident_after(typ@)];
        let ghost b = seq![ident_after(ctor@)];
        proof {
            reveal_strlit("::");
            assert(punct_trees("::"@) =~= path_sep());
            lemma_emit_then_push(p0, a, path_sep());
            lemma_emit_then_push(p0, a + path_sep(), b);
            assert(spec_emit(p0, a + path_sep() + b) == spec_push_all(p0, a + path_sep() + b));
        }
        self.ident(typ);
        assert(self@ == spec_emit(p0, a));
        self.punct("::");
        assert(self@ == spec_emit(p0, a + path_sep()));
        self.ident(ctor);
        assert(self@ == spec_emit(p0, a + path_sep() + b));
        self.group('(');
    }

    /// Writes the code that builds the symbol `name`.
    pub fn symbol(&mut self, name: &str)
        requires
            old(self)@.levels.len() > 0,
        ensures
            final(self)@ == spec_emit(old(self)@, symbol_code(old(self)@.span, name@)),
    {
        let ghost p0 = self@;
        let ghost args = seq![OutTreeView::Literal(OutLiteralView::Str(name@))];
        proof {
            reveal_strlit("sym");
        }
        self.call_start("sym");
        self.string(name);
        self.group(')');
        proof {
            lemma_call(p0, "sym"@, args);
        }
    }

    /// Writes the code that builds the variable `name`.
    pub fn variable(&mut self, name: &str)
        requires
            old(self)@.levels.len() > 0,
        ensures
            final(self)@ == spec_emit(old(self)@, variable_code(old(self)@.span, name@)),
    {
        let ghost p0 = self@;
        let ghost args = seq![OutTreeView::Literal(OutLiteralView::Str(name@))];
        proof {
            reveal_strlit("var");
        }
        self.call_start("var");
        self.string(name);
        self.group(')');
        proof {
            lemma_call(p0, "var"@, args);
        }
    }

    /// Writes the code that builds the boolean written `b`.
    pub fn bool(&mut self, b: &str)
        requires
            old(self)@.levels.len() > 0,
            is_ident_text(b@),
        ensures
            final(self)@ == spec_emit(old(self)@, bool_code(old(self)@.span, b@)),
    {
        let ghost p0 = self@;
        let ghost inner = seq![ident_after(b@)];
        let ghost args = seq![ident_after("Bool"@), OutTreeView::Group(Delimiter::Parenthesis, inner)];
        proof {
            reveal_strlit("gnd");
            reveal_strlit("Bool");
        }
        self.call_start("gnd");
        let ghost q0 = self@;
        self.ident("Bool");
        assert(self@ == spec_push_all(q0, seq![ident_after("Bool"@)]));
        self.group('(');
        self.ident(b);
        assert(self@ == spec_push_all(spec_open(spec_push_all(q0, seq![ident_after("Bool"@)]), Delimiter::Parenthesis), inner));
        self.group(')');
        proof {
            lemma_group(spec_push_all(q0, seq![ident_after("Bool"@)]), Delimiter::Parenthesis, inner);
            lemma_push_all_twice(q0, seq![ident_after("Bool"@)], seq![OutTreeView::Group(Delimiter::Parenthesis, inner)]);
            assert(seq![ident_after("Bool"@)] + seq![OutTreeView::Group(Delimiter::Parenthesis, inner)] =~= args);
        }
        self.group(')');
        proof {
            lemma_call(p0, "gnd"@, args);
        }
    }

    /// Writes `Atom::gnd(typ::ctor(lit))`.
    fn grounded(&mut self, typ: &str, ctor: &str, lit: OutLiteral)
        requires
            old(self)@.levels.len() > 0,
            is_ident_text(typ@),
            is_ident_text(ctor@),
        ensures
            final(self)@ == spec_emit(old(self)@, grounded_call(old(self)@.span, typ@, ctor@, lit.value())),
    {
        let ghost p0 = self@;
        let ghost lits = seq![OutTreeView::Literal(lit.value())];
        let ghost args = path_head(typ@, ctor@) + seq![OutTreeView::Group(Delimiter::Parenthesis, lits)];
        proof {
            reveal_strlit("gnd");
        }
        self.call_start("gnd");
        let ghost q0 = self@;
        self.path_call_start(typ, ctor);
        self.literal(lit);
        self.group(')');
        proof {
            lemma_inner_call(q0, typ@, ctor@, lits);
        }
        self.group(')');
        proof {
            lemma_call(p0, "gnd"@, args);
            assert(args =~= seq![ident_after(typ@)] + path_sep() + seq![
                ident_after(ctor@),
                OutTreeView::Group(Delimiter::Parenthesis, lits),
            ]);
        }
    }

    /// Writes the code that builds the integer `n`.
    pub fn integer(&mut self, n: i64)
        requires
            old(self)@.levels.len() > 0,
        ensures
            final(self)@ == spec_emit(old(self)@, integer_code(old(self)@.span, n)),
    {
        proof {
            reveal_strlit("Number");
            reveal_strlit("Integer");
        }
        self.grounded("Number", "Integer", OutLiteral::Integer(n));
    }

    /// Writes the code that builds the float whose text is `text`.
    pub fn float(&mut self, text: &str)
        requires
            old(self)@.levels.len() > 0,
        ensures
            final(self)@ == spec_emit(old(self)@, float_code(old(self)@.span, text@)),
    {
        proof {
            reveal_strlit("Number");
            reveal_strlit("Float");
        }
        self.grounded("Number", "Float", OutLiteral::Float(String::from_str(text)));
    }

    /// Writes the code that builds the string `s`.
    pub fn str(&mut self, s: &str)
        requires
            old(self)@.levels.len() > 0,
        ensures
            final(self)@ == spec_emit(old(self)@, str_code(old(self)@.span, s@)),
    {
        proof {
            reveal_strlit("Str");
            reveal_strlit("from_str");
        }
        self.grounded("Str", "from_str", OutLiteral::Str(String::from_str(s)));
    }

    /// Starts the code of an expression: `Atom::expr([`.
    pub fn expr_start(&mut self)
        requires
            old(self)@.levels.len() > 0,
        ensures
            final(self)@ == spec_expr_start(old(self)@),
    {
        proof {
            reveal_strlit("expr");
        }
        self.call_start("expr");
        self.group('[');
    }

    /// Writes the comma between the children of an expression.
    pub fn expr_delimiter(&mut self)
        requires
            old(self)@.levels.len() > 0,
        ensures
            final(self)@ == spec_push_all(old(self)@, seq![OutTreeView::Punct(',', Spacing::Alone)]),
    {
        proof {
            reveal_strlit(",");
            assert(punct_trees(","@) =~= seq![OutTreeView::Punct(',', Spacing::Alone)]);
        }
        self.punct(",");
    }

    /// Ends the code of an expression: `])`.
    pub fn expr_end(&mut self)
        requires
            old(self)@.levels.len() > 2,
            old(self)@.levels.last().0 == Delimiter::Bracket,
            old(self)@.levels[old(self)@.levels.len() - 2].0 == Delimiter::Parenthesis,
        ensures
            final(self)@ == spec_expr_end(old(self)@),
    {
        self.group(']');
        self.group(')');
    }
}

} // verus!
