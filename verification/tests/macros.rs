use hyperon::converter::{MettaConverter, metta, metta_error, try_metta};
use hyperon::printer::{OutLiteral, OutTree, SpanPos, Spacing};
use hyperon::token::{Delimiter, LineColumn, MettaError, SourceTree, Span, TreeKind};

/// Token trees laid out one after another on line 1, each touching the next.
fn trees(items: &[(TreeKind, &str)]) -> Vec<SourceTree> {
    let mut column = 0;
    let mut out = Vec::new();
    for (kind, text) in items {
        let len = text.chars().count();
        out.push(SourceTree {
            kind: *kind,
            text: text.to_string(),
            span: Span {
                start: LineColumn { line: 1, column },
                end: LineColumn { line: 1, column: column + len },
            },
        });
        column += len;
    }
    out
}

/// The output trees written as Rust source, without spaces.
fn render(ts: &[OutTree]) -> String {
    let mut s = String::new();
    for t in ts {
        match t {
            OutTree::Ident(name, _) => s.push_str(name),
            OutTree::Punct(c, _) => s.push(*c),
            OutTree::Literal(OutLiteral::Str(x)) => s.push_str(&format!("{:?}", x)),
            OutTree::Literal(OutLiteral::Integer(n)) => s.push_str(&format!("{}i64", n)),
            OutTree::Literal(OutLiteral::Float(x)) => s.push_str(&format!("{}f64", x)),
            OutTree::Group(d, inner) => {
                let (open, close) = match d {
                    Delimiter::Parenthesis => ("(", ")"),
                    Delimiter::Brace => ("{", "}"),
                    Delimiter::Bracket => ("[", "]"),
                    Delimiter::Invisible => ("", ""),
                };
                s.push_str(open);
                s.push_str(&render(inner));
                s.push_str(close);
            },
        }
    }
    s
}

fn convert(items: &[(TreeKind, &str)]) -> Result<String, MettaError> {
    try_metta(trees(items)).map(|ts| render(&ts))
}

const LIT: TreeKind = TreeKind::Literal;

#[test]
fn macros_metta_literal() {
    assert_eq!(convert(&[(LIT, "1")]), Ok("Atom::gnd(Number::Integer(1i64))".to_string()));
    assert_eq!(convert(&[(TreeKind::Punct('-'), "-"), (LIT, "1")]), Ok("Atom::gnd(Number::Integer(-1i64))".to_string()));
    assert_eq!(convert(&[(TreeKind::Punct('+'), "+"), (LIT, "1")]), Ok("Atom::gnd(Number::Integer(1i64))".to_string()));
    assert_eq!(convert(&[(LIT, "1.0")]), Ok("Atom::gnd(Number::Float(1.0f64))".to_string()));
    assert_eq!(convert(&[(TreeKind::Punct('-'), "-"), (LIT, "1.0")]), Ok("Atom::gnd(Number::Float(-1.0f64))".to_string()));
    assert_eq!(convert(&[(TreeKind::Punct('+'), "+"), (LIT, "1.0")]), Ok("Atom::gnd(Number::Float(+1.0f64))".to_string()));
    assert_eq!(convert(&[(LIT, "\"text\"")]), Ok("Atom::gnd(Str::from_str(\"text\"))".to_string()));
    assert_eq!(convert(&[(TreeKind::Ident, "True")]), Ok("Atom::gnd(Bool(true))".to_string()));
    assert_eq!(convert(&[(TreeKind::Ident, "False")]), Ok("Atom::gnd(Bool(false))".to_string()));
}

#[test]
fn symbol_and_variable() {
    assert_eq!(convert(&[(TreeKind::Ident, "foo")]), Ok("Atom::sym(\"foo\")".to_string()));
    assert_eq!(
        convert(&[(TreeKind::Punct('$'), "$"), (TreeKind::Ident, "x")]),
        Ok("Atom::var(\"x\")".to_string())
    );
    assert_eq!(
        convert(&[(TreeKind::Punct('$'), "$"), (TreeKind::Ident, "x"), (LIT, "1"), (TreeKind::Punct('-'), "-")]),
        Ok("Atom::var(\"x1-\")".to_string())
    );
    assert_eq!(convert(&[(TreeKind::Punct('$'), "$")]), Ok("Atom::var(\"\")".to_string()));
    assert_eq!(convert(&[(TreeKind::Punct('-'), "-")]), Ok("Atom::sym(\"-\")".to_string()));
}

#[test]
fn expression_and_empty_input() {
    assert_eq!(
        convert(&[(TreeKind::Group(Delimiter::Parenthesis), "(a b)")]),
        Ok("Atom::expr([])".to_string())
    );
    assert_eq!(convert(&[]), Ok("".to_string()));
}

#[test]
fn spans_and_spacing_of_output() {
    let out = metta(trees(&[(TreeKind::Ident, "foo")]));
    assert_eq!(out[0], OutTree::Ident("Atom".to_string(), SpanPos::CallSite));
    assert_eq!(out[1], OutTree::Punct(':', Spacing::Joint));
    assert_eq!(out[2], OutTree::Punct(':', Spacing::Alone));
    assert_eq!(out[3], OutTree::Ident("sym".to_string(), SpanPos::AfterCallSite));
    assert_eq!(out.len(), 5);
}

#[test]
fn gap_before_empty_tree() {
    let input = vec![
        SourceTree {
            kind: TreeKind::Ident,
            text: "a".to_string(),
            span: Span { start: LineColumn { line: 1, column: 0 }, end: LineColumn { line: 1, column: 1 } },
        },
        SourceTree {
            kind: TreeKind::Ident,
            text: "b".to_string(),
            span: Span { start: LineColumn { line: 1, column: 4 }, end: LineColumn { line: 1, column: 4 } },
        },
    ];
    assert_eq!(try_metta(input).map(|ts| render(&ts)), Ok("Atom::sym(\"a\")Atom::sym(\"b\")".to_string()));
}

#[test]
fn each_error() {
    assert_eq!(convert(&[(LIT, "1_000")]), Err(MettaError::IntegerParse));
    assert_eq!(convert(&[(LIT, "99999999999999999999")]), Err(MettaError::IntegerParse));
    assert_eq!(convert(&[(LIT, "'c'")]), Err(MettaError::Unsupported));
    assert_eq!(convert(&[(TreeKind::Punct('*'), "*")]), Err(MettaError::Unsupported));
    assert_eq!(convert(&[(TreeKind::Ident, "a"), (TreeKind::Ident, "b")]), Err(MettaError::Unsupported));
    assert_eq!(convert(&[(TreeKind::Group(Delimiter::Bracket), "[a]")]), Err(MettaError::Unsupported));
    assert_eq!(convert(&[(LIT, "1.0.0")]), Err(MettaError::LiteralParse));
    assert_eq!(
        convert(&[(TreeKind::Punct('-'), "-"), (TreeKind::Ident, "x")]),
        Err(MettaError::Unsupported)
    );
}

#[test]
fn signed_integer_limits() {
    assert_eq!(
        convert(&[(TreeKind::Punct('-'), "-"), (LIT, "9223372036854775808")]),
        Ok("Atom::gnd(Number::Integer(-9223372036854775808i64))".to_string())
    );
    assert_eq!(convert(&[(LIT, "9223372036854775808")]), Err(MettaError::IntegerParse));
    assert_eq!(
        convert(&[(LIT, "9223372036854775807")]),
        Ok("Atom::gnd(Number::Integer(9223372036854775807i64))".to_string())
    );
}

#[test]
fn string_literal_quotes_cut() {
    assert_eq!(convert(&[(LIT, "\"a\\nb\"")]), Ok("Atom::gnd(Str::from_str(\"a\\\\nb\"))".to_string()));
    assert_eq!(convert(&[(LIT, "\"\"")]), Ok("Atom::gnd(Str::from_str(\"\"))".to_string()));
    assert_eq!(convert(&[(LIT, "\"a\"é")]), Err(MettaError::StringSlice));
    assert_eq!(convert(&[(LIT, "\"a\"x")]), Ok("Atom::gnd(Str::from_str(\"a\\\"\"))".to_string()));
}

#[test]
fn converter_steps() {
    let mut c = MettaConverter::new(trees(&[(TreeKind::Ident, "a"), (TreeKind::Ident, "b")]));
    assert_eq!(c.step_error(), None);
    c.next_state();
    assert_eq!(c.step_error(), Some(MettaError::Unsupported));
    assert_eq!(metta_error(&trees(&[(TreeKind::Ident, "a"), (TreeKind::Ident, "b")])), Some(MettaError::Unsupported));
    assert_eq!(metta_error(&trees(&[(TreeKind::Ident, "a")])), None);
    let mut d = MettaConverter::new(trees(&[(LIT, "7")]));
    let out = d.run();
    assert_eq!(render(&out), "Atom::gnd(Number::Integer(7i64))");
}
