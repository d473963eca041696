use hyperon::printer::{OutLiteral, OutTree, Printer, SpanPos, Spacing};
use hyperon::token::Delimiter;

#[test]
fn expression_wraps_its_children() {
    let mut p = Printer::new();
    p.expr_start();
    p.symbol("a");
    p.expr_delimiter();
    p.integer(2);
    p.expr_end();
    let out = p.get_token_stream();
    assert_eq!(out.len(), 5);
    assert_eq!(out[0], OutTree::Ident("Atom".to_string(), SpanPos::CallSite));
    match &out[4] {
        OutTree::Group(Delimiter::Parenthesis, inner) => match &inner[0] {
            OutTree::Group(Delimiter::Bracket, children) => {
                assert_eq!(children.len(), 11);
                assert_eq!(children[5], OutTree::Punct(',', Spacing::Alone));
            },
            other => panic!("unexpected {:?}", other),
        },
        other => panic!("unexpected {:?}", other),
    }
}

#[test]
fn punct_joins_all_but_the_last() {
    let mut p = Printer::new();
    p.punct("=>").punct(";");
    let out = p.get_token_stream();
    assert_eq!(out, vec![
        OutTree::Punct('=', Spacing::Joint),
        OutTree::Punct('>', Spacing::Alone),
        OutTree::Punct(';', Spacing::Alone),
    ]);
}

#[test]
fn groups_and_literals() {
    let mut p = Printer::new();
    p.ident("f").group('{').literal(OutLiteral::Integer(3)).string("s").group('}');
    assert_eq!(p.span(), SpanPos::AfterCallSite);
    let out = p.get_token_stream();
    assert_eq!(out, vec![
        OutTree::Ident("f".to_string(), SpanPos::CallSite),
        OutTree::Group(Delimiter::Brace, vec![
            OutTree::Literal(OutLiteral::Integer(3)),
            OutTree::Literal(OutLiteral::Str("s".to_string())),
        ]),
    ]);
}

#[test]
fn codes_of_atoms() {
    let mut p = Printer::new();
    p.variable("x");
    p.bool("true");
    p.float("1.5");
    p.str("t");
    p.push(OutTree::Punct(';', Spacing::Alone));
    let out = p.get_token_stream();
    assert_eq!(out.len(), 21);
    assert_eq!(out[3], OutTree::Ident("var".to_string(), SpanPos::AfterCallSite));
    assert_eq!(out[5], OutTree::Ident("Atom".to_string(), SpanPos::AfterCallSite));
}

#[test]
fn group_opens_on_an_emptied_printer() {
    let mut p = Printer::new();
    p.symbol("a");
    let first = p.get_token_stream();
    assert_eq!(first.len(), 5);
    p.group('(').group('[');
    p.string("x");
    p.group(']');
    p.push(OutTree::Punct(';', Spacing::Alone));
}
