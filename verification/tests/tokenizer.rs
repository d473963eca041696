use hyperon::token::{Delimiter, LineColumn, SourceTree, Span, Token, TreeKind};
use hyperon::tokenizer::{Tokenizer, first_endless_gap, readable};

fn tree(kind: TreeKind, text: &str, start: usize, end: usize) -> SourceTree {
    SourceTree {
        kind,
        text: text.to_string(),
        span: Span { start: LineColumn { line: 1, column: start }, end: LineColumn { line: 1, column: end } },
    }
}

fn kind_of(t: &Token) -> String {
    match t {
        Token::Space => "space".to_string(),
        Token::Int(s) => format!("int {}", s),
        Token::Float(s) => format!("float {}", s),
        Token::Str(s) => format!("str {}", s),
        Token::Punct(c) => format!("punct {}", c),
        Token::Other(tt) => format!("other {}", tt.text),
        Token::End => "end".to_string(),
    }
}

#[test]
fn gapless_input_reads_tree_by_tree() {
    let input = vec![
        tree(TreeKind::Punct('-'), "-", 0, 1),
        tree(TreeKind::Literal, "1", 1, 2),
        tree(TreeKind::Literal, "2.5", 2, 5),
        tree(TreeKind::Literal, "\"s\"", 5, 8),
        tree(TreeKind::Literal, "'c'", 8, 11),
        tree(TreeKind::Group(Delimiter::Parenthesis), "(x)", 11, 14),
    ];
    let mut t = Tokenizer::new(input);
    let mut seen = Vec::new();
    for _ in 0..8 {
        seen.push(kind_of(&t.next()));
    }
    assert_eq!(seen, vec!["punct -", "int 1", "float 2.5", "str \"s\"", "other 'c'", "other (x)", "space", "end"]);
}

#[test]
fn empty_input_ends_at_once() {
    let mut t = Tokenizer::new(Vec::new());
    assert_eq!(kind_of(&t.next()), "end");
    assert_eq!(kind_of(&t.next()), "space");
}

#[test]
fn gap_gives_spaces_again_and_again() {
    let input = vec![tree(TreeKind::Ident, "a", 0, 1), tree(TreeKind::Ident, "b", 2, 3)];
    let mut t = Tokenizer::new(input);
    assert_eq!(kind_of(&t.next()), "other a");
    for _ in 0..5 {
        assert_eq!(kind_of(&t.next()), "space");
    }
}

#[test]
fn unreadable_literal() {
    assert!(!readable(&tree(TreeKind::Literal, "1.0.0", 0, 5)));
    assert!(readable(&tree(TreeKind::Literal, "1.0", 0, 3)));
    assert!(readable(&tree(TreeKind::Ident, "x", 0, 1)));
    assert!(!Tokenizer::first_readable(&vec![tree(TreeKind::Literal, "1.0.0", 0, 5)]));
    assert!(Tokenizer::first_readable(&vec![]));
    let mut t = Tokenizer::new(vec![tree(TreeKind::Ident, "a", 0, 1), tree(TreeKind::Literal, "1.0.0", 1, 6)]);
    assert!(!t.step_readable());
    let mut u = Tokenizer::new(vec![tree(TreeKind::Ident, "a", 0, 1), tree(TreeKind::Literal, "1.0.0", 3, 8)]);
    assert!(u.step_readable());
    assert_eq!(kind_of(&u.next()), "other a");
    assert_eq!(kind_of(u.peek()), "space");
    assert!(t.peek().to_string() == "a");
    t = Tokenizer::new(vec![]);
    assert_eq!(kind_of(&t.next()), "end");
}

#[test]
fn token_text_and_range() {
    assert_eq!(Token::Punct('$').to_string(), "$");
    assert_eq!(Token::Space.to_string(), " ");
    assert_eq!(Token::Int("12".to_string()).to_string(), "12");
    assert_eq!(Tokenizer::range(LineColumn { line: 3, column: 4 }), (3, 4));
    let (tok, span) = Tokenizer::to_token(tree(TreeKind::Literal, "0x1f", 2, 6));
    assert_eq!(kind_of(&tok), "int 0x1f");
    assert_eq!(span.start.column, 2);
}

#[test]
fn endless_gap_check() {
    assert_eq!(first_endless_gap(&vec![]), None);
    assert_eq!(first_endless_gap(&vec![tree(TreeKind::Ident, "a", 0, 1)]), None);
    assert_eq!(first_endless_gap(&vec![tree(TreeKind::Ident, "a", 0, 1), tree(TreeKind::Ident, "b", 1, 2)]), None);
    assert_eq!(first_endless_gap(&vec![tree(TreeKind::Ident, "a", 0, 1), tree(TreeKind::Ident, "b", 2, 3)]), Some(1));
    assert_eq!(first_endless_gap(&vec![tree(TreeKind::Ident, "a", 0, 1), tree(TreeKind::Ident, "b", 4, 4)]), None);
    assert_eq!(
        first_endless_gap(&vec![
            tree(TreeKind::Ident, "a", 0, 1),
            tree(TreeKind::Ident, "b", 1, 2),
            tree(TreeKind::Ident, "c", 5, 6),
        ]),
        Some(2)
    );
}

#[test]
fn gap_before_empty_tree_gives_one_space() {
    let input = vec![tree(TreeKind::Ident, "a", 0, 1), tree(TreeKind::Ident, "b", 4, 4)];
    let mut t = Tokenizer::new(input);
    let seen: Vec<String> = (0..5).map(|_| kind_of(&t.next())).collect();
    assert_eq!(seen, vec!["other a", "space", "other b", "space", "end"]);
}
