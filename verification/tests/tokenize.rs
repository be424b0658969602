use rust_to_prolog::port::BoundedStr;
use rust_to_prolog::tokenize::{tokenize, Token, TokenizeError, ATOM_CAP, MAX_TOKENS};

fn bs(s: &str) -> BoundedStr<ATOM_CAP> {
    BoundedStr::<ATOM_CAP>::from_str(s).expect("test name fits")
}

fn tok_vec(src: &str) -> Vec<Token> {
    let arr = tokenize(src).expect("tokenize ok");
    arr.iter().copied().collect()
}

const ANCESTOR_PL: &str = "parent(bob, ann).\nparent(ann, liz).\nancestor(X, Y) :- parent(X, Y).\nancestor(X, Y) :- parent(X, Z), ancestor(Z, Y).\n?- ancestor(bob, liz).\n";

#[test]
fn empty_source_emits_only_eof() {
    let v = tok_vec("");
    assert_eq!(v, vec![Token::Eof]);
}

#[test]
fn whitespace_only() {
    let v = tok_vec("   \n\t  \r\n");
    assert_eq!(v, vec![Token::Eof]);
}

#[test]
fn atoms_vars_ints() {
    let v = tok_vec("foo Bar _baz 42 -7");
    assert_eq!(
        v,
        vec![
            Token::Atom(bs("foo")),
            Token::Var(bs("Bar")),
            Token::Var(bs("_baz")),
            Token::Int(42),
            Token::Int(-7),
            Token::Eof,
        ]
    );
}

#[test]
fn punctuation_each_kind() {
    let v = tok_vec("( ) [ ] , . |");
    assert_eq!(
        v,
        vec![
            Token::LParen,
            Token::RParen,
            Token::LBracket,
            Token::RBracket,
            Token::Comma,
            Token::Dot,
            Token::Pipe,
            Token::Eof,
        ]
    );
}

#[test]
fn neck_query_cut_not() {
    let v = tok_vec(":- ?- ! \\+");
    assert_eq!(v, vec![Token::Neck, Token::Query, Token::Cut, Token::Not, Token::Eof]);
}

#[test]
fn alphanumeric_identifier_with_digits_and_underscore() {
    let v = tok_vec("parent_of_2");
    assert_eq!(v, vec![Token::Atom(bs("parent_of_2")), Token::Eof]);
}

#[test]
fn line_comment_is_skipped() {
    let v = tok_vec("foo % this is ignored\nbar");
    assert_eq!(v, vec![Token::Atom(bs("foo")), Token::Atom(bs("bar")), Token::Eof]);
}

#[test]
fn block_comment_is_skipped() {
    let v = tok_vec("foo /* middle \n stuff */ bar");
    assert_eq!(v, vec![Token::Atom(bs("foo")), Token::Atom(bs("bar")), Token::Eof]);
}

#[test]
fn fact_shape() {
    let v = tok_vec("parent(bob, ann).");
    assert_eq!(
        v,
        vec![
            Token::Atom(bs("parent")),
            Token::LParen,
            Token::Atom(bs("bob")),
            Token::Comma,
            Token::Atom(bs("ann")),
            Token::RParen,
            Token::Dot,
            Token::Eof,
        ]
    );
}

#[test]
fn tokenize_ancestor_file_matches_reference_count() {
    let arr = tokenize(ANCESTOR_PL).expect("tokenize ok");
    assert_eq!(arr.len(), 58);
    assert_eq!(arr.get(arr.len() - 1), Some(&Token::Eof));
    assert_eq!(arr.get(0), Some(&Token::Atom(bs("parent"))));
    assert_eq!(arr.get(1), Some(&Token::LParen));
    assert_eq!(arr.get(arr.len() - 2), Some(&Token::Dot));
}

#[test]
fn error_unterminated_block_comment() {
    let err = tokenize("foo /* never closed").unwrap_err();
    assert!(matches!(err, TokenizeError::UnterminatedBlockComment { .. }));
}

#[test]
fn error_bad_identifier_char() {
    let err = tokenize("foo @ bar").unwrap_err();
    assert!(matches!(err, TokenizeError::InvalidChar { ch: '@', .. }));
}

#[test]
fn error_overflow_on_too_many_tokens() {
    let src = "a ".repeat(MAX_TOKENS + 8);
    let err = tokenize(&src).unwrap_err();
    assert!(matches!(err, TokenizeError::Overflow));
}

#[test]
fn error_identifier_too_long() {
    let long = "a".repeat(ATOM_CAP + 1);
    let err = tokenize(&long).unwrap_err();
    assert!(matches!(err, TokenizeError::IdentTooLong { .. }));
}

#[test]
fn arithmetic_and_comparison_operators() {
    let v = tok_vec("X - 2 < 3 + Y > Z = W");
    assert_eq!(
        v,
        vec![
            Token::Var(bs("X")),
            Token::Minus,
            Token::Int(2),
            Token::Lt,
            Token::Int(3),
            Token::Plus,
            Token::Var(bs("Y")),
            Token::Gt,
            Token::Var(bs("Z")),
            Token::Eq,
            Token::Var(bs("W")),
            Token::Eof,
        ]
    );
}

#[test]
fn int_edges() {
    assert_eq!(tok_vec("2147483647"), vec![Token::Int(2147483647), Token::Eof]);
    assert_eq!(tok_vec("-2147483648"), vec![Token::Int(-2147483648), Token::Eof]);
    assert!(matches!(tokenize("2147483648").unwrap_err(), TokenizeError::IntOverflow { pos: 0 }));
}

#[test]
fn identifier_at_capacity_fits() {
    let name = "b".repeat(ATOM_CAP);
    assert_eq!(tok_vec(&name), vec![Token::Atom(bs(&name)), Token::Eof]);
}

#[test]
fn tokenize_always_ends_with_eof() {
    for src in ["p.", "?- q(X).", "  % only a comment", "a(1, [b|C])."] {
        let arr = tokenize(src).expect("tokenize ok");
        assert_eq!(arr.get(arr.len() - 1), Some(&Token::Eof));
    }
}
