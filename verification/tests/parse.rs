use rust_to_prolog::parse::{parse, AtomId, AtomTable, ClauseKind, ParseError, Term, NAME_CAP};
use rust_to_prolog::port::{BoundedArr, BoundedStr};
use rust_to_prolog::tokenize::{Token, MAX_TOKENS};

fn tstream(arr: &[Token]) -> BoundedArr<Token, MAX_TOKENS> {
    let mut out: BoundedArr<Token, MAX_TOKENS> = BoundedArr::new();
    for t in arr {
        out.push(*t).expect("test stream fits");
    }
    out.push(Token::Eof).expect("eof fits");
    out
}

fn a(s: &str) -> Token {
    Token::Atom(BoundedStr::<NAME_CAP>::from_str(s).expect("atom name fits"))
}

fn v(s: &str) -> Token {
    Token::Var(BoundedStr::<NAME_CAP>::from_str(s).expect("var name fits"))
}

fn name_of(atoms: &AtomTable, id: AtomId) -> &str {
    atoms.name(id).expect("atom id in range").as_str()
}

#[test]
fn parse_single_fact() {
    // parent(bob, ann).
    let toks = tstream(&[
        a("parent"), Token::LParen, a("bob"), Token::Comma, a("ann"),
        Token::RParen, Token::Dot,
    ]);
    let mut atoms = AtomTable::new();
    let clauses = parse(&toks, &mut atoms).expect("parse ok");
    assert_eq!(clauses.len(), 1);
    let c = clauses.get(0).unwrap();
    assert_eq!(c.kind, ClauseKind::Fact);
    let (name, arity) = match c.head {
        Term::Struct { functor, args } => (name_of(&atoms, functor), args.len()),
        _ => panic!("head is not struct"),
    };
    assert_eq!(name, "parent");
    assert_eq!(arity, 2);
    assert!(c.body.is_empty());
}

#[test]
fn parse_rule_with_single_body_goal() {
    // ancestor(X, Y) :- parent(X, Y).
    let toks = tstream(&[
        a("ancestor"), Token::LParen, v("X"), Token::Comma, v("Y"), Token::RParen,
        Token::Neck,
        a("parent"), Token::LParen, v("X"), Token::Comma, v("Y"), Token::RParen,
        Token::Dot,
    ]);
    let mut atoms = AtomTable::new();
    let clauses = parse(&toks, &mut atoms).expect("parse ok");
    assert_eq!(clauses.len(), 1);
    let c = clauses.get(0).unwrap();
    assert_eq!(c.kind, ClauseKind::Rule);
    assert_eq!(c.body.len(), 1);
    match c.head {
        Term::Struct { functor, args } => {
            assert_eq!(name_of(&atoms, functor), "ancestor");
            assert_eq!(args.len(), 2);
        }
        _ => panic!("head shape wrong"),
    }
    match c.body.get(0).copied().unwrap() {
        Term::Struct { functor, args } => {
            assert_eq!(name_of(&atoms, functor), "parent");
            assert_eq!(args.len(), 2);
        }
        _ => panic!("body[0] shape wrong"),
    }
    // Var table shared between head+body: X=0, Y=1.
    assert_eq!(c.vars.len(), 2);
}

#[test]
fn parse_query_directive() {
    // ?- ancestor(bob, liz).
    let toks = tstream(&[
        Token::Query,
        a("ancestor"), Token::LParen, a("bob"), Token::Comma, a("liz"),
        Token::RParen, Token::Dot,
    ]);
    let mut atoms = AtomTable::new();
    let clauses = parse(&toks, &mut atoms).expect("parse ok");
    assert_eq!(clauses.len(), 1);
    let c = clauses.get(0).unwrap();
    assert_eq!(c.kind, ClauseKind::Query);
    assert!(matches!(c.head, Term::Nil));
    assert_eq!(c.body.len(), 1);
}

#[test]
fn parse_full_ancestor_program() {
    // parent(bob, ann).
    // parent(ann, liz).
    // ancestor(X, Y) :- parent(X, Y).
    // ancestor(X, Y) :- parent(X, Z), ancestor(Z, Y).
    // ?- ancestor(bob, liz).
    let toks = tstream(&[
        // parent(bob, ann).
        a("parent"), Token::LParen, a("bob"), Token::Comma, a("ann"),
        Token::RParen, Token::Dot,
        // parent(ann, liz).
        a("parent"), Token::LParen, a("ann"), Token::Comma, a("liz"),
        Token::RParen, Token::Dot,
        // ancestor(X, Y) :- parent(X, Y).
        a("ancestor"), Token::LParen, v("X"), Token::Comma, v("Y"), Token::RParen,
        Token::Neck,
        a("parent"), Token::LParen, v("X"), Token::Comma, v("Y"), Token::RParen,
        Token::Dot,
        // ancestor(X, Y) :- parent(X, Z), ancestor(Z, Y).
        a("ancestor"), Token::LParen, v("X"), Token::Comma, v("Y"), Token::RParen,
        Token::Neck,
        a("parent"), Token::LParen, v("X"), Token::Comma, v("Z"), Token::RParen,
        Token::Comma,
        a("ancestor"), Token::LParen, v("Z"), Token::Comma, v("Y"), Token::RParen,
        Token::Dot,
        // ?- ancestor(bob, liz).
        Token::Query,
        a("ancestor"), Token::LParen, a("bob"), Token::Comma, a("liz"),
        Token::RParen, Token::Dot,
    ]);
    let mut atoms = AtomTable::new();
    let clauses = parse(&toks, &mut atoms).expect("parse ok");
    assert_eq!(clauses.len(), 5);
    let kinds: Vec<ClauseKind> = clauses.iter().map(|c| c.kind).collect();
    assert_eq!(
        kinds,
        vec![
            ClauseKind::Fact, ClauseKind::Fact, ClauseKind::Rule,
            ClauseKind::Rule, ClauseKind::Query,
        ]
    );
    let heads: Vec<&str> = clauses
        .iter()
        .map(|c| match c.head {
            Term::Struct { functor, .. } => name_of(&atoms, functor),
            Term::Nil => "",
            _ => "?",
        })
        .collect();
    assert_eq!(heads, vec!["parent", "parent", "ancestor", "ancestor", ""]);
    // Body of rule 2 has two goals.
    assert_eq!(clauses.get(3).unwrap().body.len(), 2);
}

#[test]
fn list_sugar_three_elements() {
    // foo([a, b, c]).
    let toks = tstream(&[
        a("foo"), Token::LParen,
        Token::LBracket,
        a("a"), Token::Comma, a("b"), Token::Comma, a("c"),
        Token::RBracket,
        Token::RParen, Token::Dot,
    ]);
    let mut atoms = AtomTable::new();
    let clauses = parse(&toks, &mut atoms).expect("parse ok");
    let c = clauses.get(0).unwrap();
    // head = foo(X) where X is a list struct
    let (functor, args) = match c.head {
        Term::Struct { functor, args } => (functor, args),
        _ => panic!("head not struct"),
    };
    assert_eq!(name_of(&atoms, functor), "foo");
    assert_eq!(args.len(), 1);
    // Walk the cons list: '.'(a, '.'(b, '.'(c, []))).
    let mut cur_idx = *args.get(0).unwrap();
    let expected = ["a", "b", "c"];
    for want in expected {
        let node = c.subterm(cur_idx).copied().expect("cons node present");
        let (f, a2) = match node {
            Term::Struct { functor, args } => (functor, args),
            _ => panic!("expected cons, got {:?}", node),
        };
        assert_eq!(name_of(&atoms, f), ".");
        assert_eq!(a2.len(), 2);
        let head_idx = *a2.get(0).unwrap();
        let tail_idx = *a2.get(1).unwrap();
        let head = c.subterm(head_idx).copied().unwrap();
        match head {
            Term::Atom(aid) => assert_eq!(name_of(&atoms, aid), want),
            _ => panic!("list head not atom"),
        }
        cur_idx = tail_idx;
    }
    // Final tail should be Nil.
    let end = c.subterm(cur_idx).copied().unwrap();
    assert!(matches!(end, Term::Nil));
}

#[test]
fn list_with_tail_var() {
    // foo([H|T]).
    let toks = tstream(&[
        a("foo"), Token::LParen,
        Token::LBracket, v("H"), Token::Pipe, v("T"), Token::RBracket,
        Token::RParen, Token::Dot,
    ]);
    let mut atoms = AtomTable::new();
    let clauses = parse(&toks, &mut atoms).expect("parse ok");
    let c = clauses.get(0).unwrap();
    let args = match c.head {
        Term::Struct { args, .. } => args,
        _ => panic!("head not struct"),
    };
    let list_idx = *args.get(0).unwrap();
    let cons = c.subterm(list_idx).copied().unwrap();
    let (f, a2) = match cons {
        Term::Struct { functor, args } => (functor, args),
        _ => panic!("list not cons"),
    };
    assert_eq!(name_of(&atoms, f), ".");
    assert_eq!(a2.len(), 2);
    let h = c.subterm(*a2.get(0).unwrap()).copied().unwrap();
    let t = c.subterm(*a2.get(1).unwrap()).copied().unwrap();
    assert!(matches!(h, Term::Var(_)));
    assert!(matches!(t, Term::Var(_)));
}

#[test]
fn empty_list_is_nil() {
    // foo([]).
    let toks = tstream(&[
        a("foo"), Token::LParen,
        Token::LBracket, Token::RBracket,
        Token::RParen, Token::Dot,
    ]);
    let mut atoms = AtomTable::new();
    let clauses = parse(&toks, &mut atoms).expect("parse ok");
    let c = clauses.get(0).unwrap();
    let args = match c.head {
        Term::Struct { args, .. } => args,
        _ => panic!("head not struct"),
    };
    let inside = c.subterm(*args.get(0).unwrap()).copied().unwrap();
    assert!(matches!(inside, Term::Nil));
}

#[test]
fn cut_in_body_becomes_atom() {
    // p :- !, q.
    let toks = tstream(&[
        a("p"), Token::Neck,
        Token::Cut, Token::Comma, a("q"),
        Token::Dot,
    ]);
    let mut atoms = AtomTable::new();
    let clauses = parse(&toks, &mut atoms).expect("parse ok");
    let c = clauses.get(0).unwrap();
    assert_eq!(c.body.len(), 2);
    match c.body.get(0).copied().unwrap() {
        Term::Atom(id) => assert_eq!(name_of(&atoms, id), "!"),
        other => panic!("expected cut atom, got {:?}", other),
    }
}

#[test]
fn not_goal_wraps_in_neg() {
    // p :- \+ q.
    let toks = tstream(&[
        a("p"), Token::Neck,
        Token::Not, a("q"),
        Token::Dot,
    ]);
    let mut atoms = AtomTable::new();
    let clauses = parse(&toks, &mut atoms).expect("parse ok");
    let c = clauses.get(0).unwrap();
    assert_eq!(c.body.len(), 1);
    match c.body.get(0).copied().unwrap() {
        Term::Struct { functor, args } => {
            assert_eq!(name_of(&atoms, functor), "\\+");
            assert_eq!(args.len(), 1);
            let inner = c.subterm(*args.get(0).unwrap()).copied().unwrap();
            match inner {
                Term::Atom(id) => assert_eq!(name_of(&atoms, id), "q"),
                _ => panic!("inner not atom"),
            }
        }
        _ => panic!("body[0] not struct"),
    }
}

#[test]
fn int_literal() {
    // foo(42).
    let toks = tstream(&[
        a("foo"), Token::LParen, Token::Int(42), Token::RParen, Token::Dot,
    ]);
    let mut atoms = AtomTable::new();
    let clauses = parse(&toks, &mut atoms).expect("parse ok");
    let c = clauses.get(0).unwrap();
    let args = match c.head {
        Term::Struct { args, .. } => args,
        _ => panic!("head not struct"),
    };
    let arg = c.subterm(*args.get(0).unwrap()).copied().unwrap();
    assert!(matches!(arg, Term::Int(42)));
}

#[test]
fn atom_interning_reuses_ids() {
    // parent(bob, ann). parent(ann, liz).
    let toks = tstream(&[
        a("parent"), Token::LParen, a("bob"), Token::Comma, a("ann"),
        Token::RParen, Token::Dot,
        a("parent"), Token::LParen, a("ann"), Token::Comma, a("liz"),
        Token::RParen, Token::Dot,
    ]);
    let mut atoms = AtomTable::new();
    let _ = parse(&toks, &mut atoms).expect("parse ok");
    // "parent", "bob", "ann", "liz" — 4 distinct atoms total.
    assert_eq!(atoms.len(), 4);
}

#[test]
fn error_missing_dot() {
    // parent(bob, ann)
    let toks = tstream(&[
        a("parent"), Token::LParen, a("bob"), Token::Comma, a("ann"),
        Token::RParen,
    ]);
    let mut atoms = AtomTable::new();
    let err = parse(&toks, &mut atoms).unwrap_err();
    assert!(matches!(err, ParseError::MissingDot(_) | ParseError::UnexpectedEof(_)));
}

#[test]
fn error_mismatched_paren() {
    // parent(bob, ann.
    let toks = tstream(&[
        a("parent"), Token::LParen, a("bob"), Token::Comma, a("ann"),
        Token::Dot,
    ]);
    let mut atoms = AtomTable::new();
    let err = parse(&toks, &mut atoms).unwrap_err();
    assert!(matches!(err, ParseError::MismatchedParen(_)));
}

#[test]
fn error_mismatched_bracket() {
    // foo([a, b.
    let toks = tstream(&[
        a("foo"), Token::LParen,
        Token::LBracket, a("a"), Token::Comma, a("b"),
        Token::Dot,
    ]);
    let mut atoms = AtomTable::new();
    let err = parse(&toks, &mut atoms).unwrap_err();
    assert!(matches!(
        err,
        ParseError::MismatchedBracket(_) | ParseError::UnexpectedToken(_)
    ));
}

#[test]
fn error_bad_operator() {
    // :- p.   (starts with a bare operator, no head)
    let toks = tstream(&[
        Token::Neck, a("p"), Token::Dot,
    ]);
    let mut atoms = AtomTable::new();
    let err = parse(&toks, &mut atoms).unwrap_err();
    assert!(matches!(err, ParseError::UnexpectedToken(_)));
}

#[test]
fn error_cut_as_term() {
    // foo(!).   cut cannot stand as a term argument
    let toks = tstream(&[
        a("foo"), Token::LParen, Token::Cut, Token::RParen, Token::Dot,
    ]);
    let mut atoms = AtomTable::new();
    let err = parse(&toks, &mut atoms).unwrap_err();
    assert!(matches!(err, ParseError::BadOperator(_)));
}

#[test]
fn error_empty_struct_args() {
    // foo().
    let toks = tstream(&[
        a("foo"), Token::LParen, Token::RParen, Token::Dot,
    ]);
    let mut atoms = AtomTable::new();
    let err = parse(&toks, &mut atoms).unwrap_err();
    assert!(matches!(err, ParseError::EmptyArgs(_)));
}

#[test]
fn infix_is_becomes_struct_and_vars_are_shared() {
    // s(N, M) :- M is N + 1.
    let toks = tstream(&[
        a("s"), Token::LParen, v("N"), Token::Comma, v("M"), Token::RParen,
        Token::Neck,
        v("M"), a("is"), v("N"), Token::Plus, Token::Int(1),
        Token::Dot,
    ]);
    let mut atoms = AtomTable::new();
    let clauses = parse(&toks, &mut atoms).expect("parse ok");
    let c = clauses.get(0).unwrap();
    assert_eq!(c.vars.len(), 2);
    match c.body.get(0).copied().unwrap() {
        Term::Struct { functor, args } => {
            assert_eq!(name_of(&atoms, functor), "is");
            assert_eq!(args.len(), 2);
            let rhs = c.subterm(*args.get(1).unwrap()).copied().unwrap();
            match rhs {
                Term::Struct { functor, args } => {
                    assert_eq!(name_of(&atoms, functor), "+");
                    assert_eq!(args.len(), 2);
                }
                other => panic!("expected +, got {:?}", other),
            }
        }
        other => panic!("expected is, got {:?}", other),
    }
}

#[test]
fn interning_is_idempotent() {
    let mut atoms = AtomTable::new();
    let a1 = atoms.intern("bob").expect("room");
    let a2 = atoms.intern("ann").expect("room");
    let a3 = atoms.intern("bob").expect("room");
    assert_eq!(a1, a3);
    assert_ne!(a1, a2);
    assert_eq!(atoms.len(), 2);
    assert_eq!(atoms.find("ann"), Some(a2));
    assert_eq!(atoms.find("liz"), None);
}

#[test]
fn error_unexpected_eof_in_args() {
    let toks = tstream(&[a("foo"), Token::LParen, a("x"), Token::Comma]);
    let mut atoms = AtomTable::new();
    let err = parse(&toks, &mut atoms).unwrap_err();
    assert!(matches!(err, ParseError::UnexpectedToken(_) | ParseError::UnexpectedEof(_)));
}
