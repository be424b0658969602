//! Bundled `.pl` demos: a display name and the Prolog source of each,
//! in alphabetical order of their names.

use crate::assembler::lex::{starts_with, starts_with_bytes};
use crate::emit::sb;
use vstd::prelude::*;
use vstd::string::StringSliceAdditionalSpecFns;

verus! {

/// A demo program.
#[derive(Clone, Copy)]
pub struct Demo {
    pub name: &'static str,
    pub source: &'static str,
}

/// The bundled demos.
pub open spec fn demo_list() -> Seq<Demo> {
    seq![
        Demo { name: "ancestor (recursion + pattern match)", source: ANCESTOR },
        Demo { name: "append (list concatenation)", source: APPEND },
        Demo { name: "color (backtracking demo)", source: COLOR },
        Demo { name: "fib (Fibonacci with accumulator)", source: FIB },
        Demo { name: "liar (Lion Lies on Tuesdays)", source: LIAR },
        Demo { name: "max (cut commitment)", source: MAX },
        Demo { name: "member (list membership)", source: MEMBER },
        Demo { name: "neq (negation-as-failure)", source: NEQ },
        Demo { name: "sum (tail-recursive arithmetic)", source: SUM },
    ]
}

pub const ANCESTOR: &'static str = "parent(bob, ann).\nparent(ann, liz).\nancestor(X, Y) :- parent(X, Y).\nancestor(X, Y) :- parent(X, Z), ancestor(Z, Y).\n\n?- ancestor(bob, liz), write(yes), nl.\n";

pub const APPEND: &'static str = "% Classical list append via structural recursion.\nappend([], L, L).\nappend([H|T], L, [H|R]) :- append(T, L, R).\n\n?- append([a, b], [c, d, e], X), write(X), nl.\n";

pub const COLOR: &'static str = "color(red).\ncolor(green).\ncolor(blue).\n\n?- color(X), write(X), nl, fail.\n";

pub const FIB: &'static str = "% Tail-recursive Fibonacci via a pair-accumulator.\n% fib(N, A, B, R): A = fib(k), B = fib(k+1), iterate N times.\n% Call with fib(N, 0, 1, R) to get R = fib(N).\n\nfib(0, A, _, A).\nfib(N, A, B, R) :-\n    N > 0,\n    NewB is A + B,\n    N1 is N - 1,\n    fib(N1, B, NewB, R).\n\n?- fib(10, 0, 1, F), write(F), nl.\n";

pub const LIAR: &'static str = "% The Lion lies on Monday, Tuesday and Wednesday; the Unicorn lies\n% on Thursday, Friday and Saturday. One day both say: \"Yesterday was\n% one of my lying days.\" Which day is it?\n\nyesterday(monday, sunday).\nyesterday(tuesday, monday).\nyesterday(wednesday, tuesday).\nyesterday(thursday, wednesday).\nyesterday(friday, thursday).\nyesterday(saturday, friday).\nyesterday(sunday, saturday).\n\nlion_lies(monday).\nlion_lies(tuesday).\nlion_lies(wednesday).\nlion_truth(thursday).\nlion_truth(friday).\nlion_truth(saturday).\nlion_truth(sunday).\n\nunicorn_lies(thursday).\nunicorn_lies(friday).\nunicorn_lies(saturday).\nunicorn_truth(sunday).\nunicorn_truth(monday).\nunicorn_truth(tuesday).\nunicorn_truth(wednesday).\n\nlion_says(D) :- lion_lies(D), yesterday(D, Y), lion_truth(Y).\nlion_says(D) :- lion_truth(D), yesterday(D, Y), lion_lies(Y).\nunicorn_says(D) :- unicorn_lies(D), yesterday(D, Y), unicorn_truth(Y).\nunicorn_says(D) :- unicorn_truth(D), yesterday(D, Y), unicorn_lies(Y).\n\n?- lion_says(D), unicorn_says(D), write(D), nl.\n";

pub const MAX: &'static str = "% The cut commits to the first clause once X > Y holds.\nmax(X, Y, X) :- X > Y, !.\nmax(_, Y, Y).\n\n?- max(5, 3, M), write(M), nl, fail.\n";

pub const MEMBER: &'static str = "member(X, [X|_]).\nmember(X, [_|T]) :- member(X, T).\n\n?- member(X, [a, b, c]), write(X), nl, fail.\n";

pub const NEQ: &'static str = "% ne/2 succeeds when its arguments do not unify.\nne(X, Y) :- \\+ X = Y.\n\n?- ne(red, blue), write(ok), nl.\n";

pub const SUM: &'static str = "% Sum of 1..N with an accumulator.\nsum(0, Acc, Acc).\nsum(N, Acc, S) :-\n    N > 0,\n    Acc1 is Acc + N,\n    N1 is N - 1,\n    sum(N1, Acc1, S).\n\n?- sum(3, 0, S), write(S), nl.\n";

/// The bundled demos, in display order.
pub fn demos() -> (r: Vec<Demo>)
    ensures
        r@ == demo_list(),
{
    let r = vec![
        Demo { name: "ancestor (recursion + pattern match)", source: ANCESTOR },
        Demo { name: "append (list concatenation)", source: APPEND },
        Demo { name: "color (backtracking demo)", source: COLOR },
        Demo { name: "fib (Fibonacci with accumulator)", source: FIB },
        Demo { name: "liar (Lion Lies on Tuesdays)", source: LIAR },
        Demo { name: "max (cut commitment)", source: MAX },
        Demo { name: "member (list membership)", source: MEMBER },
        Demo { name: "neq (negation-as-failure)", source: NEQ },
        Demo { name: "sum (tail-recursive arithmetic)", source: SUM },
    ];
    proof {
        assert(r@ =~= demo_list());
    }
    r
}

/// The index of the first demo from `i` whose name opens with `liar`,
/// or 0 when there is none.
pub open spec fn liar_from(ds: Seq<Demo>, i: nat) -> nat
    decreases ds.len() - i,
{
    if i >= ds.len() {
        0
    } else if starts_with(ds[i as int].name.spec_bytes(), sb("liar")) {
        i
    } else {
        liar_from(ds, i + 1)
    }
}

/// The demo shown first: the liar puzzle.
pub fn default_index() -> (r: usize)
    ensures
        r == liar_from(demo_list(), 0),
{
    let ds = demos();
    let mut i: usize = 0;
    while i < ds.len()
        invariant
            ds@ == demo_list(),
            i <= ds@.len(),
            liar_from(demo_list(), 0) == liar_from(demo_list(), i as nat),
        decreases ds@.len() - i,
    {
        if starts_with_bytes(ds[i].name.as_bytes(), "liar".as_bytes()) {
            return i;
        }
        i = i + 1;
    }
    0
}

} // verus!
