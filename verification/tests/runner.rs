use rust_to_prolog::demos::{default_index, demos, Demo};
use rust_to_prolog::runner::{atom_count, compile_only, extract_atoms, run_source, AtomsError, PipelineError, RunOutcome, Verdict};
use rust_to_prolog::refvm::RunError;
use rust_to_prolog::tokenize::TokenizeError;

fn demo(prefix: &str) -> Demo {
    *demos().iter().find(|d| d.name.starts_with(prefix)).expect("demo present")
}

fn run_demo(prefix: &str) -> RunOutcome {
    run_source(demo(prefix).source)
}

#[test]
fn default_demo_is_the_liar_puzzle() {
    let ds = demos();
    assert_eq!(ds.len(), 9);
    let i = default_index();
    assert_eq!(i, 4);
    assert!(ds[i].name.starts_with("liar"));
}

#[test]
fn demo_names_are_in_alphabetical_order() {
    let ds = demos();
    for w in ds.windows(2) {
        assert!(w[0].name < w[1].name);
    }
}

#[test]
fn ancestor_demo_says_yes() {
    let o = run_demo("ancestor");
    assert_eq!(o.output, "yes\n");
    assert_eq!(o.verdict, Verdict::Halted);
    assert!(!o.error);
    assert!(o.lam.is_some());
}

#[test]
fn color_demo_prints_every_color() {
    let o = run_demo("color");
    assert_eq!(o.output, "red\ngreen\nblue\n");
    assert_eq!(o.verdict, Verdict::Failed);
    assert!(!o.error);
}

#[test]
fn member_demo_prints_each_element() {
    let o = run_demo("member");
    assert_eq!(o.output, "a\nb\nc\n");
    assert_eq!(o.verdict, Verdict::Failed);
}

#[test]
fn sum_demo_prints_six() {
    let o = run_demo("sum");
    assert_eq!(o.output, "6\n");
    assert_eq!(o.verdict, Verdict::Halted);
}

#[test]
fn fib_demo_prints_fifty_five() {
    let o = run_demo("fib");
    assert_eq!(o.output, "55\n");
    assert_eq!(o.verdict, Verdict::Halted);
}

#[test]
fn max_demo_commits_to_the_first_clause() {
    let o = run_demo("max");
    assert_eq!(o.output, "5\n");
    assert_eq!(o.verdict, Verdict::Failed);
}

#[test]
fn neq_demo_prints_ok() {
    let o = run_demo("neq");
    assert_eq!(o.output, "ok\n");
    assert_eq!(o.verdict, Verdict::Halted);
}

#[test]
fn neq_on_equal_atoms_fails_silently() {
    let o = run_source("ne(X, Y) :- \\+ X = Y.\n?- ne(red, red), write(ok), nl.\n");
    assert_eq!(o.output, "");
    assert_eq!(o.verdict, Verdict::Failed);
}

#[test]
fn liar_demo_finds_thursday() {
    let o = run_demo("liar");
    assert_eq!(o.output, "thursday\n");
    assert_eq!(o.verdict, Verdict::Halted);
}

#[test]
fn append_demo_prints_the_joined_list() {
    let o = run_demo("append");
    assert_eq!(o.output, "[a, b, c, d, e]\n");
    assert_eq!(o.verdict, Verdict::Halted);
}

#[test]
fn pipeline_errors_are_reported_without_lam() {
    let o = run_source("foo @ bar.");
    assert!(o.error);
    assert!(o.lam.is_none());
    assert_eq!(o.output, "");
    assert_eq!(o.verdict, Verdict::Pipeline(PipelineError::Tokenize(TokenizeError::InvalidChar { ch: '@', pos: 4 })));
    assert_eq!(atom_count(&o), None);
}

#[test]
fn missing_query_is_a_compile_error() {
    let r = compile_only("p(a).");
    assert!(matches!(r, Err(PipelineError::Compile(_))));
}

#[test]
fn compile_only_gives_the_lam_text() {
    let lam = compile_only("?- write(hello), nl.").expect("compiles");
    assert!(lam.starts_with(".atom 0 write\n"));
    assert!(lam.ends_with("    HALT\n"));
}

#[test]
fn atom_count_counts_directives() {
    let o = run_source("?- write(hello), nl.");
    let lam = o.lam.clone().expect("lam");
    let expected = lam.lines().filter(|l| l.trim_start().starts_with(".atom")).count();
    assert_eq!(atom_count(&o), Some(expected));
    assert!(expected >= 2);
}

#[test]
fn extract_atoms_reads_directives_by_id() {
    let names = extract_atoms("; header\n.atom 2 two\n  .atom 0 zero extra ; note\n    HALT\n").expect("ok");
    assert_eq!(names, vec!["zero".to_string(), String::new(), "two".to_string()]);
    assert_eq!(extract_atoms(".atom 1\n"), Err(AtomsError::Malformed));
    assert_eq!(extract_atoms(".atom x y\n"), Err(AtomsError::NonNumericId));
}

#[test]
fn runaway_recursion_hits_the_tick_limit() {
    let o = run_source("loop :- loop.\n?- loop.\n");
    assert_eq!(o.verdict, Verdict::VmError(RunError::TickLimit));
    assert!(o.error);
}
