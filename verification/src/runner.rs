//! The whole pipeline on a `.pl` source: tokenize, parse, compile,
//! emit `.lam` text, assemble it and run the cells on the reference VM
//! with the atom names of the text's `.atom` directives.

use crate::assembler::lex::{first_stop, find_stop, parse_unsigned, slice_of, starts_with, starts_with_bytes, trim, trim_bytes, trim_start, trim_start_bytes, Stop};
use crate::assembler::{assemble, assemble_spec, line_at, line_end, strip_line, AsmError};
use crate::compile::{compile, compile_spec, CompileError};
use crate::emit::{emit, emit_result, sb, EmitError};
use crate::parse::{parse, parse_spec, AtomTable, ParseError};
use crate::refvm::{initial_state, run_spec, run_with_atoms, RunError, RunResult, DEFAULT_TICK_LIMIT};
use crate::tokenize::{tokenize, tokens_of, TokenizeError};
use vstd::prelude::*;
use vstd::string::StringSliceAdditionalSpecFns;
use vstd::utf8::{decode_utf8, encode_utf8, is_ascii_chars_encode_utf8, valid_utf8};

verus! {

/// A malformed `.atom` directive.
#[derive(Debug, Clone, Copy, PartialEq, Eq, Structural)]
pub enum AtomsError {
    /// The id or the name is missing.
    Malformed,
    /// The id is not a number.
    NonNumericId,
}

/// The stage of the pipeline that refused the program, with its error.
#[derive(Debug, Clone, Copy, PartialEq, Eq, Structural)]
pub enum PipelineError {
    Tokenize(TokenizeError),
    Parse(ParseError),
    Compile(CompileError),
    Emit(EmitError),
    Asm(AsmError),
    Atoms(AtomsError),
}

/// How a run ended.
#[derive(Debug, Clone, Copy, PartialEq, Eq, Structural)]
pub enum Verdict {
    /// The query was proved.
    Halted,
    /// No more solutions.
    Failed,
    /// The VM stopped on an error.
    VmError(RunError),
    /// The program did not get to the VM.
    Pipeline(PipelineError),
}

/// Outcome of one run: what a front end shows.
pub struct RunOutcome {
    /// The output of `write/1` and `nl/0`.
    pub output: String,
    /// How the run ended.
    pub verdict: Verdict,
    /// The run ended in an error of the VM or of the pipeline.
    pub error: bool,
    /// The `.lam` text, when compilation succeeded.
    pub lam: Option<String>,
}

/// The characters `String::from_utf8_lossy` makes of `b`.
pub uninterp spec fn utf8_lossy(b: Seq<u8>) -> Seq<char>;

/// `String::from_utf8_lossy(b).into_owned()`. Its documentation states
/// that valid UTF-8 is taken as it is; invalid sequences become
/// U+FFFD, which the contract leaves to the name `utf8_lossy`.
#[verifier::external_body]
fn lossy_string(b: &[u8]) -> (r: String)
    ensures
        r@ == utf8_lossy(b@),
        valid_utf8(b@) ==> r@ == decode_utf8(b@),
{
    String::from_utf8_lossy(b).into_owned()
}

/// The `.lam` text of the program `src`.
pub open spec fn lam_spec(src: Seq<u8>) -> Result<Seq<u8>, PipelineError> {
    match tokens_of(src) {
        Err(e) => Err(PipelineError::Tokenize(e)),
        Ok(ts) => {
            let (rs, atoms) = parse_spec(ts, Seq::empty());
            match rs {
                Err(e) => Err(PipelineError::Parse(e)),
                Ok(cs) => match compile_spec(cs, atoms) {
                    Err(e) => Err(PipelineError::Compile(e)),
                    Ok(is) => match emit_result(is, atoms) {
                        Err(e) => Err(PipelineError::Emit(e)),
                        Ok(b) => Ok(b),
                    },
                },
            }
        },
    }
}

/// Compiles `src` to `.lam` text.
pub fn compile_to_lam(src: &str) -> (r: Result<String, PipelineError>)
    ensures
        match lam_spec(src.spec_bytes()) {
            Ok(b) => r is Ok && encode_utf8(r->Ok_0@) == b,
            Err(e) => r == Err::<String, PipelineError>(e),
        },
{
    let toks = match tokenize(src) {
        Ok(t) => t,
        Err(e) => return Err(PipelineError::Tokenize(e)),
    };
    let mut atoms = AtomTable::new();
    let clauses = match parse(&toks, &mut atoms) {
        Ok(c) => c,
        Err(e) => return Err(PipelineError::Parse(e)),
    };
    let instrs = match compile(&clauses, &atoms) {
        Ok(i) => i,
        Err(e) => return Err(PipelineError::Compile(e)),
    };
    match emit(&instrs, &atoms) {
        Ok(s) => Ok(s),
        Err(e) => Err(PipelineError::Emit(e)),
    }
}

/// Compiles `src` to `.lam` text without running it.
pub fn compile_only(src: &str) -> (r: Result<String, PipelineError>)
    ensures
        match lam_spec(src.spec_bytes()) {
            Ok(b) => r is Ok && encode_utf8(r->Ok_0@) == b,
            Err(e) => r == Err::<String, PipelineError>(e),
        },
{
    compile_to_lam(src)
}

/// The `.atom <id> <name>` directive on the stripped line `body`, if
/// the line is one: words after the id are ignored.
pub open spec fn atom_directive(body: Seq<u8>) -> Option<Result<(nat, Seq<u8>), AtomsError>> {
    if !starts_with(body, sb(".atom")) {
        None
    } else {
        let r = trim(body.skip(5));
        let a = first_stop(r, Stop::NonWs) as int;
        let ae = a + first_stop(r.skip(a), Stop::Ws);
        let n = ae + first_stop(r.skip(ae), Stop::NonWs);
        let ne = n + first_stop(r.skip(n), Stop::Ws);
        if a >= r.len() || n >= r.len() {
            Some(Err(AtomsError::Malformed))
        } else {
            match parse_unsigned(r.subrange(a, ae), usize::MAX as nat) {
                Some(id) => Some(Ok((id, r.subrange(n, ne)))),
                None => Some(Err(AtomsError::NonNumericId)),
            }
        }
    }
}

/// `names` with entry `id` set to `name`, grown with empty names as
/// needed.
pub open spec fn set_name(names: Seq<Seq<char>>, id: nat, name: Seq<char>) -> Seq<Seq<char>> {
    let grown = if names.len() <= id {
        names + Seq::new((id + 1 - names.len()) as nat, |i: int| Seq::<char>::empty())
    } else {
        names
    };
    grown.update(id as int, name)
}

/// The atom names of the lines of `b` from `pos`.
pub open spec fn names_from(b: Seq<u8>, pos: nat, names: Seq<Seq<char>>) -> Result<Seq<Seq<char>>, AtomsError>
    decreases b.len() - pos,
{
    if pos >= b.len() {
        Ok(names)
    } else {
        let e = line_end(b, pos as int);
        let step = match atom_directive(strip_line(line_at(b, pos as int))) {
            None => Ok(names),
            Some(Err(err)) => Err(err),
            Some(Ok((id, name))) => Ok(set_name(names, id, utf8_lossy(name))),
        };
        match step {
            Err(err) => Err(err),
            Ok(n2) => if e < b.len() {
                names_from(b, (e + 1) as nat, n2)
            } else {
                Ok(n2)
            },
        }
    }
}

/// The atom table of a `.lam` text: entry `id` names the atom of each
/// `.atom <id> <name>` directive, later directives winning.
pub open spec fn atom_names(lam: Seq<u8>) -> Result<Seq<Seq<char>>, AtomsError> {
    names_from(lam, 0, Seq::empty())
}

proof fn lemma_atom_prefix()
    ensures
        sb(".atom").len() == 5,
{
    reveal_strlit(".atom");
    is_ascii_chars_encode_utf8(".atom"@);
}

/// The directive on one stripped line.
fn directive(body: &[u8]) -> (r: Option<Result<(usize, &[u8]), AtomsError>>)
    ensures
        match atom_directive(body@) {
            None => r is None,
            Some(Err(e)) => r == Some(Err::<(usize, &[u8]), AtomsError>(e)),
            Some(Ok((id, name))) => r is Some && r->0 is Ok && (r->0->Ok_0).0 == id && (r->0->Ok_0).1@ == name,
        },
{
    if !starts_with_bytes(body, ".atom".as_bytes()) {
        return None;
    }
    proof {
        lemma_atom_prefix();
    }
    let rest = slice_of(body, 5, body.len());
    proof {
        assert(rest@ =~= body@.skip(5));
    }
    let r = trim_bytes(rest);
    let n = r.len();
    let a = find_stop(r, Stop::NonWs);
    if a >= n {
        return Some(Err(AtomsError::Malformed));
    }
    let ae = a + find_stop(slice_of(r, a, n), Stop::Ws);
    proof {
        assert(r@.subrange(a as int, n as int) =~= r@.skip(a as int));
    }
    let nm = ae + find_stop(slice_of(r, ae, n), Stop::NonWs);
    proof {
        assert(r@.subrange(ae as int, n as int) =~= r@.skip(ae as int));
    }
    if nm >= n {
        return Some(Err(AtomsError::Malformed));
    }
    let ne = nm + find_stop(slice_of(r, nm, n), Stop::Ws);
    proof {
        assert(r@.subrange(nm as int, n as int) =~= r@.skip(nm as int));
    }
    match crate::assembler::lex::parse_usize_bytes(slice_of(r, a, ae)) {
        Some(id) => Some(Ok((id, slice_of(r, nm, ne)))),
        None => Some(Err(AtomsError::NonNumericId)),
    }
}

/// Sets entry `id` of `names` to `name`, growing the table as needed.
fn set_name_exec(names: &mut Vec<String>, id: usize, name: String)
    ensures
        final(names)@.map_values(|s: String| s@) == set_name(old(names)@.map_values(|s: String| s@), id as nat, name@),
{
    let ghost old_v = old(names)@.map_values(|s: String| s@);
    let ghost old_len = old(names)@.len();
    while names.len() <= id
        invariant
            old_v == old(names)@.map_values(|s: String| s@),
            old_len == old(names)@.len(),
            old_len <= names@.len(),
            old_len <= id ==> names@.len() <= id + 1,
            old_len > id ==> names@.len() == old_len,
            forall|i: int| 0 <= i < old_len ==> #[trigger] names@[i] == old(names)@[i],
            forall|i: int| old_len <= i < names@.len() ==> #[trigger] names@[i]@ == Seq::<char>::empty(),
        decreases id + 1 - names@.len(),
    {
        let e = String::new();
        names.push(e);
    }
    let ghost grown = names@.map_values(|s: String| s@);
    proof {
        let g = if old_v.len() <= id {
            old_v + Seq::new((id + 1 - old_v.len()) as nat, |i: int| Seq::<char>::empty())
        } else {
            old_v
        };
        assert(grown =~= g);
    }
    names.set(id, name);
    proof {
        assert(names@.map_values(|s: String| s@) =~= grown.update(id as int, name@));
    }
}

/// The atom table of a `.lam` text.
pub fn extract_atoms(lam: &str) -> (r: Result<Vec<String>, AtomsError>)
    ensures
        match atom_names(lam.spec_bytes()) {
            Ok(ns) => r is Ok && r->Ok_0@.len() == ns.len() && forall|i: int| 0 <= i < ns.len() ==> #[trigger] r->Ok_0@[i]@ == ns[i],
            Err(e) => r == Err::<Vec<String>, AtomsError>(e),
        },
{
    let b = lam.as_bytes();
    let n = b.len();
    let mut names: Vec<String> = Vec::new();
    let mut pos: usize = 0;
    proof {
        assert(names@.map_values(|s: String| s@) =~= Seq::<Seq<char>>::empty());
    }
    loop
        invariant
            b@ == lam.spec_bytes(),
            n == b@.len(),
            pos <= n,
            atom_names(b@) == names_from(b@, pos as nat, names@.map_values(|s: String| s@)),
        decreases n - pos,
    {
        if pos >= n {
            proof {
                let ns = names@.map_values(|s: String| s@);
                assert(atom_names(b@) == Ok::<Seq<Seq<char>>, AtomsError>(ns));
            }
            return Ok(names);
        }
        let e = crate::assembler::find_line_end(b, pos);
        let body = crate::assembler::line_body(b, pos, e);
        let ghost before = names@.map_values(|s: String| s@);
        let ghost step = match atom_directive(strip_line(line_at(b@, pos as int))) {
            None => Ok(before),
            Some(Err(err)) => Err(err),
            Some(Ok((id, name))) => Ok(set_name(before, id, utf8_lossy(name))),
        };
        proof {
            assert(names_from(b@, pos as nat, before) == match step {
                Err(err) => Err(err),
                Ok(n2) => if e < b@.len() {
                    names_from(b@, (e + 1) as nat, n2)
                } else {
                    Ok(n2)
                },
            });
        }
        match directive(body) {
            None => {},
            Some(Err(err)) => {
                return Err(err);
            },
            Some(Ok((id, name))) => {
                let s = lossy_string(name);
                set_name_exec(&mut names, id, s);
            },
        }
        proof {
            assert(step == Ok::<Seq<Seq<char>>, AtomsError>(names@.map_values(|s: String| s@)));
        }
        if e >= n {
            proof {
                let ns = names@.map_values(|s: String| s@);
                assert(atom_names(b@) == Ok::<Seq<Seq<char>>, AtomsError>(ns));
            }
            return Ok(names);
        }
        pos = e + 1;
    }
}

/// A run of `cells` with the atom names `names` ends with `res`, and
/// `output` is the text it wrote.
pub open spec fn runs_to(cells: Seq<u32>, names: Seq<Seq<char>>, output: Seq<char>, res: RunResult) -> bool {
    exists|atoms: Seq<String>|
        #![trigger initial_state(cells, atoms)]
        atoms.len() == names.len() && (forall|i: int| 0 <= i < names.len() ==> #[trigger] atoms[i]@ == names[i]) && {
            let (s, o, rr) = run_spec(initial_state(cells, atoms), Seq::empty(), 0, DEFAULT_TICK_LIMIT as nat);
            rr == res && output == utf8_lossy(o)
        }
}

/// The verdict of a VM run.
pub open spec fn verdict_of(res: RunResult) -> Verdict {
    match res {
        RunResult::Halt => Verdict::Halted,
        RunResult::Fail => Verdict::Failed,
        RunResult::Error(e) => Verdict::VmError(e),
    }
}

/// Assembling and running the `.lam` text `lam` gives `output`,
/// `verdict` and `error`.
pub open spec fn executes_to(lam: Seq<u8>, output: Seq<char>, verdict: Verdict, error: bool) -> bool {
    match assemble_spec(lam) {
        Err(e) => output.len() == 0 && verdict == Verdict::Pipeline(PipelineError::Asm(e)) && error,
        Ok(cells) => match atom_names(lam) {
            Err(e) => output.len() == 0 && verdict == Verdict::Pipeline(PipelineError::Atoms(e)) && error,
            Ok(names) => exists|res: RunResult|
                #![trigger verdict_of(res)]
                runs_to(cells, names, output, res) && verdict == verdict_of(res) && error == (res is Error),
        },
    }
}

/// Assembles `lam` and runs it: the output text and the result.
fn execute(lam: &str) -> (r: Result<(String, RunResult), PipelineError>)
    ensures
        match r {
            Ok((out, res)) => executes_to(lam.spec_bytes(), out@, verdict_of(res), res is Error),
            Err(e) => executes_to(lam.spec_bytes(), Seq::empty(), Verdict::Pipeline(e), true),
        },
{
    let cells = match assemble(lam) {
        Ok(c) => c,
        Err(e) => return Err(PipelineError::Asm(e)),
    };
    let mut code: Vec<u32> = Vec::new();
    let n = cells.len();
    let mut i: usize = 0;
    while i < n
        invariant
            n == cells@.len(),
            i <= n,
            code@ == cells@.take(i as int),
        decreases n - i,
    {
        code.push(*cells.get(i).unwrap());
        proof {
            assert(cells@.take(i + 1) =~= cells@.take(i as int).push(cells@[i as int]));
        }
        i = i + 1;
    }
    proof {
        assert(cells@.take(n as int) =~= cells@);
    }
    let atoms = match extract_atoms(lam) {
        Ok(a) => a,
        Err(e) => return Err(PipelineError::Atoms(e)),
    };
    let ghost av = atoms@;
    let ghost cv = code@;
    let mut out: Vec<u8> = Vec::new();
    let res = run_with_atoms(code, atoms, &mut out);
    let text = lossy_string(out.as_slice());
    proof {
        let names = atom_names(lam.spec_bytes())->Ok_0;
        assert(forall|i: int| 0 <= i < names.len() ==> #[trigger] av[i]@ == names[i]);
        let (s, o, rr) = run_spec(initial_state(cv, av), Seq::empty(), 0, DEFAULT_TICK_LIMIT as nat);
        assert(runs_to(cv, names, text@, res));
        assert(verdict_of(res) == verdict_of(res));
    }
    Ok((text, res))
}

/// `r` is the outcome of compiling and running the program `src`.
pub open spec fn outcome_of(src: Seq<u8>, r: RunOutcome) -> bool {
    match lam_spec(src) {
        Err(e) => r.lam is None && r.output@.len() == 0 && r.verdict == Verdict::Pipeline(e) && r.error,
        Ok(lam) => r.lam is Some && encode_utf8(r.lam->0@) == lam && executes_to(lam, r.output@, r.verdict, r.error),
    }
}

/// Compiles and runs the program `src`.
pub fn run_source(src: &str) -> (r: RunOutcome)
    ensures
        r.error <==> (r.verdict is VmError || r.verdict is Pipeline),
        outcome_of(src.spec_bytes(), r),
{
    let lam = match compile_to_lam(src) {
        Ok(l) => l,
        Err(e) => return RunOutcome { output: String::new(), verdict: Verdict::Pipeline(e), error: true, lam: None },
    };
    match execute(lam.as_str()) {
        Ok((out, res)) => {
            let verdict = match res {
                RunResult::Halt => Verdict::Halted,
                RunResult::Fail => Verdict::Failed,
                RunResult::Error(e) => Verdict::VmError(e),
            };
            let error = matches!(res, RunResult::Error(_));
            RunOutcome { output: out, verdict, error, lam: Some(lam) }
        },
        Err(e) => RunOutcome { output: String::new(), verdict: Verdict::Pipeline(e), error: true, lam: Some(lam) },
    }
}

/// The number of lines of `b` from `pos` that open, after leading
/// whitespace, with `.atom`.
pub open spec fn atom_lines_from(b: Seq<u8>, pos: nat) -> nat
    decreases b.len() - pos,
{
    if pos >= b.len() {
        0
    } else {
        let e = line_end(b, pos as int);
        let here: nat = if starts_with(trim_start(line_at(b, pos as int)), sb(".atom")) { 1 } else { 0 };
        if e < b.len() {
            here + atom_lines_from(b, (e + 1) as nat)
        } else {
            here
        }
    }
}

/// The number of `.atom` lines of the outcome's `.lam` text, if any.
pub fn atom_count(outcome: &RunOutcome) -> (r: Option<usize>)
    ensures
        match &outcome.lam {
            Some(lam) => r == Some(atom_lines_from(encode_utf8(lam@), 0) as usize),
            None => r is None,
        },
{
    match &outcome.lam {
        None => None,
        Some(lam) => {
            let b = lam.as_str().as_bytes();
            let n = b.len();
            let mut pos: usize = 0;
            let mut count: usize = 0;
            loop
                invariant
                    outcome.lam == Some(*lam),
                    b@ == encode_utf8(lam@),
                    n == b@.len(),
                    pos <= n,
                    count <= pos,
                    count + atom_lines_from(b@, pos as nat) == atom_lines_from(b@, 0),
                decreases n - pos,
            {
                if pos >= n {
                    return Some(count);
                }
                let e = crate::assembler::find_line_end(b, pos);
                let le = if e < n && e > pos && b[e - 1] == 13 { e - 1 } else { e };
                let line = slice_of(b, pos, le);
                proof {
                    assert(line@ == line_at(b@, pos as int));
                }
                let ghost here: nat = if starts_with(trim_start(line_at(b@, pos as int)), sb(".atom")) { 1 } else { 0 };
                proof {
                    assert(atom_lines_from(b@, pos as nat) == if e < b@.len() {
                        here + atom_lines_from(b@, (e + 1) as nat)
                    } else {
                        here
                    });
                }
                if starts_with_bytes(trim_start_bytes(line), ".atom".as_bytes()) {
                    count = count + 1;
                }
                if e >= n {
                    return Some(count);
                }
                pos = e + 1;
            }
        },
    }
}

} // verus!
