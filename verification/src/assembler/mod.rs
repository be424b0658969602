//! Two-pass LAM assembler: `.lam` text to 32-bit cells.
//!
//! Pass 1 walks the lines to collect `.atom` directives, bind labels
//! to cell addresses and check mnemonics. Pass 2 walks them again and
//! emits one or two cells per instruction (see `encode`).
//!
//! A line is cut at its first `;` and trimmed. What is left is blank,
//! an `.atom <id> <name>` directive, a `name:` label, or a mnemonic
//! followed by comma-separated operands.

pub mod encode;
pub mod lex;
pub mod table;

use crate::port::BoundedArr;
use crate::text::{decimal, hex6, push_decimal, push_hex6, push_str};
use encode::{encode, encode_spec, width_of, width_spec};
use lex::{
    first_stop, find_stop, is_ident, is_ident_bytes, is_mnemonic, is_mnemonic_bytes, parse_u32_bytes,
    parse_unsigned, slice_of, starts_with, starts_with_bytes, trim, trim_bytes, trim_start, trim_start_bytes, Stop,
};
use table::{tab_insert, SymTab, TabV};
use vstd::prelude::*;
use vstd::string::StringSliceAdditionalSpecFns;
use vstd::utf8::is_ascii_chars_encode_utf8;

verus! {

/// Capacity of an assembled program, in cells.
pub const MAX_CELLS: usize = 4096;

/// Assembled cells.
pub type Cells = BoundedArr<u32, MAX_CELLS>;

#[derive(Debug, Clone, Copy, PartialEq, Eq, Structural)]
pub enum AsmError {
    UnknownOpcode { line: u32 },
    BadDirective { line: u32 },
    BadOperand { line: u32 },
    BadArity { line: u32 },
    UndefinedLabel { line: u32 },
    UndeclaredAtom { line: u32 },
    NameTooLong { line: u32 },
    AtomOverflow,
    LabelOverflow,
    CellOverflow,
}

/// What a line holds once its comment is cut and it is trimmed.
pub enum LineKindV {
    Blank,
    AtomDir { id: u32, name: Seq<u8> },
    Label(Seq<u8>),
    Instr { mnem: Seq<u8>, ops: Seq<u8> },
}

/// The end of the line that starts at `pos`: the next line feed, or
/// the end of the text.
pub open spec fn line_end(b: Seq<u8>, pos: int) -> int {
    pos + first_stop(b.skip(pos), Stop::Byte(10))
}

/// The line that starts at `pos`, without its line feed and a carriage
/// return just before it (`str::lines`).
pub open spec fn line_at(b: Seq<u8>, pos: int) -> Seq<u8> {
    let e = line_end(b, pos);
    if e < b.len() && e > pos && b[e - 1] == 13 {
        b.subrange(pos, e - 1)
    } else {
        b.subrange(pos, e)
    }
}

/// A line without its comment, trimmed.
pub open spec fn strip_line(raw: Seq<u8>) -> Seq<u8> {
    trim(raw.take(first_stop(raw, Stop::Byte(59)) as int))
}

/// `.atom <id> <name>`: `rest` is what follows `.atom`.
pub open spec fn atom_dir_spec(rest: Seq<u8>, line: u32) -> Result<LineKindV, AsmError> {
    let r = trim_start(rest);
    let a = first_stop(r, Stop::NonWs) as int;
    let ae = a + first_stop(r.skip(a), Stop::Ws);
    let n = ae + first_stop(r.skip(ae), Stop::NonWs);
    let ne = n + first_stop(r.skip(n), Stop::Ws);
    let x = ne + first_stop(r.skip(ne), Stop::NonWs);
    if a >= r.len() || n >= r.len() || x < r.len() {
        Err(AsmError::BadDirective { line })
    } else {
        match parse_unsigned(r.subrange(a, ae), u32::MAX as nat) {
            Some(id) => Ok(LineKindV::AtomDir { id: id as u32, name: r.subrange(n, ne) }),
            None => Err(AsmError::BadDirective { line }),
        }
    }
}

/// What the stripped line `body` holds.
#[verifier::opaque]
pub open spec fn classify_spec(body: Seq<u8>, line: u32) -> Result<LineKindV, AsmError> {
    if body.len() == 0 {
        Ok(LineKindV::Blank)
    } else if starts_with(body, crate::emit::sb(".atom")) {
        atom_dir_spec(body.skip(5), line)
    } else if body.last() == 58 {
        if is_ident(body.drop_last()) {
            Ok(LineKindV::Label(body.drop_last()))
        } else {
            Err(AsmError::BadDirective { line })
        }
    } else {
        let k = first_stop(body, Stop::Sep) as int;
        let mnem = body.take(k);
        let tail = body.skip(k);
        let ops = tail.skip(first_stop(tail, Stop::NotLead) as int);
        if is_mnemonic(mnem) {
            Ok(LineKindV::Instr { mnem, ops })
        } else {
            Err(AsmError::UnknownOpcode { line })
        }
    }
}

/// The line number of the line with index `ix`.
pub open spec fn line_no(ix: nat) -> u32 {
    (ix + 1) as u32
}

/// What the line at `pos`, the `ix`th, holds.
#[verifier::opaque]
pub open spec fn line_kind(b: Seq<u8>, pos: nat, ix: nat) -> Result<LineKindV, AsmError> {
    classify_spec(strip_line(line_at(b, pos as int)), line_no(ix))
}

/// The tables and next address after the line at `pos`, the `ix`th.
pub open spec fn pass1_step(b: Seq<u8>, pos: nat, ix: nat, addr: nat, atoms: TabV, labels: TabV) -> Result<(nat, TabV, TabV), AsmError> {
    let line = line_no(ix);
    match line_kind(b, pos, ix) {
        Err(e) => Err(e),
        Ok(LineKindV::Blank) => Ok((addr, atoms, labels)),
        Ok(LineKindV::AtomDir { id, name }) => match tab_insert(atoms, name, id, line, table::MAX_ATOMS as nat, AsmError::AtomOverflow) {
            Err(e) => Err(e),
            Ok(a2) => Ok((addr, a2, labels)),
        },
        Ok(LineKindV::Label(name)) => match tab_insert(labels, name, addr as u32, line, table::MAX_LABELS as nat, AsmError::LabelOverflow) {
            Err(e) => Err(e),
            Ok(l2) => Ok((addr, atoms, l2)),
        },
        Ok(LineKindV::Instr { mnem, ops }) => match width_spec(mnem, line) {
            Err(e) => Err(e),
            Ok(w) => Ok(((addr + w) as nat, atoms, labels)),
        },
    }
}

/// Pass 1 from the line at `pos`, the `ix`th: the atom and label
/// tables and the address after the last instruction, with `addr` the
/// address of the next instruction.
pub open spec fn pass1_from(b: Seq<u8>, pos: nat, ix: nat, addr: nat, atoms: TabV, labels: TabV) -> Result<(TabV, TabV, nat), AsmError>
    decreases b.len() - pos,
{
    if pos >= b.len() {
        Ok((atoms, labels, addr))
    } else {
        match pass1_step(b, pos, ix, addr, atoms, labels) {
            Err(e) => Err(e),
            Ok((addr2, a2, l2)) => {
                let e = line_end(b, pos as int);
                if e < b.len() {
                    pass1_from(b, (e + 1) as nat, ix + 1, addr2, a2, l2)
                } else {
                    Ok((a2, l2, addr2))
                }
            },
        }
    }
}

/// The cells after the line at `pos`, the `ix`th.
pub open spec fn pass2_step(b: Seq<u8>, pos: nat, ix: nat, atoms: TabV, labels: TabV, cells: Seq<u32>) -> Result<Seq<u32>, AsmError> {
    match line_kind(b, pos, ix) {
        Err(e) => Err(e),
        Ok(LineKindV::Instr { mnem, ops }) => match encode_spec(mnem, ops, line_no(ix), atoms, labels) {
            Err(e) => Err(e),
            Ok(c) => if cells.len() + c.len() > MAX_CELLS {
                Err(AsmError::CellOverflow)
            } else {
                Ok(cells + c)
            },
        },
        Ok(_) => Ok(cells),
    }
}

/// Pass 2 from the line at `pos`: `cells` followed by the cells of
/// each instruction.
pub open spec fn pass2_from(b: Seq<u8>, pos: nat, ix: nat, atoms: TabV, labels: TabV, cells: Seq<u32>) -> Result<Seq<u32>, AsmError>
    decreases b.len() - pos,
{
    if pos >= b.len() {
        Ok(cells)
    } else {
        match pass2_step(b, pos, ix, atoms, labels, cells) {
            Err(e) => Err(e),
            Ok(c2) => {
                let e = line_end(b, pos as int);
                if e < b.len() {
                    pass2_from(b, (e + 1) as nat, ix + 1, atoms, labels, c2)
                } else {
                    Ok(c2)
                }
            },
        }
    }
}

/// The cells of the `.lam` text `b`.
pub open spec fn assemble_spec(b: Seq<u8>) -> Result<Seq<u32>, AsmError> {
    match pass1_from(b, 0, 0, 0, Seq::empty(), Seq::empty()) {
        Err(e) => Err(e),
        Ok((atoms, labels, _)) => pass2_from(b, 0, 0, atoms, labels, Seq::empty()),
    }
}

proof fn lemma_atom_len()
    ensures
        crate::emit::sb(".atom").len() == 5,
{
    reveal_strlit(".atom");
    is_ascii_chars_encode_utf8(".atom"@);
}

/// What a line holds, as parts of the line's text.
enum LineKind<'a> {
    Blank,
    AtomDir { id: u32, name: &'a [u8] },
    Label(&'a [u8]),
    Instr { mnem: &'a [u8], ops: &'a [u8] },
}

impl<'a> LineKind<'a> {
    spec fn view(&self) -> LineKindV {
        match self {
            LineKind::Blank => LineKindV::Blank,
            LineKind::AtomDir { id, name } => LineKindV::AtomDir { id: *id, name: name@ },
            LineKind::Label(n) => LineKindV::Label(n@),
            LineKind::Instr { mnem, ops } => LineKindV::Instr { mnem: mnem@, ops: ops@ },
        }
    }
}

fn parse_atom_dir<'a>(rest: &'a [u8], line: u32) -> (r: Result<LineKind<'a>, AsmError>)
    ensures
        match atom_dir_spec(rest@, line) {
            Ok(k) => r is Ok && r->Ok_0.view() == k,
            Err(e) => r is Err && r->Err_0 == e,
        },
{
    let r = trim_start_bytes(rest);
    let n = r.len();
    let a = find_stop(r, Stop::NonWs);
    if a >= n {
        return Err(AsmError::BadDirective { line });
    }
    let ae = a + find_stop(slice_of(r, a, n), Stop::Ws);
    proof {
        assert(r@.subrange(a as int, n as int) =~= r@.skip(a as int));
    }
    let nm = ae + find_stop(slice_of(r, ae, n), Stop::NonWs);
    proof {
        assert(r@.subrange(ae as int, n as int) =~= r@.skip(ae as int));
    }
    if nm >= n {
        return Err(AsmError::BadDirective { line });
    }
    let ne = nm + find_stop(slice_of(r, nm, n), Stop::Ws);
    proof {
        assert(r@.subrange(nm as int, n as int) =~= r@.skip(nm as int));
    }
    let x = ne + find_stop(slice_of(r, ne, n), Stop::NonWs);
    proof {
        assert(r@.subrange(ne as int, n as int) =~= r@.skip(ne as int));
    }
    if x < n {
        return Err(AsmError::BadDirective { line });
    }
    match parse_u32_bytes(slice_of(r, a, ae)) {
        Some(id) => Ok(LineKind::AtomDir { id, name: slice_of(r, nm, ne) }),
        None => Err(AsmError::BadDirective { line }),
    }
}

fn classify<'a>(body: &'a [u8], line: u32) -> (r: Result<LineKind<'a>, AsmError>)
    ensures
        match classify_spec(body@, line) {
            Ok(k) => r is Ok && r->Ok_0.view() == k,
            Err(e) => r is Err && r->Err_0 == e,
        },
{
    proof {
        reveal(classify_spec);
    }
    let n = body.len();
    if n == 0 {
        return Ok(LineKind::Blank);
    }
    if starts_with_bytes(body, ".atom".as_bytes()) {
        proof {
            lemma_atom_len();
            assert(body@.subrange(5, n as int) =~= body@.skip(5));
        }
        return parse_atom_dir(slice_of(body, 5, n), line);
    }
    if body[n - 1] == 58 {
        let name = slice_of(body, 0, n - 1);
        proof {
            assert(name@ =~= body@.drop_last());
        }
        if is_ident_bytes(name) {
            return Ok(LineKind::Label(name));
        }
        return Err(AsmError::BadDirective { line });
    }
    let k = find_stop(body, Stop::Sep);
    let mnem = slice_of(body, 0, k);
    let tail = slice_of(body, k, n);
    let j = find_stop(tail, Stop::NotLead);
    let ops = slice_of(tail, j, tail.len());
    proof {
        assert(mnem@ =~= body@.take(k as int));
        assert(tail@ =~= body@.skip(k as int));
        assert(ops@ =~= tail@.skip(j as int));
    }
    if !is_mnemonic_bytes(mnem) {
        return Err(AsmError::UnknownOpcode { line });
    }
    Ok(LineKind::Instr { mnem, ops })
}

/// The end of the line that starts at `pos`.
pub fn find_line_end(b: &[u8], pos: usize) -> (r: usize)
    requires
        pos <= b@.len(),
    ensures
        r == line_end(b@, pos as int),
        pos <= r <= b@.len(),
{
    let rest = slice_of(b, pos, b.len());
    proof {
        assert(rest@ =~= b@.skip(pos as int));
    }
    pos + find_stop(rest, Stop::Byte(10))
}

/// The stripped text of the line at `pos`, ending at `e`.
pub fn line_body<'a>(b: &'a [u8], pos: usize, e: usize) -> (r: &'a [u8])
    requires
        pos < b@.len(),
        e == line_end(b@, pos as int),
        pos <= e <= b@.len(),
    ensures
        r@ == strip_line(line_at(b@, pos as int)),
{
    let le = if e < b.len() && e > pos && b[e - 1] == 13 { e - 1 } else { e };
    let raw = slice_of(b, pos, le);
    let c = find_stop(raw, Stop::Byte(59));
    proof {
        assert(raw@ == line_at(b@, pos as int));
        assert(raw@.subrange(0, c as int) =~= raw@.take(c as int));
    }
    trim_bytes(slice_of(raw, 0, c))
}

fn pass1<'a>(b: &'a [u8], atoms: &mut SymTab<'a>, labels: &mut SymTab<'a>) -> (r: Result<(), AsmError>)
    requires
        old(atoms)@ == Seq::<(Seq<u8>, u32)>::empty(),
        old(labels)@ == Seq::<(Seq<u8>, u32)>::empty(),
        old(atoms).capacity() == table::MAX_ATOMS,
        old(atoms).full_error() == AsmError::AtomOverflow,
        old(labels).capacity() == table::MAX_LABELS,
        old(labels).full_error() == AsmError::LabelOverflow,
    ensures
        match pass1_from(b@, 0, 0, 0, Seq::empty(), Seq::empty()) {
            Ok((a, l, _)) => r is Ok && final(atoms)@ == a && final(labels)@ == l,
            Err(e) => r == Err::<(), AsmError>(e),
        },
{
    let n = b.len();
    let mut pos: usize = 0;
    let mut ix: usize = 0;
    let mut addr: u128 = 0;
    while pos < n
        invariant
            n == b@.len(),
            pos <= n,
            ix <= pos,
            addr <= 2 * pos,
            atoms.capacity() == table::MAX_ATOMS,
            atoms.full_error() == AsmError::AtomOverflow,
            labels.capacity() == table::MAX_LABELS,
            labels.full_error() == AsmError::LabelOverflow,
            pass1_from(b@, 0, 0, 0, Seq::empty(), Seq::empty()) == pass1_from(b@, pos as nat, ix as nat, addr as nat, atoms@, labels@),
        decreases n - pos,
    {
        let line = (ix + 1) as u32;
        let e = find_line_end(b, pos);
        let body = line_body(b, pos, e);
        let k = classify(body, line);
        proof {
            reveal(line_kind);
        }
        match k {
            Err(err) => return Err(err),
            Ok(LineKind::Blank) => {},
            Ok(LineKind::AtomDir { id, name }) => {
                match atoms.insert(name, id, line) {
                    Err(err) => return Err(err),
                    Ok(()) => {},
                }
            },
            Ok(LineKind::Label(name)) => {
                let at: u32 = #[verifier::truncate] (addr as u32);
                match labels.insert(name, at, line) {
                    Err(err) => return Err(err),
                    Ok(()) => {},
                }
            },
            Ok(LineKind::Instr { mnem, .. }) => {
                match width_of(mnem, line) {
                    Err(err) => return Err(err),
                    Ok(w) => {
                        addr = addr + w as u128;
                    },
                }
            },
        }
        if e >= n {
            return Ok(());
        }
        pos = e + 1;
        ix = ix + 1;
    }
    Ok(())
}

fn pass2(b: &[u8], atoms: &SymTab, labels: &SymTab) -> (r: Result<Cells, AsmError>)
    requires
    ensures
        match pass2_from(b@, 0, 0, atoms@, labels@, Seq::empty()) {
            Ok(c) => r is Ok && r->Ok_0@ == c,
            Err(e) => r is Err && r->Err_0 == e,
        },
{
    let mut cells: Cells = BoundedArr::new();
    let n = b.len();
    let mut pos: usize = 0;
    let mut ix: usize = 0;
    while pos < n
        invariant
            n == b@.len(),
            pos <= n,
            ix <= pos,
            cells.wf(),
            pass2_from(b@, 0, 0, atoms@, labels@, Seq::empty()) == pass2_from(b@, pos as nat, ix as nat, atoms@, labels@, cells@),
        decreases n - pos,
    {
        let line = (ix + 1) as u32;
        let e = find_line_end(b, pos);
        let body = line_body(b, pos, e);
        let k = classify(body, line);
        proof {
            reveal(line_kind);
        }
        match k {
            Err(err) => return Err(err),
            Ok(LineKind::Instr { mnem, ops }) => {
                let c = match encode(mnem, ops, line, atoms, labels) {
                    Ok(c) => c,
                    Err(err) => return Err(err),
                };
                if c.len() > MAX_CELLS - cells.len() {
                    return Err(AsmError::CellOverflow);
                }
                append_cells(&mut cells, &c);
            },
            Ok(_) => {},
        }
        if e >= n {
            return Ok(cells);
        }
        pos = e + 1;
        ix = ix + 1;
    }
    Ok(cells)
}

/// Appends `c` to `cells`, which has room for it.
fn append_cells(cells: &mut Cells, c: &Vec<u32>)
    requires
        old(cells)@.len() + c@.len() <= MAX_CELLS,
    ensures
        final(cells)@ == old(cells)@ + c@,
        final(cells).wf(),
{
    let mut k: usize = 0;
    while k < c.len()
        invariant
            k <= c@.len(),
            old(cells)@.len() + c@.len() <= MAX_CELLS,
            cells.wf(),
            cells@ == old(cells)@ + c@.take(k as int),
        decreases c@.len() - k,
    {
        let ghost before = cells@;
        let r = cells.push(c[k]);
        proof {
            assert(r is Ok);
            assert(c@.take(k + 1) =~= c@.take(k as int).push(c@[k as int]));
        }
        k = k + 1;
    }
    proof {
        assert(c@.take(c@.len() as int) =~= c@);
    }
}

/// Assembles `.lam` text into cells.
pub fn assemble(src: &str) -> (r: Result<Cells, AsmError>)
    ensures
        match assemble_spec(src.spec_bytes()) {
            Ok(c) => r is Ok && r->Ok_0@ == c,
            Err(e) => r == Err::<Cells, AsmError>(e),
        },
{
    let b = src.as_bytes();
    let mut atoms = SymTab::atoms();
    let mut labels = SymTab::labels();
    match pass1(b, &mut atoms, &mut labels) {
        Err(e) => return Err(e),
        Ok(()) => {},
    }
    pass2(b, &atoms, &labels)
}

/// The four little-endian bytes of `c`.
pub open spec fn le_bytes(c: u32) -> Seq<u8> {
    seq![(c % 256) as u8, ((c / 256) % 256) as u8, ((c / 65536) % 256) as u8, (c / 16777216) as u8]
}

/// The little-endian bytes of `cells[i..]`.
pub open spec fn flat_from(cells: Seq<u32>, i: nat) -> Seq<u8>
    decreases cells.len() - i,
{
    if i >= cells.len() {
        Seq::empty()
    } else {
        le_bytes(cells[i as int]) + flat_from(cells, i + 1)
    }
}

/// Appends each cell as four little-endian bytes.
pub fn write_flat(cells: &Cells, out: &mut Vec<u8>)
    ensures
        final(out)@ == old(out)@ + flat_from(cells@, 0),
{
    let n = cells.len();
    let mut i: usize = 0;
    while i < n
        invariant
            n == cells@.len(),
            i <= n,
            old(out)@ + flat_from(cells@, 0) == out@ + flat_from(cells@, i as nat),
        decreases n - i,
    {
        let c = *cells.get(i).unwrap();
        out.push((c % 256) as u8);
        out.push(((c / 256) % 256) as u8);
        out.push(((c / 65536) % 256) as u8);
        out.push((c / 16777216) as u8);
        proof {
            assert(out@ + flat_from(cells@, (i + 1) as nat) =~= old(out)@ + flat_from(cells@, 0)) by {
                assert(flat_from(cells@, i as nat) == le_bytes(c) + flat_from(cells@, (i + 1) as nat));
            }
        }
        i = i + 1;
    }
    proof {
        assert(out@ =~= old(out)@ + flat_from(cells@, 0));
    }
}

/// `i` in decimal, padded with zeros to four digits.
pub open spec fn pad4(i: nat) -> Seq<u8> {
    let d = decimal(i);
    if d.len() >= 4 {
        d
    } else {
        Seq::new((4 - d.len()) as nat, |k: int| 48u8) + d
    }
}

/// The listing of `cells[i..]`: per cell its index, two spaces, `0x`
/// and the low 24 bits in six upper-case hexadecimal digits.
pub open spec fn listing_from(cells: Seq<u32>, i: nat) -> Seq<u8>
    decreases cells.len() - i,
{
    if i >= cells.len() {
        Seq::empty()
    } else {
        pad4(i) + crate::emit::sb("  0x") + hex6(cells[i as int]) + crate::emit::sb("\n") + listing_from(cells, i + 1)
    }
}

/// Appends the listing of the cells.
pub fn dump_verbose(cells: &Cells, out: &mut Vec<u8>)
    ensures
        final(out)@ == old(out)@ + listing_from(cells@, 0),
{
    let n = cells.len();
    let mut i: usize = 0;
    while i < n
        invariant
            n == cells@.len(),
            i <= n,
            old(out)@ + listing_from(cells@, 0) == out@ + listing_from(cells@, i as nat),
        decreases n - i,
    {
        let c = *cells.get(i).unwrap();
        let ghost before = out@;
        push_pad4(out, i);
        push_str(out, "  0x");
        push_hex6(out, c);
        push_str(out, "\n");
        proof {
            assert(out@ =~= before + (pad4(i as nat) + crate::emit::sb("  0x") + hex6(c) + crate::emit::sb("\n")));
            assert(out@ + listing_from(cells@, (i + 1) as nat) =~= before + listing_from(cells@, i as nat));
        }
        i = i + 1;
    }
    proof {
        assert(out@ =~= old(out)@ + listing_from(cells@, 0));
    }
}

/// Appends `i` padded with zeros to four digits.
fn push_pad4(out: &mut Vec<u8>, i: usize)
    ensures
        final(out)@ == old(out)@ + pad4(i as nat),
{
    let mut digits: Vec<u8> = Vec::new();
    push_decimal(&mut digits, i as u64);
    let mut k = digits.len();
    let ghost o = out@;
    let ghost d = decimal(i as nat);
    proof {
        assert(digits@ =~= d);
    }
    while k < 4
        invariant
            digits@ == d,
            d.len() <= k,
            k <= 4 || k == d.len(),
            out@ == o + Seq::new((k - d.len()) as nat, |j: int| 48u8),
        decreases 4 - k,
    {
        out.push(48u8);
        proof {
            assert(Seq::new((k + 1 - d.len()) as nat, |j: int| 48u8) =~= Seq::new((k - d.len()) as nat, |j: int| 48u8).push(48u8));
        }
        k = k + 1;
    }
    let ghost padded = out@;
    crate::text::push_bytes(out, digits.as_slice());
    proof {
        if d.len() >= 4 {
            assert(Seq::new(0, |j: int| 48u8) =~= Seq::<u8>::empty());
            assert(out@ =~= o + d);
        } else {
            assert(k == 4);
            assert(out@ =~= o + (Seq::new((4 - d.len()) as nat, |j: int| 48u8) + d));
        }
    }
}

} // verus!
