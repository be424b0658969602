use rust_to_prolog::assembler::encode::{IMM_MASK, TAG_ATOM_BITS, TAG_INT_BITS};
use rust_to_prolog::assembler::{assemble, dump_verbose, write_flat, AsmError, Cells};

const ANCESTOR_LAM: &str = ".atom 0 parent
.atom 1 bob
.atom 2 ann
.atom 3 liz
.atom 4 ancestor

    EXECUTE query

parent_c1_body:
    GET_CONST A0, atom(bob)
    GET_CONST A1, atom(ann)
    PROCEED

parent_c2_body:
    GET_CONST A0, atom(ann)
    GET_CONST A1, atom(liz)
    PROCEED

parent_entry:
    TRY parent_c2
    EXECUTE parent_c1_body
parent_c2:
    TRUST
    EXECUTE parent_c2_body

ancestor_c1_body:
    GET_VAR X0, A0
    GET_VAR X1, A1
    PUT_VAL X0, A0
    PUT_VAL X1, A1
    EXECUTE parent_entry

ancestor_c2_body:
    ALLOCATE 2
    GET_VAR X0, A0
    GET_Y_VAR Y0, A1
    PUT_VAL X0, A0
    PUT_VAR X1, A1
    GET_Y_VAR Y1, A1
    CALL parent_entry
    PUT_Y_VAL Y1, A0
    PUT_Y_VAL Y0, A1
    DEALLOCATE
    EXECUTE ancestor_entry

ancestor_entry:
    TRY ancestor_c2
    EXECUTE ancestor_c1_body
ancestor_c2:
    TRUST
    EXECUTE ancestor_c2_body

query:
    PUT_CONST A0, atom(bob)
    PUT_CONST A1, atom(liz)
    CALL ancestor_entry
    HALT
";

fn cells_of(src: &str) -> Cells {
    assemble(src).expect("assemble ok")
}

fn cell(c: &Cells, i: usize) -> u32 {
    *c.get(i).expect("cell in range")
}

#[test]
fn noop_opcodes_encode_to_single_cell() {
    for (mnem, opc) in [
        ("NOP", 0u32),
        ("HALT", 1),
        ("PROCEED", 4),
        ("FAIL", 5),
        ("CUT", 9),
        ("TRUST", 8),
        ("DEALLOCATE", 29),
        ("B_NL", 33),
        ("B_IS_ADD", 34),
        ("B_IS_SUB", 35),
        ("B_LT", 36),
        ("B_GT", 37),
    ] {
        let src = format!("{mnem}\n");
        let c = cells_of(&src);
        assert_eq!(c.len(), 1, "{mnem}");
        assert_eq!(cell(&c, 0), opc << 16, "{mnem}");
    }
}

#[test]
fn call_and_execute_encode_as_two_cells_with_label_addr() {
    let src = "foo:\n    PROCEED\nbar:\n    CALL foo\n    EXECUTE bar\n";
    let c = cells_of(src);
    // foo at 0 (PROCEED = 1 cell), bar at 1. Then CALL/EXECUTE are 2-cell.
    assert_eq!(c.len(), 5);
    assert_eq!(cell(&c, 0), 4 << 16); // PROCEED
    assert_eq!(cell(&c, 1), 2 << 16); // CALL opcode cell
    assert_eq!(cell(&c, 2), 0); // label addr of foo
    assert_eq!(cell(&c, 3), 3 << 16); // EXECUTE opcode cell
    assert_eq!(cell(&c, 4), 1); // label addr of bar
}

#[test]
fn try_retry_encode_as_two_cells() {
    let src = "a:\n    PROCEED\nb:\n    TRY a\n    RETRY b\n";
    let c = cells_of(src);
    assert_eq!(c.len(), 5);
    assert_eq!(cell(&c, 1), 6 << 16);
    assert_eq!(cell(&c, 2), 0);
    assert_eq!(cell(&c, 3), 7 << 16);
    assert_eq!(cell(&c, 4), 1);
}

#[test]
fn put_const_encodes_register_and_tagged_atom() {
    let src = ".atom 1 bob\n    PUT_CONST A0, atom(bob)\n";
    let c = cells_of(src);
    assert_eq!(c.len(), 2);
    assert_eq!(cell(&c, 0), (12 << 16) | (0 << 8));
    assert_eq!(cell(&c, 1), TAG_ATOM_BITS | 1);
}

#[test]
fn get_const_encodes_register_and_tagged_atom() {
    let src = ".atom 2 ann\n    GET_CONST A1, atom(ann)\n";
    let c = cells_of(src);
    assert_eq!(c.len(), 2);
    assert_eq!(cell(&c, 0), (18 << 16) | (1 << 8));
    assert_eq!(cell(&c, 1), TAG_ATOM_BITS | 2);
}

#[test]
fn put_const_encodes_tagged_int() {
    let src = "    PUT_CONST A2, int(42)\n";
    let c = cells_of(src);
    assert_eq!(c.len(), 2);
    assert_eq!(cell(&c, 0), (12 << 16) | (2 << 8));
    assert_eq!(cell(&c, 1), TAG_INT_BITS | 42);
}

#[test]
fn put_const_negative_int_masks_to_21_bits() {
    let src = "    PUT_CONST A0, int(-1)\n";
    let c = cells_of(src);
    assert_eq!(cell(&c, 1), TAG_INT_BITS | IMM_MASK);
}

#[test]
fn put_var_xn_ai_encodes_reg_codes() {
    let src = "    PUT_VAR X0, A0\n";
    let c = cells_of(src);
    // opcode 10, op1=8, op2=0
    assert_eq!(cell(&c, 0), (10 << 16) | (8 << 8));
}

#[test]
fn put_val_xn_ai_encodes_reg_codes() {
    let src = "    PUT_VAL X2, A1\n";
    let c = cells_of(src);
    assert_eq!(cell(&c, 0), (11 << 16) | (10 << 8) | 1);
}

#[test]
fn get_var_xn_ai_encodes_reg_codes() {
    let src = "    GET_VAR X1, A1\n";
    let c = cells_of(src);
    assert_eq!(cell(&c, 0), (16 << 16) | (9 << 8) | 1);
}

#[test]
fn put_y_val_requires_first_to_be_y() {
    let src = "    PUT_Y_VAL X0, A0\n";
    let err = assemble(src).unwrap_err();
    assert!(matches!(err, AsmError::BadOperand { .. }));
}

#[test]
fn put_y_val_encodes_y_then_a() {
    let src = "    PUT_Y_VAL Y3, A2\n";
    let c = cells_of(src);
    assert_eq!(cell(&c, 0), (13 << 16) | (3 << 8) | 2);
}

#[test]
fn get_y_var_encodes_y_then_a() {
    let src = "    GET_Y_VAR Y0, A1\n";
    let c = cells_of(src);
    assert_eq!(cell(&c, 0), (20 << 16) | (0 << 8) | 1);
}

#[test]
fn allocate_encodes_n_in_op1() {
    let src = "    ALLOCATE 3\n";
    let c = cells_of(src);
    assert_eq!(cell(&c, 0), (28 << 16) | (3 << 8));
}

#[test]
fn b_write_encodes_register() {
    let src = "    B_WRITE A0\n";
    let c = cells_of(src);
    assert_eq!(cell(&c, 0), (32 << 16) | (0 << 8));
}

#[test]
fn unify_var_and_unify_val_encode_register() {
    let src = "    UNIFY_VAR X0\n    UNIFY_VAL X1\n";
    let c = cells_of(src);
    assert_eq!(c.len(), 2);
    assert_eq!(cell(&c, 0), (22 << 16) | (8 << 8));
    assert_eq!(cell(&c, 1), (23 << 16) | (9 << 8));
}

#[test]
fn get_struct_encodes_reg_arity_and_tagged_atom() {
    let src = ".atom 7 foo\n    GET_STRUCT A0, foo/2\n";
    let c = cells_of(src);
    assert_eq!(c.len(), 2);
    assert_eq!(cell(&c, 0), (19 << 16) | (0 << 8) | 2);
    assert_eq!(cell(&c, 1), TAG_ATOM_BITS | 7);
}

#[test]
fn comments_and_blank_lines_skipped() {
    let src = "; pre\n\n    HALT  ; inline\n; trailing\n";
    let c = cells_of(src);
    assert_eq!(c.len(), 1);
    assert_eq!(cell(&c, 0), 1 << 16);
}

#[test]
fn undefined_label_errors() {
    let err = assemble("    CALL missing\n").unwrap_err();
    assert!(matches!(err, AsmError::UndefinedLabel { .. }));
}

#[test]
fn undeclared_atom_errors() {
    let err = assemble("    PUT_CONST A0, atom(missing)\n").unwrap_err();
    assert!(matches!(err, AsmError::UndeclaredAtom { .. }));
}

#[test]
fn unknown_opcode_errors() {
    let err = assemble("    BOGUS A0\n").unwrap_err();
    assert!(matches!(err, AsmError::UnknownOpcode { .. }));
}

#[test]
fn bad_arity_errors() {
    let err = assemble("    HALT A0\n").unwrap_err();
    assert!(matches!(err, AsmError::BadArity { .. }));
}

#[test]
fn ancestor_assembles_to_expected_cell_count() {
    // 49 cells pre-ALLOCATE; +3 cells for ALLOCATE, GET_Y_VAR,
    // DEALLOCATE (1 each) in ancestor_c2_body once the recursive
    // rule gets its env frame. The additional GET_Y_VAR (save Z
    // to Y1) also costs 1 cell, so 49 + 4 - 1 = 52. The -1 comes
    // from the fact that PUT_VAL X1, A1 and PUT_VAL X2, A0 both
    // still collapse to 1 cell each under PUT_Y_VAL.
    let src = ANCESTOR_LAM;
    let c = cells_of(src);
    assert_eq!(c.len(), 52);
}

#[test]
fn ancestor_first_cell_is_execute_query() {
    let src = ANCESTOR_LAM;
    let c = cells_of(src);
    assert_eq!(cell(&c, 0), 3 << 16);
    // query label moves from address 42 → 45 because
    // ancestor_c2_body grew by 3 cells (ALLOCATE + extra
    // GET_Y_VAR + DEALLOCATE).
    assert_eq!(cell(&c, 1), 45);
}

#[test]
fn write_flat_emits_le_u32_per_cell() {
    let src = "    HALT\n";
    let c = cells_of(src);
    let mut buf = Vec::new();
    write_flat(&c, &mut buf);
    assert_eq!(buf, vec![0x00, 0x00, 0x01, 0x00]);
}

#[test]
fn dump_verbose_lists_index_and_low_24_bits() {
    let c = cells_of(".atom 3 x\n    PUT_CONST A1, atom(x)\n");
    let mut buf = Vec::new();
    dump_verbose(&c, &mut buf);
    assert_eq!(String::from_utf8(buf).unwrap(), "0000  0x0C0100\n0001  0x400003\n");
}

#[test]
fn bad_directive_errors_carry_line_numbers() {
    assert_eq!(assemble("\n.atom x\n").unwrap_err(), AsmError::BadDirective { line: 2 });
    assert_eq!(assemble(".atom 1 a b\n").unwrap_err(), AsmError::BadDirective { line: 1 });
    assert_eq!(assemble("1abc:\n").unwrap_err(), AsmError::BadDirective { line: 1 });
    assert_eq!(assemble("    halt\n").unwrap_err(), AsmError::UnknownOpcode { line: 1 });
}

#[test]
fn operand_errors() {
    assert_eq!(assemble("    PUT_VAR X8, A0\n").unwrap_err(), AsmError::BadOperand { line: 1 });
    assert_eq!(assemble("    ALLOCATE 256\n").unwrap_err(), AsmError::BadOperand { line: 1 });
    assert_eq!(assemble("    PUT_CONST A0, int(2147483648)\n").unwrap_err(), AsmError::BadOperand { line: 1 });
    assert_eq!(assemble(".atom 1 f\n    GET_STRUCT A0, f/x\n").unwrap_err(), AsmError::BadOperand { line: 2 });
}

#[test]
fn name_too_long_and_table_overflows() {
    let long = "a".repeat(49);
    assert_eq!(assemble(&format!(".atom 1 {long}\n")).unwrap_err(), AsmError::NameTooLong { line: 1 });
    let mut atoms = String::new();
    for i in 0..65 {
        atoms.push_str(&format!(".atom {i} a{i}\n"));
    }
    assert_eq!(assemble(&atoms).unwrap_err(), AsmError::AtomOverflow);
    let mut labels = String::new();
    for i in 0..129 {
        labels.push_str(&format!("l{i}:\n"));
    }
    assert_eq!(assemble(&labels).unwrap_err(), AsmError::LabelOverflow);
}

#[test]
fn cell_overflow_past_capacity() {
    let src = "    HALT\n".repeat(4097);
    assert_eq!(assemble(&src).unwrap_err(), AsmError::CellOverflow);
    let fits = "    HALT\n".repeat(4096);
    assert_eq!(assemble(&fits).unwrap().len(), 4096);
}

#[test]
fn crlf_lines_and_unicode_whitespace_are_trimmed() {
    let c = cells_of("\u{3000}HALT\u{00A0}\r\n    PROCEED\r\n");
    assert_eq!(c.len(), 2);
    assert_eq!(cell(&c, 0), 1 << 16);
    assert_eq!(cell(&c, 1), 4 << 16);
}

#[test]
fn labels_resolve_forward_references() {
    let c = cells_of("    EXECUTE later\n    HALT\nlater:\n    PROCEED\n");
    assert_eq!(cell(&c, 1), 3);
}

#[test]
fn first_of_duplicate_labels_wins() {
    let c = cells_of("x:\n    HALT\nx:\n    CALL x\n");
    assert_eq!(cell(&c, 2), 0);
}
