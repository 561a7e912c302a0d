//! The virtual machine's opcode semantics, one test per opcode.

use regvm::vm::VM;

#[test]
fn test_create_vm() {
    let test_vm = VM::new();
    assert_eq!(test_vm.registers[0], 0)
}

#[test]
fn test_opcode_hlt() {
    let mut test_vm = VM::new();
    let test_bytes = vec![5, 0, 0, 0];
    test_vm.program = test_bytes;

    test_vm.run_once();
    assert_eq!(test_vm.pc, 1);
}

#[test]
fn test_opcode_igl() {
    let mut test_vm = VM::new();
    let test_bytes = vec![254, 0, 0, 0];
    test_vm.program = test_bytes;

    test_vm.run_once();
    assert_eq!(test_vm.pc, 1);
}

#[test]
fn test_opcode_load() {
    let mut test_vm = VM::new();
    test_vm.program = vec![0, 0, 1, 244];

    test_vm.run();
    assert_eq!(test_vm.registers[0], 500)
}

#[test]
fn test_opcode_add() {
    let mut test_vm = VM::new();
    test_vm.registers[1] = 500;
    test_vm.registers[2] = 500;
    test_vm.program = vec![1, 0, 1, 2];

    test_vm.run();
    assert_eq!(test_vm.registers[0], 1000)
}

#[test]
fn test_opcode_div() {
    let mut test_vm = VM::new();
    test_vm.registers[1] = 8;
    test_vm.registers[2] = 5;
    test_vm.program = vec![2, 0, 1, 2];

    test_vm.run_once();
    assert_eq!(test_vm.registers[0], 1);
    assert_eq!(test_vm.remainder, 3);
}

#[test]
fn test_opcode_mul() {
    let mut test_vm = VM::new();
    test_vm.registers[1] = 2;
    test_vm.registers[2] = 5;
    test_vm.program = vec![3, 0, 1, 2];

    test_vm.run_once();
    assert_eq!(test_vm.registers[0], 10)
}

#[test]
fn test_opcode_sub() {
    let mut test_vm = VM::new();
    test_vm.registers[1] = 5;
    test_vm.registers[2] = 2;
    test_vm.program = vec![4, 0, 1, 2];

    test_vm.run_once();
    assert_eq!(test_vm.registers[0], 3)
}

#[test]
fn test_opcode_jmp() {
    let mut test_vm = VM::new();
    test_vm.registers[0] = 1;
    test_vm.program = vec![6, 0, 0, 0];
    test_vm.run_once();

    assert_eq!(test_vm.pc, 1);
}

#[test]
fn test_opcode_jmp_back() {
    let mut test_vm = VM::new();
    test_vm.registers[0] = 2;
    test_vm.program = vec![7, 0, 0, 0, 6, 0, 0, 0];
    test_vm.run_once();

    assert_eq!(test_vm.pc, 0);
}

#[test]
fn test_opcode_jmp_forward() {
    let mut test_vm = VM::new();
    test_vm.registers[0] = 2;
    test_vm.program = vec![8, 0, 0, 0, 6, 0, 0, 0];
    test_vm.run_once();

    assert_eq!(test_vm.pc, 4);
}

#[test]
fn test_opcode_eq() {
    let mut test_vm = VM::new();

    // Checks if equal - should return 1 (true)
    test_vm.registers[1] = 2;
    test_vm.registers[2] = 2;
    test_vm.program = vec![9, 0, 1, 2];
    test_vm.run_once();

    assert_eq!(test_vm.registers[0], 1);

    // Reset program counter
    test_vm.pc = 0;

    // Checks if is equal - should return 0 (false)
    test_vm.registers[1] = 2;
    test_vm.registers[2] = 3;
    test_vm.program = vec![9, 0, 1, 2];
    test_vm.run_once();

    assert_eq!(test_vm.registers[0], 0);
}

#[test]
fn test_opcode_neq() {
    let mut test_vm = VM::new();

    // Checks if not equal - should return 1 (true)
    test_vm.registers[1] = 2;
    test_vm.registers[2] = 3;
    test_vm.program = vec![10, 0, 1, 2];
    test_vm.run_once();

    assert_eq!(test_vm.registers[0], 1);

    // Reset program counter
    test_vm.pc = 0;

    // Checks if is equal - should return 0 (false)
    test_vm.registers[1] = 2;
    test_vm.registers[2] = 2;
    test_vm.program = vec![10, 0, 1, 2];
    test_vm.run_once();

    assert_eq!(test_vm.registers[0], 0);
}

#[test]
fn test_opcode_gt() {
    let mut test_vm = VM::new();

    // Checks if greater than - should return 1 (true)
    test_vm.registers[1] = 3;
    test_vm.registers[2] = 2;
    test_vm.program = vec![11, 0, 1, 2];
    test_vm.run_once();

    assert_eq!(test_vm.registers[0], 1);

    // Reset program counter
    test_vm.pc = 0;

    // Checks if not greater than - should return 0 (false)
    test_vm.registers[1] = 2;
    test_vm.registers[2] = 3;
    test_vm.program = vec![11, 0, 1, 2];
    test_vm.run_once();

    assert_eq!(test_vm.registers[0], 0);
}

#[test]
fn test_opcode_lt() {
    let mut test_vm = VM::new();

    // Checks if less than - should return 1 (true)
    test_vm.registers[1] = 2;
    test_vm.registers[2] = 3;
    test_vm.program = vec![12, 0, 1, 2];
    test_vm.run_once();

    assert_eq!(test_vm.registers[0], 1);

    // Reset program counter
    test_vm.pc = 0;

    // Checks if not less than - should return 0 (false)
    test_vm.registers[1] = 3;
    test_vm.registers[2] = 2;
    test_vm.program = vec![12, 0, 1, 2];
    test_vm.run_once();

    assert_eq!(test_vm.registers[0], 0);
}

#[test]
fn test_opcode_gtq() {
    let mut test_vm = VM::new();

    // Checks if equal - should return 1 (true)
    test_vm.registers[1] = 2;
    test_vm.registers[2] = 2;
    test_vm.program = vec![13, 0, 1, 2];
    test_vm.run_once();

    assert_eq!(test_vm.registers[0], 1);

    // Reset program counter
    test_vm.pc = 0;

    // Checks if greater than - should return 1 (true)
    test_vm.registers[1] = 3;
    test_vm.registers[2] = 2;
    test_vm.program = vec![13, 0, 1, 2];
    test_vm.run_once();

    assert_eq!(test_vm.registers[0], 1);

    // Reset program counter
    test_vm.pc = 0;

    // Checks if not greater than - should return 0 (false)
    test_vm.registers[1] = 2;
    test_vm.registers[2] = 3;
    test_vm.program = vec![13, 0, 1, 2];
    test_vm.run_once();

    assert_eq!(test_vm.registers[0], 0);
}

#[test]
fn test_opcode_ltq() {
    let mut test_vm = VM::new();

    // Checks if equal - should return 1 (true)
    test_vm.registers[1] = 2;
    test_vm.registers[2] = 2;
    test_vm.program = vec![14, 0, 1, 2];
    test_vm.run_once();

    assert_eq!(test_vm.registers[0], 1);

    // Reset program counter
    test_vm.pc = 0;

    // Checks if greater than - should return 1 (true)
    test_vm.registers[1] = 2;
    test_vm.registers[2] = 3;
    test_vm.program = vec![14, 0, 1, 2];
    test_vm.run_once();

    assert_eq!(test_vm.registers[0], 1);

    // Reset program counter
    test_vm.pc = 0;

    // Checks if not greater than - should return 0 (false)
    test_vm.registers[1] = 3;
    test_vm.registers[2] = 2;
    test_vm.program = vec![14, 0, 1, 2];
    test_vm.run_once();

    assert_eq!(test_vm.registers[0], 0);
}

#[test]
fn test_opcode_jeq() {
    let mut test_vm = VM::new();

    test_vm.registers[0] = 2;
    test_vm.registers[1] = 1;
    test_vm.program = vec![15, 0, 1, 0];
    test_vm.run_once();

    assert_eq!(test_vm.pc, 2);
}

#[test]
fn test_opcode_jneq() {
    let mut test_vm = VM::new();

    test_vm.registers[0] = 2;
    test_vm.registers[1] = 0;
    test_vm.program = vec![16, 0, 1, 0];
    test_vm.run_once();

    assert_eq!(test_vm.pc, 2);
}

#[test]
fn test_opcode_aloc() {
    let mut test_vm = VM::new();

    test_vm.registers[0] = 256;
    test_vm.program = vec![17, 0, 0, 0];
    test_vm.run_once();

    assert_eq!(test_vm.heap.len(), 256);
}

#[test]
fn test_opcode_aloc_negative_grows_nothing() {
    let mut test_vm = VM::new();

    test_vm.registers[0] = -5;
    test_vm.program = vec![17, 0, 0, 0];
    test_vm.run_once();

    assert_eq!(test_vm.heap.len(), 0);
    assert_eq!(test_vm.pc, 2);
}

#[test]
fn test_opcode_div_negative_dividend() {
    let mut test_vm = VM::new();
    test_vm.registers[1] = -8;
    test_vm.registers[2] = 5;
    test_vm.program = vec![2, 0, 1, 2];

    test_vm.run_once();
    // Truncated division; the remainder carries the dividend's sign and
    // is stored as a 32-bit word.
    assert_eq!(test_vm.registers[0], -1);
    assert_eq!(test_vm.remainder, 4294967293);
}

#[test]
fn test_straightline_program_runs_to_end() {
    let mut test_vm = VM::new();
    // Two LOADs and an EQ: no jumps, no HLT; the run stops with the
    // program counter at the program's length.
    test_vm.program = vec![0, 1, 0, 7, 0, 2, 0, 7, 9, 0, 1, 2];

    test_vm.run();
    assert_eq!(test_vm.pc, 12);
    assert_eq!(test_vm.registers[1], 7);
    assert_eq!(test_vm.registers[2], 7);
    assert_eq!(test_vm.registers[0], 1);
}

#[test]
fn test_division_by_zero_faults_without_change() {
    let mut test_vm = VM::new();
    test_vm.registers[1] = 8;
    test_vm.program = vec![2, 0, 1, 2];

    test_vm.run_once();
    // The faulting step leaves the whole state unchanged.
    assert_eq!(test_vm.pc, 0);
    assert_eq!(test_vm.registers[0], 0);
    assert_eq!(test_vm.remainder, 0);
}
