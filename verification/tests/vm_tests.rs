use iridation::vm::{prepend_header, RuntimeFault, StepOutcome, Vm};

#[test]
fn check_new() {
    let x = Vm::new();
    assert_eq!(x.registers[0], 0);
}

#[test]
fn test_opcode_hlt() {
    let mut vm = Vm::new();
    vm.program = vec![0, 0, 0, 0];
    vm.program = prepend_header(vm.program);
    let _ = vm.run();
    assert_eq!(vm.pc, 68);
}

#[test]
fn test_opcode_igl() {
    let mut vm = Vm::new();
    vm.program = vec![253, 1, 1, 1];
    vm.program = prepend_header(vm.program);
    let fault = vm.run();
    assert_eq!(fault, Some(RuntimeFault::IllegalOpcode));
    assert_eq!(vm.pc, 65);
}

#[test]
fn test_load_opcode() {
    let mut vm = Vm::new();
    vm.program = vec![0, 0, 1, 244];
    vm.program = prepend_header(vm.program);
    let _ = vm.run();
    assert_eq!(vm.registers[0], 500);
}

#[test]
fn test_add_opcode() {
    let mut vm = Vm::new();
    // Load 1 into register 0
    vm.add_bytes(vec![0, 0, 0, 1]);
    // Load 2 into register 1
    vm.add_bytes(vec![0, 1, 0, 2]);
    // Add register 0 and register 1, store result in register 2
    vm.add_bytes(vec![1, 0, 1, 2]);
    vm.program = prepend_header(vm.program);
    let _ = vm.run();
    assert_eq!(vm.registers[2], 3);
}

#[test]
fn test_jmp_opcode() {
    let mut vm = Vm::new();
    vm.registers[0] = 1;
    vm.program = vec![5, 0, 0, 0];
    vm.program = prepend_header(vm.program);
    vm.run_once();
    assert_eq!(vm.pc, 1);
}

#[test]
fn test_jmpb_opcode() {
    let mut vm = Vm::new();
    vm.registers[0] = 1;
    vm.program = vec![7, 0, 0, 0];
    vm.program = prepend_header(vm.program);
    vm.run_once();
    assert_eq!(vm.pc, 65);
}

#[test]
fn test_jmpf_opcode() {
    let mut vm = Vm::new();
    vm.registers[0] = 1;
    vm.program = vec![6, 0, 0, 0];
    vm.program = prepend_header(vm.program);
    let _ = vm.run();
    assert_eq!(vm.pc, 67);
}

#[test]
fn test_eq() {
    let mut vm = Vm::new();
    vm.registers[0] = 1;
    vm.registers[1] = 1;
    vm.program = vec![8, 0, 1, 2];
    vm.program = prepend_header(vm.program);
    let _ = vm.run();
    assert!(vm.equal_flag);
    vm.registers[0] = 32;
    vm.pc = 64;
    let _ = vm.run();
    assert!(!vm.equal_flag);
}

#[test]
fn test_jeq_and_jneq_opcode() {
    let mut vm = Vm::new();
    vm.registers[0] = 7;
    vm.registers[1] = 1;
    vm.equal_flag = true;
    vm.program = vec![14, 0, 0, 0, 15, 1, 0, 0];
    vm.program = prepend_header(vm.program);
    vm.run_once();
    assert_eq!(vm.pc, 7);
    vm.pc = 0;
    vm.equal_flag = false;
    vm.run_once();
    assert_eq!(vm.pc, 1);
}

#[test]
fn test_nop_opcode() {
    let mut vm = Vm::new();
    vm.program = vec![16, 0, 0, 0, 1, 0, 0, 1];
    vm.program = prepend_header(vm.program);
    vm.run_once();
    assert_eq!(vm.pc, 68);
}

#[test]
fn test_aloc_opcode() {
    let mut vm = Vm::new();
    vm.registers[0] = 100;
    vm.program = vec![17, 0, 0, 0];
    vm.program = prepend_header(vm.program);
    vm.run_once();
    assert_eq!(vm.heap.len(), 100);
}

#[test]
fn test_inc_opcode() {
    let mut vm = Vm::new();
    vm.registers[0] = 2;
    vm.program = vec![18, 0, 0, 0];
    vm.program = prepend_header(vm.program);
    vm.run_once();
    assert_eq!(vm.registers[0], 3);
}

#[test]
fn test_dec_opcode() {
    let mut vm = Vm::new();
    vm.registers[0] = 2;
    vm.program = vec![19, 0, 0, 0];
    vm.program = prepend_header(vm.program);
    vm.run_once();
    assert_eq!(vm.registers[0], 1);
}

#[test]
fn div_by_zero_reports_fault() {
    let mut vm = Vm::new();
    vm.registers[0] = 10;
    vm.registers[1] = 0;
    vm.program = prepend_header(vec![4, 0, 1, 2]);
    let fault = vm.run();
    assert_eq!(fault, Some(RuntimeFault::DivideByZero));
}

#[test]
fn div_sets_quotient_and_remainder() {
    let mut vm = Vm::new();
    vm.registers[0] = 7;
    vm.registers[1] = 2;
    vm.program = prepend_header(vec![4, 0, 1, 2]);
    let fault = vm.run();
    assert_eq!(fault, None);
    assert_eq!(vm.registers[2], 3);
    assert_eq!(vm.remainder, 1);
}

#[test]
fn div_truncates_toward_zero_and_remainder_keeps_dividend_sign() {
    let mut vm = Vm::new();
    vm.registers[0] = -7;
    vm.registers[1] = 2;
    vm.program = prepend_header(vec![4, 0, 1, 2]);
    let fault = vm.run();
    assert_eq!(fault, None);
    assert_eq!(vm.registers[2], -3);
    // -1, as the unsigned word with the same bits.
    assert_eq!(vm.remainder, u32::MAX);
}

#[test]
fn eq_then_jeq_branches_and_jneq_does_not() {
    // EQ on equal registers sets the flag; JEQ then branches.
    let mut vm = Vm::new();
    vm.registers[0] = 5;
    vm.registers[1] = 5;
    vm.registers[2] = 100;
    vm.program = prepend_header(vec![8, 0, 1, 0, 14, 2, 0, 0]);
    let outcome = vm.run_once();
    assert_eq!(outcome, StepOutcome::Continue);
    assert!(vm.equal_flag);
    assert_eq!(vm.pc, 68);
    vm.run_once();
    assert_eq!(vm.pc, 100);
    // Under the same flag, JNEQ does not branch: only the operand byte is
    // consumed.
    let mut vm2 = Vm::new();
    vm2.registers[0] = 5;
    vm2.registers[1] = 5;
    vm2.registers[2] = 100;
    vm2.program = prepend_header(vec![8, 0, 1, 0, 15, 2, 0, 0]);
    vm2.run_once();
    assert!(vm2.equal_flag);
    vm2.run_once();
    assert_eq!(vm2.pc, 70);
}

#[test]
fn negative_heap_delta_is_a_fault() {
    let mut vm = Vm::new();
    vm.registers[0] = -4;
    vm.program = prepend_header(vec![17, 0, 0, 0]);
    let fault = vm.run();
    assert_eq!(fault, Some(RuntimeFault::InvalidHeapDelta));
    assert_eq!(vm.heap.len(), 0);
}

#[test]
fn prts_writes_valid_utf8_to_output() {
    let mut vm = Vm::new();
    vm.ro_data = vec![72, 105, 0];
    vm.program = prepend_header(vec![20, 0, 0, 0]);
    let outcome = vm.run_once();
    assert_eq!(outcome, StepOutcome::Continue);
    assert_eq!(vm.output, b"Hi".to_vec());
}

#[test]
fn prts_drops_invalid_utf8() {
    let mut vm = Vm::new();
    vm.ro_data = vec![0xff, 0xfe, 0];
    vm.program = prepend_header(vec![20, 0, 0, 0]);
    let outcome = vm.run_once();
    assert_eq!(outcome, StepOutcome::Continue);
    assert!(vm.output.is_empty());
}

#[test]
fn prepend_header_shape() {
    let image = prepend_header(vec![1, 2, 3]);
    assert_eq!(image.len(), 67);
    assert_eq!(&image[0..4], &[45, 50, 49, 45]);
    assert!(image[4..64].iter().all(|b| *b == 0));
    assert_eq!(&image[64..], &[1, 2, 3]);
}

#[test]
fn verify_header_checks_magic() {
    let mut vm = Vm::new();
    vm.program = prepend_header(vec![]);
    assert!(vm.verify_header());
    vm.program = vec![1, 2, 3, 4];
    assert!(!vm.verify_header());
    vm.program = vec![45];
    assert!(!vm.verify_header());
}
