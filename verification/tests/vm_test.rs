use moofloom::moo::parse_program_from_string;
use moofloom::program::Program;
use moofloom::vm::{Command, MooMachine, Param};

type Machine = MooMachine<Vec<u64>, Vec<u64>>;

#[test]
fn fadd_test() {
    let program = Program::new(
        vec![Command::FAdd(
            Param::FConstant(1f64.to_bits()),
            Param::FConstant(2f64.to_bits()),
            Param::Register(0),
        )],
        Vec::new(),
    );
    let mut machine: Machine = MooMachine::new(program, Vec::new(), Vec::new());
    machine.tick().unwrap();
    assert_eq!(machine.register(0).unwrap(), 3f64.to_bits(),);
}

#[test]
fn load_float_test() {
    let program = parse_program_from_string("load 3f R1;").unwrap();
    let mut machine: Machine = MooMachine::new(program, Vec::new(), Vec::new());
    assert_eq!(machine.register(1), None,);
    machine.tick().unwrap();
    assert_eq!(machine.register(1).unwrap(), 3f64.to_bits(),)
}

#[test]
fn jump_test() {
    let source = "label1:Jump label3\n; label2 : jump label1;\n label3: jump label2;";
    let program = parse_program_from_string(source).unwrap();
    let mut machine: Machine = MooMachine::new(program, Vec::new(), Vec::new());

    assert_eq!(machine.pc(), 0);
    machine.tick().unwrap();
    assert_eq!(machine.pc(), 2);
    machine.tick().unwrap();
    assert_eq!(machine.pc(), 1);
    machine.tick().unwrap();
    assert_eq!(machine.pc(), 0);
}

#[test]
fn arithmetic_operators_and_load_for_floats_test() {
    let source = r#"fadd 1f 2f R0;
    fsub 1f 2f R0
;   fmul 1f 2f R0;
fdiv 1f 2f R0;
load 1f R0;"#;
    let program = parse_program_from_string(source).unwrap();
    let mut machine: Machine = MooMachine::new(program, Vec::new(), Vec::new());

    assert_eq!(machine.register(0), None);
    machine.tick().unwrap();
    assert_eq!(f64::from_bits(machine.register(0).unwrap()), 1. + 2.);
    machine.tick().unwrap();
    assert_eq!(f64::from_bits(machine.register(0).unwrap()), 1. - 2.);
    machine.tick().unwrap();
    assert_eq!(f64::from_bits(machine.register(0).unwrap()), 1. * 2.);
    machine.tick().unwrap();
    assert_eq!(f64::from_bits(machine.register(0).unwrap()), 1. / 2.);
    machine.tick().unwrap();
    assert_eq!(f64::from_bits(machine.register(0).unwrap()), 1.);
}

#[test]
fn arithmetic_operators_and_load_for_signed_integers_test() {
    let source = r#"iadd 1i 2i R0;
    isub 1i 2i R0
;   imul 1i 2i R0;
idiv 1i 2i R0;
load 1i R0;"#;
    let program = parse_program_from_string(source).unwrap();
    let mut machine: Machine = MooMachine::new(program, Vec::new(), Vec::new());

    assert_eq!(machine.register(0), None);
    machine.tick().unwrap();
    assert_eq!(machine.register(0).unwrap() as i64, 1 + 2);
    machine.tick().unwrap();
    assert_eq!(machine.register(0).unwrap() as i64, 1 - 2);
    machine.tick().unwrap();
    assert_eq!(machine.register(0).unwrap() as i64, 1 * 2);
    machine.tick().unwrap();
    assert_eq!(machine.register(0).unwrap() as i64, 1 / 2);
    machine.tick().unwrap();
    assert_eq!(machine.register(0).unwrap() as i64, 1);
}

#[test]
fn arithmetic_operators_and_load_for_unsigned_test() {
    let source = r#"uadd 1u 2u R0;
    usub 1u 2u R0
;   umul 1u 2u R0;
udiv 1u 2u R0;
load 1u R0;"#;
    let program = parse_program_from_string(source).unwrap();
    let mut machine: Machine = MooMachine::new(program, Vec::new(), Vec::new());

    assert_eq!(machine.register(0), None);
    machine.tick().unwrap();
    assert_eq!(machine.register(0).unwrap(), 1 + 2);
    machine.tick().unwrap();
    assert_eq!(machine.register(0).unwrap(), 1u64.wrapping_sub(2));
    machine.tick().unwrap();
    assert_eq!(machine.register(0).unwrap(), 1 * 2);
    machine.tick().unwrap();
    assert_eq!(machine.register(0).unwrap(), 1 / 2);
    machine.tick().unwrap();
    assert_eq!(machine.register(0).unwrap(), 1);
}
