//! Scenario tests for the machine's numeric semantics, branch behavior and
//! fault conditions, each on concrete values.
use moofloom::moo::{parse_param, parse_program_from_string, parse_three_params, parse_two_params, MooParseError};
use moofloom::program::Program;
use moofloom::vm::{Command, Fault, MooMachine, Param};

type Machine = MooMachine<Vec<u64>, Vec<u64>>;

fn machine_for(source: &str) -> Machine {
    let program = parse_program_from_string(source).unwrap();
    MooMachine::new(program, Vec::new(), Vec::new())
}

#[test]
fn fadd_assembled_and_stepped() {
    let mut machine = machine_for("fadd 1f 2f r0;");
    machine.tick().unwrap();
    assert_eq!(machine.register(0).unwrap(), 3.0f64.to_bits());
}

#[test]
fn unsigned_add_wraps_modulo_two_to_the_64() {
    let mut machine = machine_for("uadd 18446744073709551615u 3u r0;");
    machine.tick().unwrap();
    assert_eq!(machine.register(0).unwrap(), 2);
}

#[test]
fn unsigned_divide_by_zero_aborts_without_storing() {
    let mut machine = machine_for("udiv 7u 0u r0;");
    assert_eq!(machine.tick(), Err(Fault::DivisionByZero));
    assert_eq!(machine.register(0), None);
}

#[test]
fn signed_compare_then_jless_transfers_control() {
    let source = "icmp 1i 2i; jless target; load 1u r0; target: load 2u r0;";
    let mut machine = machine_for(source);
    machine.tick().unwrap();
    machine.tick().unwrap();
    assert_eq!(machine.pc(), 3);
}

#[test]
fn signed_compare_then_jgre_falls_through() {
    let source = "icmp 1i 2i; jgre target; load 1u r0; target: load 2u r0;";
    let mut machine = machine_for(source);
    machine.tick().unwrap();
    machine.tick().unwrap();
    assert_eq!(machine.pc(), 2);
}

#[test]
fn stepping_past_the_end_aborts_without_mutation() {
    let mut machine = machine_for("load 1u r0;");
    machine.tick().unwrap();
    let pc_before = machine.pc();
    assert_eq!(machine.tick(), Err(Fault::ProgramCounterOverflow));
    assert_eq!(machine.pc(), pc_before);
    assert_eq!(machine.register(0), Some(1));
    assert_eq!(machine.flag(), None);
}

#[test]
fn stepping_an_empty_program_aborts() {
    let mut machine = machine_for("");
    assert_eq!(machine.tick(), Err(Fault::ProgramCounterOverflow));
    assert_eq!(machine.pc(), 0);
    assert_eq!(machine.register(0), None);
}

#[test]
fn unknown_mnemonic_is_command_not_found() {
    match parse_program_from_string("frobnicate 1f 2f r0;") {
        Err(MooParseError::CommandNotFound(s)) => assert_eq!(s, "frobnicate 1f 2f r0"),
        other => panic!("wrong result: {:?}", other),
    }
}

#[test]
fn wrong_operand_count_is_arity_error() {
    match parse_program_from_string("fadd 1f 2f;") {
        Err(MooParseError::InvalidParamAmount) => {}
        other => panic!("wrong result: {:?}", other),
    }
}

#[test]
fn non_register_arithmetic_destination_is_syntax_error() {
    match parse_program_from_string("fadd 1f 2f 3f;") {
        Err(MooParseError::InvalidSyntax(s)) => {
            assert_eq!(s, "Third parameter in \"fadd 1f 2f 3f\" should be a register")
        }
        other => panic!("wrong result: {:?}", other),
    }
}

#[test]
fn non_register_load_destination_is_invalid_param() {
    match parse_program_from_string("load 1f 2f;") {
        Err(MooParseError::InvalidParam(s)) => assert_eq!(s, "load 1f 2f"),
        other => panic!("wrong result: {:?}", other),
    }
}

#[test]
fn invalid_operand_carries_prepared_token() {
    match parse_param("  XyZzy  ") {
        Err(MooParseError::InvalidParam(s)) => assert_eq!(s, "xyzzy"),
        other => panic!("wrong result: {:?}", other),
    }
}

#[test]
fn signed_and_unsigned_literals_parse() {
    assert_eq!(parse_param("-5i").unwrap(), Param::IConstant(-5));
    assert_eq!(parse_param("17u").unwrap(), Param::UConstant(17));
    assert_eq!(parse_param("R12").unwrap(), Param::Register(12));
    assert!(parse_param("-5u").is_err());
    assert!(parse_param("18446744073709551616u").is_err());
    assert_eq!(
        parse_param("9223372036854775807i").unwrap(),
        Param::IConstant(i64::MAX)
    );
    assert_eq!(
        parse_param("-9223372036854775808i").unwrap(),
        Param::IConstant(i64::MIN)
    );
    assert!(parse_param("9223372036854775808i").is_err());
}

#[test]
fn param_list_parsers_check_arity() {
    let three = vec!["fadd", "1f", "2f", "r0"];
    assert_eq!(
        parse_three_params(&three).unwrap(),
        (
            Param::FConstant(1f64.to_bits()),
            Param::FConstant(2f64.to_bits()),
            Param::Register(0)
        )
    );
    let two = vec!["load", "3i", "r1"];
    assert_eq!(
        parse_two_params(&two).unwrap(),
        (Param::IConstant(3), Param::Register(1))
    );
    assert!(matches!(
        parse_two_params(&three),
        Err(MooParseError::InvalidParamAmount)
    ));
    assert!(matches!(
        parse_three_params(&two),
        Err(MooParseError::InvalidParamAmount)
    ));
}

#[test]
fn nan_read_aborts() {
    let mut machine = machine_for("fadd nanf 1f r0;");
    assert_eq!(machine.tick(), Err(Fault::NanLoaded));
    assert_eq!(machine.register(0), None);
}

#[test]
fn infinity_read_aborts() {
    let mut machine = machine_for("fadd inff 1f r0;");
    assert_eq!(machine.tick(), Err(Fault::InfinityLoaded));
}

#[test]
fn float_divide_by_zero_aborts() {
    let mut machine = machine_for("fdiv 1f 0f r0;");
    assert_eq!(machine.tick(), Err(Fault::DivisionByZero));
}

#[test]
fn jump_to_missing_label_aborts() {
    let mut machine = machine_for("jump nowhere;");
    assert_eq!(machine.tick(), Err(Fault::UnknownLabel));
}

#[test]
fn conditional_jump_before_compare_aborts() {
    let mut machine = machine_for("jless somewhere;");
    assert_eq!(machine.tick(), Err(Fault::CompareMissing));
}

#[test]
fn exhausted_input_channel_aborts() {
    let program = Program::new(
        vec![Command::Load(Param::Input(0), Param::Register(0))],
        Vec::new(),
    );
    let mut machine: Machine = MooMachine::new(program, vec![Vec::new()], Vec::new());
    assert_eq!(machine.tick(), Err(Fault::InputExhausted));
}

#[test]
fn missing_channel_aborts() {
    let program = Program::new(
        vec![Command::Load(Param::Input(3), Param::Register(0))],
        Vec::new(),
    );
    let mut machine: Machine = MooMachine::new(program, Vec::new(), Vec::new());
    assert_eq!(machine.tick(), Err(Fault::MissingChannel));
}

#[test]
fn bad_destination_aborts() {
    let program = Program::new(
        vec![Command::UAdd(
            Param::UConstant(1),
            Param::UConstant(2),
            Param::UConstant(0),
        )],
        Vec::new(),
    );
    let mut machine: Machine = MooMachine::new(program, Vec::new(), Vec::new());
    assert_eq!(machine.tick(), Err(Fault::InvalidDestination));
}

#[test]
fn bad_source_aborts() {
    let program = Program::new(
        vec![Command::Load(Param::Output(0), Param::Register(0))],
        Vec::new(),
    );
    let mut machine: Machine = MooMachine::new(program, Vec::new(), vec![Vec::new()]);
    assert_eq!(machine.tick(), Err(Fault::InvalidSource));
}

#[test]
fn float_compare_orders_negative_zero_equal_to_zero() {
    let source = "fcmp -0f 0f; jeq yes; load 1u r0; yes: load 2u r0;";
    let mut machine = machine_for(source);
    machine.tick().unwrap();
    machine.tick().unwrap();
    assert_eq!(machine.pc(), 3);
}

#[test]
fn float_compare_orders_across_magnitudes() {
    let source = "fcmp 2.5f 100f; jless yes; load 1u r0; yes: load 2u r0;";
    let mut machine = machine_for(source);
    machine.tick().unwrap();
    machine.tick().unwrap();
    assert_eq!(machine.pc(), 3);
}

#[test]
fn jneq_matches_any_set_flag_but_equal() {
    let taken = "ucmp 1u 2u; jneq yes; load 1u r0; yes: load 2u r0;";
    let mut machine = machine_for(taken);
    machine.tick().unwrap();
    machine.tick().unwrap();
    assert_eq!(machine.pc(), 3);

    let not_taken = "ucmp 2u 2u; jneq yes; load 1u r0; yes: load 2u r0;";
    let mut machine = machine_for(not_taken);
    machine.tick().unwrap();
    machine.tick().unwrap();
    assert_eq!(machine.pc(), 2);
}

#[test]
fn negative_jumps_decode_in_their_own_domain() {
    // The word with only the sign bit set reads as negative zero in the
    // float domain (not below zero) and as MIN in the signed domain.
    let sign_bit_only = (-0.0f64).to_bits();
    let float_case = Program::new(
        vec![
            Command::Load(Param::UConstant(sign_bit_only), Param::Register(0)),
            Command::JFNeg(Param::Register(0), "target".to_string()),
            Command::Load(Param::UConstant(1), Param::Register(1)),
            Command::Load(Param::UConstant(2), Param::Register(1)),
        ],
        vec![("target".to_string(), 3)],
    );
    let mut machine: Machine = MooMachine::new(float_case, Vec::new(), Vec::new());
    machine.tick().unwrap();
    machine.tick().unwrap();
    assert_eq!(machine.pc(), 2);

    let signed_case = Program::new(
        vec![
            Command::Load(Param::UConstant(sign_bit_only), Param::Register(0)),
            Command::JINeg(Param::Register(0), "target".to_string()),
            Command::Load(Param::UConstant(1), Param::Register(1)),
            Command::Load(Param::UConstant(2), Param::Register(1)),
        ],
        vec![("target".to_string(), 3)],
    );
    let mut machine: Machine = MooMachine::new(signed_case, Vec::new(), Vec::new());
    machine.tick().unwrap();
    machine.tick().unwrap();
    assert_eq!(machine.pc(), 3);
}

#[test]
fn negative_jump_constants_stay_in_their_domain() {
    // A float negative-test jump refuses a signed constant operand, while
    // the signed variant takes it.
    let mut machine = machine_for("jfneg -1i target; target: load 1u r0;");
    assert_eq!(machine.tick(), Err(Fault::InvalidSource));

    let mut machine = machine_for("jineg -1i target; load 1u r0; target: load 2u r0;");
    machine.tick().unwrap();
    assert_eq!(machine.pc(), 2);

    let mut machine = machine_for("jfneg -1.5f target; load 1u r0; target: load 2u r0;");
    machine.tick().unwrap();
    assert_eq!(machine.pc(), 2);
}

#[test]
fn cross_domain_constant_reads_convert() {
    // Integer constants read in the float domain convert to the nearest
    // double; float constants read in the integer domains truncate.
    let mut machine = machine_for("fadd 1u 2f r0;");
    machine.tick().unwrap();
    assert_eq!(machine.register(0).unwrap(), 3.0f64.to_bits());

    let mut machine = machine_for("fadd -1i 2f r0;");
    machine.tick().unwrap();
    assert_eq!(machine.register(0).unwrap(), 1.0f64.to_bits());

    let mut machine = machine_for("iadd -2.9f 0i r0;");
    machine.tick().unwrap();
    assert_eq!(machine.register(0).unwrap() as i64, -2);

    let mut machine = machine_for("uadd 3.7f 0u r0;");
    machine.tick().unwrap();
    assert_eq!(machine.register(0).unwrap(), 3);

    let mut machine = machine_for("uadd nanf 0u r0;");
    machine.tick().unwrap();
    assert_eq!(machine.register(0).unwrap(), 0);
}

#[test]
fn signed_division_truncates_and_wraps_only_at_min() {
    let mut machine = machine_for("idiv -7i 2i r0;");
    machine.tick().unwrap();
    assert_eq!(machine.register(0).unwrap() as i64, -3);

    let mut machine = machine_for("idiv -9223372036854775808i -1i r0;");
    machine.tick().unwrap();
    assert_eq!(machine.register(0).unwrap() as i64, i64::MIN);
}

#[test]
fn get_address_resolves_last_entry_for_a_name() {
    let program = parse_program_from_string("x: jump a; x: jump b;").unwrap();
    assert_eq!(program.get_address("x"), Some(1));
    assert_eq!(program.get_address("y"), None);
    assert_eq!(program.len(), 2);
}

#[test]
fn program_length_counts_nonempty_statements_only() {
    let source = "  ;; fadd 1f 2f r0 ;  mid: load 1f r1;;  ";
    let program = parse_program_from_string(source).unwrap();
    assert_eq!(program.len(), 2);
    assert_eq!(program.get_address("mid"), Some(1));
}

#[test]
fn negative_jump_validates_float_constants() {
    let nan_case = Program::new(
        vec![Command::JFNeg(
            Param::FConstant(f64::NAN.to_bits()),
            "t".to_string(),
        )],
        Vec::new(),
    );
    let mut machine: Machine = MooMachine::new(nan_case, Vec::new(), Vec::new());
    assert_eq!(machine.tick(), Err(Fault::NanLoaded));

    let inf_case = Program::new(
        vec![Command::JFNeg(
            Param::FConstant(f64::NEG_INFINITY.to_bits()),
            "t".to_string(),
        )],
        Vec::new(),
    );
    let mut machine: Machine = MooMachine::new(inf_case, Vec::new(), Vec::new());
    assert_eq!(machine.tick(), Err(Fault::InfinityLoaded));
}

#[test]
fn float_literal_grammar_edges() {
    // Only the double grammar is accepted: sign, the spelled-out infinity
    // and NaN words, or digits with at most one dot and a digit-bearing
    // exponent.
    assert!(matches!(
        parse_param("0x1p3f"),
        Err(MooParseError::InvalidParam(_))
    ));
    assert!(matches!(
        parse_param("1ef"),
        Err(MooParseError::InvalidParam(_))
    ));
    assert!(matches!(
        parse_param("nan(0x1)f"),
        Err(MooParseError::InvalidParam(_))
    ));
    assert!(matches!(
        parse_param(".f"),
        Err(MooParseError::InvalidParam(_))
    ));
    assert_eq!(
        parse_param("1e3f").unwrap(),
        Param::FConstant(1000.0f64.to_bits())
    );
    assert_eq!(parse_param("1.f").unwrap(), Param::FConstant(1.0f64.to_bits()));
    assert_eq!(parse_param(".5f").unwrap(), Param::FConstant(0.5f64.to_bits()));
    assert_eq!(
        parse_param("-1.5e-2f").unwrap(),
        Param::FConstant((-0.015f64).to_bits())
    );
    assert_eq!(
        parse_param("inff").unwrap(),
        Param::FConstant(f64::INFINITY.to_bits())
    );
    assert_eq!(
        parse_param("+Infinityf").unwrap(),
        Param::FConstant(f64::INFINITY.to_bits())
    );
    assert_eq!(
        parse_param("-inff").unwrap(),
        Param::FConstant(f64::NEG_INFINITY.to_bits())
    );
    match parse_param("nanf").unwrap() {
        Param::FConstant(b) => assert!(f64::from_bits(b).is_nan()),
        other => panic!("wrong param: {:?}", other),
    }
}
