//! Tests of the boundary capabilities: in-memory producers and consumers,
//! and the machine reading from and writing to them.
use moofloom::common::{Sink, Source};
use moofloom::program::Program;
use moofloom::vm::{Command, Fault, MooMachine, Param};
use std::collections::VecDeque;

#[test]
fn vec_source_yields_front_to_back() {
    let mut v: Vec<u64> = vec![10, 20];
    assert_eq!(v.take(), Some(10));
    assert_eq!(v.take(), Some(20));
    assert_eq!(v.take(), None);
}

#[test]
fn vecdeque_source_and_sink_roundtrip() {
    let mut q: VecDeque<u64> = VecDeque::new();
    q.put(7);
    q.put(8);
    assert_eq!(q.take(), Some(7));
    assert_eq!(q.take(), Some(8));
    assert_eq!(q.take(), None);
}

#[test]
fn string_source_yields_chars() {
    let mut s = "ab".to_string();
    assert_eq!(Source::<char>::take(&mut s), Some('a'));
    assert_eq!(Source::<char>::take(&mut s), Some('b'));
    assert_eq!(Source::<char>::take(&mut s), None);
}

#[test]
fn vec_sink_appends() {
    let mut v: Vec<u64> = Vec::new();
    v.put(5);
    v.put(6);
    assert_eq!(v, vec![5, 6]);
}

#[test]
fn machine_reads_inputs_in_resolution_order() {
    let program = Program::new(
        vec![Command::UAdd(
            Param::Input(0),
            Param::Input(0),
            Param::Register(0),
        )],
        Vec::new(),
    );
    let mut machine: MooMachine<Vec<u64>, Vec<u64>> =
        MooMachine::new(program, vec![vec![30, 12]], Vec::new());
    machine.tick().unwrap();
    assert_eq!(machine.register(0), Some(42));
}

#[test]
fn machine_raw_loads_skip_float_checks() {
    // A load reads registers and channels as raw words: a NaN pattern
    // travels unharmed.
    let nan_bits = f64::NAN.to_bits();
    let program = Program::new(
        vec![Command::Load(Param::Input(0), Param::Register(1))],
        Vec::new(),
    );
    let mut machine: MooMachine<Vec<u64>, Vec<u64>> =
        MooMachine::new(program, vec![vec![nan_bits]], Vec::new());
    machine.tick().unwrap();
    assert_eq!(machine.register(1), Some(nan_bits));
}

#[test]
fn missing_output_channel_aborts() {
    let program = Program::new(
        vec![Command::Load(Param::UConstant(9), Param::Output(0))],
        Vec::new(),
    );
    let mut machine: MooMachine<Vec<u64>, Vec<u64>> =
        MooMachine::new(program, Vec::new(), Vec::new());
    assert_eq!(machine.tick(), Err(Fault::MissingChannel));
}
