use chicken::machine::Program;
use chicken::value::Error;

fn cell(p: &Program, i: usize) -> String {
    p.cell_text(i).expect("cell in range")
}

#[test]
fn program_region_one_cell_per_line_then_zero() {
    let p = Program::new(String::from("chicken chicken\nchicken"), "", false, false).unwrap();
    assert_eq!(p.memory_len(), 5);
    assert_eq!(cell(&p, 0), "2");
    assert_eq!(cell(&p, 2), "2");
    assert_eq!(cell(&p, 3), "1");
    assert_eq!(cell(&p, 4), "0");
    assert!(p.cell_text(5).is_none());
    assert_eq!(p.operand_region_start(), 5);
}

#[test]
fn loader_ignores_extra_whitespace_and_counts_empty_lines_as_zero() {
    let p = Program::new(String::from("  chicken\tchicken  \n\nchicken"), "", false, false)
        .unwrap();
    assert_eq!(p.memory_len(), 6);
    assert_eq!(cell(&p, 2), "2");
    assert_eq!(cell(&p, 3), "0");
    assert_eq!(cell(&p, 4), "1");
    assert_eq!(cell(&p, 5), "0");
}

#[test]
fn empty_source_is_one_empty_line() {
    let p = Program::new(String::new(), "", false, false).unwrap();
    assert_eq!(p.memory_len(), 4);
    assert_eq!(cell(&p, 2), "0");
    assert_eq!(cell(&p, 3), "0");
}

#[test]
fn carriage_returns_are_whitespace() {
    let p = Program::new(String::from("chicken\r\nchicken chicken"), "", false, false).unwrap();
    assert_eq!(cell(&p, 2), "1");
    assert_eq!(cell(&p, 3), "2");
}

#[test]
fn parse_error_names_word_and_line() {
    match Program::new(String::from("chicken duck chicken"), "", false, false) {
        Err(Error::ParseError(w, l)) => {
            assert_eq!(w, "duck");
            assert_eq!(l, 0);
        },
        _ => panic!("expected a parse error"),
    }
    match Program::new(String::from("chicken\nchicken emu"), "", false, true) {
        Err(Error::ParseError(w, l)) => {
            assert_eq!(w, "emu");
            assert_eq!(l, 1);
        },
        _ => panic!("expected a parse error"),
    }
}

#[test]
fn parse_error_reports_first_bad_word() {
    match Program::new(String::from("chicken owl duck"), "", false, false) {
        Err(Error::ParseError(w, l)) => {
            assert_eq!(w, "owl");
            assert_eq!(l, 0);
        },
        _ => panic!("expected a parse error"),
    }
}

#[test]
fn input_register_classification() {
    // Numeric inputs are canonicalized: leading zeros and a plus sign vanish.
    let p = Program::new(String::new(), "007", false, false).unwrap();
    assert_eq!(cell(&p, 1), "7");
    let p = Program::new(String::new(), "+12", false, false).unwrap();
    assert_eq!(cell(&p, 1), "12");
    let p = Program::new(String::new(), "-0", false, false).unwrap();
    assert_eq!(cell(&p, 1), "0");
    // Textual inputs are kept verbatim.
    let p = Program::new(String::new(), "12abc", false, false).unwrap();
    assert_eq!(cell(&p, 1), "12abc");
    let p = Program::new(String::new(), "-5", false, false).unwrap();
    assert_eq!(cell(&p, 1), "-5");
    let p = Program::new(String::new(), "", false, false).unwrap();
    assert_eq!(cell(&p, 1), "");
    // A value beyond the 64-bit range stays textual: the zeros survive.
    let p = Program::new(String::new(), "009223372036854775808", false, false).unwrap();
    assert_eq!(cell(&p, 1), "009223372036854775808");
    // The largest representable value is numeric.
    let p = Program::new(String::new(), "9223372036854775807", false, false).unwrap();
    assert_eq!(cell(&p, 1), "9223372036854775807");
}

#[test]
fn mode_flags_are_recorded() {
    let p = Program::new(String::new(), "", true, false).unwrap();
    assert!(p.trace_enabled());
    assert!(!p.compat_enabled());
    let p = Program::new(String::new(), "", false, true).unwrap();
    assert!(!p.trace_enabled());
    assert!(p.compat_enabled());
}

#[test]
fn pop_stack_underflows_on_empty_memory() {
    let mut p = Program::new(String::new(), "", false, false).unwrap();
    for _ in 0..4 {
        assert!(p.pop_stack().is_ok());
    }
    assert!(matches!(p.pop_stack(), Err(Error::StackUnderflow)));
}
