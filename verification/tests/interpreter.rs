use chicken::machine::Program;
use chicken::value::Error;

const FUEL: u64 = 1_000_000;

fn source(ops: &[usize]) -> String {
    ops.iter()
        .map(|&n| vec!["chicken"; n].join(" "))
        .collect::<Vec<String>>()
        .join("\n")
}

fn run_ok(ops: &[usize], input: &str, bc: bool) -> String {
    let mut p = Program::new(source(ops), input, false, bc).expect("source parses");
    p.run(FUEL).expect("run succeeds").expect("program halts")
}

fn run_err(ops: &[usize], input: &str, bc: bool) -> Error {
    let mut p = Program::new(source(ops), input, false, bc).expect("source parses");
    match p.run(FUEL) {
        Err(e) => e,
        Ok(_) => panic!("expected a fatal error"),
    }
}

#[test]
fn empty_program_halts_with_zero() {
    assert_eq!(run_ok(&[], "", false), "0");
}

#[test]
fn chicken_pushes_the_word() {
    assert_eq!(run_ok(&[1], "", false), "chicken");
}

#[test]
fn literal_push_is_biased_by_ten() {
    assert_eq!(run_ok(&[30], "", false), "20");
    assert_eq!(run_ok(&[10], "", false), "0");
}

#[test]
fn add_is_order_sensitive_in_the_machine() {
    // CHICKEN then literal 5 then ADD: the text ends with the number.
    assert_eq!(run_ok(&[1, 15, 2], "", false), "chicken5");
    // Reversed push order: the number comes first.
    assert_eq!(run_ok(&[15, 1, 2], "", false), "5chicken");
}

#[test]
fn sub_standard_subtracts_and_rejects_text() {
    assert_eq!(run_ok(&[15, 13, 3], "", false), "2");
    assert_eq!(run_ok(&[10, 11, 3], "", false), "-1");
    assert!(matches!(run_err(&[1, 1, 3], "", false), Error::TypeError));
}

#[test]
fn sub_backwards_compatible_yields_nan_on_text() {
    assert_eq!(run_ok(&[15, 13, 3], "", true), "2");
    assert_eq!(run_ok(&[1, 1, 3], "", true), "NaN");
}

#[test]
fn mul_multiplies_and_rejects_text_in_both_modes() {
    assert_eq!(run_ok(&[13, 14, 4], "", false), "12");
    assert!(matches!(run_err(&[1, 13, 4], "", false), Error::TypeError));
    assert!(matches!(run_err(&[1, 13, 4], "", true), Error::TypeError));
}

#[test]
fn compare_standard_same_type() {
    // Num(3) vs Num(3) pushes numeric 1.
    assert_eq!(run_ok(&[13, 13, 5], "", false), "1");
    // Num(3) vs Num(4) pushes numeric 0.
    assert_eq!(run_ok(&[13, 14, 5], "", false), "0");
}

#[test]
fn compare_standard_never_crosses_types() {
    // Num(3) vs Chars("3"), the text made by CHAR from code point 51.
    assert_eq!(run_ok(&[13, 61, 9, 5], "", false), "0");
}

#[test]
fn compare_backwards_compatible_falsy_pairs() {
    // Num(0) vs the empty input register text pushes numeric 1.
    assert_eq!(run_ok(&[10, 11, 6, 0, 5], "", true), "1");
    // Num(0) vs Chars("false") pushes numeric 1.
    assert_eq!(run_ok(&[10, 11, 6, 0, 5], "false", true), "1");
    // Any other cross-type pair pushes the text "false", not numeric 0.
    assert_eq!(run_ok(&[10, 11, 6, 0, 5], "x", true), "false");
    // Standard mode disagrees on the same pair.
    assert_eq!(run_ok(&[10, 11, 6, 0, 5], "", false), "0");
}

#[test]
fn jump_branches_on_nonblank_text() {
    // Load the input register as the condition, offset 15: branching
    // overshoots the memory and the machine halts on the terminator.
    assert_eq!(run_ok(&[11, 6, 0, 25, 8, 1], "x", false), "0");
}

#[test]
fn jump_never_branches_on_whitespace_only_text() {
    assert_eq!(run_ok(&[11, 6, 0, 25, 8, 1], " \t ", false), "chicken");
    assert_eq!(run_ok(&[11, 6, 0, 25, 8, 1], " \t ", true), "chicken");
}

#[test]
fn jump_sentinel_strings_suppress_branching_only_in_compat_mode() {
    for sentinel in ["NaN", "false", "undefined"] {
        assert_eq!(run_ok(&[11, 6, 0, 25, 8, 1], sentinel, true), "chicken");
        assert_eq!(run_ok(&[11, 6, 0, 25, 8, 1], sentinel, false), "0");
    }
    // Trimming applies before the sentinel check.
    assert_eq!(run_ok(&[11, 6, 0, 25, 8, 1], " NaN ", true), "chicken");
}

#[test]
fn jump_numeric_condition_branches_unless_zero() {
    assert_eq!(run_ok(&[11, 25, 8, 1], "", false), "0");
    assert_eq!(run_ok(&[10, 25, 8, 1], "", false), "chicken");
}

#[test]
fn jump_requires_numeric_offset() {
    assert!(matches!(run_err(&[1, 1, 8], "", false), Error::TypeError));
}

#[test]
fn char_standard_converts_code_points() {
    assert_eq!(run_ok(&[82, 9], "", false), "H");
    assert_eq!(run_ok(&[1, 9], "", false), "chicken");
}

#[test]
fn char_backwards_compatible_wraps_in_entity() {
    assert_eq!(run_ok(&[82, 9], "", true), "&#72;");
    // The quirk: a textual value is wrapped the same way.
    assert_eq!(run_ok(&[1, 9], "", true), "&#chicken;");
}

#[test]
fn char_standard_rejects_surrogate_code_points() {
    // 216 times 256 is 55296, the first surrogate code point.
    assert!(matches!(run_err(&[226, 266, 4, 9], "", false), Error::ConversionError));
    assert_eq!(run_ok(&[226, 266, 4, 9], "", true), "&#55296;");
}

#[test]
fn char_standard_rejects_values_outside_the_unicode_range() {
    // 0 - 1 is negative.
    assert!(matches!(run_err(&[10, 11, 3, 9], "", false), Error::ConversionError));
    assert_eq!(run_ok(&[10, 11, 3, 9], "", true), "&#-1;");
    // 256 * 256 * 256 * 256 is 4294967296, one past the 32-bit range.
    let two_to_32: &[usize] = &[266, 266, 4, 266, 4, 266, 4];
    assert!(matches!(run_err(&[two_to_32, &[9]].concat(), "", false), Error::ConversionError));
    assert_eq!(run_ok(&[two_to_32, &[9]].concat(), "", true), "&#4294967296;");
    // 4294967296 + 65: its low 32 bits name a letter, but the value is fatal.
    assert!(matches!(
        run_err(&[two_to_32, &[75, 2, 9]].concat(), "", false),
        Error::ConversionError
    ));
}

#[test]
fn char_standard_accepts_the_top_of_the_unicode_range() {
    // 17 * 256 * 256 - 1 is 1114111, the last code point.
    assert_eq!(run_ok(&[27, 266, 266, 4, 4, 11, 3, 9], "", false), "\u{10ffff}");
    // One past it is fatal.
    assert!(matches!(run_err(&[27, 266, 266, 4, 4, 9], "", false), Error::ConversionError));
}

#[test]
fn halting_pops_the_final_value_from_memory() {
    // CHICKEN grows the four loaded cells to five; the halt pops the result
    // back off, leaving four.
    let mut p = Program::new(source(&[1]), "", false, false).unwrap();
    assert_eq!(p.run(FUEL).unwrap(), Some(String::from("chicken")));
    assert_eq!(p.memory_len(), 4);
}

#[test]
fn store_then_load_round_trips_through_the_program_region() {
    // CHICKEN; push 2; STORE into cell 2; push 2; LOAD from cell 2.
    assert_eq!(run_ok(&[1, 12, 7, 12, 6, 0], "", false), "chicken");
}

#[test]
fn store_modifies_what_the_next_fetch_observes() {
    // Store numeric 1 (CHICKEN) over the upcoming empty-line cell: the
    // modified cell executes instead of halting the machine.
    assert_eq!(run_ok(&[11, 15, 7, 0], "", false), "chicken");
}

#[test]
fn store_rejects_out_of_range_addresses() {
    assert!(matches!(run_err(&[11, 109, 7], "", false), Error::IndexError));
}

#[test]
fn load_address_out_of_range_is_fatal() {
    assert!(matches!(run_err(&[109, 6, 0], "", false), Error::IndexError));
}

#[test]
fn load_character_from_the_input_register() {
    assert_eq!(run_ok(&[10, 6, 1], "ab", false), "a");
    assert_eq!(run_ok(&[11, 6, 1], "ab", false), "b");
}

#[test]
fn load_character_past_the_end() {
    assert!(matches!(run_err(&[15, 6, 1], "ab", false), Error::IndexError));
    assert_eq!(run_ok(&[15, 6, 1], "ab", true), "undefined");
}

#[test]
fn load_character_from_numeric_base() {
    // The input "5" is classified numeric, so the base cell is not text.
    assert!(matches!(run_err(&[10, 6, 1], "5", false), Error::TypeError));
    assert_eq!(run_ok(&[10, 6, 1], "5", true), "undefined");
}

#[test]
fn echo_program_end_to_end() {
    // For each input index: push it, load that character, pass it through
    // CHAR; then three ADDs concatenate the four one-character texts.
    let echo: &[usize] = &[
        10, 6, 1, 9, 11, 6, 1, 9, 12, 6, 1, 9, 13, 6, 1, 9, 2, 2, 2,
    ];
    assert_eq!(run_ok(echo, "asdf", false), "asdf");
    assert_eq!(run_ok(echo, "asdf", true), "&#a;&#s;&#d;&#f;");
}

#[test]
fn identical_runs_are_deterministic() {
    let echo: &[usize] = &[
        10, 6, 1, 9, 11, 6, 1, 9, 12, 6, 1, 9, 13, 6, 1, 9, 2, 2, 2,
    ];
    let first = run_ok(echo, "asdf", true);
    let second = run_ok(echo, "asdf", true);
    assert_eq!(first, second);
}

#[test]
fn run_out_of_fuel_reports_still_running_and_resumes() {
    let mut p = Program::new(source(&[1]), "", false, false).unwrap();
    assert_eq!(p.run(1).unwrap(), None);
    assert_eq!(p.run(FUEL).unwrap(), Some(String::from("chicken")));
}

#[test]
fn endless_loop_exhausts_any_budget() {
    // Push condition 1, compute offset -5, and jump back to the start.
    let mut p = Program::new(source(&[11, 10, 15, 3, 8]), "", false, false).unwrap();
    assert_eq!(p.run(10_000).unwrap(), None);
}

#[test]
fn operand_boundary_tracks_its_low_water_mark() {
    // A bare ADD pops the terminator and the instruction cell itself, so the
    // boundary follows the shrinking memory down and stays there.
    let mut p = Program::new(source(&[2]), "", false, false).unwrap();
    assert_eq!(p.operand_region_start(), 4);
    assert_eq!(p.run(FUEL).unwrap(), Some(String::from("2")));
    assert_eq!(p.memory_len(), 2);
    assert_eq!(p.operand_region_start(), 2);
}

#[test]
fn textual_instruction_pointer_is_fatal() {
    // STORE the word into cell 0: the next fetch finds a textual pointer.
    assert!(matches!(run_err(&[1, 10, 7], "", false), Error::TypeError));
    // STORE the word over an upcoming instruction cell: fetching it is fatal.
    assert!(matches!(run_err(&[1, 15, 7, 0], "", false), Error::TypeError));
}

#[test]
fn jump_treats_unicode_whitespace_as_blank() {
    // No-break space and em space trim away like ASCII whitespace.
    assert_eq!(run_ok(&[11, 6, 0, 25, 8, 1], "\u{a0}\u{2003}", false), "chicken");
}

#[test]
fn load_character_counts_unicode_scalars() {
    assert_eq!(run_ok(&[11, 6, 1], "héllo", false), "é");
    assert_eq!(run_ok(&[12, 6, 1], "héllo", false), "l");
}
