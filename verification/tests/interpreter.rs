use bf_interp::{
    glyph_units_from_string, interpret_brainfuck, run, split_program_input, BfError, GlyphUnit,
};

const BUDGET: u64 = 1_000_000;

#[test]
fn splits_at_first_separator() {
    let (program, input) = split_program_input("abc/def");
    assert_eq!(program, "abc");
    assert_eq!(input, "def");
}

#[test]
fn splits_whole_text_without_separator() {
    let (program, input) = split_program_input("abc");
    assert_eq!(program, "abc");
    assert_eq!(input, "");
}

#[test]
fn splits_only_at_first_of_several_separators() {
    let (program, input) = split_program_input("a/b/c");
    assert_eq!(program, "a");
    assert_eq!(input, "b/c");
}

#[test]
fn splits_empty_and_bare_separator() {
    assert_eq!(split_program_input(""), (String::new(), String::new()));
    assert_eq!(split_program_input("/"), (String::new(), String::new()));
    assert_eq!(split_program_input("/xy"), ("".to_string(), "xy".to_string()));
}

#[test]
fn eight_times_eight_outputs_code_point_64() {
    let out = interpret_brainfuck("++++++++[>++++++++<-]>.", "", BUDGET).unwrap();
    assert_eq!(out, "@");
    assert_eq!(out.chars().next().unwrap() as u32, 64);
}

#[test]
fn echoes_one_input_character() {
    assert_eq!(interpret_brainfuck(",.", "X", BUDGET).unwrap(), "X");
}

#[test]
fn exhausted_input_reads_as_null_character() {
    let out = interpret_brainfuck(",.", "", BUDGET).unwrap();
    assert_eq!(out, "\u{0}");
}

#[test]
fn loop_on_zero_cell_never_runs_observable_body() {
    assert_eq!(interpret_brainfuck("[.]", "", BUDGET).unwrap(), "");
    assert_eq!(interpret_brainfuck("[.,.+.]", "zz", BUDGET).unwrap(), "");
}

#[test]
fn clear_loop_zeroes_the_cell() {
    assert_eq!(interpret_brainfuck("+++[-].", "", BUDGET).unwrap(), "\u{0}");
}

#[test]
fn cell_wraps_after_256_increments() {
    let mut program = "+".repeat(256);
    program.push('.');
    assert_eq!(interpret_brainfuck(&program, "", BUDGET).unwrap(), "\u{0}");

    let mut program = "+".repeat(255);
    program.push('.');
    assert_eq!(interpret_brainfuck(&program, "", BUDGET).unwrap(), "\u{ff}");
}

#[test]
fn cell_wraps_below_zero() {
    assert_eq!(interpret_brainfuck("-.", "", BUDGET).unwrap(), "\u{ff}");
}

#[test]
fn pointer_wraps_after_30000_moves_right() {
    let mut program = ">".repeat(30000);
    program.push_str("+.");
    assert_eq!(interpret_brainfuck(&program, "", BUDGET).unwrap(), "\u{1}");
}

#[test]
fn pointer_wraps_moving_left_from_cell_zero() {
    assert_eq!(interpret_brainfuck("<+.", "", BUDGET).unwrap(), "\u{1}");
}

#[test]
fn non_opcode_characters_are_comments() {
    assert_eq!(interpret_brainfuck("a b c!+.", "", BUDGET).unwrap(), "\u{1}");
}

#[test]
fn unmatched_open_bracket_is_reported() {
    assert_eq!(
        interpret_brainfuck("[", "", BUDGET),
        Err(BfError::UnmatchedOpen { pos: 0 })
    );
    assert_eq!(
        interpret_brainfuck("[[]", "", BUDGET),
        Err(BfError::UnmatchedOpen { pos: 0 })
    );
    assert_eq!(
        interpret_brainfuck("+-[", "", BUDGET),
        Err(BfError::UnmatchedOpen { pos: 2 })
    );
}

#[test]
fn unmatched_close_bracket_is_reported() {
    assert_eq!(
        interpret_brainfuck("]", "", BUDGET),
        Err(BfError::UnmatchedClose { pos: 0 })
    );
    assert_eq!(
        interpret_brainfuck("+]", "", BUDGET),
        Err(BfError::UnmatchedClose { pos: 1 })
    );
}

#[test]
fn endless_loop_hits_the_step_budget() {
    assert_eq!(
        interpret_brainfuck("+[]", "", 1000),
        Err(BfError::StepLimitExceeded)
    );
}

#[test]
fn step_budget_counts_each_dispatched_instruction() {
    assert_eq!(interpret_brainfuck("", "", 0).unwrap(), "");
    assert_eq!(
        interpret_brainfuck("+", "", 0),
        Err(BfError::StepLimitExceeded)
    );
    assert_eq!(interpret_brainfuck("+", "", 1).unwrap(), "");
}

#[test]
fn input_code_points_are_truncated_to_one_byte() {
    // U+0101 has low byte 1.
    assert_eq!(interpret_brainfuck(",.", "\u{101}", BUDGET).unwrap(), "\u{1}");
}

#[test]
fn output_uses_the_cell_value_as_code_point() {
    let mut program = "+".repeat(200);
    program.push('.');
    assert_eq!(interpret_brainfuck(&program, "", BUDGET).unwrap(), "\u{c8}");
}

#[test]
fn run_splits_then_interprets() {
    assert_eq!(run(",./X", BUDGET).unwrap(), "X");
    assert_eq!(run(",.", BUDGET).unwrap(), "\u{0}");
    assert_eq!(run("++++++++[>++++++++<-]>./ignored", BUDGET).unwrap(), "@");
}

#[test]
fn glyph_units_strip_newlines_and_number_clusters() {
    let units = glyph_units_from_string("ab\ncd");
    assert_eq!(
        units,
        vec![
            GlyphUnit { ch: 'a', cluster: 0 },
            GlyphUnit { ch: 'b', cluster: 1 },
            GlyphUnit { ch: 'c', cluster: 2 },
            GlyphUnit { ch: 'd', cluster: 3 },
        ]
    );
}

#[test]
fn glyph_units_of_newlines_only_are_empty() {
    assert_eq!(glyph_units_from_string(""), vec![]);
    assert_eq!(glyph_units_from_string("\n\n"), vec![]);
}
