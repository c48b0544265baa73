use degenerate::color::{Axis, Color, ColorRotation, Operation};
use degenerate::command::Command;
use degenerate::filter::Filter;
use degenerate::geometry::{to_coordinate, to_pixel, Transform, ONE};
use degenerate::matrix::{Boundary, Matrix, Step};
use degenerate::program::{Program, ProgramError};
use degenerate::state::{Composition, SizeError, State};

fn program_of(lines: &[&str]) -> Program {
    let commands: Vec<Command> = lines.iter().map(|l| Command::parse(l).unwrap()).collect();
    Program::new(commands).unwrap()
}

fn run(lines: &[&str]) -> State {
    let program = program_of(lines);
    let mut state = State::new();
    while state.program_counter < program.len() {
        assert!(!state.step(&program).unwrap());
    }
    state
}

fn assert_output_eq(lines: &[&str], expected_bitmap: &str) {
    let mut expected = expected_bitmap.replace(' ', "");
    expected.push('\n');
    assert_eq!(run(lines).matrix.bitmap(), expected);
}

#[test]
fn circle() {
    assert_output_eq(
        &["resize:10:10", "circle"],
        "0001111000
         0111111110
         0111111110
         1111111111
         1111111111
         1111111111
         1111111111
         0111111110
         0111111110
         0001111000",
    )
}

#[test]
fn top() {
    assert_output_eq(
        &["resize:2:2", "top"],
        "11
         00",
    )
}

#[test]
fn resize() {
    assert_output_eq(&["resize:2:1"], "00")
}

#[test]
fn invert() {
    assert_output_eq(&["resize:1:1", "all"], "1")
}

#[test]
fn square() {
    assert_output_eq(
        &["resize:4:4", "square"],
        "0000
         0110
         0110
         0000",
    )
}

#[test]
fn modulus() {
    assert_output_eq(
        &["resize:4:2", "mod:2:0"],
        "1111
         0000",
    )
}

#[test]
fn default_bitmap_size() {
    let row = "0".repeat(80);
    let expected = vec![row; 20].join("\n");
    assert_output_eq(&[], &expected)
}

fn inversions(count: usize) -> (String, usize) {
    let for_line = format!("for:{}", count);
    let program = program_of(&["resize:1:1", &for_line, "all", "loop", "print"]);
    let mut state = State::new();
    let mut body_runs = 0;
    while state.program_counter < program.len() {
        if state.program_counter == 2 {
            body_runs += 1;
        }
        let outside = state.step(&program).unwrap();
        if outside {
            assert_eq!(state.program_counter, 5);
            assert_eq!(state.loop_counter, 0);
        }
    }
    (state.matrix.bitmap(), body_runs)
}

#[test]
fn for_block_runs_body_count_times() {
    assert_eq!(inversions(0), ("0\n".to_string(), 0));
    assert_eq!(inversions(1), ("1\n".to_string(), 1));
    assert_eq!(inversions(5), ("1\n".to_string(), 5));
    assert_eq!(inversions(4), ("0\n".to_string(), 4));
}

#[test]
fn for_block_later_in_program() {
    let state = run(&["resize:2:1", "top", "invert", "for:3", "x", "loop", "all"]);
    assert_eq!(state.loop_counter, 0);
    assert_eq!(state.program_counter, 7);
}

#[test]
fn pixel_round_trip() {
    for (cols, rows) in [(1usize, 1usize), (3, 5), (10, 4), (7, 7)] {
        for col in 0..cols {
            for row in 0..rows {
                let c = Transform::identity().apply(to_coordinate(col, row, cols, rows));
                assert_eq!(to_pixel(c, cols, rows), (col as i64, row as i64));
            }
        }
    }
}

#[test]
fn coordinate_is_centred() {
    let c = to_coordinate(0, 3, 4, 4);
    assert_eq!((c.x, c.y), (-3, 3));
}

#[test]
fn parse_keywords() {
    assert!(matches!(Command::parse("resize:3:4"), Ok(Command::Resize { cols: 3, rows: 4 })));
    assert!(matches!(Command::parse("for:12"), Ok(Command::For(12))));
    assert!(matches!(Command::parse("mod:3:1"), Ok(Command::Filter(Filter::Mod { divisor: 3, remainder: 1 }))));
    assert!(matches!(Command::parse("rows:2:3"), Ok(Command::Filter(Filter::Rows { nrows: 2, step: 3 }))));
    assert!(matches!(Command::parse("random"), Ok(Command::Operation(Operation::Random))));
    assert!(matches!(Command::parse("load"), Ok(Command::Load(None))));
    assert!(matches!(Command::parse("verbose"), Ok(Command::Verbose)));
    match Command::parse("save:out.png") {
        Ok(Command::Save(Some(p))) => assert_eq!(p, "out.png"),
        other => panic!("{:?}", other),
    }
    match Command::parse("rotate:-0.25") {
        Ok(Command::Rotate(t)) => assert_eq!(t, "-0.25"),
        other => panic!("{:?}", other),
    }
    match Command::parse("rotate-color:y:0.5") {
        Ok(Command::RotateColor(Axis::Green, t)) => assert_eq!(t, "0.5"),
        other => panic!("{:?}", other),
    }
}

#[test]
fn parse_errors() {
    for bad in ["bogus", "", "for", "for:x", "for:1:2", "resize:3", "resize:40000:1", "rotate:1.2.3",
        "rotate:-", "rotate-color:w:0.5", "mod:1", "all:1", "ALL", "Circle", "even", "print:x",
        "load:a:b", "rotate:1e", "rotate:e3", "rotate:1e+", "rotate:+-1", "for:-1", "mod:2:x",
        "for:99999999999999999999999"] {
        match Command::parse(bad) {
            Err(e) => assert_eq!(e.text, bad),
            Ok(c) => panic!("{} parsed as {:?}", bad, c),
        }
    }
}

#[test]
fn program_errors() {
    let parse = |lines: &[&str]| -> Vec<Command> { lines.iter().map(|l| Command::parse(l).unwrap()).collect() };
    assert_eq!(Program::new(parse(&["for:1", "for:1", "loop", "loop"])).err(), Some(ProgramError::Misplaced(1)));
    assert_eq!(Program::new(parse(&["all", "loop"])).err(), Some(ProgramError::Misplaced(1)));
    assert_eq!(Program::new(parse(&["all", "for:2", "x"])).err(), Some(ProgramError::Unclosed(1)));
    assert!(Program::new(parse(&["for:1", "loop", "for:2", "all", "loop"])).is_ok());
}

#[test]
fn outside_commands_leave_state() {
    let program = program_of(&["resize:2:1", "rotate:0.25", "print", "save", "load:x.png"]);
    let mut state = State::new();
    assert!(!state.step(&program).unwrap());
    for _ in 0..4 {
        assert!(state.step(&program).unwrap());
    }
    assert_eq!(state.matrix.bitmap(), "00\n");
    assert_eq!(state.transform, Transform::identity());
}

#[test]
fn quarter_turn_samples_rotated_source() {
    let mut state = run(&["resize:2:2", "top"]);
    assert!(state.rotate(0, ONE));
    assert!(!state.execute(&Command::Filter(Filter::All)).unwrap());
    assert_eq!(state.matrix.bitmap(), "01\n01\n");
}

#[test]
fn rotate_refuses_out_of_range() {
    let mut state = State::new();
    assert!(!state.rotate(ONE + 1, 0));
    assert_eq!(state.transform, Transform::identity());
    assert!(!state.rotate_color(Axis::Red, 0, -ONE - 1));
    assert_eq!(state.operation, Operation::Invert);
}

fn copy_step(boundary: Boundary, tx: i64) -> Step {
    Step {
        filter: Filter::All,
        operation: Operation::RotateColor(ColorRotation::about(Axis::Red, ONE, 0)),
        transform: Transform { a: ONE, b: 0, tx, ty: 0 },
        boundary,
    }
}

#[test]
fn wrap_and_background_boundaries() {
    let lit = Color { r: 255, g: 255, b: 255 };
    let black = Color { r: 0, g: 0, b: 0 };
    let m = Matrix::from_cells(2, 1, vec![lit, black]).unwrap();
    let draws = vec![black, black];
    assert_eq!(m.render(&copy_step(Boundary::Wrap, 2), &draws).bitmap(), "01\n");
    assert_eq!(m.render(&copy_step(Boundary::Background, 2), &draws).bitmap(), "00\n");
}

#[test]
fn composition_repeats_passes() {
    let mut state = run(&["resize:3:1", "x"]);
    let lit = Color { r: 255, g: 255, b: 255 };
    let black = Color { r: 0, g: 0, b: 0 };
    state.replace_matrix(Matrix::from_cells(3, 1, vec![lit, black, black]).unwrap());
    state.compose(&Composition { step: copy_step(Boundary::Wrap, 2), times: 2 });
    assert_eq!(state.matrix.bitmap(), "010\n");
}

#[test]
fn color_rotation_about_blue() {
    let m = ColorRotation::about(Axis::Blue, 0, ONE);
    assert_eq!(m.apply(Color { r: 200, g: 0, b: 7 }), Color { r: 0, g: 200, b: 7 });
    let back = ColorRotation::about(Axis::Blue, 0, -ONE);
    assert_eq!(back.apply(Color { r: 200, g: 0, b: 7 }), Color { r: 0, g: 0, b: 7 });
}

#[test]
fn invert_complements_channels() {
    assert_eq!(Operation::Invert.apply(Color { r: 0, g: 100, b: 255 }, Color { r: 1, g: 2, b: 3 }), Color { r: 255, g: 155, b: 0 });
    assert_eq!(Operation::Random.apply(Color { r: 0, g: 100, b: 255 }, Color { r: 1, g: 2, b: 3 }), Color { r: 1, g: 2, b: 3 });
}

#[test]
fn random_keeps_size() {
    let state = run(&["resize:3:2", "random", "all"]);
    assert_eq!(state.matrix.cols(), 3);
    assert_eq!(state.matrix.rows(), 2);
}

#[test]
fn filters_on_small_grids() {
    assert_output_eq(&["resize:3:3", "cross"], "101 010 101".replace(' ', "\n").as_str());
    assert_output_eq(&["resize:3:3", "x"], "101 010 101".replace(' ', "\n").as_str());
    assert_output_eq(&["resize:1:4", "rows:2:2"], "1 1 0 0".replace(' ', "\n").as_str());
    assert_output_eq(&["resize:2:2", "mod:0:0"], "00 00".replace(' ', "\n").as_str());
    assert_output_eq(&["resize:3:1", "verbose", "mod:3:2"], "001");
}

#[test]
fn matrix_from_cells_checks_size() {
    assert!(Matrix::from_cells(2, 2, vec![]).is_none());
    assert!(Matrix::from_cells(40000, 0, vec![]).is_none());
    assert!(Matrix::from_cells(0, 3, vec![]).is_some());
}

#[test]
fn parse_float_forms_and_large_counts() {
    for ok in ["rotate:1e3", "rotate:+0.5", "rotate:2.5E-1", "rotate:.5", "rotate:5.", "rotate:-1e+2"] {
        assert!(matches!(Command::parse(ok), Ok(Command::Rotate(_))), "{}", ok);
    }
    assert!(matches!("for:99999999999".parse::<Command>(), Ok(Command::For(99999999999))));
    assert!(matches!("all".parse::<Command>(), Ok(Command::Filter(Filter::All))));
    assert_eq!("foo".parse::<Command>().unwrap_err().text, "foo");
}

#[test]
fn oversized_resize_is_an_error() {
    let mut state = State::new();
    let big = Command::Resize { cols: 40000, rows: 1 };
    assert_eq!(state.execute(&big).unwrap_err(), SizeError { cols: 40000, rows: 1 });
    assert_eq!(state.matrix.cols(), 80);
    let program = Program::new(vec![big]).unwrap();
    assert!(state.step(&program).is_err());
    assert_eq!(state.program_counter, 0);
}
