use dryer::gcode::{clean_line, GcodeLowerer, GcodeWord, LowererConfig, LoweringError};
use dryer::protocol::Command;

/// A word as a line's tokens are read: the value truncated to the command
/// number, in thousandths, and as a feed rate in micrometres per second.
fn word(letter: char, value: f64) -> GcodeWord {
    GcodeWord {
        letter,
        code: value as u64,
        thousandths: (value * 1000.0) as i64,
        feed_um_s: (value * 1000.0 / 60.0).max(1.0) as u64,
    }
}

/// Tokens of one cleaned line (`X10.5` is `('X', 10.5)`).
fn words(line: &str) -> Vec<GcodeWord> {
    line.split_whitespace()
        .filter_map(|w| {
            let mut chars = w.chars();
            let letter = chars.next()?.to_ascii_uppercase();
            let value: f64 = chars.as_str().parse().ok()?;
            Some(word(letter, value))
        })
        .collect()
}

fn lower_text(lowerer: &mut GcodeLowerer, text: &str) -> Vec<Command> {
    let mut commands = Vec::new();
    for raw in text.lines() {
        let line = clean_line(raw);
        if line.is_empty() {
            continue;
        }
        let tokens = words(&line);
        if tokens.is_empty() {
            continue;
        }
        lowerer.lower_words(&tokens, &mut commands);
    }
    commands
}

#[test]
fn gcode_lowering_converts_linear_moves_and_temperatures() {
    let gcode = r#"
            ; Slicer output header
            M104 S210 ; Set hotend temperature
            M140 S60  ; Set bed temperature
            G28 ; Home all axes
            G1 F3000 X10.5 Y20.0 ; Move at 3000 mm/min
            G1 X15.5 ; Move X by 5 mm relative to previous position
        "#;

    let mut lowerer = GcodeLowerer::new(LowererConfig::default());
    let cmds = lower_text(&mut lowerer, gcode);

    assert_eq!(cmds.len(), 8); // M104, M140, G28 (x,y,z), G1 X, G1 Y, G1 X
    assert_eq!(
        cmds[0],
        Command::SetHeaterTarget {
            heater: "hotend_heater".into(),
            target_milli_c: 210_000
        }
    );
    assert_eq!(
        cmds[1],
        Command::SetHeaterTarget {
            heater: "bed_heater".into(),
            target_milli_c: 60_000
        }
    );
    assert_eq!(
        cmds[2],
        Command::Home {
            axis: "x".into(),
            rate_um_s: 10_000
        }
    );

    // F3000 mm/min = 3000 * 1000 / 60 = 50000 um/s
    assert_eq!(
        cmds[5],
        Command::Move {
            axis: "x".into(),
            distance_um: 10_500,
            rate_um_s: 50_000
        }
    );
    assert_eq!(
        cmds[7],
        Command::Move {
            axis: "x".into(),
            distance_um: 5_000,
            rate_um_s: 50_000
        }
    );
}

#[test]
fn comments_are_cut_and_the_rest_trimmed() {
    assert_eq!(clean_line("  M104 S210 ; Set hotend temperature"), "M104 S210");
    assert_eq!(clean_line("G1 X1 (inline comment) ; tail"), "G1 X1 (inline comment)");
    assert_eq!(clean_line("G28 (home)"), "G28");
    assert_eq!(clean_line("; only a comment"), "");
    assert_eq!(clean_line("\tG90\t"), "G90");
}

#[test]
fn relative_moves_accumulate_and_homing_resets_named_axes() {
    let mut lowerer = GcodeLowerer::new(LowererConfig::default());
    let cmds = lower_text(
        &mut lowerer,
        "G91\nG1 X2 Z-1\nG1 X3\nG90\nG1 X10\nG28 X0\nG1 X1 Z4\nM105\nM109 S200.5\nM190 S0\nM999",
    );
    let moves = |axis: &str, d: i64| Command::Move { axis: axis.into(), distance_um: d, rate_um_s: 10_000 };
    assert_eq!(
        cmds,
        vec![
            moves("x", 2_000),
            moves("z", -1_000),
            moves("x", 3_000),
            // absolute again: x is at 5 mm
            moves("x", 5_000),
            Command::Home { axis: "x".into(), rate_um_s: 10_000 },
            moves("x", 1_000),
            // z kept its relative position of -1 mm
            moves("z", 5_000),
            Command::Heartbeat,
            Command::SetHeaterTarget { heater: "hotend_heater".into(), target_milli_c: 200_500 },
            Command::SetHeaterTarget { heater: "bed_heater".into(), target_milli_c: 0 },
        ]
    );
}

#[test]
fn a_heater_word_without_s_and_an_e_axis_move() {
    let mut lowerer = GcodeLowerer::new(LowererConfig {
        default_feed_rate_um_s: 7,
        hotend_name: "tool0".into(),
        bed_name: "bed".into(),
    });
    let cmds = lower_text(&mut lowerer, "M104\nG0 E0.25 F0\nG28 A1");
    assert_eq!(
        cmds,
        vec![
            Command::Move { axis: "e".into(), distance_um: 250, rate_um_s: 1 },
            Command::Home { axis: "x".into(), rate_um_s: 1 },
            Command::Home { axis: "y".into(), rate_um_s: 1 },
            Command::Home { axis: "z".into(), rate_um_s: 1 },
        ]
    );
}

#[test]
fn parse_errors_name_the_line() {
    let err = LoweringError::ParseError {
        line_number: 12,
        line: "G1 X?".into(),
        reason: "bad number".into(),
    };
    assert_eq!(err.to_message(), "G-code parse error at line 12 'G1 X?': bad number");
}
