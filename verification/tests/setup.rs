use snowrun::hexnum::HexError;
use snowrun::setup::{ram_bytes, startup_commands, Command};

fn texts(all: &[&str]) -> Vec<String> {
    all.iter().map(|s| s.to_string()).collect()
}

#[test]
fn the_emulator_is_told_to_run_at_full_speed() {
    assert_eq!(
        startup_commands(0, 0, &vec![]).unwrap(),
        vec![Command::Run, Command::RunUncapped]
    );
}

#[test]
fn histories_are_recorded_where_they_are_wanted() {
    assert_eq!(
        startup_commands(1, 0, &vec![]).unwrap(),
        vec![Command::RecordInstructions, Command::Run, Command::RunUncapped]
    );
    assert_eq!(
        startup_commands(0, 9, &vec![]).unwrap(),
        vec![Command::RecordTraps, Command::Run, Command::RunUncapped]
    );
}

#[test]
fn breakpoints_come_before_the_run() {
    assert_eq!(
        startup_commands(3, 3, &texts(&["0x10", "$0C", "0x10"])).unwrap(),
        vec![
            Command::RecordInstructions,
            Command::RecordTraps,
            Command::ToggleVectorBreakpoint(0x10),
            Command::ToggleVectorBreakpoint(0x0C),
            Command::ToggleVectorBreakpoint(0x10),
            Command::Run,
            Command::RunUncapped,
        ]
    );
}

#[test]
fn the_first_bad_vector_is_reported() {
    let e = startup_commands(0, 0, &texts(&["8", "bus", "", "9"])).unwrap_err();
    assert_eq!(e.text, "bus");
    assert_eq!(e.why, HexError::InvalidDigit);
    assert_eq!(e.message(), "--break-vector 'bus': expected a hex vector address");
    assert_eq!(e.why.message(), "invalid digit found in string");
}

#[test]
fn ram_is_given_in_megabytes() {
    assert_eq!(ram_bytes(None), None);
    assert_eq!(ram_bytes(Some(0)), Some(0));
    assert_eq!(ram_bytes(Some(4)), Some(4_194_304));
}
