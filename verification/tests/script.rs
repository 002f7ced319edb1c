use snowrun::script::{KeyMove, KeyPress, KeyScript};

fn mv(tick: u64, pressed: bool, code: u8) -> KeyMove {
    KeyMove { tick, pressed, code }
}

fn presses() -> Vec<KeyPress> {
    vec![
        KeyPress { down: 50, up: 60, code: 1 },
        KeyPress { down: 10, up: 50, code: 2 },
        KeyPress { down: 50, up: 50, code: 3 },
    ]
}

#[test]
fn movements_go_by_time_and_then_by_order() {
    let mut script = KeyScript::new(&presses());
    assert_eq!(
        script.all_due(u64::MAX),
        vec![
            mv(10, true, 2),
            mv(50, true, 1),
            mv(50, false, 2),
            mv(50, true, 3),
            mv(50, false, 3),
            mv(60, false, 1),
        ]
    );
    assert_eq!(script.next_due(u64::MAX), None);
}

#[test]
fn sorting_agrees_with_the_standard_library() {
    let mut given = Vec::new();
    for i in 0..40u64 {
        given.push(KeyPress { down: (i * 37) % 11, up: (i * 53) % 7, code: i as u8 });
    }
    let mut expected = Vec::new();
    for p in &given {
        expected.push(mv(p.down, true, p.code));
        expected.push(mv(p.up, false, p.code));
    }
    expected.sort_by_key(|m| m.tick);
    assert_eq!(KeyScript::new(&given).all_due(u64::MAX), expected);
}

#[test]
fn nothing_moves_before_its_time() {
    let mut script = KeyScript::new(&presses());
    assert_eq!(script.next_due(9), None);
    assert_eq!(script.next_due(10), Some(mv(10, true, 2)));
    assert_eq!(script.next_due(10), None);
    assert_eq!(script.all_due(49), vec![]);
    assert_eq!(script.all_due(50).len(), 4);
    assert_eq!(script.all_due(59), vec![]);
    assert_eq!(script.all_due(1000), vec![mv(60, false, 1)]);
}

#[test]
fn looking_in_steps_takes_what_looking_once_takes() {
    let mut once = KeyScript::new(&presses());
    let mut steps = KeyScript::new(&presses());
    let mut taken = Vec::new();
    for now in [0, 10, 11, 50, 55] {
        taken.append(&mut steps.all_due(now));
    }
    assert_eq!(taken, once.all_due(55));
}

#[test]
fn a_release_before_its_press_comes_first() {
    let mut script = KeyScript::new(&vec![KeyPress { down: 9, up: 4, code: 7 }]);
    assert_eq!(script.all_due(9), vec![mv(4, false, 7), mv(9, true, 7)]);
}

#[test]
fn an_empty_script_never_moves_a_key() {
    let mut script = KeyScript::new(&vec![]);
    assert_eq!(script.all_due(u64::MAX), vec![]);
}
