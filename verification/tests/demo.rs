use mecha_launcher::demo::{DemoAction, DemoLoop};

#[test]
fn nothing_is_drawn_before_the_configuration() {
    let mut turns = DemoLoop::new(1028, 1080);
    assert_eq!(turns.turn(None, None, false), vec![DemoAction::Flush]);
    assert_eq!(
        turns.turn(Some(3), None, false),
        vec![DemoAction::Pong { serial: 3 }, DemoAction::Flush]
    );
    assert!(turns.leave().is_empty());
}

#[test]
fn every_turn_draws_once_configured() {
    let mut turns = DemoLoop::new(1028, 1080);
    assert_eq!(
        turns.turn(None, Some(8), false),
        vec![
            DemoAction::AckConfigure { serial: 8 },
            DemoAction::CreateBuffer,
            DemoAction::Draw,
            DemoAction::Attach,
            DemoAction::Damage { width: 1028, height: 1080 },
            DemoAction::Commit,
            DemoAction::CountFrame,
            DemoAction::Flush,
        ]
    );
    assert_eq!(
        turns.turn(None, None, false),
        vec![
            DemoAction::Draw,
            DemoAction::Attach,
            DemoAction::Damage { width: 1028, height: 1080 },
            DemoAction::Commit,
            DemoAction::CountFrame,
            DemoAction::Flush,
        ]
    );
    assert_eq!(turns.leave(), vec![DemoAction::DestroyBuffer, DemoAction::Flush]);
}

#[test]
fn the_turn_in_which_the_window_closes_is_the_last() {
    let mut turns = DemoLoop::new(1028, 1080);
    assert_eq!(turns.turn(None, None, true), vec![DemoAction::Leave]);
    let mut turns = DemoLoop::new(1028, 1080);
    let actions = turns.turn(Some(1), Some(2), true);
    assert_eq!(actions.len(), 9);
    assert_eq!(actions[0], DemoAction::Pong { serial: 1 });
    assert_eq!(actions[8], DemoAction::Leave);
}
