//! End-to-end playback scenarios driven frame by frame through the host
//! emulation in `run_frame`.

use scripted_scene::driver::{run_frame, TextId, UpdateAction};
use scripted_scene::interpreter::{CustomHandler, MockInstruction, MockInterpreter};
use scripted_scene::scene::Scene;
use scripted_scene::timer::ClockTimer;

fn scene_pairs(scene: &Scene) -> Vec<(usize, String)> {
    let mut v = Vec::new();
    for e in scene.entities.iter() {
        v.push((e.slot, e.body.clone()));
    }
    v
}

fn show(slot: usize, body: &str) -> MockInstruction {
    MockInstruction::ShowText(slot, body.to_string())
}

#[test]
fn basic_playback() {
    let code = vec![show(0, "A"), show(1, "B"), MockInstruction::DeleteText(0)];
    let mut intp = MockInterpreter::new(code);
    let mut timer = ClockTimer::new(1000);
    let mut scene = Scene::new();
    for frame in 1..=8 {
        run_frame(400, &mut timer, &mut intp, &mut scene);
        if frame == 3 {
            assert_eq!(scene_pairs(&scene), vec![(0, "A".to_string())]);
        }
        if frame == 6 {
            assert_eq!(
                scene_pairs(&scene),
                vec![(0, "A".to_string()), (1, "B".to_string())]
            );
        }
    }
    assert_eq!(scene_pairs(&scene), vec![(1, "B".to_string())]);
}

#[test]
fn exhaustion() {
    let mut intp = MockInterpreter::new(vec![show(0, "x")]);
    let mut timer = ClockTimer::new(1000);
    let mut scene = Scene::new();
    run_frame(1000, &mut timer, &mut intp, &mut scene);
    assert_eq!(scene_pairs(&scene), vec![(0, "x".to_string())]);
    for _ in 2..=5 {
        run_frame(1000, &mut timer, &mut intp, &mut scene);
        assert_eq!(scene_pairs(&scene), vec![(0, "x".to_string())]);
    }
    assert_eq!(intp.pc, 1);
}

#[test]
fn duplicate_slot_show_then_delete() {
    let code = vec![show(7, "a"), show(7, "b"), MockInstruction::DeleteText(7)];
    let mut intp = MockInterpreter::new(code);
    let mut timer = ClockTimer::new(1000);
    let mut scene = Scene::new();
    run_frame(1000, &mut timer, &mut intp, &mut scene);
    assert_eq!(scene_pairs(&scene), vec![(7, "a".to_string())]);
    run_frame(1000, &mut timer, &mut intp, &mut scene);
    assert_eq!(
        scene_pairs(&scene),
        vec![(7, "a".to_string()), (7, "b".to_string())]
    );
    run_frame(1000, &mut timer, &mut intp, &mut scene);
    assert_eq!(scene_pairs(&scene), Vec::new());
}

#[test]
fn delete_without_show() {
    let mut intp = MockInterpreter::new(vec![MockInstruction::DeleteText(99)]);
    let mut timer = ClockTimer::new(1000);
    let mut scene = Scene::new();
    run_frame(1000, &mut timer, &mut intp, &mut scene);
    assert_eq!(scene_pairs(&scene), Vec::new());
    assert_eq!(intp.pc, 1);
}

#[test]
fn stall_coalescing() {
    let code = vec![show(0, "p"), show(1, "q")];
    let mut intp = MockInterpreter::new(code);
    let mut timer = ClockTimer::new(1000);
    let mut scene = Scene::new();
    run_frame(2500, &mut timer, &mut intp, &mut scene);
    assert_eq!(scene_pairs(&scene), vec![(0, "p".to_string())]);
    assert_eq!(intp.pc, 1);
    run_frame(1000, &mut timer, &mut intp, &mut scene);
    assert_eq!(
        scene_pairs(&scene),
        vec![(0, "p".to_string()), (1, "q".to_string())]
    );
}

#[test]
fn custom_handler_skips_odd() {
    let code = vec![show(0, "i0"), show(1, "i1"), show(2, "i2"), show(3, "i3")];
    let mut intp = MockInterpreter::new(code);
    let mut observed: Vec<usize> = Vec::new();
    for _ in 0..4 {
        let action = intp.next_with_custom_handler(CustomHandler::new(
            |ip: &mut MockInterpreter| {
                if ip.pc < ip.code.len() {
                    let act = match &ip.code[ip.pc] {
                        MockInstruction::ShowText(id, text) => {
                            UpdateAction::ShowText(TextId(*id), text.clone())
                        }
                        MockInstruction::DeleteText(id) => {
                            UpdateAction::DeleteText(TextId(*id))
                        }
                    };
                    ip.pc += 2;
                    Some(act)
                } else {
                    None
                }
            },
        ));
        if let Some(UpdateAction::ShowText(id, _)) = action {
            observed.push(id.0);
        }
    }
    assert_eq!(observed, vec![0, 2]);
    assert_eq!(intp.pc, 4);
}
