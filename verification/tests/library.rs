//! Concrete checks of the library's stated properties, and unit tests of
//! the interpreter, the tick timer, the command buffer and the scene.

use scripted_scene::driver::{
    interpreter_custom_handler, run_frame, update_with_interpreting_script, TextId, UpdateAction,
};
use scripted_scene::interpreter::{MockInstruction, MockInterpreter};
use scripted_scene::scene::{CommandBuffer, Scene, SceneCommand};
use scripted_scene::timer::ClockTimer;

fn show(slot: usize, body: &str) -> MockInstruction {
    MockInstruction::ShowText(slot, body.to_string())
}

#[test]
fn monotone_advance() {
    let mut intp = MockInterpreter::new(vec![show(0, "a"), show(1, "b"), show(2, "c")]);
    for k in 1..=5 {
        intp.next();
        assert_eq!(intp.pc, k.min(3));
    }
}

#[test]
fn effect_instruction_correspondence() {
    let mut intp = MockInterpreter::new(vec![show(4, "hi"), MockInstruction::DeleteText(9)]);
    let a1 = interpreter_custom_handler(&mut intp);
    assert!(matches!(a1, Some(UpdateAction::ShowText(TextId(4), ref s)) if s == "hi"));
    assert_eq!(intp.pc, 1);
    let a2 = interpreter_custom_handler(&mut intp);
    assert!(matches!(a2, Some(UpdateAction::DeleteText(TextId(9)))));
    assert_eq!(intp.pc, 2);
}

#[test]
fn exhaustion_stability() {
    let mut intp = MockInterpreter::new(vec![show(0, "only")]);
    assert!(interpreter_custom_handler(&mut intp).is_some());
    for _ in 0..4 {
        assert!(interpreter_custom_handler(&mut intp).is_none());
        assert_eq!(intp.pc, 1);
    }
}

#[test]
fn slot_closure_under_delete() {
    let code = vec![
        show(3, "a"),
        show(5, "b"),
        show(3, "c"),
        MockInstruction::DeleteText(3),
    ];
    let mut intp = MockInterpreter::new(code);
    let mut timer = ClockTimer::new(1000);
    let mut scene = Scene::new();
    for _ in 0..4 {
        run_frame(1000, &mut timer, &mut intp, &mut scene);
    }
    assert!(scene.entities.iter().all(|e| e.slot != 3));
    assert_eq!(scene.entities.len(), 1);
    assert_eq!(scene.entities[0].slot, 5);
    assert_eq!(scene.entities[0].body, "b".to_string());
}

#[test]
fn tick_gating() {
    let code = vec![show(0, "a"), show(1, "b"), show(2, "c"), show(3, "d")];
    let mut intp = MockInterpreter::new(code);
    let mut timer = ClockTimer::new(1000);
    let mut scene = Scene::new();
    // Pulses per frame, capped at one: 0, 0, 1, 1, 0, 1.
    let deltas = [400u64, 400, 400, 1000, 100, 2500];
    let mut pulses = 0;
    for d in deltas {
        let before = intp.pc;
        run_frame(d, &mut timer, &mut intp, &mut scene);
        let emitted = intp.pc - before;
        assert!(emitted <= 1);
        pulses += emitted;
    }
    assert_eq!(pulses, 3);
    assert_eq!(intp.pc, 3);
    assert_eq!(scene.entities.len(), 3);
}

#[test]
fn frame_rate_pacing() {
    let code = vec![show(0, "a"), show(1, "b"), show(2, "c")];
    let mut intp = MockInterpreter::new(code);
    let period: u64 = 1000;
    let delta: u64 = 400;
    let mut timer = ClockTimer::new(period);
    let mut scene = Scene::new();
    let mut effect_times: Vec<u64> = Vec::new();
    for frame in 1..=10u64 {
        let before = intp.pc;
        run_frame(delta, &mut timer, &mut intp, &mut scene);
        if intp.pc > before {
            effect_times.push(frame * delta);
        }
    }
    assert_eq!(effect_times, vec![1200, 2000, 3200]);
    for w in effect_times.windows(2) {
        let gap = w[1] - w[0];
        assert!(period - delta < gap && gap < period + delta);
    }
}

#[test]
fn timer_boundaries() {
    let mut timer = ClockTimer::new(1000);
    assert!(!timer.tick(999));
    assert_eq!(timer.elapsed_ms, 999);
    assert!(timer.tick(1));
    assert_eq!(timer.elapsed_ms, 0);
    assert!(timer.tick(2500));
    assert_eq!(timer.elapsed_ms, 500);
    assert!(timer.tick(500));
    assert_eq!(timer.elapsed_ms, 0);
}

#[test]
fn interpreter_construction() {
    let intp = MockInterpreter::new(vec![show(1, "x")]);
    assert_eq!(intp.pc, 0);
    assert_eq!(intp.code.len(), 1);
}

#[test]
fn driver_queues_without_touching_scene() {
    let mut intp = MockInterpreter::new(vec![show(2, "x")]);
    let mut timer = ClockTimer::new(1000);
    let mut buf = CommandBuffer::new();
    let scene = Scene::new();
    update_with_interpreting_script(1000, &mut timer, &mut intp, &mut buf, &scene);
    assert_eq!(buf.commands.len(), 1);
    assert!(matches!(buf.commands[0], SceneCommand::Spawn(2, ref s) if s == "x"));
    assert_eq!(scene.entities.len(), 0);
}

#[test]
fn driver_skips_frames_without_pulse() {
    let mut intp = MockInterpreter::new(vec![show(2, "x")]);
    let mut timer = ClockTimer::new(1000);
    let mut buf = CommandBuffer::new();
    let scene = Scene::new();
    update_with_interpreting_script(999, &mut timer, &mut intp, &mut buf, &scene);
    assert_eq!(buf.commands.len(), 0);
    assert_eq!(intp.pc, 0);
}

#[test]
fn flush_applies_in_submission_order() {
    // A spawn and a despawn of the handle that spawn will receive, in one
    // frame's buffer: both apply in order, so the net effect is empty.
    let mut scene = Scene::new();
    let mut buf = CommandBuffer::new();
    buf.spawn(3, "z".to_string());
    buf.despawn(0);
    scene.flush(buf);
    assert_eq!(scene.entities.len(), 0);
    assert_eq!(scene.next_entity, 1);
}

#[test]
fn despawn_removes_only_matching_handle() {
    let mut scene = Scene::new();
    let mut buf = CommandBuffer::new();
    buf.spawn(1, "a".to_string());
    buf.spawn(2, "b".to_string());
    buf.spawn(3, "c".to_string());
    scene.flush(buf);
    let mut second = CommandBuffer::new();
    second.despawn(1);
    scene.flush(second);
    assert_eq!(scene.entities.len(), 2);
    assert_eq!(scene.entities[0].slot, 1);
    assert_eq!(scene.entities[1].slot, 3);
    assert_eq!(scene.next_entity, 3);
}

#[test]
fn delete_frame_consumes_no_handle() {
    let code = vec![show(6, "v"), MockInstruction::DeleteText(6)];
    let mut intp = MockInterpreter::new(code);
    let mut timer = ClockTimer::new(1000);
    let mut scene = Scene::new();
    run_frame(1000, &mut timer, &mut intp, &mut scene);
    assert_eq!(scene.next_entity, 1);
    run_frame(1000, &mut timer, &mut intp, &mut scene);
    assert_eq!(scene.next_entity, 1);
    assert_eq!(scene.entities.len(), 0);
}
