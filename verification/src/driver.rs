//! The scripted-scene driver: once per frame it advances the tick timer,
//! pulls at most one effect from the interpreter through the standard step
//! handler, and reconciles that effect against the scene projection by
//! enqueuing spawn and despawn commands.

use vstd::prelude::*;

use crate::interpreter::step_pc;
use crate::interpreter::CustomHandler;
use crate::interpreter::MockInstruction;
use crate::interpreter::MockInterpreter;
use crate::scene::apply_command;
use crate::scene::apply_commands;
use crate::scene::remove_entity;
use crate::scene::remove_slot;
use crate::scene::spawn_count;
use crate::scene::CommandBuffer;
use crate::scene::Scene;
use crate::scene::SceneCommand;
use crate::scene::SceneEntity;
use crate::timer::timer_fires;
use crate::timer::timer_next;
use crate::timer::ClockTimer;

verus! {

/// The slot marker carried by every text entity the driver creates. The
/// script addresses the scene by slot, never by entity handle.
pub struct TextId(pub usize);

/// A single observable outcome of one interpreter step, translated by the
/// driver into scene commands.
pub enum UpdateAction {
    /// Show the body under the slot, as a new entity.
    ShowText(TextId, String),
    /// Remove every entity bound to the slot.
    DeleteText(TextId),
}

/// The effect that corresponds to an instruction: same tag, same slot,
/// same body.
pub open spec fn action_of(inst: MockInstruction) -> UpdateAction {
    match inst {
        MockInstruction::ShowText(id, text) => UpdateAction::ShowText(TextId(id), text),
        MockInstruction::DeleteText(id) => UpdateAction::DeleteText(TextId(id)),
    }
}

/// The standard step handler: reads the instruction under the program
/// counter, advances the counter by one, and returns the matching effect;
/// reports exhaustion (and stands still) once the counter is at the end.
///
/// The emitted effect's tag and payload equal the instruction at the
/// pre-step counter, exactly.
pub fn interpreter_custom_handler(intp: &mut MockInterpreter) -> (r: Option<UpdateAction>)
    ensures
        final(intp).code == old(intp).code,
        final(intp).pc == step_pc(old(intp).pc as nat, old(intp).code.len() as nat),
        old(intp).pc < old(intp).code.len() ==> r == Some(
            action_of(old(intp).code@[old(intp).pc as int]),
        ),
        old(intp).pc >= old(intp).code.len() ==> r is None,
{
    if intp.pc < intp.code.len() {
        let action = match &intp.code[intp.pc] {
            MockInstruction::ShowText(id, text) => UpdateAction::ShowText(TextId(*id), text.clone()),
            MockInstruction::DeleteText(id) => UpdateAction::DeleteText(TextId(*id)),
        };
        intp.pc = intp.pc + 1;
        Some(action)
    } else {
        None
    }
}

/// The despawn commands a delete effect enqueues: one per entity bound to
/// `slot`, in query order.
pub open spec fn despawns_for(ents: Seq<SceneEntity>, slot: usize) -> Seq<SceneCommand>
    decreases ents.len(),
{
    if ents.len() == 0 {
        Seq::empty()
    } else if ents.first().slot == slot {
        seq![SceneCommand::Despawn(ents.first().entity)] + despawns_for(ents.drop_first(), slot)
    } else {
        despawns_for(ents.drop_first(), slot)
    }
}

/// Every command a delete effect enqueues is a despawn, and its handle is
/// the handle of some entity bound to the deleted slot.
proof fn lemma_despawns_for_shape(ents: Seq<SceneEntity>, slot: usize)
    ensures
        forall|j: int|
            0 <= j < despawns_for(ents, slot).len() ==> exists|k: int|
                (0 <= k < ents.len() && ents[k].slot == slot && #[trigger] despawns_for(ents, slot)[j]
                    == SceneCommand::Despawn(ents[k].entity)),
    decreases ents.len(),
{
    if ents.len() > 0 {
        lemma_despawns_for_shape(ents.drop_first(), slot);
        let all = despawns_for(ents, slot);
        let rest = despawns_for(ents.drop_first(), slot);
        assert forall|j: int| 0 <= j < all.len() implies exists|k: int|
            (0 <= k < ents.len() && ents[k].slot == slot && #[trigger] all[j]
                == SceneCommand::Despawn(ents[k].entity)) by {
            if ents.first().slot == slot && j == 0 {
                assert(ents[0].slot == slot && all[0] == SceneCommand::Despawn(ents[0].entity));
            } else {
                let j0: int = if ents.first().slot == slot {
                    j - 1
                } else {
                    j
                };
                let k0 = choose|k: int|
                    0 <= k < ents.drop_first().len() && ents.drop_first()[k].slot == slot
                        && #[trigger] rest[j0] == SceneCommand::Despawn(
                        ents.drop_first()[k].entity,
                    );
                assert(ents[k0 + 1].slot == slot && all[j] == SceneCommand::Despawn(
                    ents[k0 + 1].entity,
                ));
            }
        }
    }
}

/// Despawning a handle that no entity carries leaves the scene as it was.
proof fn lemma_remove_entity_absent(ents: Seq<SceneEntity>, id: u64)
    requires
        forall|k: int| 0 <= k < ents.len() ==> ents[k].entity != id,
    ensures
        remove_entity(ents, id) == ents,
    decreases ents.len(),
{
    if ents.len() > 0 {
        assert forall|k: int| 0 <= k < ents.drop_first().len() implies ents.drop_first()[k].entity
            != id by {
            assert(ents[k + 1].entity != id);
        }
        lemma_remove_entity_absent(ents.drop_first(), id);
        assert(seq![ents.first()] + ents.drop_first() =~= ents);
    }
}

/// Despawn commands that never name `e0`'s handle leave `e0` in place:
/// applying them to `e0` followed by the rest applies them to the rest
/// alone.
proof fn lemma_apply_despawns_skip_head(
    e0: SceneEntity,
    rest: Seq<SceneEntity>,
    next: u64,
    cmds: Seq<SceneCommand>,
)
    requires
        forall|j: int|
            0 <= j < cmds.len() ==> exists|id: u64|
                (#[trigger] cmds[j] == SceneCommand::Despawn(id) && id != e0.entity),
    ensures
        apply_commands(seq![e0] + rest, next, cmds).0 == seq![e0] + apply_commands(
            rest,
            next,
            cmds,
        ).0,
        apply_commands(seq![e0] + rest, next, cmds).1 == next,
        apply_commands(rest, next, cmds).1 == next,
    decreases cmds.len(),
{
    if cmds.len() > 0 {
        let id0 = choose|id: u64| cmds[0] == SceneCommand::Despawn(id) && id != e0.entity;
        let full = seq![e0] + rest;
        assert(full.first() == e0);
        assert(full.drop_first() =~= rest);
        assert(remove_entity(full, id0) == seq![e0] + remove_entity(rest, id0));
        assert forall|j: int| 0 <= j < cmds.drop_first().len() implies exists|id: u64|
            (#[trigger] cmds.drop_first()[j] == SceneCommand::Despawn(id) && id != e0.entity) by {
            let idj = choose|id: u64| cmds[j + 1] == SceneCommand::Despawn(id) && id != e0.entity;
            assert(cmds.drop_first()[j] == SceneCommand::Despawn(idj) && idj != e0.entity);
        }
        lemma_apply_despawns_skip_head(
            e0,
            remove_entity(rest, id0),
            next,
            cmds.drop_first(),
        );
    }
}

/// Slot closure under delete: flushing the despawn commands of
/// `DeleteText(slot)` removes exactly the entities bound to `slot` — the
/// scene left behind is the original with every such entity gone, however
/// many shows of that slot preceded it, and no fresh handle is consumed.
pub proof fn lemma_delete_closure(ents: Seq<SceneEntity>, next: u64, slot: usize)
    requires
        forall|i: int, j: int| 0 <= i < j < ents.len() ==> ents[i].entity != ents[j].entity,
    ensures
        apply_commands(ents, next, despawns_for(ents, slot)).0 == remove_slot(ents, slot),
        apply_commands(ents, next, despawns_for(ents, slot)).1 == next,
    decreases ents.len(),
{
    if ents.len() > 0 {
        let e0 = ents.first();
        let rest = ents.drop_first();
        assert(seq![e0] + rest =~= ents);
        assert forall|i: int, j: int| 0 <= i < j < rest.len() implies rest[i].entity
            != rest[j].entity by {
            assert(ents[i + 1].entity != ents[j + 1].entity);
        }
        lemma_delete_closure(rest, next, slot);
        if e0.slot == slot {
            let cmds = despawns_for(ents, slot);
            assert(cmds.first() == SceneCommand::Despawn(e0.entity));
            assert(cmds.drop_first() =~= despawns_for(rest, slot));
            assert forall|m: int| 0 <= m < rest.len() implies rest[m].entity != e0.entity by {
                assert(ents[0].entity != ents[m + 1].entity);
            }
            lemma_remove_entity_absent(rest, e0.entity);
            assert(apply_command(ents, next, cmds.first()).0 == rest);
        } else {
            assert(despawns_for(ents, slot) =~= despawns_for(rest, slot));
            lemma_despawns_for_shape(rest, slot);
            assert forall|j: int| 0 <= j < despawns_for(rest, slot).len() implies exists|id: u64|
                (#[trigger] despawns_for(rest, slot)[j] == SceneCommand::Despawn(id) && id
                    != e0.entity) by {
                let k0 = choose|k: int|
                    0 <= k < rest.len() && rest[k].slot == slot && #[trigger] despawns_for(
                        rest,
                        slot,
                    )[j] == SceneCommand::Despawn(rest[k].entity);
                assert(ents[0].entity != ents[k0 + 1].entity);
                assert(despawns_for(rest, slot)[j] == SceneCommand::Despawn(rest[k0].entity)
                    && rest[k0].entity != e0.entity);
            }
            lemma_apply_despawns_skip_head(e0, rest, next, despawns_for(rest, slot));
            assert(remove_slot(ents, slot) == seq![e0] + remove_slot(rest, slot));
        }
    }
}

/// Delete effects spawn nothing: flushing them consumes no entity handle.
proof fn lemma_despawns_spawn_count(ents: Seq<SceneEntity>, slot: usize)
    ensures
        spawn_count(despawns_for(ents, slot)) == 0,
    decreases ents.len(),
{
    if ents.len() > 0 {
        lemma_despawns_spawn_count(ents.drop_first(), slot);
        if ents.first().slot == slot {
            let all = despawns_for(ents, slot);
            assert(all.first() == SceneCommand::Despawn(ents.first().entity));
            assert(all.drop_first() =~= despawns_for(ents.drop_first(), slot));
        }
    }
}

/// The per-frame driver system. Advances the tick timer by the frame's
/// delta; when the timer just finished a period (at most once per frame,
/// extra pulses discarded), pulls one effect from the interpreter through
/// the standard handler and enqueues the matching scene commands:
/// a spawn for `ShowText`, one despawn per matching queried entity for
/// `DeleteText`, and nothing on exhaustion.
pub fn update_with_interpreting_script(
    delta_ms: u64,
    timer: &mut ClockTimer,
    intp: &mut MockInterpreter,
    commands: &mut CommandBuffer,
    scene: &Scene,
)
    requires
        old(timer).wf(),
        old(timer).elapsed_ms + delta_ms <= u64::MAX,
    ensures
        final(timer).wf(),
        final(timer).period_ms == old(timer).period_ms,
        final(timer).elapsed_ms == timer_next(
            old(timer).elapsed_ms as int,
            old(timer).period_ms as int,
            delta_ms as int,
        ),
        final(intp).code == old(intp).code,
        !timer_fires(
            old(timer).elapsed_ms as int,
            old(timer).period_ms as int,
            delta_ms as int,
        ) ==> (*final(intp) == *old(intp) && *final(commands) == *old(commands)),
        timer_fires(
            old(timer).elapsed_ms as int,
            old(timer).period_ms as int,
            delta_ms as int,
        ) ==> final(intp).pc == step_pc(old(intp).pc as nat, old(intp).code.len() as nat),
        timer_fires(
            old(timer).elapsed_ms as int,
            old(timer).period_ms as int,
            delta_ms as int,
        ) && old(intp).pc >= old(intp).code.len() ==> *final(commands) == *old(commands),
        timer_fires(
            old(timer).elapsed_ms as int,
            old(timer).period_ms as int,
            delta_ms as int,
        ) && old(intp).pc < old(intp).code.len() ==> match old(intp).code@[old(intp).pc as int] {
            MockInstruction::ShowText(id, text) => final(commands).commands@ == old(
                commands,
            ).commands@.push(SceneCommand::Spawn(id, text)),
            MockInstruction::DeleteText(id) => final(commands).commands@ == old(
                commands,
            ).commands@ + despawns_for(scene.entities@, id),
        },
{
    if timer.tick(delta_ms) {
        let ghost pre = *intp;
        let stepped = intp.next_with_custom_handler(CustomHandler::new(interpreter_custom_handler));
        if let Some(action) = stepped {
            match action {
                UpdateAction::ShowText(id, text) => {
                    commands.spawn(id.0, text);
                }
                UpdateAction::DeleteText(id) => {
                    let ghost base = commands.commands@;
                    let ghost q = scene.entities@;
                    proof {
                        assert(q.skip(0) =~= q);
                    }
                    let mut i: usize = 0;
                    while i < scene.entities.len()
                        invariant
                            i <= q.len(),
                            q == scene.entities@,
                            commands.commands@ + despawns_for(q.skip(i as int), id.0) == base
                                + despawns_for(q, id.0),
                        decreases q.len() - i,
                    {
                        proof {
                            assert(q.skip(i as int).drop_first() =~= q.skip(i + 1));
                        }
                        let ghost cur = commands.commands@;
                        if scene.entities[i].slot == id.0 {
                            commands.despawn(scene.entities[i].entity);
                            proof {
                                assert(cur.push(SceneCommand::Despawn(q[i as int].entity))
                                    + despawns_for(q.skip(i + 1), id.0) =~= cur + (seq![
                                    SceneCommand::Despawn(q[i as int].entity),
                                ] + despawns_for(q.skip(i + 1), id.0)));
                            }
                        }
                        i = i + 1;
                    }
                    proof {
                        assert(q.skip(q.len() as int) =~= Seq::<SceneEntity>::empty());
                        assert(commands.commands@ + Seq::<SceneCommand>::empty()
                            =~= commands.commands@);
                    }
                }
            }
        }
    }
}

/// One whole frame as the host schedules it: the driver runs with a fresh
/// command buffer and the host flushes the buffer at end of frame, so the
/// next frame's query observes this frame's spawns and despawns.
pub fn run_frame(
    delta_ms: u64,
    timer: &mut ClockTimer,
    intp: &mut MockInterpreter,
    scene: &mut Scene,
)
    requires
        old(timer).wf(),
        old(timer).elapsed_ms + delta_ms <= u64::MAX,
        old(scene).wf(),
        old(scene).next_entity < u64::MAX,
    ensures
        final(timer).wf(),
        final(scene).wf(),
        final(timer).period_ms == old(timer).period_ms,
        final(timer).elapsed_ms == timer_next(
            old(timer).elapsed_ms as int,
            old(timer).period_ms as int,
            delta_ms as int,
        ),
        final(intp).code == old(intp).code,
        !timer_fires(
            old(timer).elapsed_ms as int,
            old(timer).period_ms as int,
            delta_ms as int,
        ) ==> (*final(intp) == *old(intp) && final(scene).entities@ == old(scene).entities@
            && final(scene).next_entity == old(scene).next_entity),
        timer_fires(
            old(timer).elapsed_ms as int,
            old(timer).period_ms as int,
            delta_ms as int,
        ) ==> final(intp).pc == step_pc(old(intp).pc as nat, old(intp).code.len() as nat),
        timer_fires(
            old(timer).elapsed_ms as int,
            old(timer).period_ms as int,
            delta_ms as int,
        ) && old(intp).pc >= old(intp).code.len() ==> (final(scene).entities@ == old(
            scene,
        ).entities@ && final(scene).next_entity == old(scene).next_entity),
        timer_fires(
            old(timer).elapsed_ms as int,
            old(timer).period_ms as int,
            delta_ms as int,
        ) && old(intp).pc < old(intp).code.len() ==> match old(intp).code@[old(intp).pc as int] {
            MockInstruction::ShowText(id, text) => final(scene).entities@ == old(
                scene,
            ).entities@.push(
                (SceneEntity { entity: old(scene).next_entity, slot: id, body: text }),
            ) && final(scene).next_entity == old(scene).next_entity + 1,
            MockInstruction::DeleteText(id) => final(scene).entities@ == remove_slot(
                old(scene).entities@,
                id,
            ) && final(scene).next_entity == old(scene).next_entity,
        },
{
    let mut buf = CommandBuffer::new();
    update_with_interpreting_script(delta_ms, timer, intp, &mut buf, scene);
    proof {
        let fired = timer_fires(
            old(timer).elapsed_ms as int,
            old(timer).period_ms as int,
            delta_ms as int,
        );
        let ents = old(scene).entities@;
        let n = old(scene).next_entity;
        assert(spawn_count(Seq::<SceneCommand>::empty()) == 0);
        assert(apply_commands(ents, n, Seq::<SceneCommand>::empty()) == (ents, n));
        if fired && old(intp).pc < old(intp).code.len() {
            match old(intp).code@[old(intp).pc as int] {
                MockInstruction::ShowText(id, text) => {
                    let cmd = SceneCommand::Spawn(id, text);
                    assert(buf.commands@ =~= seq![cmd]);
                    assert(seq![cmd].first() == cmd);
                    assert(seq![cmd].drop_first() =~= Seq::<SceneCommand>::empty());
                    assert(spawn_count(buf.commands@) == 1);
                    let spawned = ents.push(
                        (SceneEntity { entity: n, slot: id, body: text }),
                    );
                    assert(apply_command(ents, n, cmd) == (spawned, (n + 1) as u64));
                    assert(apply_commands(spawned, (n + 1) as u64, Seq::<SceneCommand>::empty())
                        == (spawned, (n + 1) as u64));
                    assert(apply_commands(ents, n, buf.commands@) == (spawned, (n + 1) as u64));
                }
                MockInstruction::DeleteText(id) => {
                    assert(buf.commands@ =~= despawns_for(ents, id));
                    lemma_despawns_spawn_count(ents, id);
                    lemma_delete_closure(ents, n, id);
                }
            }
        }
    }
    scene.flush(buf);
}

/// The gated pulses over a frame sequence: how many frames just finish a
/// period, counting at most one pulse per frame however large a delta is.
pub open spec fn fires_count(elapsed: int, period: int, deltas: Seq<int>) -> nat
    decreases deltas.len(),
{
    if deltas.len() == 0 {
        0
    } else {
        (if timer_fires(elapsed, period, deltas.first()) {
            1nat
        } else {
            0nat
        }) + fires_count(timer_next(elapsed, period, deltas.first()), period, deltas.drop_first())
    }
}

/// The program counter after the driver has run one frame per delta: it
/// takes one standard step exactly in the frames whose tick fires.
pub open spec fn pc_after_frames(
    elapsed: int,
    period: int,
    pc: nat,
    len: nat,
    deltas: Seq<int>,
) -> nat
    decreases deltas.len(),
{
    if deltas.len() == 0 {
        pc
    } else {
        let stepped = if timer_fires(elapsed, period, deltas.first()) {
            step_pc(pc, len)
        } else {
            pc
        };
        pc_after_frames(
            timer_next(elapsed, period, deltas.first()),
            period,
            stepped,
            len,
            deltas.drop_first(),
        )
    }
}

/// However large the deltas, at most one pulse is counted per frame: a
/// stalled frame never emits more than one effect.
pub proof fn lemma_fires_capped(elapsed: int, period: int, deltas: Seq<int>)
    ensures
        fires_count(elapsed, period, deltas) <= deltas.len(),
    decreases deltas.len(),
{
    if deltas.len() > 0 {
        lemma_fires_capped(timer_next(elapsed, period, deltas.first()), period, deltas.drop_first());
    }
}

/// Tick gating: while the program lasts, the number of effects emitted over
/// a frame sequence — the distance the counter advances — equals the number
/// of just-finished pulses, capped at one per frame.
pub proof fn lemma_tick_gating(elapsed: int, period: int, pc: nat, len: nat, deltas: Seq<int>)
    requires
        pc + fires_count(elapsed, period, deltas) <= len,
    ensures
        pc_after_frames(elapsed, period, pc, len, deltas) == pc + fires_count(
            elapsed,
            period,
            deltas,
        ),
    decreases deltas.len(),
{
    if deltas.len() > 0 {
        if timer_fires(elapsed, period, deltas.first()) {
            lemma_tick_gating(
                timer_next(elapsed, period, deltas.first()),
                period,
                (pc + 1) as nat,
                len,
                deltas.drop_first(),
            );
        } else {
            lemma_tick_gating(
                timer_next(elapsed, period, deltas.first()),
                period,
                pc,
                len,
                deltas.drop_first(),
            );
        }
    }
}

/// No entity bound to the deleted slot survives: the scene a delete leaves
/// behind contains no entity with that slot.
pub proof fn lemma_slot_closed(ents: Seq<SceneEntity>, slot: usize)
    ensures
        forall|j: int|
            0 <= j < remove_slot(ents, slot).len() ==> (#[trigger] remove_slot(ents, slot)[j]).slot
                != slot,
    decreases ents.len(),
{
    if ents.len() > 0 {
        lemma_slot_closed(ents.drop_first(), slot);
        let all = remove_slot(ents, slot);
        let rest = remove_slot(ents.drop_first(), slot);
        if ents.first().slot != slot {
            assert forall|j: int| 0 <= j < all.len() implies all[j].slot != slot by {
                if j > 0 {
                    assert(all[j] == rest[j - 1]);
                }
            }
        }
    }
}

} // verus!
