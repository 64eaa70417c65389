//! The scene projection and its deferred command buffer.
//!
//! The scene owns the live set of text entities, each tagged with the slot
//! under which the script addressed it. The driver never touches the scene
//! directly: it enqueues spawn and despawn commands into a
//! [`CommandBuffer`], and the host flushes the buffer at the end of the
//! frame, applying the commands in submission order.

use vstd::prelude::*;

verus! {

/// A live text entity: the host-assigned handle, the script-chosen slot,
/// and the displayed body handed to the renderer.
pub struct SceneEntity {
    pub entity: u64,
    pub slot: usize,
    pub body: String,
}

/// A deferred scene mutation, applied at end of frame.
pub enum SceneCommand {
    /// Create a new text entity under the slot, displaying the body.
    Spawn(usize, String),
    /// Destroy the entity with the given handle, if it is still live.
    Despawn(u64),
}

/// The entities left after despawning every entity with handle `id`,
/// in their original order.
pub open spec fn remove_entity(ents: Seq<SceneEntity>, id: u64) -> Seq<SceneEntity>
    decreases ents.len(),
{
    if ents.len() == 0 {
        Seq::empty()
    } else if ents.first().entity == id {
        remove_entity(ents.drop_first(), id)
    } else {
        seq![ents.first()] + remove_entity(ents.drop_first(), id)
    }
}

/// The entities left after removing every entity bound to `slot`,
/// in their original order.
pub open spec fn remove_slot(ents: Seq<SceneEntity>, slot: usize) -> Seq<SceneEntity>
    decreases ents.len(),
{
    if ents.len() == 0 {
        Seq::empty()
    } else if ents.first().slot == slot {
        remove_slot(ents.drop_first(), slot)
    } else {
        seq![ents.first()] + remove_slot(ents.drop_first(), slot)
    }
}

/// The scene and handle counter after applying one command: a spawn
/// appends a fresh entity and advances the counter, a despawn removes
/// every entity with the handle (at most one, in a well-formed scene).
pub open spec fn apply_command(ents: Seq<SceneEntity>, next: u64, cmd: SceneCommand) -> (
    Seq<SceneEntity>,
    u64,
) {
    match cmd {
        SceneCommand::Spawn(slot, body) => (
            ents.push(SceneEntity { entity: next, slot, body }),
            ((next + 1) as u64),
        ),
        SceneCommand::Despawn(id) => (remove_entity(ents, id), next),
    }
}

/// The scene and handle counter after applying a command sequence in order.
pub open spec fn apply_commands(ents: Seq<SceneEntity>, next: u64, cmds: Seq<SceneCommand>) -> (
    Seq<SceneEntity>,
    u64,
)
    decreases cmds.len(),
{
    if cmds.len() == 0 {
        (ents, next)
    } else {
        let (ents1, next1) = apply_command(ents, next, cmds.first());
        apply_commands(ents1, next1, cmds.drop_first())
    }
}

/// How many of the commands are spawns: each one consumes a fresh entity
/// handle when the buffer is flushed.
pub open spec fn spawn_count(cmds: Seq<SceneCommand>) -> nat
    decreases cmds.len(),
{
    if cmds.len() == 0 {
        0
    } else {
        (if cmds.first() matches SceneCommand::Spawn(_, _) {
            1nat
        } else {
            0nat
        }) + spawn_count(cmds.drop_first())
    }
}

/// The sink into which the driver enqueues this frame's scene mutations.
pub struct CommandBuffer {
    pub commands: Vec<SceneCommand>,
}

impl CommandBuffer {
    /// An empty buffer, as the host hands the driver each frame.
    pub fn new() -> (r: Self)
        ensures
            r.commands@ == Seq::<SceneCommand>::empty(),
    {
        Self { commands: Vec::new() }
    }

    /// Enqueues the spawn of a new text entity under `slot`.
    pub fn spawn(&mut self, slot: usize, body: String)
        ensures
            final(self).commands@ == old(self).commands@.push(SceneCommand::Spawn(slot, body)),
    {
        self.commands.push(SceneCommand::Spawn(slot, body));
    }

    /// Enqueues the despawn of the entity with handle `entity`.
    pub fn despawn(&mut self, entity: u64)
        ensures
            final(self).commands@ == old(self).commands@.push(SceneCommand::Despawn(entity)),
    {
        self.commands.push(SceneCommand::Despawn(entity));
    }
}

/// The set of live text entities, plus the allocator for entity handles.
pub struct Scene {
    pub entities: Vec<SceneEntity>,
    pub next_entity: u64,
}

impl Scene {
    /// A scene is well formed when entity handles are unique and every
    /// live handle is below the allocation counter.
    pub open spec fn wf(self) -> bool {
        &&& forall|i: int, j: int|
            0 <= i < j < self.entities@.len() ==> self.entities@[i].entity
                != self.entities@[j].entity
        &&& forall|i: int|
            0 <= i < self.entities@.len() ==> self.entities@[i].entity < self.next_entity
    }

    /// An empty scene.
    pub fn new() -> (r: Self)
        ensures
            r.wf(),
            r.entities@ == Seq::<SceneEntity>::empty(),
            r.next_entity == 0,
    {
        Self { entities: Vec::new(), next_entity: 0 }
    }

    /// Destroys every live entity with handle `id`; a no-op when none
    /// matches.
    fn despawn_now(&mut self, id: u64)
        ensures
            final(self).entities@ == remove_entity(old(self).entities@, id),
            final(self).next_entity == old(self).next_entity,
    {
        let ghost orig = self.entities@;
        proof {
            assert(orig.take(0) =~= Seq::<SceneEntity>::empty());
            assert(orig.skip(0) =~= orig);
            assert(Seq::<SceneEntity>::empty() + remove_entity(orig, id) =~= remove_entity(
                orig,
                id,
            ));
        }
        let mut i: usize = 0;
        while i < self.entities.len()
            invariant
                i <= self.entities@.len(),
                self.next_entity == old(self).next_entity,
                remove_entity(orig, id) == self.entities@.take(i as int) + remove_entity(
                    self.entities@.skip(i as int),
                    id,
                ),
                forall|j: int| 0 <= j < i ==> self.entities@[j].entity != id,
            decreases self.entities@.len() - i,
        {
            let ghost pre = self.entities@;
            assert(pre.skip(i as int).drop_first() =~= pre.skip(i + 1));
            if self.entities[i].entity == id {
                self.entities.remove(i);
                assert(self.entities@.take(i as int) =~= pre.take(i as int));
                assert(self.entities@.skip(i as int) =~= pre.skip(i + 1));
            } else {
                assert(pre.take(i + 1) =~= pre.take(i as int) + seq![pre[i as int]]);
                i = i + 1;
            }
        }
        assert(self.entities@.take(self.entities@.len() as int) =~= self.entities@);
        assert(remove_entity(self.entities@.skip(self.entities@.len() as int), id)
            =~= Seq::<SceneEntity>::empty());
    }

    /// Applies this frame's queued commands in submission order, consuming
    /// the buffer. Spawned entities receive fresh handles; well-formedness
    /// is preserved.
    pub fn flush(&mut self, buf: CommandBuffer)
        requires
            old(self).wf(),
            old(self).next_entity + spawn_count(buf.commands@) <= u64::MAX,
        ensures
            final(self).wf(),
            final(self).entities@ == apply_commands(
                old(self).entities@,
                old(self).next_entity,
                buf.commands@,
            ).0,
            final(self).next_entity == apply_commands(
                old(self).entities@,
                old(self).next_entity,
                buf.commands@,
            ).1,
    {
        let ghost goal = apply_commands(old(self).entities@, old(self).next_entity, buf.commands@);
        let mut cmds = buf.commands;
        while cmds.len() > 0
            invariant
                self.wf(),
                self.next_entity + spawn_count(cmds@) <= u64::MAX,
                goal == apply_commands(self.entities@, self.next_entity, cmds@),
            decreases cmds@.len(),
        {
            let ghost pre = cmds@;
            let cmd = cmds.remove(0);
            assert(pre.remove(0) =~= pre.drop_first());
            match cmd {
                SceneCommand::Spawn(slot, body) => {
                    let e = SceneEntity { entity: self.next_entity, slot, body };
                    self.entities.push(e);
                    self.next_entity = self.next_entity + 1;
                }
                SceneCommand::Despawn(id) => {
                    let ghost before = self.entities@;
                    self.despawn_now(id);
                    proof {
                        lemma_remove_entity_props(before, id);
                    }
                }
            }
        }
    }
}

/// What a despawn leaves behind: no entity with the despawned handle, only
/// entities of the original scene (so the handle bound survives), and, when
/// the original handles were unique, unique handles.
pub proof fn lemma_remove_entity_props(ents: Seq<SceneEntity>, id: u64)
    ensures
        forall|j: int|
            0 <= j < remove_entity(ents, id).len() ==> (#[trigger] remove_entity(ents, id)[j]).entity
                != id,
        forall|j: int|
            0 <= j < remove_entity(ents, id).len() ==> exists|k: int|
                (0 <= k < ents.len() && ents[k] == #[trigger] remove_entity(ents, id)[j]),
        (forall|i: int, j: int|
            0 <= i < j < ents.len() ==> ents[i].entity != ents[j].entity) ==> (forall|
            i: int,
            j: int,
        |
            0 <= i < j < remove_entity(ents, id).len() ==> remove_entity(ents, id)[i].entity
                != remove_entity(ents, id)[j].entity),
    decreases ents.len(),
{
    if ents.len() > 0 {
        lemma_remove_entity_props(ents.drop_first(), id);
        let after = remove_entity(ents, id);
        let rest = remove_entity(ents.drop_first(), id);
        assert forall|j: int| 0 <= j < after.len() implies exists|k: int|
            (0 <= k < ents.len() && ents[k] == #[trigger] after[j]) by {
            if ents.first().entity == id {
                let k0 = choose|k: int|
                    0 <= k < ents.drop_first().len() && ents.drop_first()[k] == rest[j];
                assert(ents[k0 + 1] == after[j]);
            } else {
                if j == 0 {
                    assert(ents[0] == after[j]);
                } else {
                    let k0 = choose|k: int|
                        0 <= k < ents.drop_first().len() && ents.drop_first()[k] == rest[j - 1];
                    assert(ents[k0 + 1] == after[j]);
                }
            }
        }
        if forall|i: int, j: int| 0 <= i < j < ents.len() ==> ents[i].entity != ents[j].entity {
            assert forall|i: int, j: int|
                0 <= i < ents.drop_first().len() && 0 <= j < ents.drop_first().len() && i
                    != j implies ents.drop_first()[i].entity != ents.drop_first()[j].entity by {
                assert(ents[i + 1].entity != ents[j + 1].entity);
            }
            if ents.first().entity != id {
                assert forall|i: int, j: int| 0 <= i < j < after.len() implies after[i].entity
                    != after[j].entity by {
                    if i == 0 {
                        let k0 = choose|k: int|
                            0 <= k < ents.drop_first().len() && ents.drop_first()[k] == rest[j
                                - 1];
                        assert(ents[0].entity != ents[k0 + 1].entity);
                    } else {
                        assert(rest[i - 1].entity != rest[j - 1].entity);
                    }
                }
            }
        }
    }
}

} // verus!
