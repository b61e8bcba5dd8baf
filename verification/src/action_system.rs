//! The trigger/action resolver: matches the tick's events against the
//! spatially bound triggers and executes every matched action, in event
//! order and, within an event, in entity order.
//!
//! Matching reads the world as it stands when the tick's events are
//! resolved; execution then runs the whole collected list. A teleport
//! overwrites the player's position directly — an instantaneous cut that
//! creates no transit state — a dialog action opens the modal dialog box,
//! and a print action appends to the returned diagnostic log.

use crate::actions::Action;
use crate::components::GridPosition;
use crate::components::PlayerEntity;
use crate::constants::CELL_SUBUNITS;
use crate::events::Event;
use crate::events::EventQueue;
use crate::ui::dialog_for_conf;
use crate::ui::UiState;
use crate::ui::UiStateView;
use crate::world::World;
use crate::world::WorldView;
use vstd::prelude::*;

verus! {

pub struct ActionSystem;

/// A handle to one matched trigger: which entity, and which of its trigger
/// components fired.
#[derive(Clone, Copy, PartialEq, Eq, Structural, Debug)]
pub enum TriggerRef {
    Enter(usize),
    Exit(usize),
    Use(usize),
}

/// The action a trigger handle points at.
pub open spec fn action_of(w: WorldView, r: TriggerRef) -> Action {
    match r {
        TriggerRef::Enter(j) => w.on_enters[j as int]->Some_0.action,
        TriggerRef::Exit(j) => w.on_exits[j as int]->Some_0.action,
        TriggerRef::Use(j) => w.on_uses[j as int]->Some_0.action,
    }
}

/// The handle is in range and its trigger component is present.
pub open spec fn ref_valid(w: WorldView, r: TriggerRef) -> bool {
    match r {
        TriggerRef::Enter(j) => j < w.len() && w.on_enters[j as int] is Some,
        TriggerRef::Exit(j) => j < w.len() && w.on_exits[j as int] is Some,
        TriggerRef::Use(j) => j < w.len() && w.on_uses[j as int] is Some,
    }
}

/// Enter-triggers standing exactly at `p`, from entity `j` up, in entity
/// order.
pub open spec fn enter_refs_from(w: WorldView, p: GridPosition, j: int) -> Seq<TriggerRef>
    decreases w.len() - j,
{
    if j < 0 || j >= w.len() {
        Seq::empty()
    } else {
        (if w.on_enters[j] is Some && w.positions[j] == Some(p) {
            seq![TriggerRef::Enter(j as usize)]
        } else {
            Seq::<TriggerRef>::empty()
        }) + enter_refs_from(w, p, j + 1)
    }
}

/// Exit-triggers standing exactly at `p`, from entity `j` up.
pub open spec fn exit_refs_from(w: WorldView, p: GridPosition, j: int) -> Seq<TriggerRef>
    decreases w.len() - j,
{
    if j < 0 || j >= w.len() {
        Seq::empty()
    } else {
        (if w.on_exits[j] is Some && w.positions[j] == Some(p) {
            seq![TriggerRef::Exit(j as usize)]
        } else {
            Seq::<TriggerRef>::empty()
        }) + exit_refs_from(w, p, j + 1)
    }
}

/// Use-triggers standing exactly at `p`, from entity `j` up.
pub open spec fn use_refs_from(w: WorldView, p: GridPosition, j: int) -> Seq<TriggerRef>
    decreases w.len() - j,
{
    if j < 0 || j >= w.len() {
        Seq::empty()
    } else {
        (if w.on_uses[j] is Some && w.positions[j] == Some(p) {
            seq![TriggerRef::Use(j as usize)]
        } else {
            Seq::<TriggerRef>::empty()
        }) + use_refs_from(w, p, j + 1)
    }
}

/// The cell immediately in front of the player: its position plus its
/// facing direction's unit delta.
pub open spec fn use_position(w: WorldView, player: int) -> GridPosition {
    GridPosition {
        x: (w.positions[player]->Some_0.x + w.facings[player]->Some_0.direction.delta_x_spec() * (
        CELL_SUBUNITS as int)) as i64,
        y: (w.positions[player]->Some_0.y + w.facings[player]->Some_0.direction.delta_y_spec() * (
        CELL_SUBUNITS as int)) as i64,
    }
}

/// The triggers one event matches: enter- and exit-events match triggers at
/// their position, a use-event matches use-triggers at the cell in front of
/// the player. Move intents match nothing here.
pub open spec fn refs_for_event(w: WorldView, player: int, ev: Event) -> Seq<TriggerRef> {
    match ev {
        Event::PlayerEntered(p) => enter_refs_from(w, p, 0),
        Event::PlayerExit(p) => exit_refs_from(w, p, 0),
        Event::PlayerTriesUse => if 0 <= player < w.len() && w.positions[player] is Some
            && w.facings[player] is Some {
            use_refs_from(w, use_position(w, player), 0)
        } else {
            Seq::empty()
        },
        Event::EntityTriesMove(_, _) => Seq::empty(),
    }
}

/// All triggers the tick's events match, from event `i` on, in event order.
pub open spec fn collect_refs_from(w: WorldView, player: int, events: Seq<Event>, i: int) -> Seq<
    TriggerRef,
>
    decreases events.len() - i,
{
    if i < 0 || i >= events.len() {
        Seq::empty()
    } else {
        refs_for_event(w, player, events[i]) + collect_refs_from(w, player, events, i + 1)
    }
}

/// Executes the collected actions from index `i` on, in order. Actions are
/// read from `w0`, the world as it stood at matching time (execution never
/// touches trigger components, so the two agree). A teleport overwrites the
/// player's position; a dialog action opens the dialog box; a print action
/// appends to the log.
pub open spec fn apply_refs(
    w0: WorldView,
    w: WorldView,
    ui: UiStateView,
    log: Seq<Seq<char>>,
    refs: Seq<TriggerRef>,
    player: int,
    i: int,
) -> (WorldView, UiStateView, Seq<Seq<char>>)
    decreases refs.len() - i,
{
    if i < 0 || i >= refs.len() {
        (w, ui, log)
    } else {
        match action_of(w0, refs[i]) {
            Action::Teleport(p) => {
                let w1 = if 0 <= player < w.len() && w.positions[player] is Some {
                    WorldView { positions: w.positions.update(player, Some(p)), ..w }
                } else {
                    w
                };
                apply_refs(w0, w1, ui, log, refs, player, i + 1)
            },
            Action::ShowDialog(conf) => {
                let ui1 = UiStateView {
                    dialog_box: Some(dialog_for_conf(conf@, ui.char_widths, ui.wrap_width)),
                    ..ui
                };
                apply_refs(w0, w, ui1, log, refs, player, i + 1)
            },
            Action::PrintMessage(s) => {
                apply_refs(w0, w, ui, log.push(s@), refs, player, i + 1)
            },
        }
    }
}

/// Execution only ever rewrites the player's position: every other storage,
/// every other entity's position, and the world's size stay as they were —
/// in particular no transit state is created or destroyed.
pub proof fn lemma_apply_refs_frame(
    w0: WorldView,
    w: WorldView,
    ui: UiStateView,
    log: Seq<Seq<char>>,
    refs: Seq<TriggerRef>,
    player: int,
    i: int,
)
    ensures
        ({
            let (w1, ui1, log1) = apply_refs(w0, w, ui, log, refs, player, i);
            &&& w1 == (WorldView { positions: w1.positions, ..w })
            &&& w1.positions.len() == w.positions.len()
            &&& forall|k: int|
                0 <= k < w.positions.len() && k != player ==> w1.positions[k] == w.positions[k]
            &&& ui1.char_widths == ui.char_widths
            &&& ui1.wrap_width == ui.wrap_width
            &&& log.is_prefix_of(log1)
        }),
    decreases refs.len() - i,
{
    if 0 <= i < refs.len() {
        match action_of(w0, refs[i]) {
            Action::Teleport(p) => {
                let w1 = if 0 <= player < w.len() && w.positions[player] is Some {
                    WorldView { positions: w.positions.update(player, Some(p)), ..w }
                } else {
                    w
                };
                lemma_apply_refs_frame(w0, w1, ui, log, refs, player, i + 1);
            },
            Action::ShowDialog(conf) => {
                let ui1 = UiStateView {
                    dialog_box: Some(dialog_for_conf(conf@, ui.char_widths, ui.wrap_width)),
                    ..ui
                };
                lemma_apply_refs_frame(w0, w, ui1, log, refs, player, i + 1);
            },
            Action::PrintMessage(s) => {
                lemma_apply_refs_frame(w0, w, ui, log.push(s@), refs, player, i + 1);
                assert(log.is_prefix_of(log.push(s@)));
            },
        }
    } else {
        assert(apply_refs(w0, w, ui, log, refs, player, i).0 =~= (WorldView {
            positions: w.positions,
            ..w
        }));
    }
}

/// Law: a teleport action sets the player's position to exactly its target
/// and creates no intermediate animation state: the transit storage after
/// executing it is exactly the one before, and so is everything else but
/// the player's position.
pub proof fn lemma_teleport_sets_player(
    w0: WorldView,
    w: WorldView,
    ui: UiStateView,
    log: Seq<Seq<char>>,
    r: TriggerRef,
    target: GridPosition,
    player: int,
)
    requires
        action_of(w0, r) == Action::Teleport(target),
        0 <= player < w.len(),
        w.positions[player] is Some,
    ensures
        ({
            let (w1, ui1, log1) = apply_refs(w0, w, ui, log, seq![r], player, 0);
            &&& w1.positions[player] == Some(target)
            &&& w1.movings == w.movings
            &&& w1.awaitings == w.awaitings
            &&& ui1 == ui
            &&& log1 == log
        }),
{
    let stepped = WorldView { positions: w.positions.update(player, Some(target)), ..w };
    assert(seq![r][0] == r);
    assert(apply_refs(w0, stepped, ui, log, seq![r], player, 1) == (stepped, ui, log));
}

impl ActionSystem {
    /// Resolves the tick's events against the triggers and executes every
    /// matched action in order. The returned log holds the messages of the
    /// executed `PrintMessage` actions, in order; the host prints them. An
    /// empty `events` buffer matches nothing, changes nothing, and logs
    /// nothing.
    pub fn run(
        world: &mut World,
        event_queue: &EventQueue,
        player: &PlayerEntity,
        ui: &mut UiState,
    ) -> (log: Vec<String>)
        requires
            old(world)@.wf(),
        ensures
            final(world)@.wf(),
            final(world)@.len() == old(world)@.len(),
            ({
                let refs = collect_refs_from(
                    old(world)@,
                    player.entity as int,
                    event_queue.events@,
                    0,
                );
                let (w1, ui1, log1) = apply_refs(
                    old(world)@,
                    old(world)@,
                    old(ui)@,
                    Seq::empty(),
                    refs,
                    player.entity as int,
                    0,
                );
                &&& final(world)@ == w1
                &&& final(ui)@ == ui1
                &&& log.deep_view() == log1
            }),
            event_queue.events@.len() == 0 ==> final(world)@ == old(world)@ && final(ui)@ == old(
                ui,
            )@ && log.deep_view() == Seq::<Seq<char>>::empty(),
    {
        let ghost w0 = old(world)@;
        let ghost pl = player.entity as int;
        let ghost evs = event_queue.events@;

        // first pass: match every event against the triggers
        let mut refs: Vec<TriggerRef> = Vec::new();
        let n_events = event_queue.events.len();
        let mut idx: usize = 0;
        while idx < n_events
            invariant
                0 <= idx <= n_events == evs.len(),
                world@ == w0,
                w0.wf(),
                evs == event_queue.events@,
                pl == player.entity as int,
                forall|k: int| 0 <= k < refs@.len() ==> ref_valid(w0, #[trigger] refs@[k]),
                collect_refs_from(w0, pl, evs, 0) == refs@ + collect_refs_from(
                    w0,
                    pl,
                    evs,
                    idx as int,
                ),
            decreases n_events - idx,
        {
            let ghost refs_before = refs@;
            let event = event_queue.events[idx];
            match event {
                Event::PlayerEntered(p) => {
                    collect_enter_refs(world, p, &mut refs);
                },
                Event::PlayerExit(p) => {
                    collect_exit_refs(world, p, &mut refs);
                },
                Event::PlayerTriesUse => {
                    let n = world.num_entities();
                    if player.entity < n {
                        let pos_opt = world.positions[player.entity];
                        let facing_opt = world.facings[player.entity];
                        match (pos_opt, facing_opt) {
                            (Some(pos), Some(facing)) => {
                                proof {
                                    assert(w0.entity_wf(pl));
                                }
                                let target = GridPosition {
                                    x: pos.x + facing.direction.get_delta_x() * CELL_SUBUNITS,
                                    y: pos.y + facing.direction.get_delta_y() * CELL_SUBUNITS,
                                };
                                proof {
                                    assert(target == use_position(w0, pl));
                                }
                                collect_use_refs(world, target, &mut refs);
                            },
                            _ => {},
                        }
                    }
                },
                Event::EntityTriesMove(_, _) => {},
            }
            proof {
                let rest = collect_refs_from(w0, pl, evs, idx + 1);
                assert(refs@ =~= refs_before + refs_for_event(w0, pl, event));
                assert(refs_before + (refs_for_event(w0, pl, event) + rest) =~= refs@ + rest);
            }
            idx = idx + 1;
        }
        proof {
            assert(collect_refs_from(w0, pl, evs, idx as int) =~= Seq::<TriggerRef>::empty());
            assert(refs@ + Seq::<TriggerRef>::empty() =~= refs@);
        }

        // second pass: execute the collected actions in order
        let ghost all_refs = refs@;
        let mut log: Vec<String> = Vec::new();
        proof {
            assert(log.deep_view() =~= Seq::<Seq<char>>::empty());
        }
        let n_refs = refs.len();
        let mut i: usize = 0;
        while i < n_refs
            invariant
                0 <= i <= n_refs == all_refs.len(),
                all_refs == refs@,
                w0.wf(),
                world@.wf(),
                world@.len() == w0.len(),
                world@.on_enters == w0.on_enters,
                world@.on_exits == w0.on_exits,
                world@.on_uses == w0.on_uses,
                pl == player.entity as int,
                forall|k: int| 0 <= k < all_refs.len() ==> ref_valid(w0, #[trigger] all_refs[k]),
                apply_refs(w0, w0, old(ui)@, Seq::empty(), all_refs, pl, 0) == apply_refs(
                    w0,
                    world@,
                    ui@,
                    log.deep_view(),
                    all_refs,
                    pl,
                    i as int,
                ),
            decreases n_refs - i,
        {
            let r = refs[i];
            let ghost w_before = world@;
            let ghost ui_before = ui@;
            let ghost log_before = log.deep_view();
            proof {
                assert(ref_valid(w0, all_refs[i as int]));
            }
            let action_opt: Option<&Action> = match r {
                TriggerRef::Enter(j) => {
                    match &world.on_enters[j] {
                        Some(t) => Some(&t.action),
                        None => None,
                    }
                },
                TriggerRef::Exit(j) => {
                    match &world.on_exits[j] {
                        Some(t) => Some(&t.action),
                        None => None,
                    }
                },
                TriggerRef::Use(j) => {
                    match &world.on_uses[j] {
                        Some(t) => Some(&t.action),
                        None => None,
                    }
                },
            };
            match action_opt {
                None => {
                    proof {
                        assert(false);
                    }
                },
                Some(action_ref) => {
                    proof {
                        assert(*action_ref == action_of(w0, r));
                    }
                    match action_ref {
                        Action::Teleport(p) => {
                            let target = *p;
                            let n = world.num_entities();
                            if player.entity < n && world.positions[player.entity].is_some() {
                                proof {
                                    assert(w0.entity_wf(find_ref_entity(r)));
                                }
                                world.positions[player.entity] = Some(target);
                            }
                            proof {
                                lemma_teleport_keeps_wf(w_before, w0, r, pl);
                                assert(world@ =~= (if 0 <= pl < w_before.len() && w_before.positions[pl]
                                    is Some {
                                    WorldView {
                                        positions: w_before.positions.update(pl, Some(target)),
                                        ..w_before
                                    }
                                } else {
                                    w_before
                                }));
                            }
                        },
                        Action::ShowDialog(conf) => {
                            ui.create_dialog_box(conf);
                            proof {
                                assert(ui@ =~= (UiStateView {
                                    dialog_box: Some(
                                        dialog_for_conf(
                                            conf@,
                                            ui_before.char_widths,
                                            ui_before.wrap_width,
                                        ),
                                    ),
                                    ..ui_before
                                }));
                            }
                        },
                        Action::PrintMessage(s) => {
                            let message = s.clone();
                            log.push(message);
                            proof {
                                assert(log.deep_view() =~= log_before.push(s@));
                            }
                        },
                    }
                },
            }
            i = i + 1;
        }
        proof {
            assert(apply_refs(w0, world@, ui@, log.deep_view(), all_refs, pl, i as int) == (
            world@,
            ui@,
            log.deep_view(),
            ));
            if evs.len() == 0 {
                assert(all_refs =~= Seq::<TriggerRef>::empty());
            }
        }
        log
    }
}

/// The entity index a trigger handle points at.
pub open spec fn find_ref_entity(r: TriggerRef) -> int {
    match r {
        TriggerRef::Enter(j) => j as int,
        TriggerRef::Exit(j) => j as int,
        TriggerRef::Use(j) => j as int,
    }
}

/// A teleport whose action comes from a well-formed trigger moves the
/// player to a well-formed whole-cell position, so the world stays
/// well-formed.
proof fn lemma_teleport_keeps_wf(w: WorldView, w0: WorldView, r: TriggerRef, player: int)
    requires
        w.wf(),
        w0.wf(),
        ref_valid(w0, r),
        action_of(w0, r) is Teleport,
    ensures
        ({
            let target = action_of(w0, r)->Teleport_0;
            let w1 = if 0 <= player < w.len() && w.positions[player] is Some {
                WorldView { positions: w.positions.update(player, Some(target)), ..w }
            } else {
                w
            };
            w1.wf()
        }),
{
    let target = action_of(w0, r)->Teleport_0;
    assert(w0.entity_wf(find_ref_entity(r)));
    assert(target.wf() && target.is_integral());
    if 0 <= player < w.len() && w.positions[player] is Some {
        let w1 = WorldView { positions: w.positions.update(player, Some(target)), ..w };
        assert(w.entity_wf(player));
        assert forall|i: int| 0 <= i < w1.len() implies w1.entity_wf(i) by {
            assert(w.entity_wf(i));
        }
    }
}

/// Appends every enter-trigger standing at `p`, in entity order.
fn collect_enter_refs(world: &World, p: GridPosition, refs: &mut Vec<TriggerRef>)
    requires
        world@.storages_aligned(),
    ensures
        final(refs)@ == old(refs)@ + enter_refs_from(world@, p, 0),
        forall|k: int|
            old(refs)@.len() <= k < final(refs)@.len() ==> ref_valid(world@, #[trigger] final(refs)@[k]),
{
    let ghost pre = old(refs)@;
    let n = world.num_entities();
    let mut j: usize = 0;
    while j < n
        invariant
            0 <= j <= n == world@.len(),
            world@.storages_aligned(),
            enter_refs_from(world@, p, 0) == refs@.skip(pre.len() as int) + enter_refs_from(
                world@,
                p,
                j as int,
            ),
            refs@.take(pre.len() as int) == pre,
            pre.len() <= refs@.len(),
            forall|k: int|
                pre.len() <= k < refs@.len() ==> ref_valid(world@, #[trigger] refs@[k]),
        decreases n - j,
    {
        let ghost refs_before = refs@;
        if world.on_enters[j].is_some() {
            match world.positions[j] {
                Some(q) => {
                    if q == p {
                        refs.push(TriggerRef::Enter(j));
                    }
                },
                None => {},
            }
        }
        proof {
            assert(refs@.take(pre.len() as int) =~= refs_before.take(pre.len() as int));
            let emitted: Seq<TriggerRef> = if world@.on_enters[j as int] is Some
                && world@.positions[j as int] == Some(p) {
                seq![TriggerRef::Enter(j)]
            } else {
                Seq::empty()
            };
            assert(refs@.skip(pre.len() as int) =~= refs_before.skip(pre.len() as int) + emitted);
            assert(refs_before.skip(pre.len() as int) + (emitted + enter_refs_from(
                world@,
                p,
                j + 1,
            )) =~= refs@.skip(pre.len() as int) + enter_refs_from(world@, p, j + 1));
        }
        j = j + 1;
    }
    proof {
        assert(enter_refs_from(world@, p, j as int) =~= Seq::<TriggerRef>::empty());
        assert(refs@.skip(pre.len() as int) + Seq::<TriggerRef>::empty() =~= refs@.skip(
            pre.len() as int,
        ));
        assert(refs@ =~= refs@.take(pre.len() as int) + refs@.skip(pre.len() as int));
    }
}

/// Appends every exit-trigger standing at `p`, in entity order.
fn collect_exit_refs(world: &World, p: GridPosition, refs: &mut Vec<TriggerRef>)
    requires
        world@.storages_aligned(),
    ensures
        final(refs)@ == old(refs)@ + exit_refs_from(world@, p, 0),
        forall|k: int|
            old(refs)@.len() <= k < final(refs)@.len() ==> ref_valid(world@, #[trigger] final(refs)@[k]),
{
    let ghost pre = old(refs)@;
    let n = world.num_entities();
    let mut j: usize = 0;
    while j < n
        invariant
            0 <= j <= n == world@.len(),
            world@.storages_aligned(),
            exit_refs_from(world@, p, 0) == refs@.skip(pre.len() as int) + exit_refs_from(
                world@,
                p,
                j as int,
            ),
            refs@.take(pre.len() as int) == pre,
            pre.len() <= refs@.len(),
            forall|k: int|
                pre.len() <= k < refs@.len() ==> ref_valid(world@, #[trigger] refs@[k]),
        decreases n - j,
    {
        let ghost refs_before = refs@;
        if world.on_exits[j].is_some() {
            match world.positions[j] {
                Some(q) => {
                    if q == p {
                        refs.push(TriggerRef::Exit(j));
                    }
                },
                None => {},
            }
        }
        proof {
            assert(refs@.take(pre.len() as int) =~= refs_before.take(pre.len() as int));
            let emitted: Seq<TriggerRef> = if world@.on_exits[j as int] is Some
                && world@.positions[j as int] == Some(p) {
                seq![TriggerRef::Exit(j)]
            } else {
                Seq::empty()
            };
            assert(refs@.skip(pre.len() as int) =~= refs_before.skip(pre.len() as int) + emitted);
            assert(refs_before.skip(pre.len() as int) + (emitted + exit_refs_from(
                world@,
                p,
                j + 1,
            )) =~= refs@.skip(pre.len() as int) + exit_refs_from(world@, p, j + 1));
        }
        j = j + 1;
    }
    proof {
        assert(exit_refs_from(world@, p, j as int) =~= Seq::<TriggerRef>::empty());
        assert(refs@.skip(pre.len() as int) + Seq::<TriggerRef>::empty() =~= refs@.skip(
            pre.len() as int,
        ));
        assert(refs@ =~= refs@.take(pre.len() as int) + refs@.skip(pre.len() as int));
    }
}

/// Appends every use-trigger standing at `p`, in entity order.
fn collect_use_refs(world: &World, p: GridPosition, refs: &mut Vec<TriggerRef>)
    requires
        world@.storages_aligned(),
    ensures
        final(refs)@ == old(refs)@ + use_refs_from(world@, p, 0),
        forall|k: int|
            old(refs)@.len() <= k < final(refs)@.len() ==> ref_valid(world@, #[trigger] final(refs)@[k]),
{
    let ghost pre = old(refs)@;
    let n = world.num_entities();
    let mut j: usize = 0;
    while j < n
        invariant
            0 <= j <= n == world@.len(),
            world@.storages_aligned(),
            use_refs_from(world@, p, 0) == refs@.skip(pre.len() as int) + use_refs_from(
                world@,
                p,
                j as int,
            ),
            refs@.take(pre.len() as int) == pre,
            pre.len() <= refs@.len(),
            forall|k: int|
                pre.len() <= k < refs@.len() ==> ref_valid(world@, #[trigger] refs@[k]),
        decreases n - j,
    {
        let ghost refs_before = refs@;
        if world.on_uses[j].is_some() {
            match world.positions[j] {
                Some(q) => {
                    if q == p {
                        refs.push(TriggerRef::Use(j));
                    }
                },
                None => {},
            }
        }
        proof {
            assert(refs@.take(pre.len() as int) =~= refs_before.take(pre.len() as int));
            let emitted: Seq<TriggerRef> = if world@.on_uses[j as int] is Some
                && world@.positions[j as int] == Some(p) {
                seq![TriggerRef::Use(j)]
            } else {
                Seq::empty()
            };
            assert(refs@.skip(pre.len() as int) =~= refs_before.skip(pre.len() as int) + emitted);
            assert(refs_before.skip(pre.len() as int) + (emitted + use_refs_from(
                world@,
                p,
                j + 1,
            )) =~= refs@.skip(pre.len() as int) + use_refs_from(world@, p, j + 1));
        }
        j = j + 1;
    }
    proof {
        assert(use_refs_from(world@, p, j as int) =~= Seq::<TriggerRef>::empty());
        assert(refs@.skip(pre.len() as int) + Seq::<TriggerRef>::empty() =~= refs@.skip(
            pre.len() as int,
        ));
        assert(refs@ =~= refs@.take(pre.len() as int) + refs@.skip(pre.len() as int));
    }
}

} // verus!
