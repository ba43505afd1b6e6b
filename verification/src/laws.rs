//! What holds of both pads together, over several operations of the manager.

use vstd::prelude::*;

use crate::connection::{has_lights, is_broken, law_only_lights_are_dropped, new_command, poll_fires};
use crate::device::{commanded, info_of, is_connected, DeviceView, EventView};
use crate::manager::{
    after_opening, assigned, auto_lights_command, command_time, decision_of, draws_now, due_count,
    generator_state, has_arrived, inputs_of, is_misordered, is_open_at, is_paused, lights_are_queued,
    lights_off_command, next_frame_time, ordered, panel_test_command, panel_test_is_due,
    platform_command, serial_command, serial_of, settled, slot_pass, still_there, swapped, version_of, versions_of, wait_of,
    with_animation_paused, with_frame_appended, with_frame_drawn, with_lights, with_lights_sent,
    with_opened, with_pad_released, with_panel_test_sent, with_platform_lights, with_polled,
    xorshift, ManagerView, OpenDecision, PanelTestMode, NANOS_PER_MS, SENSOR_TEST_POLL_WAIT_MS,
};
use crate::pad_lights::{is_light_data, lights_command};
use crate::protocol::{
    elapsed, time_after, ANIMATION_PAUSE_DURATION, LIGHTS_FRAME_INTERVAL, PANEL_TEST_REFRESH,
    SENSOR_TEST_INTERVAL,
};
use crate::sensor::SensorTestMode;
use crate::slots::law_swap_is_not_undone;

verus! {

// ─── Slots ───────────────────────────────────────────────────────────────────

/// Ordering the pads leaves them in the right slots, and doing it again changes
/// nothing.
pub proof fn law_ordering_settles(m: ManagerView)
    requires
        m.devices.len() == 2,
    ensures
        !is_misordered(ordered(m)),
        ordered(ordered(m)) == ordered(m),
{
    if is_misordered(m) {
        law_swap_is_not_undone(m.assignment, info_of(m.devices[0]), info_of(m.devices[1]));
        assert(info_of(swapped(m).devices[0]) == info_of(m.devices[1]));
        assert(info_of(swapped(m).devices[1]) == info_of(m.devices[0]));
    }
}

/// Exchanging the pads keeps both with all they know; only the slot that each
/// reports changes, and it is the one that it is in.
pub proof fn law_swap_keeps_the_pads(m: ManagerView)
    requires
        m.devices.len() == 2,
        m.poll_handles.len() == 2,
    ensures
        swapped(m).devices[0] == (DeviceView { pad_index: 0, ..m.devices[1] }),
        swapped(m).devices[1] == (DeviceView { pad_index: 1, ..m.devices[0] }),
        swapped(m).poll_handles[0] == m.poll_handles[1],
        swapped(m).poll_handles[1] == m.poll_handles[0],
{
}

/// When pinning serial numbers exchanges the pads, listeners are told anew of each
/// that is connected, as what it is in its new slot; else they are told nothing.
pub proof fn law_exchanged_pads_are_announced(
    m: ManagerView,
    assignment: Seq<Option<Seq<char>>>,
)
    requires
        m.devices.len() == 2,
    ensures
        ({
            let after = assigned(m, assignment);
            let exchanged = is_misordered(ManagerView { assignment, ..m });
            let first = if exchanged && is_connected(m.devices[1]) {
                seq![
                    EventView::Connected { pad: 0, info: info_of(m.devices[1]) },
                    EventView::ConfigUpdated { pad: 0 },
                ]
            } else {
                Seq::empty()
            };
            let second = if exchanged && is_connected(m.devices[0]) {
                seq![
                    EventView::Connected { pad: 1, info: info_of(m.devices[0]) },
                    EventView::ConfigUpdated { pad: 1 },
                ]
            } else {
                Seq::empty()
            };
            after.events == m.events + first + second
        }),
{
    let m1 = ManagerView { assignment, ..m };
    let after = assigned(m, assignment);
    if is_misordered(m1) {
        let m2 = swapped(m1);
        assert(info_of(m2.devices[0]) == info_of(m.devices[1]));
        assert(info_of(m2.devices[1]) == info_of(m.devices[0]));
        if !is_connected(m.devices[1]) {
            assert(m.events + Seq::<EventView>::empty() =~= m.events);
        }
        if !is_connected(m.devices[0]) {
            assert(after.events + Seq::<EventView>::empty() =~= after.events);
        }
    } else {
        assert(m.events + Seq::<EventView>::empty() + Seq::<EventView>::empty() =~= m.events);
    }
}

/// When a pad has connected in a pass, the pads stand in the right slots after it.
pub proof fn law_new_pads_are_ordered(before: ManagerView, m: ManagerView)
    requires
        m.devices.len() == 2,
        has_arrived(before, m, 0, 0) || has_arrived(before, m, 1, 1),
    ensures
        settled(before, m).devices == ordered(m).devices,
        !is_misordered(settled(before, m)),
{
    law_ordering_settles(m);
}

/// Pinning the same serial numbers twice is pinning them once: the second time
/// nothing is exchanged and nobody is told.
pub proof fn law_assignment_is_idempotent(m: ManagerView, assignment: Seq<Option<Seq<char>>>)
    requires
        m.devices.len() == 2,
    ensures
        assigned(assigned(m, assignment), assignment) == assigned(m, assignment),
{
    let m1 = ManagerView { assignment, ..m };
    law_ordering_settles(m1);
    let after = assigned(m, assignment);
    assert(after.devices == ordered(m1).devices);
    assert((ManagerView { assignment, ..after }) == after);
}

/// Two connected pads whose serial numbers are pinned stand as pinned, whatever
/// their jumpers say.
pub proof fn law_pinned_pads_stand_as_pinned(m: ManagerView, p1: Seq<char>, p2: Seq<char>)
    requires
        m.devices.len() == 2,
        is_connected(m.devices[0]),
        is_connected(m.devices[1]),
        (info_of(m.devices[0]).serial == p1 && info_of(m.devices[1]).serial == p2) || (info_of(
            m.devices[0],
        ).serial == p2 && info_of(m.devices[1]).serial == p1),
    ensures
        info_of(assigned(m, seq![Some(p1), Some(p2)]).devices[0]).serial == p1,
        info_of(assigned(m, seq![Some(p1), Some(p2)]).devices[1]).serial == p2,
{
    let pins = seq![Some(p1), Some(p2)];
    assert(pins[0] == Some(p1) && pins[1] == Some(p2));
    let m1 = ManagerView { assignment: pins, ..m };
    assert(assigned(m, pins).devices == ordered(m1).devices);
    assert(info_of(swapped(m1).devices[0]) == info_of(m.devices[1]));
    assert(info_of(swapped(m1).devices[1]) == info_of(m.devices[0]));
}

/// With nothing pinned, two connected pads with different jumpers stand as
/// jumpered, also when they were pinned the other way round before.
pub proof fn law_clearing_restores_the_jumper_order(m: ManagerView)
    requires
        m.devices.len() == 2,
        is_connected(m.devices[0]),
        is_connected(m.devices[1]),
        info_of(m.devices[0]).is_player2 != info_of(m.devices[1]).is_player2,
    ensures
        !info_of(assigned(m, seq![None, None]).devices[0]).is_player2,
        info_of(assigned(m, seq![None, None]).devices[1]).is_player2,
{
    let pins = seq![None::<Seq<char>>, None::<Seq<char>>];
    assert(pins[0] is None && pins[1] is None);
    let m1 = ManagerView { assignment: pins, ..m };
    assert(assigned(m, pins).devices == ordered(m1).devices);
    assert(info_of(swapped(m1).devices[0]) == info_of(m.devices[1]));
    assert(info_of(swapped(m1).devices[1]) == info_of(m.devices[0]));
}

// ─── Lights ──────────────────────────────────────────────────────────────────

/// Nothing lights the panels while a panel test runs, and light data of a wrong
/// size is ignored.
pub proof fn law_lights_are_refused(m: ManagerView, data: Seq<u8>, selected: Seq<bool>, now: u64)
    requires
        m.panel_test_mode != PanelTestMode::Off || !is_light_data(data),
    ensures
        with_lights(m, data, selected, now) == m,
{
}

/// Light frames do not pile up: however many are set, at most five lights commands
/// wait, and while a whole frame waits none is added.
pub proof fn law_waiting_lights_are_bounded(
    m: ManagerView,
    data: Seq<u8>,
    selected: Seq<bool>,
    now: u64,
)
    requires
        m.pending.len() <= 5,
    ensures
        with_lights(m, data, selected, now).pending.len() <= 5,
        m.pending.len() >= 3 ==> with_lights(m, data, selected, now).pending.len()
            == m.pending.len(),
{
}

/// The newest light frame wins: once it is accepted, what waits last for a selected
/// pad with known firmware is that pad's share of it.
pub proof fn law_newest_frame_wins(
    m: ManagerView,
    data: Seq<u8>,
    selected: Seq<bool>,
    now: u64,
    pad: int,
)
    requires
        m.devices.len() == 2,
        m.panel_test_mode == PanelTestMode::Off,
        is_light_data(data),
        0 <= pad < 2,
        selected[pad],
        version_of(m.devices[pad]) is Some,
    ensures
        ({
            let pending = with_lights(m, data, selected, now).pending;
            let n = pending.len();
            &&& n >= 3
            &&& version_of(m.devices[pad])->0 >= 4 ==> pending[n - 3].commands[pad]
                == lights_command(data, pad, 0)
            &&& version_of(m.devices[pad])->0 < 4 ==> pending[n - 3].commands[pad].len() == 0
            &&& pending[n - 2].commands[pad] == lights_command(data, pad, 1)
            &&& pending[n - 1].commands[pad] == lights_command(data, pad, 2)
        }),
{
    assert(versions_of(m)[pad] == version_of(m.devices[pad]));
}

/// A pad that is not selected has no share in the frame that waits last.
pub proof fn law_deselected_pad_is_left_alone(
    m: ManagerView,
    data: Seq<u8>,
    selected: Seq<bool>,
    now: u64,
    pad: int,
)
    requires
        m.devices.len() == 2,
        m.panel_test_mode == PanelTestMode::Off,
        is_light_data(data),
        0 <= pad < 2,
        !selected[pad],
        m.pending.len() >= 3 || version_of(m.devices[0]) is Some || version_of(m.devices[1]) is Some,
    ensures
        ({
            let pending = with_lights(m, data, selected, now).pending;
            let n = pending.len();
            &&& pending[n - 3].commands[pad].len() == 0
            &&& pending[n - 2].commands[pad].len() == 0
            &&& pending[n - 1].commands[pad].len() == 0
        }),
{
}

/// Choosing which pads get light does not change when: frames are timed alike for
/// every selection.
pub proof fn law_selection_does_not_change_timing(
    m: ManagerView,
    data: Seq<u8>,
    a: Seq<bool>,
    b: Seq<bool>,
    now: u64,
)
    ensures
        with_lights(m, data, a, now).pending.len() == with_lights(m, data, b, now).pending.len(),
        with_lights(m, data, a, now).delay_lights_until == with_lights(
            m,
            data,
            b,
            now,
        ).delay_lights_until,
        forall|i: int|
            0 <= i < with_lights(m, data, a, now).pending.len() ==> (#[trigger] with_lights(
                m,
                data,
                a,
                now,
            ).pending[i]).send_at == with_lights(m, data, b, now).pending[i].send_at,
{
}

/// Frames are a thirtieth of a second apart: after one was accepted, the next may
/// not go before its time is over.
pub proof fn law_frames_are_paced(
    m: ManagerView,
    data: Seq<u8>,
    selected: Seq<bool>,
    now: u64,
    later: u64,
    k: int,
)
    ensures
        command_time(with_frame_appended(m, data, selected, now), later, k) >= time_after(
            next_frame_time(m, now),
            LIGHTS_FRAME_INTERVAL,
        ),
{
}

/// While a lights command still waits on a connection no other is handed over: at
/// most one frame is unsent there.
pub proof fn law_one_unsent_frame(m: ManagerView, now: u64)
    requires
        lights_are_queued(m),
    ensures
        with_lights_sent(m, now) == m,
{
}

proof fn lemma_due_count(pending: Seq<crate::pad_lights::LightsView>, now: u64)
    ensures
        0 <= due_count(pending, now) <= pending.len(),
        forall|i: int|
            0 <= i < due_count(pending, now) ==> (#[trigger] pending[i]).send_at <= now,
        due_count(pending, now) < pending.len() ==> pending[due_count(pending, now)].send_at > now,
    decreases pending.len(),
{
    if pending.len() > 0 && pending[0].send_at <= now {
        lemma_due_count(pending.skip(1), now);
        let n = due_count(pending.skip(1), now);
        assert forall|i: int| 0 <= i < 1 + n implies (#[trigger] pending[i]).send_at <= now by {
            if i > 0 {
                assert(pending.skip(1)[i - 1] == pending[i]);
            }
        }
        if 1 + n < pending.len() {
            assert(pending.skip(1)[n] == pending[1 + n]);
        }
    }
}

/// Lights commands leave in order and not before their time: those at the front
/// that are due go, and the first that stays is not due.
pub proof fn law_lights_leave_in_order(m: ManagerView, now: u64)
    requires
        !lights_are_queued(m),
    ensures
        ({
            let n = due_count(m.pending, now);
            &&& 0 <= n <= m.pending.len()
            &&& forall|i: int| 0 <= i < n ==> (#[trigger] m.pending[i]).send_at <= now
            &&& with_lights_sent(m, now).pending == m.pending.skip(n)
            &&& n < m.pending.len() ==> with_lights_sent(m, now).pending[0].send_at > now
        }),
{
    lemma_due_count(m.pending, now);
}

/// A pad handed back to its firmware gets no more of the lights that waited for it,
/// neither here nor on its connection, and the other pad keeps its own.
pub proof fn law_released_pad_gets_no_more_lights(m: ManagerView, pad: int)
    requires
        m.devices.len() == 2,
        0 <= pad < 2,
        forall|i: int| 0 <= i < m.pending.len() ==> (#[trigger] m.pending[i]).commands.len() == 2,
    ensures
        ({
            let after = with_pad_released(m, pad);
            &&& after.pending.len() == m.pending.len()
            &&& forall|i: int|
                0 <= i < m.pending.len() ==> {
                    &&& (#[trigger] after.pending[i]).commands[pad].len() == 0
                    &&& after.pending[i].commands[1 - pad] == m.pending[i].commands[1 - pad]
                    &&& after.pending[i].send_at == m.pending[i].send_at
                }
            &&& after.devices[pad].conn matches Some(h) ==> !has_lights(h.queue)
            &&& after.devices[1 - pad] == m.devices[1 - pad]
        }),
{
    if let Some(h) = m.devices[pad].conn {
        law_only_lights_are_dropped(h.queue);
        let kept = crate::connection::without_lights(h.queue, h.queue.len() as int);
        let queue = with_pad_released(m, pad).devices[pad].conn->0.queue;
        assert forall|i: int| 0 <= i < queue.len() implies !(#[trigger] queue[i]).is_lights by {
            if i < kept.len() {
                assert(queue[i] == kept[i]);
                assert(!kept[i].is_lights);
            }
        }
    }
}

// ─── Animation and panel test ────────────────────────────────────────────────

/// Lights set by hand pause the automatic animation for a tenth of a second.
pub proof fn law_manual_lights_pause_the_animation(m: ManagerView, now: u64, later: u64)
    requires
        m.anim_running,
        now + ANIMATION_PAUSE_DURATION <= u64::MAX,
        later < now + ANIMATION_PAUSE_DURATION,
    ensures
        is_paused(with_animation_paused(m, now), later),
        !draws_now(with_animation_paused(m, now), later),
{
}

/// A panel test mode that was sent is not sent again within a second, unless it
/// changes; when it is off it is not sent again at all.
pub proof fn law_panel_test_is_sent_in_measure(m: ManagerView, now: u64, later: u64)
    requires
        panel_test_is_due(m, now),
    ensures
        m.panel_test_mode == PanelTestMode::Off || elapsed(later, now) < PANEL_TEST_REFRESH
            ==> !panel_test_is_due(with_panel_test_sent(m, now), later),
        m.panel_test_mode != PanelTestMode::Off && elapsed(later, now) >= PANEL_TEST_REFRESH
            ==> panel_test_is_due(with_panel_test_sent(m, now), later),
{
}

// ─── Devices coming and going ────────────────────────────────────────────────

/// A pad whose connection is broken is dropped in the next pass: its slot is free,
/// it is not polled any more and listeners are told.
pub proof fn law_broken_pad_is_dropped(m: ManagerView, i: int, now: u64)
    requires
        m.devices.len() == 2,
        m.poll_handles.len() == 2,
        0 <= i < 2,
        m.devices[i].conn is Some,
        is_broken(m.devices[i].conn->0),
        m.devices[i].listening,
    ensures
        slot_pass(m, i, now).devices[i].conn is None,
        !is_connected(slot_pass(m, i, now).devices[i]),
        slot_pass(m, i, now).poll_handles[i] is None,
        slot_pass(m, i, now).events.len() > 0,
        slot_pass(m, i, now).events.last() == (EventView::Disconnected {
            pad: m.devices[i].pad_index,
        }),
{
    let d = m.devices[i];
    assert(crate::device::prepared(d, now).conn->0.shared == d.conn->0.shared);
    let closed = crate::manager::device_pass(d, now);
    assert(closed.events.last() == (EventView::Disconnected { pad: d.pad_index }));
    assert((m.events + closed.events).last() == closed.events.last());
}

/// One pad's pass does not touch the other pad.
pub proof fn law_passes_do_not_mix(m: ManagerView, i: int, now: u64)
    requires
        m.devices.len() == 2,
        m.poll_handles.len() == 2,
        0 <= i < 2,
    ensures
        slot_pass(m, i, now).devices[1 - i] == m.devices[1 - i],
        slot_pass(m, i, now).poll_handles[1 - i] == m.poll_handles[1 - i],
{
}

/// A device is never opened twice, and one that could not be opened is left alone.
pub proof fn law_no_device_is_opened_twice(m: ManagerView, path: Seq<char>, product: Seq<char>)
    ensures
        is_open_at(m.devices[0], path) || is_open_at(m.devices[1], path) ==> decision_of(
            m,
            path,
            product,
        ) == OpenDecision::Skip,
        m.failed_paths.contains(path) ==> decision_of(m, path, product) == OpenDecision::Skip,
{
}

/// A device is opened only for a free slot, and then it is open at that slot.
pub proof fn law_opened_device_has_a_slot(m: ManagerView, path: Seq<char>, product: Seq<char>)
    requires
        m.devices.len() == 2,
    ensures
        decision_of(m, path, product) matches OpenDecision::Open(slot) ==> {
            &&& slot < 2
            &&& m.devices[slot as int].conn is None
            &&& is_open_at(with_opened(m, slot as int, path).devices[slot as int], path)
            &&& with_opened(m, slot as int, path).devices[1 - slot] == m.devices[1 - slot]
            &&& decision_of(with_opened(m, slot as int, path), path, product)
                == OpenDecision::Skip
        },
{
}

/// A device that cannot be opened for reading is not tried again, whatever the second
/// handle; one that cannot be opened for writing may be tried again at once.
pub proof fn law_only_a_failed_read_handle_counts(
    m: ManagerView,
    path: Seq<char>,
    product: Seq<char>,
    write_opened: bool,
)
    ensures
        decision_of(after_opening(m, path, product, false, write_opened), path, product)
            == OpenDecision::Skip,
        after_opening(m, path, product, true, false) == m,
        after_opening(m, path, product, true, write_opened).failed_paths == m.failed_paths,
{
    let failed = after_opening(m, path, product, false, write_opened).failed_paths;
    assert(failed.last() == path);
}

proof fn lemma_still_there(paths: Seq<Seq<char>>, found: Seq<Seq<char>>, n: int, path: Seq<char>)
    requires
        0 <= n <= paths.len(),
    ensures
        still_there(paths, found, n).contains(path) <==> paths.take(n).contains(path)
            && found.contains(path),
    decreases n,
{
    if n > 0 {
        lemma_still_there(paths, found, n - 1, path);
        let before = still_there(paths, found, n - 1);
        let now = still_there(paths, found, n);
        assert(paths.take(n) =~= paths.take(n - 1).push(paths[n - 1]));
        if before.contains(path) {
            let k = choose|k: int| 0 <= k < before.len() && before[k] == path;
            assert(now[k] == path);
        }
        if paths.take(n - 1).contains(path) {
            let shorter = paths.take(n - 1);
            let k = choose|k: int| 0 <= k < shorter.len() && shorter[k] == path;
            assert(paths.take(n)[k] == path);
        }
        if now.contains(path) {
            let k = choose|k: int| 0 <= k < now.len() && now[k] == path;
            if k < before.len() {
                assert(before[k] == path);
            } else {
                assert(paths.take(n)[n - 1] == path);
            }
        }
        if paths.take(n).contains(path) && found.contains(path) {
            let longer = paths.take(n);
            let k = choose|k: int| 0 <= k < longer.len() && longer[k] == path;
            if k < n - 1 {
                assert(paths.take(n - 1)[k] == path);
            } else {
                assert(now[now.len() - 1] == path);
            }
        }
    } else {
        assert(paths.take(0) =~= Seq::empty());
    }
}

/// A device that could not be opened stays refused exactly as long as it is found:
/// once it was unplugged it may be tried again.
pub proof fn law_unplugging_forgives(m: ManagerView, found: Seq<Seq<char>>, path: Seq<char>)
    ensures
        still_there(m.failed_paths, found, m.failed_paths.len() as int).contains(path) <==> (
        m.failed_paths.contains(path) && found.contains(path)),
{
    lemma_still_there(m.failed_paths, found, m.failed_paths.len() as int, path);
    assert(m.failed_paths.take(m.failed_paths.len() as int) =~= m.failed_paths);
}

/// The main loop is back in time: within a millisecond after the next lights command
/// or the next sensor test request is due, if not before, and soon while a sensor
/// test runs.
pub proof fn law_loop_is_back_in_time(m: ManagerView, now: u64, pad: int)
    requires
        0 <= pad < 2,
    ensures
        m.pending.len() > 0 ==> wait_of(m, now) * NANOS_PER_MS <= elapsed(
            m.pending[0].send_at,
            now,
        ) + NANOS_PER_MS,
        m.devices[pad].mode != SensorTestMode::Off ==> wait_of(m, now) <= SENSOR_TEST_POLL_WAIT_MS,
        m.devices[pad].mode != SensorTestMode::Off && m.devices[pad].waiting_for
            == SensorTestMode::Off && m.devices[pad].requested_at is Some ==> wait_of(m, now)
            * NANOS_PER_MS <= elapsed(
            time_after(m.devices[pad].requested_at->0, SENSOR_TEST_INTERVAL),
            now,
        ) + NANOS_PER_MS,
{
}

/// The main loop never spins and never sleeps longer than its interval.
pub proof fn law_wait_is_bounded(m: ManagerView, now: u64)
    ensures
        1 <= wait_of(m, now),
        wait_of(m, now) <= if m.main_thread_sleep_ms < 1 {
            1
        } else {
            m.main_thread_sleep_ms as int
        },
{
}

// ─── By number ───────────────────────────────────────────────────────────────

/// The commands for both pads, byte by byte: `S 1` hands a pad back to its firmware's
/// lighting, `t 0` and `t 1` set the panel test mode, `l` with 108 zeros darkens a pad,
/// each with an end of line.
pub proof fn law_commands_by_number(mode: PanelTestMode, i: int)
    ensures
        auto_lights_command() == seq!['S' as u8, ' ' as u8, '1' as u8, 10u8],
        panel_test_command(mode) == seq![
            't' as u8,
            ' ' as u8,
            if mode == PanelTestMode::Off {
                '0' as u8
            } else {
                '1' as u8
            },
            10u8,
        ],
        lights_off_command().len() == 110,
        lights_off_command()[0] == 'l' as u8,
        1 <= i < 109 ==> lights_off_command()[i] == 0,
        lights_off_command()[109] == 10,
{
    assert(auto_lights_command() =~= seq!['S' as u8, ' ' as u8, '1' as u8, 10u8]);
    assert(panel_test_command(mode) =~= seq![
        't' as u8,
        ' ' as u8,
        if mode == PanelTestMode::Off {
            '0' as u8
        } else {
            '1' as u8
        },
        10u8,
    ]);
}

/// The strip of each pad gets its own half of the colors: 44 LEDs of three bytes, the first
/// pad's first, after `L`, 0 and 44. A pad before version 4 gets nothing.
#[verifier::spinoff_prover]
#[verifier::rlimit(30)]
pub proof fn law_strips_get_their_own_half(m: ManagerView, data: Seq<u8>, pad: int, i: int)
    requires
        m.devices.len() == 2,
        data.len() >= 264,
        0 <= pad < 2,
        0 <= i < 132,
    ensures
        ({
            let cmd = platform_command(data, pad);
            let after = with_platform_lights(m, data).devices[pad];
            &&& cmd.len() == 135
            &&& cmd[0] == 'L' as u8 && cmd[1] == 0 && cmd[2] == 44
            &&& cmd[3 + i] == data[132 * pad + i]
            &&& after == if version_of(m.devices[pad]) is Some && version_of(m.devices[pad])->0
                >= 4 {
                commanded(m.devices[pad], cmd)
            } else {
                m.devices[pad]
            }
        }),
{
}

/// Each pad gets its own share of the lights that are due: what is queued first on a
/// pad's connection is the first waiting command, if it has a share for that pad, and
/// nothing that was queued before is touched.
pub proof fn law_pads_get_their_own_lights(m: ManagerView, now: u64, pad: int)
    requires
        m.devices.len() == 2,
        0 <= pad < 2,
        m.devices[pad].conn is Some,
        !lights_are_queued(m),
        m.pending.len() > 0,
        m.pending[0].send_at <= now,
        m.pending[0].commands[pad].len() > 0,
    ensures
        ({
            let before = m.devices[pad].conn->0.queue;
            let h = with_lights_sent(m, now).devices[pad].conn;
            &&& h is Some
            &&& h->0.queue.len() > before.len()
            &&& h->0.queue.take(before.len() as int) == before
            &&& h->0.queue[before.len() as int] == new_command(
                m.pending[0].commands[pad],
                None,
                true,
            )
        }),
{
    lemma_due_count(m.pending, now);
    let n = due_count(m.pending, now);
    assert(n >= 1) by {
        lemma_due_count(m.pending.skip(1), now);
    }
    lemma_lit_by(m.devices[pad], m.pending, pad, n);
}

proof fn lemma_lit_by(
    d: DeviceView,
    pending: Seq<crate::pad_lights::LightsView>,
    pad: int,
    n: int,
)
    requires
        d.conn is Some,
        1 <= n,
        pending[0].commands[pad].len() > 0,
    ensures
        ({
            let before = d.conn->0.queue;
            let h = crate::manager::lit_by(d, pending, pad, n).conn;
            &&& h is Some
            &&& h->0.queue.len() > before.len()
            &&& h->0.queue.take(before.len() as int) == before
            &&& h->0.queue[before.len() as int] == new_command(
                pending[0].commands[pad],
                None,
                true,
            )
        }),
    decreases n,
{
    let before = d.conn->0.queue;
    if n > 1 {
        lemma_lit_by(d, pending, pad, n - 1);
        let q = crate::manager::lit_by(d, pending, pad, n - 1).conn->0.queue;
        let r = crate::manager::lit_by(d, pending, pad, n).conn->0.queue;
        assert(r.take(before.len() as int) =~= q.take(before.len() as int));
    } else {
        assert(crate::manager::lit_by(d, pending, pad, 0) == d);
        let r = crate::manager::lit_by(d, pending, pad, 1).conn->0.queue;
        assert(r.take(before.len() as int) =~= before);
    }
}

/// When light frames go out: the first at once, the next a thirtieth of a second after it;
/// while no pad has firmware 4 or later, the lower half of a frame goes a sixtieth of a
/// second after the rest.
pub proof fn law_frame_times_by_number(
    m: ManagerView,
    data: Seq<u8>,
    selected: Seq<bool>,
    now: u64,
)
    requires
        m.delay_lights_until is None,
        m.pending.len() == 0,
        now <= u64::MAX - 100_000_000,
    ensures
        ({
            let after = with_frame_appended(m, data, selected, now);
            let first = version_of(m.devices[0]);
            let second = version_of(m.devices[1]);
            let new = (first is Some && first->0 >= 4) || (second is Some && second->0 >= 4);
            &&& after.pending.len() == 3
            &&& after.pending[0].send_at == now
            &&& after.pending[1].send_at == now
            &&& after.pending[2].send_at == if new {
                now as int
            } else {
                now + 16_666_667
            }
            &&& command_time(after, now, 0) == now + 33_333_333
            &&& after.delay_lights_until == Some((now + 33_333_333) as u64)
        }),
{
}

/// When the panel test mode is sent, in nanoseconds: at once when it changes, again every
/// second while it is on, and not again while it is off.
pub proof fn law_panel_test_by_number(m: ManagerView, now: u64)
    ensures
        m.panel_test_mode != m.last_sent_panel_test_mode ==> panel_test_is_due(m, now),
        m.panel_test_mode == m.last_sent_panel_test_mode && m.panel_test_mode
            == PanelTestMode::Off ==> !panel_test_is_due(m, now),
        m.panel_test_mode == m.last_sent_panel_test_mode && m.panel_test_mode
            != PanelTestMode::Off && m.last_panel_test_sent_at is Some ==> (panel_test_is_due(
            m,
            now,
        ) <==> now - m.last_panel_test_sent_at->0 >= 1_000_000_000),
{
}

/// Lights set by hand pause the running animation for a tenth of a second, in nanoseconds,
/// and no longer.
pub proof fn law_pause_by_number(m: ManagerView, now: u64, later: u64)
    requires
        m.anim_running,
        now <= u64::MAX - 100_000_000,
    ensures
        is_paused(with_animation_paused(m, now), later) <==> later < now + 100_000_000,
{
}

/// A device that is found gets the first slot that is free.
pub proof fn law_first_free_slot_is_taken(m: ManagerView, path: Seq<char>, product: Seq<char>)
    ensures
        decision_of(m, path, product) == OpenDecision::Open(0) ==> m.devices[0].conn is None,
        decision_of(m, path, product) == OpenDecision::Open(1) ==> m.devices[0].conn is Some
            && m.devices[1].conn is None,
        decision_of(m, path, product) == OpenDecision::Stop ==> m.devices[0].conn is Some
            && m.devices[1].conn is Some,
{
}

/// What a poll reports is told of the pad in that slot, in order, and the other pad's
/// connection does not change.
pub proof fn law_input_is_told_of_its_pad(
    m: ManagerView,
    slot: int,
    reads: Seq<Seq<u8>>,
    failed: bool,
    i: int,
)
    requires
        m.devices.len() == 2,
        0 <= slot < 2,
        m.devices[slot].conn is Some,
        m.poll_handles[slot] is Some,
        0 <= i < poll_fires(
            m.devices[slot].conn->0.shared,
            reads,
            m.poll_handles[slot]->0.has_callback,
        ).len(),
    ensures
        ({
            let after = with_polled(m, slot, reads, failed);
            let fired = poll_fires(
                m.devices[slot].conn->0.shared,
                reads,
                m.poll_handles[slot]->0.has_callback,
            );
            &&& after.events.len() == m.events.len() + fired.len()
            &&& after.events[m.events.len() + i] == (EventView::InputState {
                pad: m.devices[slot].pad_index,
                state: fired[i],
            })
            &&& after.devices[1 - slot] == m.devices[1 - slot]
        }),
{
}

/// The animation follows the feet: each pad's half of the frame is drawn by what is
/// pressed on the pad in that slot.
pub proof fn law_animation_follows_the_input(m: ManagerView, pad: int)
    requires
        0 <= pad < 2,
    ensures
        inputs_of(m).len() == 2,
        m.devices[pad].conn is Some ==> inputs_of(m)[pad]
            == m.devices[pad].conn->0.shared.input_state,
        m.devices[pad].conn is None ==> inputs_of(m)[pad] == 0,
{
}

/// When a frame of the animation is drawn, the pads get exactly that frame as lights, and
/// the animation has moved on.
pub proof fn law_drawn_frame_is_what_is_sent(m: ManagerView, now: u64, pad: int)
    requires
        m.devices.len() == 2,
        0 <= pad < 2,
        draws_now(m, now),
        m.panel_test_mode == PanelTestMode::Off,
        version_of(m.devices[pad]) is Some,
    ensures
        ({
            let after = with_frame_drawn(m, now);
            let n = after.pending.len();
            let data = crate::lights::drawn(m.animation, inputs_of(m));
            &&& n >= 3
            &&& after.pending[n - 2].commands[pad] == lights_command(data, pad, 1)
            &&& after.pending[n - 1].commands[pad] == lights_command(data, pad, 2)
            &&& after.animation == crate::lights::state_when_drawn(m.animation, inputs_of(m))
        }),
{
    let m1 = ManagerView {
        animation: crate::lights::state_when_drawn(m.animation, inputs_of(m)),
        ..m
    };
    let data = crate::lights::drawn(m.animation, inputs_of(m));
    law_newest_frame_wins(m1, data, seq![true, true], now, pad);
}

/// Where serial numbers come from: each byte is the lowest of the next state of a
/// generator, whose state is mixed with 8192 times itself, then with a 128th of that, then
/// with 131072 times that, all without what overflows.
pub proof fn law_serial_numbers_by_number(seed: u64, i: int)
    requires
        0 <= i < 15,
    ensures
        ({
            let a = seed ^ ((seed * 8192) as u64);
            let b = a ^ (a / 128);
            xorshift(seed) == b ^ ((b * 131072) as u64)
        }),
        serial_of(seed).len() == 16,
        serial_of(seed)[0] == xorshift(seed) % 256,
        serial_of(seed)[i + 1] == serial_of(xorshift(seed))[i],
        serial_command(seed).len() == 18,
        serial_command(seed)[0] == 's' as u8,
        serial_command(seed).subrange(1, 17) == serial_of(seed),
        serial_command(seed)[17] == 10,
{
    let a = seed ^ (seed << 13);
    let b = a ^ (a >> 7);
    assert(seed << 13 == (seed * 8192) as u64) by (bit_vector);
    assert(a >> 7 == a / 128) by (bit_vector);
    assert(b << 17 == (b * 131072) as u64) by (bit_vector);
    assert(generator_state(seed, 0) == seed);
    assert(generator_state(seed, 1) == xorshift(seed));
    lemma_generator_shift(seed, i + 1);
    assert(serial_command(seed).subrange(1, 17) =~= serial_of(seed));
}

proof fn lemma_generator_shift(seed: u64, n: int)
    requires
        0 <= n,
    ensures
        generator_state(seed, n + 1) == generator_state(xorshift(seed), n),
    decreases n,
{
    if n > 0 {
        lemma_generator_shift(seed, n - 1);
    } else {
        assert(generator_state(seed, 0) == seed);
    }
}

/// The main loop is back within 20 ms while a sensor test runs.
pub proof fn law_loop_is_quick_in_a_sensor_test(m: ManagerView, now: u64, pad: int)
    requires
        0 <= pad < 2,
        m.devices[pad].mode != SensorTestMode::Off,
    ensures
        1 <= wait_of(m, now) <= 20,
{
}

/// Only StepManiaX pads are opened.
pub proof fn law_only_pads_are_opened(m: ManagerView, path: Seq<char>, product: Seq<char>)
    ensures
        decision_of(m, path, product) != OpenDecision::Skip ==> path.len() > 0
            && crate::text::contains_text(product, "StepManiaX"@),
        crate::protocol::SMX_USB_VENDOR_ID == 0x2341,
        crate::protocol::SMX_USB_PRODUCT_ID == 0x8037,
{
}

/// A pad that is reset is told so first and asked for its configuration then.
pub proof fn law_reset_comes_before_the_question(m: ManagerView, pad: int)
    requires
        m.devices.len() == 2,
        0 <= pad < 2,
        m.devices[pad].conn is Some,
        m.devices[pad].conn->0.got_info,
    ensures
        ({
            let before = m.devices[pad].conn->0;
            let after = crate::manager::with_reset(m, pad).devices[pad].conn;
            let n = before.queue.len() as int;
            &&& after is Some
            &&& after->0.queue.len() == n + 2
            &&& after->0.queue.take(n) == before.queue
            &&& after->0.queue[n] == new_command(seq!['f' as u8, 10u8], None, false)
            &&& after->0.queue[n + 1] == new_command(
                crate::device::config_request(before.info.firmware_version),
                None,
                false,
            )
            &&& crate::manager::with_reset(m, pad).devices[1 - pad] == m.devices[1 - pad]
        }),
{
    crate::device::law_pad_commands_by_number(
        m.devices[pad].conn->0.info.firmware_version,
        SensorTestMode::Off,
    );
    let before = m.devices[pad].conn->0.queue;
    let after = crate::manager::with_reset(m, pad).devices[pad].conn->0.queue;
    assert(after.take(before.len() as int) =~= before);
}

/// When a panel test begins, every pad is darkened first and told of the test then; when it
/// ends, the pads are only told so.
#[verifier::spinoff_prover]
#[verifier::rlimit(30)]
pub proof fn law_test_begins_in_the_dark(m: ManagerView, now: u64, pad: int)
    requires
        m.devices.len() == 2,
        0 <= pad < 2,
        m.devices[pad].conn is Some,
        m.panel_test_mode != m.last_sent_panel_test_mode,
    ensures
        ({
            let before = m.devices[pad].conn->0.queue;
            let after = with_panel_test_sent(m, now).devices[pad].conn;
            let n = before.len() as int;
            let begins = m.panel_test_mode != PanelTestMode::Off && m.last_sent_panel_test_mode
                == PanelTestMode::Off;
            &&& after is Some
            &&& begins ==> {
                &&& after->0.queue.len() == n + 2
                &&& after->0.queue[n] == new_command(lights_off_command(), None, false)
                &&& after->0.queue[n + 1] == new_command(
                    seq!['t' as u8, ' ' as u8, '1' as u8, 10u8],
                    None,
                    false,
                )
            }
            &&& m.panel_test_mode == PanelTestMode::Off ==> {
                &&& after->0.queue.len() == n + 1
                &&& after->0.queue[n] == new_command(
                    seq!['t' as u8, ' ' as u8, '0' as u8, 10u8],
                    None,
                    false,
                )
            }
        }),
{
    law_commands_by_number(m.panel_test_mode, 1);
}

/// The choice whether every input packet is reported holds for both pads.
pub proof fn law_input_mode_holds_for_both(m: ManagerView, always: bool, pad: int)
    requires
        m.devices.len() == 2,
        0 <= pad < 2,
        m.devices[pad].conn is Some,
    ensures
        ({
            let after = crate::manager::with_input_mode(m, always);
            &&& after.always_fire_input == always
            &&& after.devices[pad].conn is Some
            &&& after.devices[pad].conn->0.shared.always_fire_input == always
            &&& after.devices[pad].conn->0.queue == m.devices[pad].conn->0.queue
        }),
{
}

/// A new connection begins with the question who the device is.
pub proof fn law_new_connection_asks_who_is_there(m: ManagerView, slot: int, path: Seq<char>)
    requires
        m.devices.len() == 2,
        0 <= slot < 2,
    ensures
        ({
            let h = with_opened(m, slot, path).devices[slot].conn;
            &&& h is Some
            &&& h->0.path == path
            &&& !h->0.got_info && !h->0.active
            &&& h->0.queue.len() == 1
            &&& h->0.queue[0].packets == seq![crate::protocol::device_info_request()]
            &&& h->0.queue[0].is_device_info
            &&& h->0.shared.always_fire_input == m.always_fire_input
        }),
{
}

/// What listeners are told of a pad that has come into a slot.
pub open spec fn news(pad: usize, info: crate::device::InfoView, came: bool) -> Seq<EventView> {
    if came {
        seq![EventView::Connected { pad, info }, EventView::ConfigUpdated { pad }]
    } else {
        Seq::empty()
    }
}

proof fn lemma_announced(m: ManagerView, i: int, is_new: bool)
    requires
        0 <= i < 2,
    ensures
        crate::manager::announced(m, i, is_new).events == m.events + news(
            i as usize,
            info_of(m.devices[i]),
            is_new,
        ),
        crate::manager::announced(m, i, is_new).devices == m.devices,
{
    if !is_new {
        assert(m.events + Seq::<EventView>::empty() =~= m.events);
    }
}

/// What listeners are told when pads arrive in a pass: of each that was not connected
/// before and is now, as what it is in the slot where it stands after the pads were put in
/// order, the first slot first.
#[verifier::spinoff_prover]
#[verifier::rlimit(30)]
pub proof fn law_arrivals_are_announced(before: ManagerView, m: ManagerView)
    requires
        before.devices.len() == 2,
        m.devices.len() == 2,
    ensures
        ({
            let came0 = !is_connected(before.devices[0]) && is_connected(m.devices[0]);
            let came1 = !is_connected(before.devices[1]) && is_connected(m.devices[1]);
            let exchanged = (came0 || came1) && is_misordered(m);
            settled(before, m).events == if exchanged {
                m.events + news(0, info_of(m.devices[1]), came1) + news(
                    1,
                    info_of(m.devices[0]),
                    came0,
                )
            } else {
                m.events + news(0, info_of(m.devices[0]), came0) + news(
                    1,
                    info_of(m.devices[1]),
                    came1,
                )
            }
        }),
{
    let came0 = has_arrived(before, m, 0, 0);
    let came1 = has_arrived(before, m, 1, 1);
    if (came0 || came1) && is_misordered(m) {
        let m1 = swapped(m);
        assert(info_of(m1.devices[0]) == info_of(m.devices[1]));
        assert(info_of(m1.devices[1]) == info_of(m.devices[0]));
        assert(has_arrived(before, m1, 1, 0) == came1);
        assert(has_arrived(before, m1, 0, 1) == came0);
        lemma_announced(m1, 0, came1);
        lemma_announced(crate::manager::announced(m1, 0, came1), 1, came0);
    } else {
        lemma_announced(m, 0, came0);
        lemma_announced(crate::manager::announced(m, 0, came0), 1, came1);
    }
}

/// Which lights a pad can take is decided by the master version of its configuration, of
/// the one it shall get while that waits to be sent.
pub proof fn law_version_is_the_master_version(d: DeviceView)
    ensures
        !is_connected(d) ==> version_of(d) is None,
        is_connected(d) && !d.send_config ==> version_of(d) == Some(d.config.master_version),
        is_connected(d) && d.send_config ==> version_of(d) == Some(d.wanted_config.master_version),
{
}

/// The main loop is back in time, in nanoseconds: at most a millisecond after the next
/// lights command is due.
pub proof fn law_loop_is_back_by_number(m: ManagerView, now: u64)
    requires
        m.pending.len() > 0,
    ensures
        m.pending[0].send_at >= now ==> wait_of(m, now) * 1_000_000 <= m.pending[0].send_at - now
            + 1_000_000,
        m.pending[0].send_at < now ==> wait_of(m, now) == 1,
{
}

} // verus!
