//! Both pads together: discovery, slots, lights, panel tests and the main loop.
//!
//! [`SmxManager`] holds all state and does no input or output. Whoever drives it
//! enumerates devices when [`SmxManager::wants_enumeration`] says so, opens those
//! that [`SmxManager::open_decision`] picks and says what came of it
//! ([`SmxManager::open_finished`]), hands over what the polling threads read
//! ([`SmxManager::poll`]), writes what [`SmxManager::take_write_job`] hands out, and
//! runs [`SmxManager::tick`] over and over, waiting in between as long as it says.
//! Times are nanoseconds on any steady clock.

use vstd::prelude::*;

use crate::config::SmxConfig;
use crate::connection::{
    has_lights, new_command, new_connection, open_connection, poll_buffers, poll_fires, polled,
    queued, without_lights, CommandCallback, Completion, HandleView, HidDeviceInfo, PollHandle,
    SharedView, WriteJob,
};
use crate::device::{
    commanded, config_of, device_closed, device_update_works, device_updated, event_views, info_of,
    input_of, is_connected, with_conn, DeviceView, EventView, SmxDevice, SmxEvent, SmxInfo,
};
use crate::lights::{drawn, state_when_drawn, AnimationState, AnimationStateView, LightsType};
use crate::pad_lights::{
    build_frame_command, frame_command, is_light_data, lights_views, replace_shares,
    replaced_command, without_share, LightsView, PendingLightsCommand,
};
use crate::protocol::{
    add_time, byte_views, copy_bytes, elapsed, packet_bytes, time_after, time_since,
    ANIMATION_PAUSE_DURATION, BYTES_PER_PAD_16, BYTES_PER_PAD_25, CMD_AUTO_LIGHTS,
    CMD_LEGACY_LIGHTS, CMD_PANEL_TEST, CMD_PLATFORM_LIGHTS, CMD_SET_SERIAL, DIGIT_0, DIGIT_1,
    END_OF_LINE, ENUMERATION_INTERVAL, LEGACY_LIGHTS_PAYLOAD_SIZE, LIGHTS_FRAME_INTERVAL,
    LIGHTS_LEGACY_COMMAND_DELAY, PANEL_TEST_REFRESH, PLATFORM_STRIP_LEDS, SMX_USB_PRODUCT_STRING,
    SPACE,
};
use crate::sensor::{SensorTestData, SensorTestMode};
use crate::slots::{pinned, should_swap, wants_swap};

verus! {

/// Longest wait of the main loop while a sensor test is on (milliseconds).
pub const SENSOR_TEST_POLL_WAIT_MS: u64 = 20;

/// Nanoseconds in a millisecond.
pub const NANOS_PER_MS: u64 = 1_000_000;

/// Tests that the pads' panels can run.
#[derive(Clone, Copy, Debug, PartialEq, Eq, Structural)]
pub enum PanelTestMode {
    Off,
    PressureTest,
}

/// The digit that stands for a panel test mode.
pub open spec fn panel_test_digit(mode: PanelTestMode) -> u8 {
    match mode {
        PanelTestMode::Off => DIGIT_0,
        PanelTestMode::PressureTest => DIGIT_1,
    }
}

/// The state of both pads.
pub struct SmxManager {
    /// The pads in the two slots.
    pub devices: Vec<SmxDevice>,
    /// The polling sides of their connections.
    pub poll_handles: Vec<Option<PollHandle>>,
    /// Events to report.
    pub events: Vec<SmxEvent>,
    pub last_enumeration: Option<u64>,
    pub panel_test_mode: PanelTestMode,
    pub last_sent_panel_test_mode: PanelTestMode,
    pub last_panel_test_sent_at: Option<u64>,
    /// Lights commands that wait for their time.
    pub pending_lights: Vec<PendingLightsCommand>,
    /// No new light frame is sent before this time.
    pub delay_lights_until: Option<u64>,
    pub last_input_state: [u16; 2],
    pub always_fire_input: bool,
    /// Devices that could not be opened and have not been unplugged since.
    pub failed_paths: Vec<String>,
    /// Serial numbers pinned to the slots.
    pub player_assignment: [Option<String>; 2],
    pub main_thread_sleep_ms: i32,
    pub usb_polling_sleep_us: i32,
    pub animation: AnimationState,
    pub anim_running: bool,
    pub anim_pause_until: Option<u64>,
}

/// The state of both pads as a value.
#[verifier::ext_equal]
pub ghost struct ManagerView {
    pub devices: Seq<DeviceView>,
    pub poll_handles: Seq<Option<PollHandle>>,
    pub events: Seq<EventView>,
    pub last_enumeration: Option<u64>,
    pub panel_test_mode: PanelTestMode,
    pub last_sent_panel_test_mode: PanelTestMode,
    pub last_panel_test_sent_at: Option<u64>,
    pub pending: Seq<LightsView>,
    pub delay_lights_until: Option<u64>,
    pub last_input: Seq<u16>,
    pub always_fire_input: bool,
    pub failed_paths: Seq<Seq<char>>,
    pub assignment: Seq<Option<Seq<char>>>,
    pub main_thread_sleep_ms: i32,
    pub usb_polling_sleep_us: i32,
    pub animation: AnimationStateView,
    pub anim_running: bool,
    pub anim_pause_until: Option<u64>,
}

/// Pads as values.
pub open spec fn device_views(devices: Seq<SmxDevice>) -> Seq<DeviceView> {
    Seq::new(devices.len(), |i: int| devices[i]@)
}

/// Texts as values.
pub open spec fn text_views(texts: Seq<String>) -> Seq<Seq<char>> {
    Seq::new(texts.len(), |i: int| texts[i]@)
}

impl View for SmxManager {
    type V = ManagerView;

    open spec fn view(&self) -> ManagerView {
        ManagerView {
            devices: device_views(self.devices@),
            poll_handles: self.poll_handles@,
            events: event_views(self.events@),
            last_enumeration: self.last_enumeration,
            panel_test_mode: self.panel_test_mode,
            last_sent_panel_test_mode: self.last_sent_panel_test_mode,
            last_panel_test_sent_at: self.last_panel_test_sent_at,
            pending: lights_views(self.pending_lights@),
            delay_lights_until: self.delay_lights_until,
            last_input: self.last_input_state@,
            always_fire_input: self.always_fire_input,
            failed_paths: text_views(self.failed_paths@),
            assignment: pinned(self.player_assignment@),
            main_thread_sleep_ms: self.main_thread_sleep_ms,
            usb_polling_sleep_us: self.usb_polling_sleep_us,
            animation: self.animation@,
            anim_running: self.anim_running,
            anim_pause_until: self.anim_pause_until,
        }
    }
}

proof fn lemma_device_set(devices: Seq<SmxDevice>, i: int, d: SmxDevice)
    requires
        0 <= i < devices.len(),
    ensures
        device_views(devices.update(i, d)) == device_views(devices).update(i, d@),
{
    assert(device_views(devices.update(i, d)) =~= device_views(devices).update(i, d@));
}

// ─── Commands ────────────────────────────────────────────────────────────────

/// The command that hands the panels back to the firmware's own lighting.
pub open spec fn auto_lights_command() -> Seq<u8> {
    seq![CMD_AUTO_LIGHTS, SPACE, DIGIT_1, END_OF_LINE]
}

/// The command that sets the panel test mode.
pub open spec fn panel_test_command(mode: PanelTestMode) -> Seq<u8> {
    seq![CMD_PANEL_TEST, SPACE, panel_test_digit(mode), END_OF_LINE]
}

/// The command that turns all panel lights off.
pub open spec fn lights_off_command() -> Seq<u8> {
    seq![CMD_LEGACY_LIGHTS] + crate::protocol::zeros(LEGACY_LIGHTS_PAYLOAD_SIZE as int) + seq![
        END_OF_LINE,
    ]
}

/// The command that sets the strip along a pad's edge.
pub open spec fn platform_command(data: Seq<u8>, pad: int) -> Seq<u8> {
    seq![CMD_PLATFORM_LIGHTS, 0u8, PLATFORM_STRIP_LEDS as u8] + data.subrange(
        132 * pad,
        132 * pad + 132,
    )
}

/// One step of the generator that serial numbers come from.
pub open spec fn xorshift(s: u64) -> u64 {
    let a = s ^ (s << 13);
    let b = a ^ (a >> 7);
    b ^ (b << 17)
}

/// The generator after `n` steps.
pub open spec fn generator_state(seed: u64, n: int) -> u64
    decreases n,
{
    if n <= 0 {
        seed
    } else {
        xorshift(generator_state(seed, n - 1))
    }
}

/// The serial number that a seed gives: the low bytes of the generator's states.
pub open spec fn serial_of(seed: u64) -> Seq<u8> {
    Seq::new(16, |i: int| (generator_state(seed, i + 1) % 256) as u8)
}

/// The command that assigns a serial number.
pub open spec fn serial_command(seed: u64) -> Seq<u8> {
    seq![CMD_SET_SERIAL] + serial_of(seed) + seq![END_OF_LINE]
}

/// Makes a serial number.
pub fn generate_serial(seed: u64) -> (serial: [u8; 16])
    ensures
        serial@ == serial_of(seed),
{
    let mut serial: [u8; 16] = [0u8; 16];
    let mut state: u64 = seed;
    let mut i: usize = 0;
    while i < 16
        invariant
            i <= 16,
            state == generator_state(seed, i as int),
            forall|j: int| 0 <= j < i ==> serial@[j] == serial_of(seed)[j],
        decreases 16 - i,
    {
        let a: u64 = state ^ (state << 13);
        let b: u64 = a ^ (a >> 7);
        state = b ^ (b << 17);
        serial[i] = (state % 256) as u8;
        i = i + 1;
    }
    assert(serial@ =~= serial_of(seed));
    serial
}

/// Pads that were all sent a command.
pub open spec fn all_commanded(devices: Seq<DeviceView>, cmd: Seq<u8>) -> Seq<DeviceView> {
    Seq::new(devices.len(), |i: int| commanded(devices[i], cmd))
}

// ─── Slots ───────────────────────────────────────────────────────────────────

/// Both pads exchanged. Each reports itself as the slot that it is in now.
pub open spec fn swapped(m: ManagerView) -> ManagerView {
    ManagerView {
        devices: seq![
            DeviceView { pad_index: 0, ..m.devices[1] },
            DeviceView { pad_index: 1, ..m.devices[0] },
        ],
        poll_handles: seq![m.poll_handles[1], m.poll_handles[0]],
        ..m
    }
}

/// Whether the pads are in the wrong slots.
pub open spec fn is_misordered(m: ManagerView) -> bool {
    wants_swap(m.assignment, info_of(m.devices[0]), info_of(m.devices[1]))
}

/// The pads in the right slots.
pub open spec fn ordered(m: ManagerView) -> ManagerView {
    if is_misordered(m) {
        swapped(m)
    } else {
        m
    }
}

/// The events that tell of a pad that is new in its slot.
pub open spec fn arrival(m: ManagerView, i: int) -> Seq<EventView> {
    seq![
        EventView::Connected { pad: i as usize, info: info_of(m.devices[i]) },
        EventView::ConfigUpdated { pad: i as usize },
    ]
}

/// Listeners told of a pad that is new in its slot, if it is.
pub open spec fn announced(m: ManagerView, i: int, is_new: bool) -> ManagerView {
    if is_new {
        ManagerView { events: m.events + arrival(m, i), ..m }
    } else {
        m
    }
}

/// The pads ordered by newly pinned serial numbers. If that exchanges them,
/// listeners are told of both.
pub open spec fn assigned(m: ManagerView, assignment: Seq<Option<Seq<char>>>) -> ManagerView {
    let m1 = ManagerView { assignment, ..m };
    if is_misordered(m1) {
        let m2 = swapped(m1);
        let m3 = announced(m2, 0, is_connected(m2.devices[0]));
        announced(m3, 1, is_connected(m3.devices[1]))
    } else {
        m1
    }
}

// ─── Lights ──────────────────────────────────────────────────────────────────

/// The firmware version of a pad's configuration.
pub open spec fn version_of(d: DeviceView) -> Option<u8> {
    match config_of(d) {
        Some(c) => Some(c.master_version),
        None => None,
    }
}

/// The versions of both pads.
pub open spec fn versions_of(m: ManagerView) -> Seq<Option<u8>> {
    Seq::new(2, |i: int| version_of(m.devices[i]))
}

/// Whether any pad takes whole light frames at once.
pub open spec fn any_new_firmware(m: ManagerView) -> bool {
    (version_of(m.devices[0]) matches Some(v) && v >= 4) || (version_of(
        m.devices[1],
    ) matches Some(v) && v >= 4)
}

/// When a new light frame may be sent.
pub open spec fn next_frame_time(m: ManagerView, now: u64) -> u64 {
    match m.delay_lights_until {
        Some(t) => if t > now {
            t
        } else {
            now
        },
        None => now,
    }
}

/// When one of the three commands of a new frame is sent: old firmware gets the
/// lower half a little later.
pub open spec fn command_time(m: ManagerView, now: u64, k: int) -> u64 {
    if k == 2 && !any_new_firmware(m) {
        time_after(next_frame_time(m, now), LIGHTS_LEGACY_COMMAND_DELAY)
    } else {
        next_frame_time(m, now)
    }
}

/// A new light frame at the end of those that wait.
pub open spec fn with_frame_appended(m: ManagerView, data: Seq<u8>, selected: Seq<bool>, now: u64) -> ManagerView {
    let v = versions_of(m);
    ManagerView {
        pending: m.pending.push(
            frame_command(data, 0, selected, v, command_time(m, now, 0)),
        ).push(frame_command(data, 1, selected, v, command_time(m, now, 1))).push(
            frame_command(data, 2, selected, v, command_time(m, now, 2)),
        ),
        delay_lights_until: Some(time_after(next_frame_time(m, now), LIGHTS_FRAME_INTERVAL)),
        ..m
    }
}

/// The newest waiting light frame replaced by a newer one.
pub open spec fn with_frame_replaced(m: ManagerView, data: Seq<u8>, selected: Seq<bool>) -> ManagerView {
    let v = versions_of(m);
    let base = m.pending.len() - 3;
    ManagerView {
        pending: m.pending.update(
            base,
            replaced_command(m.pending[base], data, 0, selected, v),
        ).update(
            base + 1,
            replaced_command(m.pending[base + 1], data, 1, selected, v),
        ).update(base + 2, replaced_command(m.pending[base + 2], data, 2, selected, v)),
        ..m
    }
}

/// Light data for both pads, of which the selected ones get their share. Nothing
/// happens while a panel test runs, for data of a wrong size, or for a first frame
/// while no pad's configuration is known. A frame that waits is replaced.
pub open spec fn with_lights(m: ManagerView, data: Seq<u8>, selected: Seq<bool>, now: u64) -> ManagerView {
    if m.panel_test_mode != PanelTestMode::Off || !is_light_data(data) {
        m
    } else if m.pending.len() >= 3 {
        with_frame_replaced(m, data, selected)
    } else if version_of(m.devices[0]) is None && version_of(m.devices[1]) is None {
        m
    } else {
        with_frame_appended(m, data, selected, now)
    }
}

/// Whether a lights command waits on any connection.
pub open spec fn lights_are_queued(m: ManagerView) -> bool {
    (m.devices[0].conn matches Some(h) && has_lights(h.queue)) || (
    m.devices[1].conn matches Some(h) && has_lights(h.queue))
}

/// How many lights commands at the front are due.
pub open spec fn due_count(pending: Seq<LightsView>, now: u64) -> int
    decreases pending.len(),
{
    if pending.len() == 0 || pending[0].send_at > now {
        0
    } else {
        1 + due_count(pending.skip(1), now)
    }
}

/// A pad that was sent a lights command, if it has a connection and the command is
/// not empty.
pub open spec fn lit(d: DeviceView, cmd: Seq<u8>) -> DeviceView {
    match d.conn {
        Some(h) => if cmd.len() > 0 {
            with_conn(d, queued(h, new_command(cmd, None, true)))
        } else {
            d
        },
        None => d,
    }
}

/// A pad that was sent its share of the first `n` waiting lights commands.
pub open spec fn lit_by(d: DeviceView, pending: Seq<LightsView>, pad: int, n: int) -> DeviceView
    decreases n,
{
    if n <= 0 {
        d
    } else {
        lit(lit_by(d, pending, pad, n - 1), pending[n - 1].commands[pad])
    }
}

/// The lights commands sent that are due, unless earlier ones still wait on a
/// connection.
pub open spec fn with_lights_sent(m: ManagerView, now: u64) -> ManagerView {
    if lights_are_queued(m) {
        m
    } else {
        let n = due_count(m.pending, now);
        ManagerView {
            devices: Seq::new(2, |i: int| lit_by(m.devices[i], m.pending, i, n)),
            pending: m.pending.skip(n),
            ..m
        }
    }
}

/// A pad handed back to the firmware's own lighting: lights that wait for it are
/// dropped.
pub open spec fn with_pad_released(m: ManagerView, pad: int) -> ManagerView {
    let d = m.devices[pad];
    ManagerView {
        pending: Seq::new(m.pending.len(), |i: int| without_share(m.pending[i], pad)),
        devices: m.devices.update(
            pad,
            match d.conn {
                Some(h) => commanded(
                    with_conn(
                        d,
                        HandleView { queue: without_lights(h.queue, h.queue.len() as int), ..h },
                    ),
                    auto_lights_command(),
                ),
                None => d,
            },
        ),
        ..m
    }
}

// ─── Panel test ──────────────────────────────────────────────────────────────

/// Whether the panel test mode is to be sent now: it has changed, or it is on and
/// was not sent for a while.
pub open spec fn panel_test_is_due(m: ManagerView, now: u64) -> bool {
    if m.panel_test_mode == m.last_sent_panel_test_mode {
        m.panel_test_mode != PanelTestMode::Off && (m.last_panel_test_sent_at matches Some(t)
            ==> elapsed(now, t) >= PANEL_TEST_REFRESH)
    } else {
        true
    }
}

/// The panel test mode sent, if it is due. When a test begins all lights are turned
/// off first.
pub open spec fn with_panel_test_sent(m: ManagerView, now: u64) -> ManagerView {
    if !panel_test_is_due(m, now) {
        m
    } else {
        let begins = m.last_sent_panel_test_mode == PanelTestMode::Off && m.panel_test_mode
            != PanelTestMode::Off;
        let dark = if begins {
            all_commanded(m.devices, lights_off_command())
        } else {
            m.devices
        };
        ManagerView {
            devices: all_commanded(dark, panel_test_command(m.panel_test_mode)),
            last_panel_test_sent_at: Some(now),
            last_sent_panel_test_mode: m.panel_test_mode,
            ..m
        }
    }
}

// ─── Main loop ───────────────────────────────────────────────────────────────

/// One pad after its part of a pass: updated, and closed if that failed.
pub open spec fn device_pass(d: DeviceView, now: u64) -> DeviceView {
    if device_update_works(d, now) {
        device_updated(d, now)
    } else {
        device_closed(device_updated(d, now))
    }
}

/// The pad in a slot after its part of a pass; its events are passed on.
pub open spec fn slot_pass(m: ManagerView, i: int, now: u64) -> ManagerView {
    let d = device_pass(m.devices[i], now);
    ManagerView {
        devices: m.devices.update(i, DeviceView { events: Seq::empty(), ..d }),
        events: m.events + d.events,
        poll_handles: if device_update_works(m.devices[i], now) {
            m.poll_handles
        } else {
            m.poll_handles.update(i, None)
        },
        ..m
    }
}

/// Whether the pad in a slot is connected now and was not before.
pub open spec fn has_arrived(before: ManagerView, m: ManagerView, was: int, is: int) -> bool {
    !is_connected(before.devices[was]) && is_connected(m.devices[is])
}

/// New pads put into their slots and announced.
pub open spec fn settled(before: ManagerView, m: ManagerView) -> ManagerView {
    let any = has_arrived(before, m, 0, 0) || has_arrived(before, m, 1, 1);
    if any && is_misordered(m) {
        let m1 = swapped(m);
        let m2 = announced(m1, 0, has_arrived(before, m1, 1, 0));
        announced(m2, 1, has_arrived(before, m1, 0, 1))
    } else {
        let m2 = announced(m, 0, has_arrived(before, m, 0, 0));
        announced(m2, 1, has_arrived(before, m, 1, 1))
    }
}

/// The input states of connected pads noted.
pub open spec fn with_input_noted(m: ManagerView) -> ManagerView {
    ManagerView {
        last_input: Seq::new(
            2,
            |i: int|
                if is_connected(m.devices[i]) {
                    input_of(m.devices[i])
                } else {
                    m.last_input[i]
                },
        ),
        ..m
    }
}

/// The state after one pass of the main loop: both pads are looked after, new ones
/// put into their slots, the panel test mode and the lights that are due sent.
pub open spec fn ticked(m: ManagerView, now: u64) -> ManagerView {
    let m1 = slot_pass(slot_pass(m, 0, now), 1, now);
    with_lights_sent(with_panel_test_sent(with_input_noted(settled(m, m1)), now), now)
}

/// Milliseconds until a time, rounded up past it.
pub open spec fn ms_until(now: u64, t: u64) -> u64 {
    (elapsed(t, now) / NANOS_PER_MS + 1) as u64
}

/// The smaller of two waits.
pub open spec fn shorter(a: u64, b: u64) -> u64 {
    if a < b {
        a
    } else {
        b
    }
}

/// A wait cut short for a pad's sensor test, so that the main loop is there when
/// the next request is due.
pub open spec fn wait_for_sensor(wait: u64, d: DeviceView, now: u64) -> u64 {
    if d.mode == SensorTestMode::Off {
        wait
    } else {
        let w = shorter(wait, SENSOR_TEST_POLL_WAIT_MS);
        match d.requested_at {
            Some(t) => if d.waiting_for == SensorTestMode::Off {
                shorter(w, ms_until(now, time_after(t, crate::protocol::SENSOR_TEST_INTERVAL)))
            } else {
                w
            },
            None => w,
        }
    }
}

/// How long the main loop may wait, in milliseconds: its interval, but not past the
/// next lights command or sensor test request.
pub open spec fn wait_of(m: ManagerView, now: u64) -> u64 {
    let interval = if m.main_thread_sleep_ms < 1 {
        1u64
    } else {
        m.main_thread_sleep_ms as u64
    };
    let w = if m.pending.len() > 0 {
        shorter(interval, ms_until(now, m.pending[0].send_at))
    } else {
        interval
    };
    wait_for_sensor(wait_for_sensor(w, m.devices[0], now), m.devices[1], now)
}

// ─── Discovery ───────────────────────────────────────────────────────────────

/// What to do about a device that was found.
#[derive(Clone, Copy, Debug, PartialEq, Eq, Structural)]
pub enum OpenDecision {
    /// Leave it alone.
    Skip,
    /// Leave it and all that follow alone.
    Stop,
    /// Open it for a slot.
    Open(usize),
}

/// Whether a pad's connection is to a path.
pub open spec fn is_open_at(d: DeviceView, path: Seq<char>) -> bool {
    d.conn matches Some(h) && h.path == path
}

/// What to do about a device that was found: it must have a path and be a pad, must
/// not have failed before nor be open, and there must be a free slot.
pub open spec fn decision_of(m: ManagerView, path: Seq<char>, product: Seq<char>) -> OpenDecision {
    if path.len() == 0 || !crate::text::contains_text(product, SMX_USB_PRODUCT_STRING@)
        || m.failed_paths.contains(path) || is_open_at(m.devices[0], path) || is_open_at(
        m.devices[1],
        path,
    ) {
        OpenDecision::Skip
    } else if m.devices[0].conn is None {
        OpenDecision::Open(0)
    } else if m.devices[1].conn is None {
        OpenDecision::Open(1)
    } else {
        OpenDecision::Stop
    }
}

/// The paths of devices.
pub open spec fn paths_of(found: Seq<HidDeviceInfo>) -> Seq<Seq<char>> {
    Seq::new(found.len(), |i: int| found[i].path@)
}

/// The first `n` of a list of paths without those that are not in another.
pub open spec fn still_there(paths: Seq<Seq<char>>, found: Seq<Seq<char>>, n: int) -> Seq<Seq<char>>
    decreases n,
{
    if n <= 0 {
        Seq::empty()
    } else if found.contains(paths[n - 1]) {
        still_there(paths, found, n - 1).push(paths[n - 1])
    } else {
        still_there(paths, found, n - 1)
    }
}

/// A device opened for a slot.
pub open spec fn with_opened(m: ManagerView, slot: int, path: Seq<char>) -> ManagerView {
    let h = new_connection(path);
    ManagerView {
        devices: m.devices.update(
            slot,
            with_conn(
                m.devices[slot],
                if m.always_fire_input {
                    HandleView {
                        shared: SharedView { always_fire_input: true, ..h.shared },
                        ..h
                    }
                } else {
                    h
                },
            ),
        ),
        poll_handles: m.poll_handles.update(slot, Some(PollHandle { has_callback: true })),
        ..m
    }
}

/// What came of opening a device: one that could not be opened for reading has
/// failed; one that could be opened for both gets its slot, if there still is one.
pub open spec fn after_opening(
    m: ManagerView,
    path: Seq<char>,
    product: Seq<char>,
    read_opened: bool,
    write_opened: bool,
) -> ManagerView {
    if !read_opened {
        ManagerView { failed_paths: m.failed_paths.push(path), ..m }
    } else {
        match decision_of(m, path, product) {
            OpenDecision::Open(slot) if write_opened => with_opened(m, slot as int, path),
            _ => m,
        }
    }
}

/// The input events of a pad.
pub open spec fn input_events(pad: usize, fired: Seq<u16>) -> Seq<EventView> {
    Seq::new(fired.len(), |i: int| EventView::InputState { pad, state: fired[i] })
}

/// A slot's connection after a poll of its device.
pub open spec fn with_polled(m: ManagerView, slot: int, reads: Seq<Seq<u8>>, failed: bool) -> ManagerView {
    let d = m.devices[slot];
    match (d.conn, m.poll_handles[slot]) {
        (Some(h), Some(poll)) => ManagerView {
            devices: m.devices.update(
                slot,
                with_conn(
                    d,
                    HandleView {
                        shared: polled(h.shared, reads, failed, poll.has_callback),
                        ..h
                    },
                ),
            ),
            events: m.events + input_events(
                d.pad_index,
                poll_fires(h.shared, reads, poll.has_callback),
            ),
            ..m
        },
        _ => m,
    }
}

/// Whether the main loop is to be woken after a poll: there is data for it, or the
/// connection is broken.
pub open spec fn poll_wakes(m: ManagerView, slot: int, reads: Seq<Seq<u8>>, failed: bool) -> bool {
    match (m.devices[slot].conn, m.poll_handles[slot]) {
        (Some(h), Some(poll)) => poll_buffers(h.shared, reads, failed, poll.has_callback)
            || h.shared.had_read_error || failed,
        _ => false,
    }
}

/// The choice whether every input packet is reported, on all connections.
pub open spec fn with_input_mode(m: ManagerView, always_fire: bool) -> ManagerView {
    ManagerView {
        always_fire_input: always_fire,
        devices: Seq::new(
            2,
            |i: int|
                match m.devices[i].conn {
                    Some(h) => with_conn(
                        m.devices[i],
                        HandleView {
                            shared: SharedView { always_fire_input: always_fire, ..h.shared },
                            ..h
                        },
                    ),
                    None => m.devices[i],
                },
        ),
        ..m
    }
}

// ─── The manager ─────────────────────────────────────────────────────────────

/// A manager that has found nothing yet.
pub open spec fn is_new_manager(m: ManagerView) -> bool {
    &&& m.devices.len() == 2
    &&& forall|i: int|
        0 <= i < 2 ==> crate::device::is_new_device(
            DeviceView { listening: false, ..#[trigger] m.devices[i] },
            i as usize,
        ) && m.devices[i].listening
    &&& m.poll_handles == seq![None::<PollHandle>, None::<PollHandle>]
    &&& m.events.len() == 0
    &&& m.last_enumeration is None
    &&& m.panel_test_mode == PanelTestMode::Off
    &&& m.last_sent_panel_test_mode == PanelTestMode::Off
    &&& m.last_panel_test_sent_at is None
    &&& m.pending.len() == 0
    &&& m.delay_lights_until is None
    &&& m.last_input == seq![0u16, 0u16]
    &&& !m.always_fire_input
    &&& m.failed_paths.len() == 0
    &&& m.assignment == seq![None::<Seq<char>>, None::<Seq<char>>]
    &&& m.main_thread_sleep_ms == 50
    &&& m.usb_polling_sleep_us == 1000
    &&& m.animation.animations == Seq::new(4, |a: int| None::<crate::lights::AnimationView>)
    &&& m.animation.playback == Seq::new(36, |i: int| crate::lights::at_rest())
    &&& !m.anim_running
    &&& m.anim_pause_until is None
}

impl SmxManager {
    /// There are two slots, the pad in each reports itself as that slot and is
    /// listened to, every waiting lights command has a share for each slot, and there
    /// are never many of them.
    pub open spec fn wf(&self) -> bool {
        &&& self.devices@.len() == 2
        &&& self.devices@[0].pad_index == 0 && self.devices@[0].listening
        &&& self.devices@[1].pad_index == 1 && self.devices@[1].listening
        &&& self.poll_handles@.len() == 2
        &&& self.pending_lights@.len() <= 5
        &&& forall|i: int|
            0 <= i < self.pending_lights@.len() ==> (
            #[trigger] self.pending_lights@[i]).pad_command@.len() == 2
        &&& self.animation.wf()
    }

    /// A manager that has found nothing yet.
    pub fn new() -> (m: Self)
        ensures
            m.wf(),
            is_new_manager(m@),
    {
        let mut first = SmxDevice::new(0);
        first.set_update_callback();
        let mut second = SmxDevice::new(1);
        second.set_update_callback();
        let mut devices: Vec<SmxDevice> = Vec::new();
        devices.push(first);
        devices.push(second);
        let mut poll_handles: Vec<Option<PollHandle>> = Vec::new();
        poll_handles.push(None);
        poll_handles.push(None);
        let m = SmxManager {
            devices,
            poll_handles,
            events: Vec::new(),
            last_enumeration: None,
            panel_test_mode: PanelTestMode::Off,
            last_sent_panel_test_mode: PanelTestMode::Off,
            last_panel_test_sent_at: None,
            pending_lights: Vec::new(),
            delay_lights_until: None,
            last_input_state: [0u16, 0u16],
            always_fire_input: false,
            failed_paths: Vec::new(),
            player_assignment: [None, None],
            main_thread_sleep_ms: 50,
            usb_polling_sleep_us: 1000,
            animation: AnimationState::new(),
            anim_running: false,
            anim_pause_until: None,
        };
        assert(m@.poll_handles =~= seq![None::<PollHandle>, None::<PollHandle>]);
        assert(m@.last_input =~= seq![0u16, 0u16]);
        assert(m@.assignment =~= seq![None::<Seq<char>>, None::<Seq<char>>]);
        m
    }

    /// What is known of the pad in a slot.
    pub fn get_info(&self, pad: usize) -> (info: SmxInfo)
        requires
            self.wf(),
        ensures
            info@ == if pad > 1 {
                crate::device::no_info()
            } else {
                info_of(self@.devices[pad as int])
            },
    {
        if pad > 1 {
            return SmxInfo::default();
        }
        self.devices[pad].get_info()
    }

    /// The panel press bitmask of the pad in a slot.
    pub fn get_input_state(&self, pad: usize) -> (state: u16)
        requires
            self.wf(),
        ensures
            state == if pad > 1 {
                0
            } else {
                input_of(self@.devices[pad as int])
            },
    {
        if pad > 1 {
            return 0;
        }
        self.devices[pad].input_state()
    }

    /// The configuration of the pad in a slot.
    pub fn get_config(&self, pad: usize) -> (config: Option<SmxConfig>)
        requires
            self.wf(),
        ensures
            config == if pad > 1 {
                None
            } else {
                config_of(self@.devices[pad as int])
            },
    {
        if pad > 1 {
            return None;
        }
        self.devices[pad].get_config()
    }

    /// Sets the configuration that the pad in a slot shall get.
    pub fn set_config(&mut self, pad: usize, config: SmxConfig)
        requires
            old(self).wf(),
        ensures
            final(self).wf(),
            final(self)@ == if pad <= 1 && is_connected(old(self)@.devices[pad as int]) {
                ManagerView {
                    devices: old(self)@.devices.update(
                        pad as int,
                        DeviceView {
                            wanted_config: config,
                            send_config: true,
                            ..old(self)@.devices[pad as int]
                        },
                    ),
                    ..old(self)@
                }
            } else {
                old(self)@
            },
    {
        if pad > 1 {
            return ;
        }
        self.devices[pad].set_config(config);
        proof {
            lemma_device_set(old(self).devices@, pad as int, self.devices@[pad as int]);
            assert(self.devices@ =~= old(self).devices@.update(
                pad as int,
                self.devices@[pad as int],
            ));
            assert(self@.devices =~= old(self)@.devices.update(
                pad as int,
                self.devices@[pad as int]@,
            ));
            assert(!is_connected(old(self)@.devices[pad as int]) ==> self@.devices
                =~= old(self)@.devices);
        }
    }

    /// Sets how long the main loop and the polling threads sleep.
    pub fn set_polling_rate(&mut self, main_thread_ms: i32, usb_polling_us: i32)
        requires
            old(self).wf(),
        ensures
            final(self).wf(),
            final(self)@ == (ManagerView {
                main_thread_sleep_ms: main_thread_ms,
                usb_polling_sleep_us: usb_polling_us,
                ..old(self)@
            }),
    {
        self.main_thread_sleep_ms = main_thread_ms;
        self.usb_polling_sleep_us = usb_polling_us;
    }

    /// Sets how long the main loop sleeps.
    pub fn set_main_thread_sleep_ms(&mut self, main_thread_ms: i32)
        requires
            old(self).wf(),
        ensures
            final(self).wf(),
            final(self)@ == (ManagerView { main_thread_sleep_ms: main_thread_ms, ..old(self)@ }),
    {
        self.main_thread_sleep_ms = main_thread_ms;
    }

    /// How long a polling thread sleeps, in microseconds: never below 100.
    pub fn usb_sleep_us(&self) -> (us: u64)
        ensures
            us == if self@.usb_polling_sleep_us < 100 {
                100
            } else {
                self@.usb_polling_sleep_us as int
            },
    {
        if self.usb_polling_sleep_us < 100 {
            100
        } else {
            self.usb_polling_sleep_us as u64
        }
    }

    /// Sends a command to all pads that have a connection.
    fn command_all(&mut self, cmd: &[u8])
        requires
            old(self).wf(),
        ensures
            final(self).wf(),
            final(self)@ == (ManagerView {
                devices: all_commanded(old(self)@.devices, cmd@),
                ..old(self)@
            }),
    {
        self.devices[0].send_command(cmd, None);
        self.devices[1].send_command(cmd, None);
        assert(self@.devices =~= all_commanded(old(self)@.devices, cmd@));
    }

    /// Hands all pads back to the firmware's own lighting.
    pub fn reenable_auto_lights(&mut self)
        requires
            old(self).wf(),
        ensures
            final(self).wf(),
            final(self)@ == (ManagerView {
                devices: all_commanded(old(self)@.devices, auto_lights_command()),
                ..old(self)@
            }),
    {
        let cmd: [u8; 4] = [CMD_AUTO_LIGHTS, SPACE, DIGIT_1, END_OF_LINE];
        assert(cmd@ =~= auto_lights_command());
        self.command_all(cmd.as_slice());
    }

    /// Hands one pad back to the firmware's own lighting. Lights that wait for it
    /// are dropped; the other pad's share of them is kept.
    pub fn reenable_auto_lights_for_pad(&mut self, pad: usize)
        requires
            old(self).wf(),
        ensures
            final(self).wf(),
            final(self)@ == if pad > 1 {
                old(self)@
            } else {
                with_pad_released(old(self)@, pad as int)
            },
    {
        if pad > 1 {
            return ;
        }
        let mut i: usize = 0;
        while i < self.pending_lights.len()
            invariant
                i <= self.pending_lights@.len(),
                pad < 2,
                old(self).wf(),
                self.wf(),
                self@ == (ManagerView { pending: self@.pending, ..old(self)@ }),
                self.devices == old(self).devices,
                self.pending_lights@.len() == old(self).pending_lights@.len(),
                forall|j: int|
                    0 <= j < i ==> #[trigger] self.pending_lights@[j]@ == without_share(
                        old(self)@.pending[j],
                        pad as int,
                    ),
                forall|j: int|
                    i <= j < self.pending_lights@.len() ==> #[trigger] self.pending_lights@[j]
                        == old(self).pending_lights@[j],
            decreases self.pending_lights@.len() - i,
        {
            assert(self.pending_lights@[i as int] == old(self).pending_lights@[i as int]);
            let ghost before = self.pending_lights@[i as int]@;
            self.pending_lights[i].pad_command[pad] = Vec::new();
            assert(self.pending_lights@[i as int]@ =~= without_share(before, pad as int)) by {
                assert(self.pending_lights@[i as int]@.commands =~= without_share(
                    before,
                    pad as int,
                ).commands);
            }
            i = i + 1;
        }
        assert(self@.pending =~= with_pad_released(old(self)@, pad as int).pending);
        if let Some(conn) = &mut self.devices[pad].connection {
            conn.drop_queued_lights();
        }
        let cmd: [u8; 4] = [CMD_AUTO_LIGHTS, SPACE, DIGIT_1, END_OF_LINE];
        assert(cmd@ =~= auto_lights_command());
        self.devices[pad].send_command(cmd.as_slice(), None);
        assert(self@.devices =~= with_pad_released(old(self)@, pad as int).devices);
    }

    /// Sets the panel test mode of all pads.
    pub fn set_panel_test_mode(&mut self, mode: PanelTestMode)
        requires
            old(self).wf(),
        ensures
            final(self).wf(),
            final(self)@ == (ManagerView { panel_test_mode: mode, ..old(self)@ }),
    {
        self.panel_test_mode = mode;
    }

    /// Sets whether every input packet is reported.
    pub fn set_input_state_mode(&mut self, always_fire: bool)
        requires
            old(self).wf(),
        ensures
            final(self).wf(),
            final(self)@ == with_input_mode(old(self)@, always_fire),
    {
        self.always_fire_input = always_fire;
        if let Some(conn) = &mut self.devices[0].connection {
            conn.set_always_fire_input(always_fire);
        }
        if let Some(conn) = &mut self.devices[1].connection {
            conn.set_always_fire_input(always_fire);
        }
        assert(self@.devices =~= with_input_mode(old(self)@, always_fire).devices);
    }
}

// ─── Slots ───────────────────────────────────────────────────────────────────

impl SmxManager {
    /// Puts the pads into the right slots. True if they had to be exchanged.
    pub fn correct_device_order(&mut self) -> (r: bool)
        requires
            old(self).wf(),
        ensures
            final(self).wf(),
            r == is_misordered(old(self)@),
            final(self)@ == ordered(old(self)@),
    {
        let info0 = self.devices[0].get_info();
        let info1 = self.devices[1].get_info();
        if !should_swap(&self.player_assignment, &info0, &info1) {
            return false;
        }
        let first = self.devices.swap_remove(0);
        self.devices.push(first);
        let poll = self.poll_handles.swap_remove(0);
        self.poll_handles.push(poll);
        self.devices[0].set_pad_index(0);
        self.devices[1].set_pad_index(1);
        assert(self@.devices =~= swapped(old(self)@).devices);
        assert(self@.poll_handles =~= swapped(old(self)@).poll_handles);
        true
    }

    /// Tells listeners of a pad that is new in its slot.
    fn announce(&mut self, i: usize)
        requires
            old(self).wf(),
            i < 2,
        ensures
            final(self).wf(),
            final(self)@ == announced(old(self)@, i as int, true),
            final(self).devices == old(self).devices,
            final(self).poll_handles == old(self).poll_handles,
    {
        let info = self.devices[i].get_info();
        self.events.push(SmxEvent::Connected { pad: i, info });
        self.events.push(SmxEvent::ConfigUpdated { pad: i });
        assert(self@.events =~= old(self)@.events + arrival(old(self)@, i as int));
    }

    /// Pins serial numbers to the slots, over what the jumpers say, and orders the
    /// pads at once. `None` for both follows the jumpers again.
    pub fn set_player_assignment(&mut self, p1_serial: Option<String>, p2_serial: Option<String>)
        requires
            old(self).wf(),
        ensures
            final(self).wf(),
            final(self)@ == assigned(old(self)@, pinned(seq![p1_serial, p2_serial])),
    {
        self.player_assignment = [p1_serial, p2_serial];
        assert(self@.assignment =~= pinned(seq![p1_serial, p2_serial]));
        if self.correct_device_order() {
            if self.devices[0].is_connected() {
                self.announce(0);
            }
            if self.devices[1].is_connected() {
                self.announce(1);
            }
        }
    }
}

// ─── Single commands ─────────────────────────────────────────────────────────

/// Every connected pad sent a serial number of its own.
pub open spec fn with_serials(m: ManagerView, seeds: Seq<u64>) -> ManagerView {
    ManagerView {
        devices: Seq::new(2, |i: int| commanded(m.devices[i], serial_command(seeds[i]))),
        ..m
    }
}

/// A pad sent its part of the strip colors, if its firmware has strips.
pub open spec fn with_strip(d: DeviceView, data: Seq<u8>, pad: int) -> DeviceView {
    if version_of(d) matches Some(v) && v >= 4 {
        commanded(d, platform_command(data, pad))
    } else {
        d
    }
}

/// The strip colors of both pads sent. Data that is too short is ignored.
pub open spec fn with_platform_lights(m: ManagerView, data: Seq<u8>) -> ManagerView {
    if data.len() < 264 {
        m
    } else {
        ManagerView { devices: Seq::new(2, |i: int| with_strip(m.devices[i], data, i)), ..m }
    }
}

impl SmxManager {
    fn assign_serial(&mut self, i: usize, seed: u64)
        requires
            old(self).wf(),
            i < 2,
        ensures
            final(self).wf(),
            final(self)@ == (ManagerView {
                devices: old(self)@.devices.update(
                    i as int,
                    commanded(old(self)@.devices[i as int], serial_command(seed)),
                ),
                ..old(self)@
            }),
    {
        let serial = generate_serial(seed);
        let mut cmd: Vec<u8> = Vec::new();
        cmd.push(CMD_SET_SERIAL);
        cmd.extend_from_slice(serial.as_slice());
        cmd.push(END_OF_LINE);
        assert(cmd@ =~= serial_command(seed));
        self.devices[i].send_command(cmd.as_slice(), None);
        assert(self@.devices =~= old(self)@.devices.update(
            i as int,
            commanded(old(self)@.devices[i as int], serial_command(seed)),
        ));
    }

    /// Assigns serial numbers to the pads, one made from each seed.
    pub fn set_serial_numbers(&mut self, seeds: [u64; 2])
        requires
            old(self).wf(),
        ensures
            final(self).wf(),
            final(self)@ == with_serials(old(self)@, seeds@),
    {
        self.assign_serial(0, seeds[0]);
        self.assign_serial(1, seeds[1]);
        assert(self@.devices =~= with_serials(old(self)@, seeds@).devices);
    }

    fn light_strip(&mut self, light_data: &[u8], pad: usize)
        requires
            old(self).wf(),
            light_data@.len() >= 264,
            pad < 2,
        ensures
            final(self).wf(),
            final(self)@ == (ManagerView {
                devices: old(self)@.devices.update(
                    pad as int,
                    with_strip(old(self)@.devices[pad as int], light_data@, pad as int),
                ),
                ..old(self)@
            }),
    {
        let has_strip = match self.devices[pad].get_config() {
            Some(config) => config.master_version >= 4,
            None => false,
        };
        if has_strip {
            let mut cmd: Vec<u8> = Vec::new();
            cmd.push(CMD_PLATFORM_LIGHTS);
            cmd.push(0);
            cmd.push(PLATFORM_STRIP_LEDS as u8);
            let colors = crate::protocol::copy_range(light_data, 132 * pad, 132 * pad + 132);
            cmd.extend_from_slice(colors.as_slice());
            assert(cmd@ =~= platform_command(light_data@, pad as int));
            self.devices[pad].send_command(cmd.as_slice(), None);
        }
        assert(self@.devices =~= old(self)@.devices.update(
            pad as int,
            with_strip(old(self)@.devices[pad as int], light_data@, pad as int),
        ));
    }

    /// Sets the colors of the strips along the pads' edges: 44 LEDs of 3 bytes for
    /// each of two pads.
    pub fn set_platform_lights(&mut self, light_data: &[u8])
        requires
            old(self).wf(),
        ensures
            final(self).wf(),
            final(self)@ == with_platform_lights(old(self)@, light_data@),
    {
        if light_data.len() < PLATFORM_STRIP_LEDS * 3 * 2 {
            return ;
        }
        self.light_strip(light_data, 0);
        self.light_strip(light_data, 1);
        assert(self@.devices =~= with_platform_lights(old(self)@, light_data@).devices);
    }

    /// Makes the pad in a slot calibrate itself.
    pub fn force_recalibration(&mut self, pad: usize)
        requires
            old(self).wf(),
        ensures
            final(self).wf(),
            final(self)@ == if pad > 1 {
                old(self)@
            } else {
                ManagerView {
                    devices: old(self)@.devices.update(
                        pad as int,
                        commanded(
                            old(self)@.devices[pad as int],
                            crate::device::recalibrate_command(),
                        ),
                    ),
                    ..old(self)@
                }
            },
    {
        if pad > 1 {
            return ;
        }
        self.devices[pad].force_recalibration();
        assert(self@.devices =~= old(self)@.devices.update(
            pad as int,
            commanded(old(self)@.devices[pad as int], crate::device::recalibrate_command()),
        ));
    }

    /// Resets the pad in a slot to its factory settings.
    pub fn factory_reset(&mut self, pad: usize)
        requires
            old(self).wf(),
        ensures
            final(self).wf(),
            final(self)@ == if pad > 1 {
                old(self)@
            } else {
                with_reset(old(self)@, pad as int)
            },
    {
        if pad > 1 {
            return ;
        }
        self.devices[pad].factory_reset();
        assert(self@.devices =~= with_reset(old(self)@, pad as int).devices);
    }

    /// Sends a raw command to the pad in a slot.
    pub fn send_command(&mut self, pad: usize, cmd: &[u8], callback: Option<CommandCallback>)
        requires
            old(self).wf(),
        ensures
            final(self).wf(),
            final(self)@ == if pad > 1 || old(self)@.devices[pad as int].conn is None {
                old(self)@
            } else {
                ManagerView {
                    devices: old(self)@.devices.update(
                        pad as int,
                        with_conn(
                            old(self)@.devices[pad as int],
                            queued(
                                old(self)@.devices[pad as int].conn->0,
                                new_command(cmd@, callback, false),
                            ),
                        ),
                    ),
                    ..old(self)@
                }
            },
    {
        if pad > 1 {
            return ;
        }
        self.devices[pad].send_command(cmd, callback);
        proof {
            if old(self)@.devices[pad as int].conn is None {
                assert(self@.devices =~= old(self)@.devices);
            } else {
                assert(self@.devices =~= old(self)@.devices.update(
                    pad as int,
                    self.devices@[pad as int]@,
                ));
            }
        }
    }

    /// Sets what the sensor test of the pad in a slot reports.
    pub fn set_test_mode(&mut self, pad: usize, mode: SensorTestMode)
        requires
            old(self).wf(),
        ensures
            final(self).wf(),
            final(self)@ == if pad > 1 {
                old(self)@
            } else {
                ManagerView {
                    devices: old(self)@.devices.update(
                        pad as int,
                        DeviceView { mode, ..old(self)@.devices[pad as int] },
                    ),
                    ..old(self)@
                }
            },
    {
        if pad > 1 {
            return ;
        }
        self.devices[pad].set_sensor_test_mode(mode);
        assert(self@.devices =~= old(self)@.devices.update(
            pad as int,
            DeviceView { mode, ..old(self)@.devices[pad as int] },
        ));
    }

    /// The latest sensor test data of the pad in a slot.
    pub fn get_test_data(&self, pad: usize) -> (data: Option<SensorTestData>)
        requires
            self.wf(),
        ensures
            data == if pad <= 1 && self@.devices[pad as int].have_sensor_data {
                Some(self@.devices[pad as int].sensor_data)
            } else {
                None
            },
    {
        if pad > 1 {
            return None;
        }
        self.devices[pad].get_test_data()
    }
}

/// The pad in a slot reset to its factory settings, once its info is known, and
/// asked for its configuration.
pub open spec fn with_reset(m: ManagerView, pad: int) -> ManagerView {
    let d = m.devices[pad];
    match d.conn {
        Some(h) => if h.got_info {
            ManagerView {
                devices: m.devices.update(
                    pad,
                    commanded(
                        commanded(d, crate::device::reset_command()),
                        crate::device::config_request(h.info.firmware_version),
                    ),
                ),
                ..m
            }
        } else {
            m
        },
        None => m,
    }
}

// ─── Lights ──────────────────────────────────────────────────────────────────

impl SmxManager {
    /// Sets the panel lights of all pads.
    pub fn set_lights(&mut self, light_data: &[u8], now: u64)
        requires
            old(self).wf(),
        ensures
            final(self).wf(),
            final(self)@ == with_lights(
                with_animation_paused(old(self)@, now),
                light_data@,
                seq![true, true],
                now,
            ),
    {
        let all: [bool; 2] = [true, true];
        assert(all@ =~= seq![true, true]);
        self.set_lights_for_pads(light_data, all, now);
    }

    /// Sets the panel lights of the selected pads. The data is for both pads
    /// either way; a pad that is not selected gets no lights command.
    pub fn set_lights_for_pads(&mut self, light_data: &[u8], pads: [bool; 2], now: u64)
        requires
            old(self).wf(),
        ensures
            final(self).wf(),
            final(self)@ == with_lights(
                with_animation_paused(old(self)@, now),
                light_data@,
                pads@,
                now,
            ),
    {
        if self.anim_running {
            self.anim_pause_until = Some(add_time(now, ANIMATION_PAUSE_DURATION));
        }
        assert(self@ =~= with_animation_paused(old(self)@, now));
        self.set_lights_inner(light_data, pads, now);
    }

    fn versions(&self) -> (v: [Option<u8>; 2])
        requires
            self.wf(),
        ensures
            v@ == versions_of(self@),
    {
        let mut v: [Option<u8>; 2] = [None, None];
        if let Some(config) = self.devices[0].get_config() {
            v[0] = Some(config.master_version);
        }
        if let Some(config) = self.devices[1].get_config() {
            v[1] = Some(config.master_version);
        }
        assert(v@ =~= versions_of(self@));
        v
    }

    /// Turns light data into a frame of lights commands, which waits for its time
    /// or replaces the newest one that does.
    pub fn set_lights_inner(&mut self, light_data: &[u8], pads: [bool; 2], now: u64)
        requires
            old(self).wf(),
        ensures
            final(self).wf(),
            final(self)@ == with_lights(old(self)@, light_data@, pads@, now),
    {
        if self.panel_test_mode != PanelTestMode::Off {
            return ;
        }
        if light_data.len() != 2 * BYTES_PER_PAD_16 && light_data.len() != 2 * BYTES_PER_PAD_25 {
            return ;
        }
        if self.pending_lights.len() < 3 {
            self.append_frame(light_data, pads, now);
        } else {
            self.replace_frame(light_data, pads);
        }
    }

    fn append_frame(&mut self, light_data: &[u8], pads: [bool; 2], now: u64)
        requires
            old(self).wf(),
            is_light_data(light_data@),
            old(self).pending_lights@.len() < 3,
        ensures
            final(self).wf(),
            final(self)@ == if version_of(old(self)@.devices[0]) is None && version_of(
                old(self)@.devices[1],
            ) is None {
                old(self)@
            } else {
                with_frame_appended(old(self)@, light_data@, pads@, now)
            },
    {
        let versions = self.versions();
        let ghost v = versions@;
        assert(v[0] == version_of(self@.devices[0]));
        assert(v[1] == version_of(self@.devices[1]));
        if versions[0].is_none() && versions[1].is_none() {
            return ;
        }
        let send_at: u64 = match self.delay_lights_until {
            Some(t) => if t > now {
                t
            } else {
                now
            },
            None => now,
        };
        let is_v4 = match versions[0] {
            Some(version) => version >= 4,
            None => false,
        } || match versions[1] {
            Some(version) => version >= 4,
            None => false,
        };
        let last_at: u64 = if is_v4 {
            send_at
        } else {
            add_time(send_at, LIGHTS_LEGACY_COMMAND_DELAY)
        };
        self.delay_lights_until = Some(add_time(send_at, LIGHTS_FRAME_INTERVAL));
        self.push_lights(build_frame_command(light_data, 0, pads, versions, send_at));
        self.push_lights(build_frame_command(light_data, 1, pads, versions, send_at));
        self.push_lights(build_frame_command(light_data, 2, pads, versions, last_at));
        assert(self@ =~= with_frame_appended(old(self)@, light_data@, pads@, now));
    }

    fn push_lights(&mut self, cmd: PendingLightsCommand)
        requires
            old(self).wf(),
            old(self).pending_lights@.len() < 5,
            cmd@.commands.len() == 2,
        ensures
            final(self).wf(),
            final(self)@ == (ManagerView {
                pending: old(self)@.pending.push(cmd@),
                ..old(self)@
            }),
            final(self).pending_lights@.len() == old(self).pending_lights@.len() + 1,
    {
        self.pending_lights.push(cmd);
        assert(self@.pending =~= old(self)@.pending.push(cmd@));
    }

    fn replace_frame(&mut self, light_data: &[u8], pads: [bool; 2])
        requires
            old(self).wf(),
            is_light_data(light_data@),
            old(self).pending_lights@.len() >= 3,
        ensures
            final(self).wf(),
            final(self)@ == with_frame_replaced(old(self)@, light_data@, pads@),
    {
        let versions = self.versions();
        let base: usize = self.pending_lights.len() - 3;
        let first = replace_shares(&self.pending_lights[base], light_data, 0, pads, versions);
        let second = replace_shares(&self.pending_lights[base + 1], light_data, 1, pads, versions);
        let third = replace_shares(&self.pending_lights[base + 2], light_data, 2, pads, versions);
        self.pending_lights[base] = first;
        self.pending_lights[base + 1] = second;
        self.pending_lights[base + 2] = third;
        assert(self@.pending =~= with_frame_replaced(old(self)@, light_data@, pads@).pending);
    }

    fn lights_waiting(&self) -> (r: bool)
        requires
            self.wf(),
        ensures
            r == lights_are_queued(self@),
    {
        (match &self.devices[0].connection {
            Some(conn) => conn.has_unsent_lights(),
            None => false,
        }) || (match &self.devices[1].connection {
            Some(conn) => conn.has_unsent_lights(),
            None => false,
        })
    }

    /// Sends a pad its share of a lights command.
    fn send_share(&mut self, i: usize, pad: usize)
        requires
            old(self).wf(),
            i < old(self).pending_lights@.len(),
            pad < 2,
        ensures
            final(self).wf(),
            final(self)@ == (ManagerView {
                devices: old(self)@.devices.update(
                    pad as int,
                    lit(
                        old(self)@.devices[pad as int],
                        old(self)@.pending[i as int].commands[pad as int],
                    ),
                ),
                ..old(self)@
            }),
            final(self).pending_lights == old(self).pending_lights,
    {
        let cmd = copy_bytes(&self.pending_lights[i].pad_command[pad]);
        assert(cmd@ == self@.pending[i as int].commands[pad as int]);
        if cmd.len() > 0 {
            self.devices[pad].send_lights(cmd.as_slice());
        }
        assert(self@.devices =~= old(self)@.devices.update(
            pad as int,
            lit(
                old(self)@.devices[pad as int],
                old(self)@.pending[i as int].commands[pad as int],
            ),
        ));
    }

    /// Sends the lights commands that are due, unless earlier ones still wait on a
    /// connection.
    pub fn send_pending_lights(&mut self, now: u64)
        requires
            old(self).wf(),
        ensures
            final(self).wf(),
            final(self)@ == with_lights_sent(old(self)@, now),
    {
        if self.lights_waiting() {
            return ;
        }
        let ghost m = self@;
        let ghost all = self.pending_lights@;
        let mut consumed: usize = 0;
        assert(m.pending.skip(0) =~= m.pending);
        while consumed < self.pending_lights.len() && self.pending_lights[consumed].send_at <= now
            invariant
                consumed <= self.pending_lights@.len(),
                self.pending_lights@ == all,
                m.pending == lights_views(all),
                m.devices.len() == 2,
                self.wf(),
                due_count(m.pending, now) == consumed + due_count(
                    m.pending.skip(consumed as int),
                    now,
                ),
                self@ == (ManagerView { devices: self@.devices, ..m }),
                self@.devices.len() == 2,
                self@.devices[0] == lit_by(m.devices[0], m.pending, 0, consumed as int),
                self@.devices[1] == lit_by(m.devices[1], m.pending, 1, consumed as int),
            decreases self.pending_lights@.len() - consumed,
        {
            let ghost left = m.pending.skip(consumed as int);
            assert(left[0] == m.pending[consumed as int]);
            assert(left.skip(1) =~= m.pending.skip(consumed + 1));
            self.send_share(consumed, 0);
            self.send_share(consumed, 1);
            consumed = consumed + 1;
        }
        proof {
            let left = m.pending.skip(consumed as int);
            if left.len() > 0 {
                assert(left[0] == m.pending[consumed as int]);
            }
            assert(due_count(left, now) == 0);
        }
        let mut rest = self.pending_lights.split_off(consumed);
        std::mem::swap(&mut self.pending_lights, &mut rest);
        assert(self@.pending =~= m.pending.skip(consumed as int));
        assert(self@.devices =~= with_lights_sent(m, now).devices);
    }
}

/// A manual light command pauses the animation for a moment, if it runs.
pub open spec fn with_animation_paused(m: ManagerView, now: u64) -> ManagerView {
    if m.anim_running {
        ManagerView {
            anim_pause_until: Some(time_after(now, ANIMATION_PAUSE_DURATION)),
            ..m
        }
    } else {
        m
    }
}

// ─── Animation ───────────────────────────────────────────────────────────────

/// Whether the automatic animation pauses.
pub open spec fn is_paused(m: ManagerView, now: u64) -> bool {
    m.anim_pause_until matches Some(t) && now < t
}

/// The input states of both pads.
pub open spec fn inputs_of(m: ManagerView) -> Seq<u16> {
    seq![input_of(m.devices[0]), input_of(m.devices[1])]
}

/// Whether a frame of the automatic animation is drawn now: it does not pause and
/// there is a pad to show it.
pub open spec fn draws_now(m: ManagerView, now: u64) -> bool {
    !is_paused(m, now) && (is_connected(m.devices[0]) || is_connected(m.devices[1]))
}

/// A frame of the automatic animation drawn and set as lights of both pads, and the
/// animation moved on by one display frame.
pub open spec fn with_frame_drawn(m: ManagerView, now: u64) -> ManagerView {
    if draws_now(m, now) {
        with_lights(
            ManagerView { animation: state_when_drawn(m.animation, inputs_of(m)), ..m },
            drawn(m.animation, inputs_of(m)),
            seq![true, true],
            now,
        )
    } else {
        m
    }
}

impl SmxManager {
    /// Loads a GIF as an animation of a pad.
    pub fn load_animation(&mut self, gif_data: &[u8], pad: usize, lights_type: LightsType) -> (r: Result<
        (),
        &'static str,
    >)
        requires
            old(self).wf(),
        ensures
            final(self).wf(),
            final(self)@ == (ManagerView { animation: final(self)@.animation, ..old(self)@ }),
            r is Err ==> final(self)@ == old(self)@,
            pad > 1 ==> r is Err && r->Err_0@ == "Invalid pad index."@,
            pad <= 1 ==> match crate::gif::decoded_frames(
                crate::gif::gif_items(gif_data@, gif_data@.len()),
            ) {
                Err(e) => r is Err && r->Err_0@ == e,
                Ok(frames) => match crate::lights::load_error(frames) {
                    Some(e) => r is Err && r->Err_0@ == e,
                    None => r is Ok && final(self)@.animation == crate::lights::with_animation(
                        old(self)@.animation,
                        crate::lights::slot_of(pad as int, lights_type),
                        crate::lights::animation_of(frames),
                    ),
                },
            },
    {
        self.animation.load(gif_data, pad, lights_type)
    }

    /// Turns the automatic animation on or off. True if that changes anything.
    pub fn set_animation_auto(&mut self, enable: bool) -> (changed: bool)
        requires
            old(self).wf(),
        ensures
            final(self).wf(),
            final(self)@ == (ManagerView { anim_running: enable, ..old(self)@ }),
            changed == (enable != old(self)@.anim_running),
    {
        let changed = self.anim_running != enable;
        self.anim_running = enable;
        changed
    }

    /// Draws a frame of the automatic animation, moves the animation on and sets the
    /// frame as lights. True unless the animation pauses or there is no pad to show
    /// it.
    pub fn animate(&mut self, now: u64) -> (r: bool)
        requires
            old(self).wf(),
        ensures
            final(self).wf(),
            r == draws_now(old(self)@, now),
            final(self)@ == with_frame_drawn(old(self)@, now),
    {
        if let Some(until) = self.anim_pause_until {
            if now < until {
                return false;
            }
        }
        if !self.devices[0].is_connected() && !self.devices[1].is_connected() {
            return false;
        }
        let inputs: [u16; 2] = [self.devices[0].input_state(), self.devices[1].input_state()];
        assert(inputs@ =~= inputs_of(self@));
        let frame = self.animation.build_frame(inputs);
        let all: [bool; 2] = [true, true];
        assert(all@ =~= seq![true, true]);
        self.set_lights_inner(frame.as_slice(), all, now);
        true
    }

    // ─── Panel test ──────────────────────────────────────────────────────────

    /// Sends the panel test mode, if it is due.
    pub fn update_panel_test_mode(&mut self, now: u64)
        requires
            old(self).wf(),
        ensures
            final(self).wf(),
            final(self)@ == with_panel_test_sent(old(self)@, now),
    {
        let mode = self.panel_test_mode;
        let last = self.last_sent_panel_test_mode;
        if mode == last {
            if mode == PanelTestMode::Off {
                return ;
            }
            if let Some(at) = self.last_panel_test_sent_at {
                if time_since(now, at) < PANEL_TEST_REFRESH {
                    return ;
                }
            }
        }
        if last == PanelTestMode::Off && mode != PanelTestMode::Off {
            let mut dark: Vec<u8> = Vec::new();
            dark.push(CMD_LEGACY_LIGHTS);
            dark.resize(1 + LEGACY_LIGHTS_PAYLOAD_SIZE, 0);
            dark.push(END_OF_LINE);
            assert(dark@ =~= lights_off_command());
            self.command_all(dark.as_slice());
        }
        self.last_panel_test_sent_at = Some(now);
        self.last_sent_panel_test_mode = mode;
        let digit: u8 = match mode {
            PanelTestMode::Off => DIGIT_0,
            PanelTestMode::PressureTest => DIGIT_1,
        };
        let cmd: [u8; 4] = [CMD_PANEL_TEST, SPACE, digit, END_OF_LINE];
        assert(cmd@ =~= panel_test_command(mode));
        self.command_all(cmd.as_slice());
    }

    // ─── Main loop ───────────────────────────────────────────────────────────

    /// Looks after the pad in a slot.
    #[verifier::spinoff_prover]
    #[verifier::rlimit(40)]
    fn update_device(&mut self, i: usize, now: u64)
        requires
            old(self).wf(),
            i < 2,
        ensures
            final(self).wf(),
            final(self)@ == slot_pass(old(self)@, i as int, now),
    {
        proof {
            crate::device::lemma_pass_keeps_the_slot(self@.devices[i as int], now);
        }
        let works = match self.devices[i].update(now) {
            Ok(()) => true,
            Err(_) => false,
        };
        if !works {
            self.devices[i].close();
            self.poll_handles[i] = None;
        }
        let ghost d = self.devices@[i as int]@;
        let mut events = self.devices[i].take_events();
        let ghost added = events@;
        let ghost before = self.events@;
        self.events.append(&mut events);
        assert(event_views(self.events@) =~= event_views(before) + event_views(added));
        assert(self@.devices =~= slot_pass(old(self)@, i as int, now).devices);
    }

    /// Puts new pads into their slots and tells listeners of them.
    fn settle(&mut self, was_connected: [bool; 2], Ghost(before): Ghost<ManagerView>)
        requires
            old(self).wf(),
            was_connected@[0] == is_connected(before.devices[0]),
            was_connected@[1] == is_connected(before.devices[1]),
        ensures
            final(self).wf(),
            final(self)@ == settled(before, old(self)@),
    {
        let any = (!was_connected[0] && self.devices[0].is_connected()) || (!was_connected[1]
            && self.devices[1].is_connected());
        let swap = any && self.correct_device_order();
        let (was0, was1) = if swap {
            (was_connected[1], was_connected[0])
        } else {
            (was_connected[0], was_connected[1])
        };
        let new0 = !was0 && self.devices[0].is_connected();
        let new1 = !was1 && self.devices[1].is_connected();
        if new0 {
            self.announce(0);
        }
        if new1 {
            self.announce(1);
        }
    }

    /// Notes the input states of connected pads.
    fn note_input(&mut self)
        requires
            old(self).wf(),
        ensures
            final(self).wf(),
            final(self)@ == with_input_noted(old(self)@),
    {
        if self.devices[0].is_connected() {
            self.last_input_state[0] = self.devices[0].input_state();
        }
        if self.devices[1].is_connected() {
            self.last_input_state[1] = self.devices[1].input_state();
        }
        assert(self@.last_input =~= with_input_noted(old(self)@).last_input);
    }

    /// One pass of the main loop. Returns how long to wait before the next one, in
    /// milliseconds.
    #[verifier::spinoff_prover]
    #[verifier::rlimit(40)]
    pub fn tick(&mut self, now: u64) -> (wait_ms: u64)
        requires
            old(self).wf(),
        ensures
            final(self).wf(),
            final(self)@ == ticked(old(self)@, now),
            wait_ms == wait_of(final(self)@, now),
    {
        let was_connected: [bool; 2] = [
            self.devices[0].is_connected(),
            self.devices[1].is_connected(),
        ];
        let ghost before = self@;
        self.update_device(0, now);
        self.update_device(1, now);
        self.settle(was_connected, Ghost(before));
        self.note_input();
        self.update_panel_test_mode(now);
        self.send_pending_lights(now);
        self.wait_ms(now)
    }

    fn sensor_wait(wait: u64, device: &SmxDevice, now: u64) -> (r: u64)
        ensures
            r == wait_for_sensor(wait, device@, now),
    {
        if !device.is_sensor_test_active() {
            return wait;
        }
        let mut w: u64 = if wait < SENSOR_TEST_POLL_WAIT_MS {
            wait
        } else {
            SENSOR_TEST_POLL_WAIT_MS
        };
        if device.waiting_for_sensor_response == SensorTestMode::Off
            && device.sensor_request_sent_at.is_some() {
            if let Some(due) = device.next_sensor_request() {
                let ms: u64 = time_since(due, now) / NANOS_PER_MS + 1;
                if ms < w {
                    w = ms;
                }
            }
        }
        w
    }

    /// How long the main loop may wait, in milliseconds.
    pub fn wait_ms(&self, now: u64) -> (wait: u64)
        requires
            self.wf(),
        ensures
            wait == wait_of(self@, now),
    {
        let mut wait: u64 = if self.main_thread_sleep_ms < 1 {
            1
        } else {
            self.main_thread_sleep_ms as u64
        };
        if self.pending_lights.len() > 0 {
            assert(self@.pending[0] == self.pending_lights@[0]@);
            let ms: u64 = time_since(self.pending_lights[0].send_at, now) / NANOS_PER_MS + 1;
            if ms < wait {
                wait = ms;
            }
        }
        let wait = Self::sensor_wait(wait, &self.devices[0], now);
        Self::sensor_wait(wait, &self.devices[1], now)
    }

    /// Hands out the events to report.
    pub fn take_events(&mut self) -> (events: Vec<SmxEvent>)
        requires
            old(self).wf(),
        ensures
            final(self).wf(),
            event_views(events@) == old(self)@.events,
            final(self)@ == (ManagerView { events: Seq::empty(), ..old(self)@ }),
    {
        let mut events: Vec<SmxEvent> = Vec::new();
        std::mem::swap(&mut events, &mut self.events);
        assert(self@.events =~= Seq::empty());
        events
    }

    /// Hands out the command responses of a slot to report.
    pub fn take_completions(&mut self, pad: usize) -> (c: Vec<Completion>)
        requires
            old(self).wf(),
            pad < 2,
        ensures
            final(self).wf(),
            crate::connection::completion_views(c@) == answers_of(old(self)@.devices[pad as int]),
            final(self)@ == (ManagerView {
                devices: old(self)@.devices.update(
                    pad as int,
                    without_answers(old(self)@.devices[pad as int]),
                ),
                ..old(self)@
            }),
    {
        let c = self.devices[pad].take_completions();
        assert(self@.devices =~= old(self)@.devices.update(
            pad as int,
            without_answers(old(self)@.devices[pad as int]),
        ));
        c
    }

    // ─── Discovery ───────────────────────────────────────────────────────────

    /// Whether to look for devices now: there is a free slot, and the last look was
    /// a second ago.
    pub fn wants_enumeration(&self, now: u64) -> (r: bool)
        requires
            self.wf(),
        ensures
            r == ((self@.devices[0].conn is None || self@.devices[1].conn is None) && (
            self@.last_enumeration matches Some(t) ==> elapsed(now, t) >= ENUMERATION_INTERVAL)),
            r <==> (self@.devices[0].conn is None || self@.devices[1].conn is None) && (
            self@.last_enumeration matches Some(t) ==> now - t >= 1_000_000_000),
    {
        if self.devices[0].has_connection() && self.devices[1].has_connection() {
            return false;
        }
        match self.last_enumeration {
            Some(last) => time_since(now, last) >= ENUMERATION_INTERVAL,
            None => true,
        }
    }

    /// Notes what a look for devices has found. A device that could not be opened
    /// and is gone may be tried again when it comes back.
    pub fn begin_discovery(&mut self, found: &Vec<HidDeviceInfo>, now: u64)
        requires
            old(self).wf(),
        ensures
            final(self).wf(),
            final(self)@ == (ManagerView {
                last_enumeration: Some(now),
                failed_paths: still_there(
                    old(self)@.failed_paths,
                    paths_of(found@),
                    old(self)@.failed_paths.len() as int,
                ),
                ..old(self)@
            }),
    {
        self.last_enumeration = Some(now);
        let ghost paths = self@.failed_paths;
        let mut kept: Vec<String> = Vec::new();
        let mut i: usize = 0;
        assert(text_views(kept@) =~= still_there(paths, paths_of(found@), 0));
        while i < self.failed_paths.len()
            invariant
                i <= self.failed_paths@.len(),
                paths == text_views(self.failed_paths@),
                text_views(kept@) == still_there(paths, paths_of(found@), i as int),
            decreases self.failed_paths@.len() - i,
        {
            let ghost before = kept@;
            if Self::is_among(&self.failed_paths[i], found) {
                let path = self.failed_paths[i].clone();
                kept.push(path);
                assert(text_views(kept@) =~= text_views(before).push(paths[i as int]));
            }
            i = i + 1;
        }
        self.failed_paths = kept;
    }

    fn is_among(path: &String, found: &Vec<HidDeviceInfo>) -> (r: bool)
        ensures
            r == paths_of(found@).contains(path@),
    {
        let mut i: usize = 0;
        while i < found.len()
            invariant
                i <= found@.len(),
                forall|j: int| 0 <= j < i ==> #[trigger] paths_of(found@)[j] != path@,
            decreases found@.len() - i,
        {
            assert(paths_of(found@)[i as int] == found@[i as int].path@);
            if found[i].path == *path {
                return true;
            }
            i = i + 1;
        }
        false
    }

    fn has_failed(&self, path: &String) -> (r: bool)
        ensures
            r == self@.failed_paths.contains(path@),
    {
        let mut i: usize = 0;
        while i < self.failed_paths.len()
            invariant
                i <= self.failed_paths@.len(),
                forall|j: int| 0 <= j < i ==> #[trigger] self@.failed_paths[j] != path@,
            decreases self.failed_paths@.len() - i,
        {
            assert(self@.failed_paths[i as int] == self.failed_paths@[i as int]@);
            if self.failed_paths[i] == *path {
                return true;
            }
            i = i + 1;
        }
        false
    }

    fn is_open(device: &SmxDevice, path: &String) -> (r: bool)
        ensures
            r == is_open_at(device@, path@),
    {
        match &device.connection {
            Some(conn) => conn.path == *path,
            None => false,
        }
    }

    /// What to do about a device that was found.
    pub fn open_decision(&self, info: &HidDeviceInfo) -> (r: OpenDecision)
        requires
            self.wf(),
        ensures
            r == decision_of(self@, info.path@, info.product@),
    {
        if info.path.as_str().unicode_len() == 0 {
            return OpenDecision::Skip;
        }
        if !crate::text::contains(info.product.as_str(), SMX_USB_PRODUCT_STRING) {
            return OpenDecision::Skip;
        }
        if self.has_failed(&info.path) {
            return OpenDecision::Skip;
        }
        if Self::is_open(&self.devices[0], &info.path) || Self::is_open(
            &self.devices[1],
            &info.path,
        ) {
            return OpenDecision::Skip;
        }
        if !self.devices[0].has_connection() {
            OpenDecision::Open(0)
        } else if !self.devices[1].has_connection() {
            OpenDecision::Open(1)
        } else {
            OpenDecision::Stop
        }
    }

    /// Notes what came of opening a device for reading and then for writing, and tells
    /// which slot it has got. A device that cannot be opened for reading is left alone
    /// until it has been unplugged; that it cannot be opened for writing may pass, so
    /// the next look for devices tries again.
    pub fn open_finished(&mut self, info: &HidDeviceInfo, read_opened: bool, write_opened: bool) -> (slot: Option<
        usize,
    >)
        requires
            old(self).wf(),
        ensures
            final(self).wf(),
            final(self)@ == after_opening(
                old(self)@,
                info.path@,
                info.product@,
                read_opened,
                write_opened,
            ),
            slot == match decision_of(old(self)@, info.path@, info.product@) {
                OpenDecision::Open(i) if read_opened && write_opened => Some(i),
                _ => None,
            },
    {
        if !read_opened {
            let path = info.path.clone();
            self.failed_paths.push(path);
            assert(self@.failed_paths =~= old(self)@.failed_paths.push(info.path@));
            return None;
        }
        if !write_opened {
            return None;
        }
        match self.open_decision(info) {
            OpenDecision::Open(i) => {
                self.connection_opened(i, info.path.clone());
                Some(i)
            },
            _ => None,
        }
    }

    /// Puts a device that was opened for reading and for writing into a slot.
    fn connection_opened(&mut self, slot: usize, path: String)
        requires
            old(self).wf(),
            slot < 2,
        ensures
            final(self).wf(),
            final(self)@ == with_opened(old(self)@, slot as int, path@),
    {
        let (poll, mut conn) = open_connection(path, true);
        if self.always_fire_input {
            conn.set_always_fire_input(true);
        }
        self.devices[slot].set_connection(conn);
        self.poll_handles[slot] = Some(poll);
        assert(self@.devices =~= with_opened(old(self)@, slot as int, path@).devices);
        assert(self@.poll_handles =~= with_opened(old(self)@, slot as int, path@).poll_handles);
    }

    /// The slot whose connection is to a path.
    pub fn slot_for_path(&self, path: &String) -> (slot: Option<usize>)
        requires
            self.wf(),
        ensures
            slot == if is_open_at(self@.devices[0], path@) {
                Some(0usize)
            } else if is_open_at(self@.devices[1], path@) {
                Some(1usize)
            } else {
                None
            },
    {
        if Self::is_open(&self.devices[0], path) {
            Some(0)
        } else if Self::is_open(&self.devices[1], path) {
            Some(1)
        } else {
            None
        }
    }

    /// Takes in what the polling thread of a slot has read. True if the main loop
    /// is to be woken.
    pub fn poll(&mut self, slot: usize, reads: &Vec<Vec<u8>>, failed: bool) -> (wake: bool)
        requires
            old(self).wf(),
            slot < 2,
        ensures
            final(self).wf(),
            final(self)@ == with_polled(old(self)@, slot as int, byte_views(reads@), failed),
            wake == poll_wakes(old(self)@, slot as int, byte_views(reads@), failed),
    {
        let pad: usize = self.devices[slot].pad_index;
        let mut fired: Vec<u16> = Vec::new();
        let mut wake = false;
        if let Some(conn) = &mut self.devices[slot].connection {
            if let Some(poll) = &self.poll_handles[slot] {
                let r = poll.poll(&mut conn.shared, reads, failed);
                wake = r.buffered || conn.shared.had_read_error;
                fired = r.fired;
            }
        }
        let ghost want = with_polled(old(self)@, slot as int, byte_views(reads@), failed);
        assert(self@.devices =~= want.devices);
        let ghost events = input_events(pad, fired@);
        assert(self@ == (ManagerView { events: old(self)@.events, ..want }));
        let mut i: usize = 0;
        assert(self@.events =~= old(self)@.events + events.take(0));
        while i < fired.len()
            invariant
                i <= fired@.len(),
                self.wf(),
                events == input_events(pad, fired@),
                self@ == (ManagerView {
                    events: old(self)@.events + events.take(i as int),
                    ..want
                }),
            decreases fired@.len() - i,
        {
            let ghost before = self@.events;
            self.events.push(SmxEvent::InputState { pad, state: fired[i] });
            assert(self@.events =~= before.push(events[i as int]));
            i = i + 1;
            assert(self@.events =~= old(self)@.events + events.take(i as int));
        }
        assert(events.take(i as int) =~= events);
        assert(self@.events =~= want.events);
        wake
    }

    /// Takes the next command's packets for the writer of a slot.
    pub fn take_write_job(&mut self, slot: usize) -> (job: Option<WriteJob>)
        requires
            old(self).wf(),
            slot < 2,
        ensures
            final(self).wf(),
            match job {
                Some(p) => old(self)@.devices[slot as int].conn is Some && old(
                    self,
                )@.devices[slot as int].conn->0.outbox.len() > 0 && packet_bytes(p@) == old(
                    self,
                )@.devices[slot as int].conn->0.outbox[0] && final(self)@ == with_handle(
                    old(self)@,
                    slot as int,
                    HandleView {
                        outbox: old(self)@.devices[slot as int].conn->0.outbox.skip(1),
                        ..old(self)@.devices[slot as int].conn->0
                    },
                ),
                None => (old(self)@.devices[slot as int].conn is None || old(
                    self,
                )@.devices[slot as int].conn->0.outbox.len() == 0) && final(self)@ == old(self)@,
            },
    {
        let mut job: Option<WriteJob> = None;
        if let Some(conn) = &mut self.devices[slot].connection {
            job = conn.take_write_job();
        }
        proof {
            if job is Some {
                assert(self@.devices =~= with_handle(
                    old(self)@,
                    slot as int,
                    HandleView {
                        outbox: old(self)@.devices[slot as int].conn->0.outbox.skip(1),
                        ..old(self)@.devices[slot as int].conn->0
                    },
                ).devices);
            } else {
                assert(self@.devices =~= old(self)@.devices);
            }
        }
        job
    }

    /// Notes that the writer of a slot is done with a command.
    pub fn write_finished(&mut self, slot: usize, failed: bool)
        requires
            old(self).wf(),
            slot < 2,
        ensures
            final(self).wf(),
            final(self)@ == match old(self)@.devices[slot as int].conn {
                Some(h) => with_handle(
                    old(self)@,
                    slot as int,
                    HandleView {
                        shared: SharedView {
                            write_in_flight: false,
                            had_write_error: h.shared.had_write_error || failed,
                            ..h.shared
                        },
                        writer_open: h.writer_open && !failed,
                        ..h
                    },
                ),
                None => old(self)@,
            },
    {
        if let Some(conn) = &mut self.devices[slot].connection {
            conn.write_finished(failed);
        }
        proof {
            if old(self)@.devices[slot as int].conn is Some {
                assert(self@.devices =~= old(self)@.devices.update(
                    slot as int,
                    self.devices@[slot as int]@,
                ));
            } else {
                assert(self@.devices =~= old(self)@.devices);
            }
        }
    }
}

/// A slot with another state of its connection.
pub open spec fn with_handle(m: ManagerView, slot: int, h: HandleView) -> ManagerView {
    ManagerView { devices: m.devices.update(slot, with_conn(m.devices[slot], h)), ..m }
}

/// The command responses of a pad that are to be reported.
pub open spec fn answers_of(d: DeviceView) -> Seq<(u64, Seq<u8>)> {
    d.completions + match d.conn {
        Some(h) => h.completions,
        None => Seq::empty(),
    }
}

/// A pad whose command responses were reported.
pub open spec fn without_answers(d: DeviceView) -> DeviceView {
    DeviceView {
        completions: Seq::empty(),
        conn: match d.conn {
            Some(h) => Some(HandleView { completions: Seq::empty(), ..h }),
            None => None,
        },
        ..d
    }
}

} // verus!
