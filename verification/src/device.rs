//! One pad: its connection, its configuration and its sensor test.

use vstd::prelude::*;

use crate::config::{
    config_bytes, config_of_bytes, config_to_bytes, overwrite_config, overwritten, zero_config,
    SmxConfig,
};
use crate::connection::{
    closed, completion_views, new_command, queued_first, sent, update_works, updated,
    CommandCallback, CommandHandle, Completion, HandleView,
};
use crate::error::SmxError;
use crate::legacy_config::{
    config_from_old, convert_to_new_config, convert_to_old_config, updated_old_config,
    OLD_CONFIG_SIZE,
};
use crate::protocol::{
    add_time, byte_views, copy_bytes, copy_range, elapsed, from_le16, read_le16, time_after,
    time_since, CMD_FACTORY_RESET, CMD_READ_CONFIG, CMD_READ_OLD_CONFIG, CMD_RECALIBRATE,
    CMD_SENSOR_TEST, CMD_WRITE_CONFIG, CMD_WRITE_OLD_CONFIG, CONFIG_WRITE_RATE_LIMIT, END_OF_LINE,
    SENSOR_TEST_INTERVAL, SENSOR_TEST_TIMEOUT,
};
use crate::sensor::{
    empty_sensor_data, is_empty_sensor_data, mode_byte, mode_of_byte, parse_sensor_test_data,
    sensor_data_of, SensorTestData, SensorTestMode,
};

verus! {

/// Why listeners are told of a pad.
#[derive(Clone, Copy, Debug, PartialEq, Eq, Structural)]
pub enum UpdateReason {
    Updated,
    InputState,
    Connected,
    Disconnected,
    ConfigUpdated,
    SensorTestData,
}

/// What is known of a pad.
#[derive(Clone, Debug)]
pub struct SmxInfo {
    pub connected: bool,
    pub is_player2: bool,
    pub has_serial_number: bool,
    pub serial: String,
    pub firmware_version: u16,
}

/// What is known of a pad, as a value.
#[verifier::ext_equal]
pub ghost struct InfoView {
    pub connected: bool,
    pub is_player2: bool,
    pub has_serial_number: bool,
    pub serial: Seq<char>,
    pub firmware_version: u16,
}

impl View for SmxInfo {
    type V = InfoView;

    open spec fn view(&self) -> InfoView {
        InfoView {
            connected: self.connected,
            is_player2: self.is_player2,
            has_serial_number: self.has_serial_number,
            serial: self.serial@,
            firmware_version: self.firmware_version,
        }
    }
}

/// What is known of a pad that is not connected: nothing.
pub open spec fn no_info() -> InfoView {
    InfoView {
        connected: false,
        is_player2: false,
        has_serial_number: false,
        serial: Seq::empty(),
        firmware_version: 0,
    }
}

impl Default for SmxInfo {
    fn default() -> (info: Self)
        ensures
            info@ == no_info(),
    {
        let info = SmxInfo {
            connected: false,
            is_player2: false,
            has_serial_number: false,
            serial: String::new(),
            firmware_version: 0,
        };
        assert(info@ =~= no_info());
        info
    }
}

/// Something that happened to a pad, with all that belongs to it.
#[derive(Clone, Debug)]
pub enum SmxEvent {
    Connected { pad: usize, info: SmxInfo },
    Disconnected { pad: usize },
    InputState { pad: usize, state: u16 },
    ConfigUpdated { pad: usize },
    SensorTestData { pad: usize, data: SensorTestData },
}

/// An event as a value.
#[verifier::ext_equal]
pub ghost enum EventView {
    Connected { pad: usize, info: InfoView },
    Disconnected { pad: usize },
    InputState { pad: usize, state: u16 },
    ConfigUpdated { pad: usize },
    SensorTestData { pad: usize, data: SensorTestData },
}

impl View for SmxEvent {
    type V = EventView;

    open spec fn view(&self) -> EventView {
        match *self {
            SmxEvent::Connected { pad, info } => EventView::Connected { pad, info: info@ },
            SmxEvent::Disconnected { pad } => EventView::Disconnected { pad },
            SmxEvent::InputState { pad, state } => EventView::InputState { pad, state },
            SmxEvent::ConfigUpdated { pad } => EventView::ConfigUpdated { pad },
            SmxEvent::SensorTestData { pad, data } => EventView::SensorTestData { pad, data },
        }
    }
}

/// Events as values.
pub open spec fn event_views(events: Seq<SmxEvent>) -> Seq<EventView> {
    Seq::new(events.len(), |i: int| events[i]@)
}

/// A pad.
pub struct SmxDevice {
    /// The slot that the pad reports itself as.
    pub pad_index: usize,
    /// Whether anyone listens to its events.
    pub listening: bool,
    pub connection: Option<CommandHandle>,
    /// The configuration that the pad has.
    pub config: SmxConfig,
    /// The configuration that it shall get.
    pub wanted_config: SmxConfig,
    /// The last old-format configuration, byte for byte as it came.
    pub raw_config: Vec<u8>,
    pub have_config: bool,
    /// `wanted_config` has not been sent yet.
    pub send_config: bool,
    /// No configuration is written before this time.
    pub delay_config_until: Option<u64>,
    pub sensor_test_mode: SensorTestMode,
    /// The mode of the request that is not answered yet.
    pub waiting_for_sensor_response: SensorTestMode,
    pub sensor_request_sent_at: Option<u64>,
    pub sensor_test_data: SensorTestData,
    pub have_sensor_test_data: bool,
    /// Events to report.
    pub events: Vec<SmxEvent>,
    /// Command responses to report, of connections that are closed.
    pub completions: Vec<Completion>,
}

/// A pad as a value.
#[verifier::ext_equal]
pub ghost struct DeviceView {
    pub pad_index: usize,
    pub listening: bool,
    pub conn: Option<HandleView>,
    pub config: SmxConfig,
    pub wanted_config: SmxConfig,
    pub raw_config: Seq<u8>,
    pub have_config: bool,
    pub send_config: bool,
    pub delay_config_until: Option<u64>,
    pub mode: SensorTestMode,
    pub waiting_for: SensorTestMode,
    pub requested_at: Option<u64>,
    pub sensor_data: SensorTestData,
    pub have_sensor_data: bool,
    pub events: Seq<EventView>,
    pub completions: Seq<(u64, Seq<u8>)>,
}

/// A connection, if there is one, as a value.
pub open spec fn connection_view(c: Option<CommandHandle>) -> Option<HandleView> {
    match c {
        Some(c) => Some(c@),
        None => None,
    }
}

impl View for SmxDevice {
    type V = DeviceView;

    open spec fn view(&self) -> DeviceView {
        DeviceView {
            pad_index: self.pad_index,
            listening: self.listening,
            conn: connection_view(self.connection),
            config: self.config,
            wanted_config: self.wanted_config,
            raw_config: self.raw_config@,
            have_config: self.have_config,
            send_config: self.send_config,
            delay_config_until: self.delay_config_until,
            mode: self.sensor_test_mode,
            waiting_for: self.waiting_for_sensor_response,
            requested_at: self.sensor_request_sent_at,
            sensor_data: self.sensor_test_data,
            have_sensor_data: self.have_sensor_test_data,
            events: event_views(self.events@),
            completions: completion_views(self.completions@),
        }
    }
}

/// A pad with another state of its connection.
pub open spec fn with_conn(d: DeviceView, h: HandleView) -> DeviceView {
    DeviceView { conn: Some(h), ..d }
}

/// Whether the pad is fully connected: its info and its configuration are known.
pub open spec fn is_connected(d: DeviceView) -> bool {
    d.conn is Some && d.conn->0.got_info && d.have_config
}

/// Whether a serial number was ever assigned: it is not all `0` and `f`.
pub open spec fn is_assigned_serial(serial: Seq<char>) -> bool {
    exists|i: int| 0 <= i < serial.len() && #[trigger] serial[i] != '0' && serial[i] != 'f'
}

/// What is known of a pad.
pub open spec fn info_of(d: DeviceView) -> InfoView {
    if is_connected(d) {
        let info = d.conn->0.info;
        InfoView {
            connected: true,
            is_player2: info.is_player2,
            has_serial_number: is_assigned_serial(info.serial),
            serial: info.serial,
            firmware_version: info.firmware_version,
        }
    } else {
        no_info()
    }
}

/// The panel press bitmask of a pad.
pub open spec fn input_of(d: DeviceView) -> u16 {
    match d.conn {
        Some(h) => h.shared.input_state,
        None => 0,
    }
}

/// The configuration of a pad, the wanted one while it waits to be sent.
pub open spec fn config_of(d: DeviceView) -> Option<SmxConfig> {
    if !is_connected(d) {
        None
    } else if d.send_config {
        Some(d.wanted_config)
    } else {
        Some(d.config)
    }
}

/// The event that tells listeners of a reason; some reasons have none.
pub open spec fn event_of(d: DeviceView, reason: UpdateReason) -> Option<EventView> {
    match reason {
        UpdateReason::Connected => Some(
            EventView::Connected { pad: d.pad_index, info: info_of(d) },
        ),
        UpdateReason::Disconnected => Some(EventView::Disconnected { pad: d.pad_index }),
        UpdateReason::ConfigUpdated => Some(EventView::ConfigUpdated { pad: d.pad_index }),
        UpdateReason::SensorTestData => Some(
            EventView::SensorTestData { pad: d.pad_index, data: d.sensor_data },
        ),
        UpdateReason::InputState => Some(
            EventView::InputState { pad: d.pad_index, state: input_of(d) },
        ),
        UpdateReason::Updated => None,
    }
}

/// A pad that has told its listeners, if there are any, of a reason.
pub open spec fn told(d: DeviceView, reason: UpdateReason) -> DeviceView {
    if d.listening && event_of(d, reason) is Some {
        DeviceView { events: d.events.push(event_of(d, reason)->0), ..d }
    } else {
        d
    }
}

/// The command that asks for the configuration.
pub open spec fn config_request(firmware: u16) -> Seq<u8> {
    if firmware >= 5 {
        seq![CMD_READ_CONFIG]
    } else {
        seq![CMD_READ_OLD_CONFIG, END_OF_LINE]
    }
}

/// The command that resets a pad to its factory settings.
pub open spec fn reset_command() -> Seq<u8> {
    seq![CMD_FACTORY_RESET, END_OF_LINE]
}

/// The command that makes a pad calibrate itself.
pub open spec fn recalibrate_command() -> Seq<u8> {
    seq![CMD_RECALIBRATE, END_OF_LINE]
}

/// The command that writes the wanted configuration, in the format that the
/// firmware understands.
pub open spec fn write_config_command(d: DeviceView) -> Seq<u8> {
    if d.conn->0.info.firmware_version >= 5 {
        seq![CMD_WRITE_CONFIG, 250u8] + config_bytes(d.wanted_config)
    } else {
        let record = updated_old_config(d.wanted_config, d.raw_config);
        seq![CMD_WRITE_OLD_CONFIG, record.len() as u8] + record
    }
}

/// The command that asks for sensor test data.
pub open spec fn sensor_request(mode: SensorTestMode) -> Seq<u8> {
    seq![CMD_SENSOR_TEST, mode_byte(mode), END_OF_LINE]
}

/// A pad that has been activated, if it was not: its configuration is asked for.
pub open spec fn activated(d: DeviceView) -> DeviceView {
    let h = d.conn->0;
    if h.got_info && !h.active {
        with_conn(
            d,
            sent(HandleView { active: true, ..h }, config_request(h.info.firmware_version)),
        )
    } else {
        d
    }
}

/// Whether the wanted configuration is to be sent now.
pub open spec fn config_is_due(d: DeviceView, now: u64) -> bool {
    is_connected(d) && d.send_config && (d.delay_config_until matches Some(t) ==> now >= t)
}

/// A pad that has been sent its wanted configuration, if it is due, and is asked to
/// send it back.
pub open spec fn with_config_sent(d: DeviceView, now: u64) -> DeviceView {
    if config_is_due(d, now) {
        let h = d.conn->0;
        DeviceView {
            conn: Some(
                sent(
                    sent(h, write_config_command(d)),
                    config_request(h.info.firmware_version),
                ),
            ),
            delay_config_until: Some(time_after(now, CONFIG_WRITE_RATE_LIMIT)),
            send_config: false,
            config: d.wanted_config,
            ..d
        }
    } else {
        d
    }
}

/// Whether sensor test data is to be asked for now: the last request is answered,
/// or given up, and not too recent.
pub open spec fn sensor_is_due(d: DeviceView, now: u64) -> bool {
    &&& d.mode != SensorTestMode::Off
    &&& d.requested_at matches Some(t) ==> {
        &&& d.waiting_for != SensorTestMode::Off ==> elapsed(now, t) >= SENSOR_TEST_TIMEOUT
        &&& elapsed(now, t) >= SENSOR_TEST_INTERVAL
    }
}

/// A pad that has been asked for sensor test data, if that is due, ahead of all
/// other commands.
pub open spec fn with_sensor_requested(d: DeviceView, now: u64) -> DeviceView {
    if sensor_is_due(d, now) {
        DeviceView {
            conn: Some(queued_first(d.conn->0, new_command(sensor_request(d.mode), None, false))),
            waiting_for: d.mode,
            requested_at: Some(now),
            ..d
        }
    } else {
        d
    }
}

/// The words of a sensor test answer.
pub open spec fn sensor_words(buf: Seq<u8>) -> Seq<u16> {
    Seq::new(buf[2] as nat, |i: int| from_le16(buf[3 + 2 * i], buf[4 + 2 * i]))
}

/// A pad after a sensor test answer. One that is too short, of no known mode or not
/// waited for is ignored; one of another mode than the present one only ends the
/// wait.
pub open spec fn after_sensor_response(d: DeviceView, buf: Seq<u8>) -> DeviceView {
    if buf.len() < 3 || buf.len() < 2 * buf[2] + 3 {
        d
    } else {
        let mode = mode_of_byte(buf[1]);
        if mode == SensorTestMode::Off || mode != d.waiting_for {
            d
        } else {
            let d1 = DeviceView { waiting_for: SensorTestMode::Off, ..d };
            if mode != d.mode {
                d1
            } else {
                told(
                    DeviceView {
                        sensor_data: sensor_data_of(
                            sensor_words(buf),
                            d.conn->0.info.firmware_version,
                        ),
                        have_sensor_data: true,
                        ..d1
                    },
                    UpdateReason::SensorTestData,
                )
            }
        }
    }
}

/// An old-format configuration filled up with zeros where it is too short.
pub open spec fn padded_record(payload: Seq<u8>) -> Seq<u8> {
    if payload.len() < OLD_CONFIG_SIZE {
        payload + crate::protocol::zeros(OLD_CONFIG_SIZE - payload.len())
    } else {
        payload
    }
}

/// A pad after its configuration has come, in the old or in the new format. One
/// that is cut short is ignored.
pub open spec fn after_config_packet(d: DeviceView, buf: Seq<u8>) -> DeviceView {
    if buf.len() < 2 || buf.len() < buf[1] + 2 {
        d
    } else {
        let payload = buf.subrange(2, 2 + buf[1]);
        let d1 = if buf[0] == CMD_READ_OLD_CONFIG {
            DeviceView {
                config: config_from_old(padded_record(payload), d.config),
                raw_config: payload,
                ..d
            }
        } else {
            DeviceView { config: config_of_bytes(overwritten(d.config, payload)), ..d }
        };
        told(DeviceView { have_config: true, ..d1 }, UpdateReason::ConfigUpdated)
    }
}

/// A pad after a response.
pub open spec fn after_response(d: DeviceView, buf: Seq<u8>) -> DeviceView {
    if buf.len() == 0 {
        d
    } else if buf[0] == CMD_SENSOR_TEST {
        after_sensor_response(d, buf)
    } else if buf[0] == CMD_READ_OLD_CONFIG || buf[0] == CMD_READ_CONFIG {
        after_config_packet(d, buf)
    } else {
        d
    }
}

/// A pad after the first `n` of a list of responses.
pub open spec fn after_responses(d: DeviceView, inbox: Seq<Seq<u8>>, n: int) -> DeviceView
    decreases n,
{
    if n <= 0 {
        d
    } else {
        after_response(after_responses(d, inbox, n - 1), inbox[n - 1])
    }
}

/// A pad that has read all responses.
pub open spec fn with_responses_read(d: DeviceView) -> DeviceView {
    let h = d.conn->0;
    after_responses(
        with_conn(d, HandleView { inbox: Seq::empty(), ..h }),
        h.inbox,
        h.inbox.len() as int,
    )
}

/// A connected pad just before its connection is looked after: activated, its
/// configuration sent and its sensor test requested as they are due.
pub open spec fn prepared(d: DeviceView, now: u64) -> DeviceView {
    with_sensor_requested(with_config_sent(activated(d), now), now)
}

/// A pad after one pass of the main loop.
pub open spec fn device_updated(d: DeviceView, now: u64) -> DeviceView {
    if d.conn is None {
        d
    } else if !d.conn->0.got_info {
        with_conn(d, updated(d.conn->0, now))
    } else {
        let d1 = prepared(d, now);
        let d2 = with_conn(d1, updated(d1.conn->0, now));
        if update_works(d1.conn->0, now) {
            with_responses_read(d2)
        } else {
            d2
        }
    }
}

/// Whether that pass goes well.
pub open spec fn device_update_works(d: DeviceView, now: u64) -> bool {
    d.conn is None || if d.conn->0.got_info {
        update_works(prepared(d, now).conn->0, now)
    } else {
        update_works(d.conn->0, now)
    }
}

/// A pad whose connection is gone. Commands that waited are answered with nothing.
pub open spec fn device_closed(d: DeviceView) -> DeviceView {
    told(
        DeviceView {
            conn: None,
            have_config: false,
            completions: match d.conn {
                Some(h) => d.completions + closed(h).completions,
                None => d.completions,
            },
            ..d
        },
        UpdateReason::Disconnected,
    )
}

/// A pad on whose connection, if there is one, a command was queued.
pub open spec fn commanded(d: DeviceView, cmd: Seq<u8>) -> DeviceView {
    match d.conn {
        Some(h) => with_conn(d, sent(h, cmd)),
        None => d,
    }
}

/// A new pad in a slot.
pub open spec fn is_new_device(d: DeviceView, pad_index: usize) -> bool {
    &&& d.pad_index == pad_index
    &&& !d.listening
    &&& d.conn is None
    &&& d.config == zero_config()
    &&& d.wanted_config == zero_config()
    &&& d.raw_config.len() == 0
    &&& !d.have_config
    &&& !d.send_config
    &&& d.delay_config_until is None
    &&& d.mode == SensorTestMode::Off
    &&& d.waiting_for == SensorTestMode::Off
    &&& d.requested_at is None
    &&& is_empty_sensor_data(d.sensor_data)
    &&& !d.have_sensor_data
    &&& d.events.len() == 0
    &&& d.completions.len() == 0
}

/// Sends a command that asks for the configuration.
fn request_config(conn: &mut CommandHandle)
    ensures
        final(conn)@ == sent(old(conn)@, config_request(old(conn)@.info.firmware_version)),
{
    if conn.device_info.firmware_version >= 5 {
        let cmd: [u8; 1] = [CMD_READ_CONFIG];
        assert(cmd@ =~= seq![CMD_READ_CONFIG]);
        conn.send_command(cmd.as_slice(), None);
    } else {
        let cmd: [u8; 2] = [CMD_READ_OLD_CONFIG, END_OF_LINE];
        assert(cmd@ =~= seq![CMD_READ_OLD_CONFIG, END_OF_LINE]);
        conn.send_command(cmd.as_slice(), None);
    }
}

/// Whether a serial number was ever assigned.
pub fn serial_is_assigned(serial: &str) -> (r: bool)
    ensures
        r == is_assigned_serial(serial@),
{
    let n: usize = serial.unicode_len();
    let mut i: usize = 0;
    while i < n
        invariant
            i <= n,
            n == serial@.len(),
            forall|j: int| 0 <= j < i ==> #[trigger] serial@[j] == '0' || serial@[j] == 'f',
        decreases n - i,
    {
        let c = serial.get_char(i);
        if c != '0' && c != 'f' {
            assert(serial@[i as int] != '0' && serial@[i as int] != 'f');
            return true;
        }
        i = i + 1;
    }
    false
}

impl SmxDevice {
    /// A pad without a connection.
    pub fn new(pad_index: usize) -> (d: Self)
        ensures
            is_new_device(d@, pad_index),
    {
        SmxDevice {
            pad_index,
            listening: false,
            connection: None,
            config: SmxConfig::zeroed(),
            wanted_config: SmxConfig::zeroed(),
            raw_config: Vec::new(),
            have_config: false,
            send_config: false,
            delay_config_until: None,
            sensor_test_mode: SensorTestMode::Off,
            waiting_for_sensor_response: SensorTestMode::Off,
            sensor_request_sent_at: None,
            sensor_test_data: empty_sensor_data(),
            have_sensor_test_data: false,
            events: Vec::new(),
            completions: Vec::new(),
        }
    }

    /// Notes that someone listens to the pad's events.
    pub fn set_update_callback(&mut self)
        ensures
            final(self)@ == (DeviceView { listening: true, ..old(self)@ }),
    {
        self.listening = true;
    }

    /// Sets the slot that the pad reports itself as.
    pub fn set_pad_index(&mut self, pad_index: usize)
        ensures
            final(self)@ == (DeviceView { pad_index, ..old(self)@ }),
    {
        self.pad_index = pad_index;
    }

    /// Gives the pad a connection.
    pub fn set_connection(&mut self, conn: CommandHandle)
        ensures
            final(self)@ == with_conn(old(self)@, conn@),
    {
        self.connection = Some(conn);
    }

    /// Takes the pad's connection away.
    pub fn take_connection(&mut self) -> (conn: Option<CommandHandle>)
        ensures
            connection_view(conn) == old(self)@.conn,
            final(self)@ == (DeviceView { conn: None, ..old(self)@ }),
    {
        self.connection.take()
    }

    /// Whether the pad has a connection.
    pub fn has_connection(&self) -> (r: bool)
        ensures
            r == (self@.conn is Some),
    {
        self.connection.is_some()
    }

    /// The pad's connection.
    pub fn connection(&self) -> (conn: Option<&CommandHandle>)
        ensures
            match conn {
                Some(c) => self@.conn == Some(c@),
                None => self@.conn is None,
            },
    {
        match &self.connection {
            Some(c) => Some(c),
            None => None,
        }
    }

    /// The pad's connection, to be changed.
    pub fn connection_mut(&mut self) -> (conn: Option<&mut CommandHandle>)
        ensures
            match conn {
                Some(c) => old(self).connection == Some(*c) && *final(self) == (SmxDevice {
                    connection: Some(*final(c)),
                    ..*old(self)
                }),
                None => old(self).connection is None && *final(self) == *old(self),
            },
    {
        match &mut self.connection {
            Some(c) => Some(c),
            None => None,
        }
    }

    /// Whether the pad is fully connected.
    pub fn is_connected(&self) -> (r: bool)
        ensures
            r == is_connected(self@),
    {
        match &self.connection {
            Some(c) => c.is_connected_with_info() && self.have_config,
            None => false,
        }
    }

    /// What is known of the pad.
    pub fn get_info(&self) -> (info: SmxInfo)
        ensures
            info@ == info_of(self@),
    {
        match &self.connection {
            Some(conn) => if conn.is_connected_with_info() && self.have_config {
                SmxInfo {
                    connected: true,
                    is_player2: conn.device_info.is_player2,
                    has_serial_number: serial_is_assigned(conn.device_info.serial.as_str()),
                    serial: conn.device_info.serial.clone(),
                    firmware_version: conn.device_info.firmware_version,
                }
            } else {
                SmxInfo::default()
            },
            None => SmxInfo::default(),
        }
    }

    /// The panel press bitmask.
    pub fn input_state(&self) -> (state: u16)
        ensures
            state == input_of(self@),
    {
        match &self.connection {
            Some(c) => c.input_state(),
            None => 0,
        }
    }

    /// The pad's configuration, the wanted one while it waits to be sent.
    pub fn get_config(&self) -> (config: Option<SmxConfig>)
        ensures
            config == config_of(self@),
    {
        if !self.is_connected() {
            None
        } else if self.send_config {
            Some(self.wanted_config)
        } else {
            Some(self.config)
        }
    }

    /// Sets the configuration that a connected pad shall get.
    pub fn set_config(&mut self, config: SmxConfig)
        ensures
            final(self)@ == if is_connected(old(self)@) {
                DeviceView { wanted_config: config, send_config: true, ..old(self)@ }
            } else {
                old(self)@
            },
    {
        if !self.is_connected() {
            return ;
        }
        self.wanted_config = config;
        self.send_config = true;
    }

    /// Sets what the sensor test reports.
    pub fn set_sensor_test_mode(&mut self, mode: SensorTestMode)
        ensures
            final(self)@ == (DeviceView { mode, ..old(self)@ }),
    {
        self.sensor_test_mode = mode;
    }

    /// Whether a sensor test is on.
    pub fn is_sensor_test_active(&self) -> (r: bool)
        ensures
            r == (self@.mode != SensorTestMode::Off),
    {
        self.sensor_test_mode != SensorTestMode::Off
    }

    /// The latest sensor test data.
    pub fn get_test_data(&self) -> (data: Option<SensorTestData>)
        ensures
            data == if self@.have_sensor_data {
                Some(self@.sensor_data)
            } else {
                None
            },
    {
        if self.have_sensor_test_data {
            Some(self.sensor_test_data)
        } else {
            None
        }
    }

    /// Queues a command on the pad's connection.
    pub fn send_command(&mut self, cmd: &[u8], callback: Option<CommandCallback>)
        ensures
            final(self)@ == match old(self)@.conn {
                Some(h) => with_conn(
                    old(self)@,
                    crate::connection::queued(h, new_command(cmd@, callback, false)),
                ),
                None => old(self)@,
            },
    {
        if let Some(conn) = &mut self.connection {
            conn.send_command(cmd, callback);
        }
    }

    /// Queues a lights command on the pad's connection.
    pub fn send_lights(&mut self, cmd: &[u8])
        ensures
            final(self)@ == match old(self)@.conn {
                Some(h) => with_conn(
                    old(self)@,
                    crate::connection::queued(h, new_command(cmd@, None, true)),
                ),
                None => old(self)@,
            },
    {
        if let Some(conn) = &mut self.connection {
            conn.send_command_lights(cmd);
        }
    }

    /// Resets the pad to its factory settings and asks for its configuration.
    pub fn factory_reset(&mut self)
        ensures
            final(self)@ == match old(self)@.conn {
                Some(h) => if h.got_info {
                    with_conn(
                        old(self)@,
                        sent(sent(h, reset_command()), config_request(h.info.firmware_version)),
                    )
                } else {
                    old(self)@
                },
                None => old(self)@,
            },
    {
        if let Some(conn) = &mut self.connection {
            if conn.got_info {
                let cmd: [u8; 2] = [CMD_FACTORY_RESET, END_OF_LINE];
                assert(cmd@ =~= reset_command());
                conn.send_command(cmd.as_slice(), None);
                request_config(conn);
            }
        }
    }

    /// Makes the pad calibrate itself.
    pub fn force_recalibration(&mut self)
        ensures
            final(self)@ == commanded(old(self)@, recalibrate_command()),
    {
        let cmd: [u8; 2] = [CMD_RECALIBRATE, END_OF_LINE];
        assert(cmd@ =~= recalibrate_command());
        self.send_command(cmd.as_slice(), None);
    }

    /// Drops the connection.
    pub fn close(&mut self)
        ensures
            final(self)@ == device_closed(old(self)@),
    {
        if let Some(conn) = &mut self.connection {
            conn.close();
            let mut answers = conn.take_completions();
            let ghost before = self.completions@;
            let ghost added = answers@;
            self.completions.append(&mut answers);
            assert(completion_views(self.completions@) =~= completion_views(before)
                + completion_views(added));
        }
        self.connection = None;
        self.have_config = false;
        self.call_update(UpdateReason::Disconnected);
    }

    /// One pass of the main loop. On an error the pad is to be disconnected.
    pub fn update(&mut self, now: u64) -> (r: Result<(), SmxError>)
        ensures
            final(self)@ == device_updated(old(self)@, now),
            r is Ok <==> device_update_works(old(self)@, now),
            r matches Err(e) ==> e is NotConnected,
    {
        let got_info = match &self.connection {
            Some(conn) => conn.is_connected_with_info(),
            None => {
                return Ok(());
            },
        };
        if !got_info {
            return self.update_connection(now);
        }
        self.check_active();
        self.send_config_if_needed(now);
        self.update_sensor_test_mode(now);
        match self.update_connection(now) {
            Ok(()) => {},
            Err(e) => {
                return Err(e);
            },
        }
        self.handle_packets();
        Ok(())
    }

    /// When the next sensor test request is due, if one is to be sent.
    pub fn next_sensor_request(&self) -> (due: Option<u64>)
        ensures
            due == if self@.mode == SensorTestMode::Off {
                None
            } else {
                match self@.requested_at {
                    Some(t) => Some(
                        time_after(
                            t,
                            if self@.waiting_for != SensorTestMode::Off {
                                SENSOR_TEST_TIMEOUT
                            } else {
                                SENSOR_TEST_INTERVAL
                            },
                        ),
                    ),
                    None => Some(0u64),
                }
            },
    {
        if self.sensor_test_mode == SensorTestMode::Off {
            return None;
        }
        match self.sensor_request_sent_at {
            Some(t) => Some(
                add_time(
                    t,
                    if self.waiting_for_sensor_response != SensorTestMode::Off {
                        SENSOR_TEST_TIMEOUT
                    } else {
                        SENSOR_TEST_INTERVAL
                    },
                ),
            ),
            None => Some(0),
        }
    }

    /// Hands out the events to report.
    pub fn take_events(&mut self) -> (events: Vec<SmxEvent>)
        ensures
            event_views(events@) == old(self)@.events,
            final(self)@ == (DeviceView { events: Seq::empty(), ..old(self)@ }),
    {
        let mut events: Vec<SmxEvent> = Vec::new();
        std::mem::swap(&mut events, &mut self.events);
        assert(self@.events =~= Seq::empty());
        events
    }

    /// Hands out the command responses to report, first those of connections that
    /// are closed.
    pub fn take_completions(&mut self) -> (c: Vec<Completion>)
        ensures
            completion_views(c@) == old(self)@.completions + match old(self)@.conn {
                Some(h) => h.completions,
                None => Seq::empty(),
            },
            final(self)@ == (DeviceView {
                completions: Seq::empty(),
                conn: match old(self)@.conn {
                    Some(h) => Some(HandleView { completions: Seq::empty(), ..h }),
                    None => None,
                },
                ..old(self)@
            }),
    {
        let mut c: Vec<Completion> = Vec::new();
        std::mem::swap(&mut c, &mut self.completions);
        assert(self@.completions =~= Seq::empty());
        let ghost first = c@;
        if let Some(conn) = &mut self.connection {
            let mut more = conn.take_completions();
            let ghost added = more@;
            c.append(&mut more);
            assert(completion_views(c@) =~= completion_views(first) + completion_views(added));
        } else {
            assert(completion_views(c@) =~= completion_views(first) + Seq::empty());
        }
        c
    }

    // ─── Private ─────────────────────────────────────────────────────────────

    fn update_connection(&mut self, now: u64) -> (r: Result<(), SmxError>)
        requires
            old(self)@.conn is Some,
        ensures
            final(self)@ == with_conn(old(self)@, updated(old(self)@.conn->0, now)),
            r is Ok <==> update_works(old(self)@.conn->0, now),
            r matches Err(e) ==> e is NotConnected,
    {
        if let Some(conn) = &mut self.connection {
            conn.update(now)
        } else {
            Ok(())
        }
    }

    fn event(&self, reason: UpdateReason) -> (event: Option<SmxEvent>)
        ensures
            event_of(self@, reason) is Some <==> event is Some,
            event matches Some(e) ==> event_of(self@, reason) == Some(e@),
    {
        match reason {
            UpdateReason::Connected => Some(
                SmxEvent::Connected { pad: self.pad_index, info: self.get_info() },
            ),
            UpdateReason::Disconnected => Some(SmxEvent::Disconnected { pad: self.pad_index }),
            UpdateReason::ConfigUpdated => Some(SmxEvent::ConfigUpdated { pad: self.pad_index }),
            UpdateReason::SensorTestData => Some(
                SmxEvent::SensorTestData { pad: self.pad_index, data: self.sensor_test_data },
            ),
            UpdateReason::InputState => Some(
                SmxEvent::InputState { pad: self.pad_index, state: self.input_state() },
            ),
            UpdateReason::Updated => None,
        }
    }

    /// Tells listeners, if there are any, of a reason.
    pub fn call_update(&mut self, reason: UpdateReason)
        ensures
            final(self)@ == told(old(self)@, reason),
    {
        if self.listening {
            if let Some(e) = self.event(reason) {
                self.events.push(e);
                assert(event_views(self.events@) =~= event_views(old(self).events@).push(e@));
            }
        }
    }

    fn check_active(&mut self)
        requires
            old(self)@.conn is Some,
        ensures
            final(self)@ == activated(old(self)@),
    {
        if let Some(conn) = &mut self.connection {
            if conn.got_info && !conn.active {
                conn.set_active(true);
                request_config(conn);
            }
        }
    }

    fn send_config_if_needed(&mut self, now: u64)
        ensures
            final(self)@ == with_config_sent(old(self)@, now),
    {
        if !self.is_connected() || !self.send_config {
            return ;
        }
        if let Some(until) = self.delay_config_until {
            if now < until {
                return ;
            }
        }
        self.delay_config_until = Some(add_time(now, CONFIG_WRITE_RATE_LIMIT));
        if let Some(conn) = &mut self.connection {
            let mut cmd: Vec<u8> = Vec::new();
            if conn.device_info.firmware_version >= 5 {
                let bytes = config_to_bytes(&self.wanted_config);
                cmd.push(CMD_WRITE_CONFIG);
                cmd.push(bytes.len() as u8);
                cmd.extend_from_slice(bytes.as_slice());
                assert(cmd@ =~= seq![CMD_WRITE_CONFIG, 250u8] + config_bytes(self.wanted_config));
            } else {
                let mut record = copy_bytes(&self.raw_config);
                convert_to_old_config(&self.wanted_config, &mut record);
                cmd.push(CMD_WRITE_OLD_CONFIG);
                cmd.push(record.len() as u8);
                cmd.extend_from_slice(record.as_slice());
                assert(cmd@ =~= seq![CMD_WRITE_OLD_CONFIG, record@.len() as u8] + record@);
            }
            assert(cmd@ == write_config_command(old(self)@));
            conn.send_command(cmd.as_slice(), None);
            request_config(conn);
        }
        self.send_config = false;
        self.config = self.wanted_config;
    }

    fn update_sensor_test_mode(&mut self, now: u64)
        requires
            old(self)@.conn is Some,
        ensures
            final(self)@ == with_sensor_requested(old(self)@, now),
    {
        if self.sensor_test_mode == SensorTestMode::Off {
            return ;
        }
        if let Some(at) = self.sensor_request_sent_at {
            let passed: u64 = time_since(now, at);
            if self.waiting_for_sensor_response != SensorTestMode::Off && passed
                < SENSOR_TEST_TIMEOUT {
                return ;
            }
            if passed < SENSOR_TEST_INTERVAL {
                return ;
            }
        }
        self.waiting_for_sensor_response = self.sensor_test_mode;
        self.sensor_request_sent_at = Some(now);
        let cmd: [u8; 3] = [CMD_SENSOR_TEST, self.sensor_test_mode.byte(), END_OF_LINE];
        assert(cmd@ =~= sensor_request(self.sensor_test_mode));
        if let Some(conn) = &mut self.connection {
            conn.send_command_priority(cmd.as_slice(), None);
        }
    }

    fn handle_packets(&mut self)
        requires
            old(self)@.conn is Some,
        ensures
            final(self)@ == with_responses_read(old(self)@),
    {
        let ghost d = self@;
        let ghost inbox = d.conn->0.inbox;
        let mut packets: Vec<Vec<u8>> = Vec::new();
        if let Some(conn) = &mut self.connection {
            Self::drain_inbox(conn, &mut packets);
        }
        let ghost start = self@;
        assert(start == with_conn(d, HandleView { inbox: Seq::empty(), ..d.conn->0 }));
        assert(byte_views(packets@) =~= inbox);
        let mut i: usize = 0;
        while i < packets.len()
            invariant
                i <= packets@.len(),
                byte_views(packets@) == inbox,
                start.conn is Some,
                self@.conn == start.conn,
                self@ == after_responses(start, inbox, i as int),
            decreases packets@.len() - i,
        {
            let buf = &packets[i];
            assert(inbox[i as int] == buf@);
            if buf.len() > 0 {
                if buf[0] == CMD_SENSOR_TEST {
                    self.handle_sensor_test_response(buf);
                } else if buf[0] == CMD_READ_OLD_CONFIG || buf[0] == CMD_READ_CONFIG {
                    self.handle_config_packet(buf);
                }
            }
            i = i + 1;
        }
    }

    /// Moves all unread responses of a connection to a list.
    fn drain_inbox(conn: &mut CommandHandle, packets: &mut Vec<Vec<u8>>)
        ensures
            final(conn)@ == (HandleView { inbox: Seq::empty(), ..old(conn)@ }),
            byte_views(final(packets)@) == byte_views(old(packets)@) + old(conn)@.inbox,
    {
        let ghost inbox = conn@.inbox;
        let ghost before = byte_views(packets@);
        let ghost mut done: int = 0;
        assert(inbox.skip(0) =~= inbox);
        assert(before + inbox.take(0) =~= before);
        loop
            invariant
                0 <= done <= inbox.len(),
                conn@ == (HandleView { inbox: inbox.skip(done), ..old(conn)@ }),
                byte_views(packets@) == before + inbox.take(done),
            ensures
                done == inbox.len(),
            decreases inbox.len() - done,
        {
            match conn.read_packet() {
                Some(packet) => {
                    let ghost held = packets@;
                    assert(packet@ == inbox[done]);
                    packets.push(packet);
                    proof {
                        assert(byte_views(packets@) =~= byte_views(held).push(packet@));
                        assert(before + inbox.take(done + 1) =~= (before + inbox.take(done)).push(
                            inbox[done],
                        ));
                        assert(inbox.skip(done).skip(1) =~= inbox.skip(done + 1));
                        done = done + 1;
                    }
                },
                None => {
                    break ;
                },
            }
        }
        assert(inbox.take(done) =~= inbox);
        assert(inbox.skip(done) =~= Seq::empty());
    }

    fn handle_config_packet(&mut self, buf: &Vec<u8>)
        requires
            buf@.len() > 0,
        ensures
            final(self)@ == after_config_packet(old(self)@, buf@),
    {
        if buf.len() < 2 {
            return ;
        }
        let size: usize = buf[1] as usize;
        if buf.len() < size + 2 {
            return ;
        }
        let payload = copy_range(buf.as_slice(), 2, 2 + size);
        if buf[0] == CMD_READ_OLD_CONFIG {
            let mut record = copy_bytes(&payload);
            if record.len() < OLD_CONFIG_SIZE {
                record.resize(OLD_CONFIG_SIZE, 0);
            }
            assert(record@ =~= padded_record(payload@));
            convert_to_new_config(record.as_slice(), &mut self.config);
            self.raw_config = payload;
        } else {
            self.config = overwrite_config(&self.config, payload.as_slice());
        }
        self.have_config = true;
        self.call_update(UpdateReason::ConfigUpdated);
    }

    fn handle_sensor_test_response(&mut self, buf: &Vec<u8>)
        requires
            old(self)@.conn is Some,
        ensures
            final(self)@ == after_sensor_response(old(self)@, buf@),
    {
        if buf.len() < 3 {
            return ;
        }
        let size: usize = buf[2] as usize;
        if buf.len() < size * 2 + 3 {
            return ;
        }
        let mode = SensorTestMode::from_byte(buf[1]);
        if mode == SensorTestMode::Off || mode != self.waiting_for_sensor_response {
            return ;
        }
        self.waiting_for_sensor_response = SensorTestMode::Off;
        if mode != self.sensor_test_mode {
            return ;
        }
        let mut data: Vec<u16> = Vec::new();
        let mut i: usize = 0;
        while i < size
            invariant
                i <= size,
                size == buf@[2],
                buf@.len() >= size * 2 + 3,
                data@.len() == i,
                forall|j: int| 0 <= j < i ==> data@[j] == sensor_words(buf@)[j],
            decreases size - i,
        {
            data.push(read_le16(buf[3 + 2 * i], buf[4 + 2 * i]));
            i = i + 1;
        }
        assert(data@ =~= sensor_words(buf@));
        let firmware: u16 = match &self.connection {
            Some(conn) => conn.device_info.firmware_version,
            None => 0,
        };
        self.sensor_test_data = parse_sensor_test_data(data.as_slice(), firmware);
        self.have_sensor_test_data = true;
        self.call_update(UpdateReason::SensorTestData);
    }
}

// ─── Laws ────────────────────────────────────────────────────────────────────

proof fn lemma_responses_keep(d: DeviceView, inbox: Seq<Seq<u8>>, n: int)
    ensures
        after_responses(d, inbox, n).delay_config_until == d.delay_config_until,
        after_responses(d, inbox, n).requested_at == d.requested_at,
        after_responses(d, inbox, n).mode == d.mode,
        after_responses(d, inbox, n).wanted_config == d.wanted_config,
        after_responses(d, inbox, n).send_config == d.send_config,
        after_responses(d, inbox, n).conn == d.conn,
        after_responses(d, inbox, n).pad_index == d.pad_index,
        after_responses(d, inbox, n).listening == d.listening,
    decreases n,
{
    if n > 0 {
        lemma_responses_keep(d, inbox, n - 1);
    }
}

/// A pass changes neither the slot that a pad reports itself as nor whether anyone
/// listens.
pub proof fn lemma_pass_keeps_the_slot(d: DeviceView, now: u64)
    ensures
        device_updated(d, now).pad_index == d.pad_index,
        device_updated(d, now).listening == d.listening,
        device_closed(device_updated(d, now)).pad_index == d.pad_index,
        device_closed(device_updated(d, now)).listening == d.listening,
{
    let d1 = prepared(d, now);
    let h = updated(d1.conn->0, now);
    lemma_responses_keep(
        with_conn(with_conn(d1, h), HandleView { inbox: Seq::empty(), ..h }),
        h.inbox,
        h.inbox.len() as int,
    );
}

/// Configurations are written at most once a second: after a pass that has written
/// one, no pass within a second writes another, whatever configuration is set in
/// between.
pub proof fn law_config_writes_are_rate_limited(
    d: DeviceView,
    now: u64,
    later: u64,
    config: SmxConfig,
)
    requires
        d.conn is Some,
        d.conn->0.got_info,
        config_is_due(activated(d), now),
        now + CONFIG_WRITE_RATE_LIMIT <= u64::MAX,
        later < now + CONFIG_WRITE_RATE_LIMIT,
    ensures
        !config_is_due(
            activated(
                DeviceView { wanted_config: config, send_config: true, ..device_updated(d, now) },
            ),
            later,
        ),
{
    let d1 = prepared(d, now);
    let h = updated(d1.conn->0, now);
    lemma_responses_keep(
        with_conn(with_conn(d1, h), HandleView { inbox: Seq::empty(), ..h }),
        h.inbox,
        h.inbox.len() as int,
    );
}

/// Sensor test requests are paced: after a pass that has sent one, no pass within a
/// thirtieth of a second sends another, answered or not.
pub proof fn law_sensor_requests_are_paced(d: DeviceView, now: u64, later: u64)
    requires
        d.conn is Some,
        d.conn->0.got_info,
        sensor_is_due(d, now),
        elapsed(later, now) < SENSOR_TEST_INTERVAL,
    ensures
        !sensor_is_due(device_updated(d, now), later),
        with_sensor_requested(device_updated(d, now), later) == device_updated(d, now),
{
    let d1 = prepared(d, now);
    let h = updated(d1.conn->0, now);
    lemma_responses_keep(
        with_conn(with_conn(d1, h), HandleView { inbox: Seq::empty(), ..h }),
        h.inbox,
        h.inbox.len() as int,
    );
}

/// While a sensor test request waits for its answer no other is sent, until it is
/// given up after two seconds.
pub proof fn law_one_sensor_request_at_a_time(d: DeviceView, now: u64)
    requires
        d.waiting_for != SensorTestMode::Off,
        d.requested_at is Some,
        elapsed(now, d.requested_at->0) < SENSOR_TEST_TIMEOUT,
    ensures
        !sensor_is_due(d, now),
{
}

/// A configuration that was set is what the pad is said to have, from when it is
/// set and through its sending.
pub proof fn law_set_config_is_read_back(d: DeviceView, config: SmxConfig, now: u64)
    requires
        is_connected(d),
    ensures
        ({
            let set = DeviceView { wanted_config: config, send_config: true, ..d };
            &&& config_of(set) == Some(config)
            &&& config_of(with_config_sent(set, now)) == Some(config)
        }),
{
}

/// A configuration that a pad sends in the new format is the one it is then said to
/// have, unless another one waits to be sent. So what was written is what is read
/// back.
pub proof fn law_sent_config_is_known(d: DeviceView, config: SmxConfig)
    requires
        d.conn is Some,
        d.conn->0.got_info,
        !d.send_config,
    ensures
        config_of(
            after_config_packet(d, seq![CMD_READ_CONFIG, 250u8] + config_bytes(config)),
        ) == Some(config),
{
    crate::config::law_config_bytes_len(config);
    let bytes = config_bytes(config);
    let buf = seq![CMD_READ_CONFIG, 250u8] + bytes;
    assert(buf[1] == 250);
    assert(buf.subrange(2, 252) =~= bytes);
    assert(overwritten(d.config, bytes) =~= bytes);
    crate::config::law_bytes_determine_config(config_of_bytes(bytes), config);
}

/// A pad that was closed is not connected: nothing is known of it, it has no
/// configuration and no panel is pressed. Listeners are told.
pub proof fn law_closed_pad_is_disconnected(d: DeviceView)
    ensures
        !is_connected(device_closed(d)),
        info_of(device_closed(d)) == no_info(),
        config_of(device_closed(d)) is None,
        input_of(device_closed(d)) == 0,
        d.listening ==> device_closed(d).events == d.events.push(
            EventView::Disconnected { pad: d.pad_index },
        ),
{
}

/// Firmware before version 5 gets its configuration in the 128-byte format, unless
/// it sent a longer one itself.
pub proof fn law_old_firmware_gets_old_format(d: DeviceView)
    requires
        d.conn is Some,
        d.conn->0.info.firmware_version < 5,
        d.raw_config.len() <= OLD_CONFIG_SIZE,
    ensures
        write_config_command(d).len() == 130,
        write_config_command(d)[0] == CMD_WRITE_OLD_CONFIG,
        write_config_command(d)[1] == 128,
{
}

/// From version 5 on the whole configuration is sent as it is.
pub proof fn law_new_firmware_gets_new_format(d: DeviceView)
    requires
        d.conn is Some,
        d.conn->0.info.firmware_version >= 5,
    ensures
        write_config_command(d).len() == 252,
        write_config_command(d)[0] == CMD_WRITE_CONFIG,
        write_config_command(d)[1] == 250,
        write_config_command(d).skip(2) == config_bytes(d.wanted_config),
{
    crate::config::law_config_bytes_len(d.wanted_config);
    assert(write_config_command(d).skip(2) =~= config_bytes(d.wanted_config));
}

/// The commands that a pad gets, byte by byte: `G` asks for the configuration, and
/// `g` with an end of line before firmware 5; `f` resets, `C` calibrates; `y` with the
/// digit of a mode asks for sensor data.
pub proof fn law_pad_commands_by_number(firmware: u16, mode: SensorTestMode)
    ensures
        firmware >= 5 ==> config_request(firmware) == seq!['G' as u8],
        firmware < 5 ==> config_request(firmware) == seq!['g' as u8, 10u8],
        reset_command() == seq!['f' as u8, 10u8],
        recalibrate_command() == seq!['C' as u8, 10u8],
        sensor_request(mode).len() == 3,
        sensor_request(mode)[0] == 'y' as u8,
        mode == SensorTestMode::UncalibratedValues ==> sensor_request(mode)[1] == '0' as u8,
        mode == SensorTestMode::CalibratedValues ==> sensor_request(mode)[1] == '1' as u8,
        mode == SensorTestMode::Noise ==> sensor_request(mode)[1] == '2' as u8,
        mode == SensorTestMode::Tare ==> sensor_request(mode)[1] == '3' as u8,
        sensor_request(mode)[2] == 10,
{
    assert(config_request(firmware) =~= if firmware >= 5 {
        seq!['G' as u8]
    } else {
        seq!['g' as u8, 10u8]
    });
}

/// The command that writes a configuration to firmware 5 and later, byte by byte: `W`, 250
/// and the bytes of the configuration.
#[verifier::spinoff_prover]
#[verifier::rlimit(30)]
pub proof fn law_new_config_command_by_number(d: DeviceView, panel: int)
    requires
        d.conn is Some,
        d.conn->0.info.firmware_version >= 5,
        0 <= panel < 9,
    ensures
        ({
            let cmd = write_config_command(d);
            let c = d.wanted_config;
            &&& cmd.len() == 252
            &&& cmd[0] == 'W' as u8
            &&& cmd[1] == 250
            &&& cmd[2] == c.master_version
            &&& cmd[58 + 16 * panel] == c.panel_settings@[panel].load_cell_low_threshold
            &&& cmd[59 + 16 * panel] == c.panel_settings@[panel].load_cell_high_threshold
            &&& cmd.subrange(2, 252) == config_bytes(c)
        }),
{
    let c = d.wanted_config;
    let w = config_bytes(c);
    assert(w.len() == 250 && w[0] == c.master_version) by {
        crate::config::law_config_bytes_by_number(c);
    }
    assert(w[56 + 16 * panel] == c.panel_settings@[panel].load_cell_low_threshold && w[57 + 16
        * panel] == c.panel_settings@[panel].load_cell_high_threshold) by {
        crate::config::law_panel_settings_by_number(c, panel);
    }
    lemma_two_bytes_in_front(CMD_WRITE_CONFIG, 250, w, write_config_command(d));
}

/// The command that writes a configuration to firmware before 5, byte by byte: `w`, 128 and
/// the old record, with the thresholds of the nine panels where the old layout has them.
#[verifier::spinoff_prover]
#[verifier::rlimit(30)]
pub proof fn law_old_config_command_by_number(d: DeviceView)
    requires
        d.conn is Some,
        d.conn->0.info.firmware_version < 5,
        d.raw_config.len() <= 128,
    ensures
        ({
            let cmd = write_config_command(d);
            let p = d.wanted_config.panel_settings@;
            &&& cmd.len() == 130
            &&& cmd[0] == 'w' as u8
            &&& cmd[1] == 128
            &&& cmd[10] == p[7].load_cell_low_threshold && cmd[11] == p[7].load_cell_high_threshold
            &&& cmd[12] == p[4].load_cell_low_threshold && cmd[13] == p[4].load_cell_high_threshold
            &&& cmd[14] == p[2].load_cell_low_threshold && cmd[15] == p[2].load_cell_high_threshold
            &&& cmd[26] == p[1].load_cell_low_threshold && cmd[27] == p[1].load_cell_high_threshold
            &&& cmd[76] == p[0].load_cell_low_threshold && cmd[77] == p[0].load_cell_high_threshold
            &&& cmd[78] == p[3].load_cell_low_threshold && cmd[79] == p[3].load_cell_high_threshold
            &&& cmd[80] == p[5].load_cell_low_threshold && cmd[81] == p[5].load_cell_high_threshold
            &&& cmd[82] == p[6].load_cell_low_threshold && cmd[83] == p[6].load_cell_high_threshold
            &&& cmd[84] == p[8].load_cell_low_threshold && cmd[85] == p[8].load_cell_high_threshold
            &&& cmd.subrange(2, 130) == updated_old_config(d.wanted_config, d.raw_config)
        }),
{
    let w = updated_old_config(d.wanted_config, d.raw_config);
    crate::legacy_config::law_old_record_by_number(d.wanted_config, d.raw_config, 0);
    lemma_two_bytes_in_front(CMD_WRITE_OLD_CONFIG, w.len() as u8, w, write_config_command(d));
}

proof fn lemma_two_bytes_in_front(a: u8, b: u8, w: Seq<u8>, cmd: Seq<u8>)
    requires
        cmd == seq![a, b] + w,
    ensures
        cmd.len() == 2 + w.len(),
        cmd[0] == a,
        cmd[1] == b,
        cmd.subrange(2, 2 + w.len() as int) == w,
        forall|i: int| 2 <= i < 2 + w.len() ==> #[trigger] cmd[i] == w[i - 2],
{
    assert(cmd.subrange(2, 2 + w.len() as int) =~= w);
}

/// What a pad's answer with its configuration in the old format does: the pad is then said
/// to have the configuration `c` that follows from the record, with the thresholds of the
/// nine panels where the old layout has them. The record is kept as it came.
#[verifier::spinoff_prover]
#[verifier::rlimit(30)]
pub proof fn law_old_answer_by_number(d: DeviceView, buf: Seq<u8>, c: SmxConfig)
    requires
        d.conn is Some,
        d.conn->0.got_info,
        !d.send_config,
        buf.len() == 130,
        buf[0] == 'g' as u8,
        buf[1] == 128,
        crate::legacy_config::updated_from_old(buf.subrange(2, 130), d.config, c),
    ensures
        ({
            let after = after_response(d, buf);
            let p = c.panel_settings@;
            &&& config_of(after) == Some(c)
            &&& after.raw_config == buf.subrange(2, 130)
            &&& p[7].load_cell_low_threshold == buf[10] && p[7].load_cell_high_threshold == buf[11]
            &&& p[4].load_cell_low_threshold == buf[12] && p[4].load_cell_high_threshold == buf[13]
            &&& p[2].load_cell_low_threshold == buf[14] && p[2].load_cell_high_threshold == buf[15]
            &&& p[1].load_cell_low_threshold == buf[26] && p[1].load_cell_high_threshold == buf[27]
            &&& 2 <= buf[65] < 255 ==> {
                &&& p[0].load_cell_low_threshold == buf[76]
                &&& p[0].load_cell_high_threshold == buf[77]
                &&& p[3].load_cell_low_threshold == buf[78]
                &&& p[3].load_cell_high_threshold == buf[79]
                &&& p[5].load_cell_low_threshold == buf[80]
                &&& p[5].load_cell_high_threshold == buf[81]
                &&& p[6].load_cell_low_threshold == buf[82]
                &&& p[6].load_cell_high_threshold == buf[83]
                &&& p[8].load_cell_low_threshold == buf[84]
                &&& p[8].load_cell_high_threshold == buf[85]
            }
        }),
{
    let record = buf.subrange(2, 130);
    crate::legacy_config::law_old_config_is_determined(
        record,
        d.config,
        c,
        config_from_old(record, d.config),
    );
    crate::legacy_config::law_old_thresholds_by_number(record, d.config, c);
    assert(forall|i: int| 0 <= i < 128 ==> record[i] == buf[2 + i]);
}

/// What a pad's answer with its configuration in the new format does: as many leading
/// bytes of the configuration as the answer has are replaced, and the pad is then said to
/// have that configuration.
pub proof fn law_new_answer_by_number(d: DeviceView, buf: Seq<u8>, c: SmxConfig, i: int)
    requires
        d.conn is Some,
        d.conn->0.got_info,
        !d.send_config,
        buf.len() >= 2,
        buf.len() >= 2 + buf[1],
        buf[0] == 'G' as u8,
        config_bytes(c) == overwritten(d.config, buf.subrange(2, 2 + buf[1])),
        0 <= i < 250,
    ensures
        config_of(after_response(d, buf)) == Some(c),
        i < buf[1] ==> config_bytes(c)[i] == buf[2 + i],
        i >= buf[1] ==> config_bytes(c)[i] == config_bytes(d.config)[i],
{
    let payload = buf.subrange(2, 2 + buf[1]);
    crate::config::law_bytes_determine_config(
        config_of_bytes(overwritten(d.config, payload)),
        c,
    );
}

/// The words of a sensor test answer stand from byte 3 on, low byte first, and byte 2 says
/// how many there are.
pub proof fn law_sensor_words_by_number(buf: Seq<u8>, i: int)
    requires
        buf.len() >= 3,
        0 <= i < buf[2],
    ensures
        sensor_words(buf).len() == buf[2],
        sensor_words(buf)[i] == buf[3 + 2 * i] + 256 * buf[4 + 2 * i],
{
}

/// A sensor test answer that is waited for, of the mode that is on, is what the pad then
/// reports, and the next request may go. An answer of another mode is not.
pub proof fn law_sensor_answer_is_taken(d: DeviceView, buf: Seq<u8>, out: SensorTestData)
    requires
        d.conn is Some,
        buf.len() >= 3,
        buf.len() >= 3 + 2 * buf[2],
        buf[0] == 'y' as u8,
        crate::sensor::is_sensor_data(
            sensor_words(buf),
            d.conn->0.info.firmware_version,
            out,
        ),
    ensures
        ({
            let after = after_response(d, buf);
            let is_mode = buf[1] == sensor_request(d.mode)[1] && '0' as u8 <= buf[1] <= '3' as u8;
            &&& is_mode && d.waiting_for == d.mode ==> {
                &&& after.sensor_data == out
                &&& after.have_sensor_data
                &&& after.waiting_for == SensorTestMode::Off
                &&& d.listening ==> after.events == d.events.push(
                    EventView::SensorTestData { pad: d.pad_index, data: out },
                )
            }
            &&& !is_mode ==> after.sensor_data == d.sensor_data && after.events == d.events
        }),
{
    crate::sensor::law_modes_are_digits(d.mode, buf[1]);
    crate::sensor::law_sensor_data_is_determined(
        sensor_words(buf),
        d.conn->0.info.firmware_version,
        out,
        sensor_data_of(sensor_words(buf), d.conn->0.info.firmware_version),
    );
}

/// When sensor data is asked for: at once when a test is turned on, then a thirtieth of a
/// second after the last request if that is answered, and two seconds after it if not.
pub proof fn law_sensor_requests_by_number(d: DeviceView, now: u64)
    requires
        d.mode != SensorTestMode::Off,
    ensures
        d.requested_at is None ==> sensor_is_due(d, now),
        d.requested_at is Some && d.waiting_for == SensorTestMode::Off ==> (sensor_is_due(d, now)
            <==> now - d.requested_at->0 >= 33_333_333),
        d.requested_at is Some && d.waiting_for != SensorTestMode::Off ==> (sensor_is_due(d, now)
            <==> now - d.requested_at->0 >= 2_000_000_000),
{
}

/// A configuration that waits is sent at once when none was sent before, else a second
/// after the last one, and is then asked for.
pub proof fn law_config_writes_by_number(d: DeviceView, now: u64, later: u64)
    requires
        is_connected(d),
        d.send_config,
        d.delay_config_until is None,
        now <= u64::MAX - 1_000_000_000,
    ensures
        ({
            let after = with_config_sent(d, now);
            let q = after.conn->0.queue;
            let n = d.conn->0.queue.len() as int;
            &&& config_is_due(d, now)
            &&& q.len() == n + 2
            &&& q[n] == new_command(write_config_command(d), None, false)
            &&& q[n + 1] == new_command(
                config_request(d.conn->0.info.firmware_version),
                None,
                false,
            )
            &&& config_is_due(DeviceView { send_config: true, ..after }, later) <==> later >= now
                + 1_000_000_000
        }),
{
}

/// Responses are taken in the order in which they came.
pub proof fn law_responses_are_taken_in_order(d: DeviceView, a: Seq<u8>, b: Seq<u8>)
    ensures
        after_responses(d, seq![a, b], 2) == after_response(after_response(d, a), b),
{
    reveal_with_fuel(after_responses, 3);
}

/// An old record that is cut short counts as if zeros followed.
pub proof fn law_short_record_ends_in_zeros(payload: Seq<u8>, i: int)
    requires
        0 <= i < 128,
    ensures
        padded_record(payload).len() >= 128,
        i < payload.len() ==> padded_record(payload)[i] == payload[i],
        i >= payload.len() ==> padded_record(payload)[i] == 0,
{
}

/// A pad that has said who it is and is not active yet is made active and asked for its
/// configuration, and for nothing else.
pub proof fn law_new_pad_is_asked_for_its_config(d: DeviceView)
    requires
        d.conn is Some,
        d.conn->0.got_info,
        !d.conn->0.active,
    ensures
        activated(d).conn is Some,
        activated(d).conn->0.active,
        activated(d).conn->0.queue == d.conn->0.queue.push(
            new_command(config_request(d.conn->0.info.firmware_version), None, false),
        ),
{
}

/// A pad has a serial number of its own unless all its digits are `0` and `f`. What is
/// known of a connected pad is what it said of itself.
pub proof fn law_info_is_what_the_pad_said(d: DeviceView)
    requires
        is_connected(d),
    ensures
        info_of(d).connected,
        info_of(d).is_player2 == d.conn->0.info.is_player2,
        info_of(d).serial == d.conn->0.info.serial,
        info_of(d).firmware_version == d.conn->0.info.firmware_version,
        (forall|i: int|
            0 <= i < d.conn->0.info.serial.len() ==> #[trigger] d.conn->0.info.serial[i] == '0'
                || d.conn->0.info.serial[i] == 'f') <==> !info_of(d).has_serial_number,
{
}

} // verus!
