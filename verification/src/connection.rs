//! One connection to a pad: what its USB polling side and its command side know,
//! and how reports and commands change it.
//!
//! Nothing here touches the wire. The polling thread hands over the packets it has
//! read ([`PollHandle::poll`]); the writer thread takes the packets of one command
//! at a time ([`CommandHandle::take_write_job`]) and says how the write went
//! ([`CommandHandle::write_finished`]).

use std::collections::VecDeque;

use vstd::prelude::*;

use crate::error::SmxError;
use crate::protocol::{
    build_command_packets, build_device_info_request, byte_views, command_packets, copy_bytes,
    copy_range, device_info_request, elapsed, finishes_command, from_le16, law_report6_round_trip,
    packet_bytes, parse_report6, parsed, read_le16, reassembled, report6, time_since,
    PacketReassembler, PacketView, ParsedPacket, ReassemblerView, COMMAND_TIMEOUT, HID_REPORT_DATA,
    HID_REPORT_INPUT_STATE, PACKET_FLAG_DEVICE_INFO, PACKET_FLAG_END_OF_COMMAND,
    PACKET_FLAG_HOST_CMD_FINISHED, PACKET_FLAG_START_OF_COMMAND,
};

verus! {

/// A device that was found on the bus.
#[derive(Clone, Debug)]
pub struct HidDeviceInfo {
    pub path: String,
    pub product: String,
}

// ─── Device info ─────────────────────────────────────────────────────────────

/// What a device says about itself when it is connected.
#[derive(Clone, Debug)]
pub struct SmxDeviceInfo {
    pub is_player2: bool,
    pub serial: String,
    pub firmware_version: u16,
}

/// What a device says about itself, as a value.
#[verifier::ext_equal]
pub ghost struct DeviceInfoView {
    pub is_player2: bool,
    pub serial: Seq<char>,
    pub firmware_version: u16,
}

impl View for SmxDeviceInfo {
    type V = DeviceInfoView;

    open spec fn view(&self) -> DeviceInfoView {
        DeviceInfoView {
            is_player2: self.is_player2,
            serial: self.serial@,
            firmware_version: self.firmware_version,
        }
    }
}

/// Nothing known of a device.
pub open spec fn no_device_info() -> DeviceInfoView {
    DeviceInfoView { is_player2: false, serial: Seq::empty(), firmware_version: 0 }
}

/// Bytes of a device info packet.
pub const DEVICE_INFO_SIZE: usize = 23;

/// The byte that a device jumpered for player 2 sends, `1`.
pub const PLAYER_2: u8 = 0x31;

/// The lower case hexadecimal digit of a value below 16.
pub open spec fn hex_digit(d: u8) -> char {
    if d == 0 {
        '0'
    } else if d == 1 {
        '1'
    } else if d == 2 {
        '2'
    } else if d == 3 {
        '3'
    } else if d == 4 {
        '4'
    } else if d == 5 {
        '5'
    } else if d == 6 {
        '6'
    } else if d == 7 {
        '7'
    } else if d == 8 {
        '8'
    } else if d == 9 {
        '9'
    } else if d == 10 {
        'a'
    } else if d == 11 {
        'b'
    } else if d == 12 {
        'c'
    } else if d == 13 {
        'd'
    } else if d == 14 {
        'e'
    } else {
        'f'
    }
}

/// Bytes in hexadecimal, two digits each.
pub open spec fn hex(bytes: Seq<u8>) -> Seq<char> {
    Seq::new(
        2 * bytes.len(),
        |i: int|
            if i % 2 == 0 {
                hex_digit((bytes[i / 2] / 16) as u8)
            } else {
                hex_digit((bytes[i / 2] % 16) as u8)
            },
    )
}

fn hex_digit_text(d: u8) -> (s: &'static str)
    requires
        d < 16,
    ensures
        s@ == seq![hex_digit(d)],
{
    proof {
        reveal_strlit("0");
        reveal_strlit("1");
        reveal_strlit("2");
        reveal_strlit("3");
        reveal_strlit("4");
        reveal_strlit("5");
        reveal_strlit("6");
        reveal_strlit("7");
        reveal_strlit("8");
        reveal_strlit("9");
        reveal_strlit("a");
        reveal_strlit("b");
        reveal_strlit("c");
        reveal_strlit("d");
        reveal_strlit("e");
        reveal_strlit("f");
    }
    let s: &'static str = match d {
        0 => "0",
        1 => "1",
        2 => "2",
        3 => "3",
        4 => "4",
        5 => "5",
        6 => "6",
        7 => "7",
        8 => "8",
        9 => "9",
        10 => "a",
        11 => "b",
        12 => "c",
        13 => "d",
        14 => "e",
        _ => "f",
    };
    assert(s@ =~= seq![hex_digit(d)]);
    s
}

/// Writes bytes in hexadecimal.
pub fn hex_encode(bytes: &[u8]) -> (s: String)
    ensures
        s@ == hex(bytes@),
{
    let mut s: String = String::new();
    let mut i: usize = 0;
    assert(s@ =~= hex(bytes@.take(0)));
    while i < bytes.len()
        invariant
            i <= bytes@.len(),
            s@ == hex(bytes@.take(i as int)),
        decreases bytes@.len() - i,
    {
        let ghost before = s@;
        s.append(hex_digit_text(bytes[i] / 16));
        s.append(hex_digit_text(bytes[i] % 16));
        assert(s@ =~= hex(bytes@.take(i + 1)));
        i = i + 1;
    }
    assert(bytes@.take(i as int) =~= bytes@);
    s
}

/// What a device info packet says; nothing if it is too short.
pub open spec fn device_info_of(payload: Seq<u8>) -> DeviceInfoView {
    if payload.len() < DEVICE_INFO_SIZE {
        no_device_info()
    } else {
        DeviceInfoView {
            is_player2: payload[2] == PLAYER_2,
            serial: hex(payload.subrange(4, 20)),
            firmware_version: from_le16(payload[20], payload[21]),
        }
    }
}

/// Reads a device info packet.
pub fn parse_device_info(payload: &[u8]) -> (info: SmxDeviceInfo)
    ensures
        info@ == device_info_of(payload@),
{
    if payload.len() < DEVICE_INFO_SIZE {
        let info = SmxDeviceInfo {
            is_player2: false,
            serial: String::new(),
            firmware_version: 0,
        };
        assert(info@ =~= no_device_info());
        info
    } else {
        let serial = copy_range(payload, 4, 20);
        SmxDeviceInfo {
            is_player2: payload[2] == PLAYER_2,
            serial: hex_encode(serial.as_slice()),
            firmware_version: read_le16(payload[20], payload[21]),
        }
    }
}

// ─── Shared state ────────────────────────────────────────────────────────────

/// What the polling thread, the writer thread and the main thread share.
pub struct SharedState {
    /// Current panel press bitmask.
    pub input_state: u16,
    /// Whether every input packet counts, not just changes.
    pub always_fire_input: bool,
    /// A read has failed.
    pub had_read_error: bool,
    /// A write has failed.
    pub had_write_error: bool,
    /// A command's packets are with the writer and not fully on the wire yet.
    pub write_in_flight: bool,
    /// Report 6 packets that the main thread has not consumed yet.
    pub report6_buffer: Vec<u8>,
}

/// The shared state as a value.
#[verifier::ext_equal]
pub ghost struct SharedView {
    pub input_state: u16,
    pub always_fire_input: bool,
    pub had_read_error: bool,
    pub had_write_error: bool,
    pub write_in_flight: bool,
    pub report6: Seq<u8>,
}

impl View for SharedState {
    type V = SharedView;

    open spec fn view(&self) -> SharedView {
        SharedView {
            input_state: self.input_state,
            always_fire_input: self.always_fire_input,
            had_read_error: self.had_read_error,
            had_write_error: self.had_write_error,
            write_in_flight: self.write_in_flight,
            report6: self.report6_buffer@,
        }
    }
}

/// The shared state of a new connection.
pub open spec fn new_shared() -> SharedView {
    SharedView {
        input_state: 0,
        always_fire_input: false,
        had_read_error: false,
        had_write_error: false,
        write_in_flight: false,
        report6: Seq::empty(),
    }
}

impl SharedState {
    /// No input, no errors, nothing buffered.
    pub fn new() -> (s: Self)
        ensures
            s@ == new_shared(),
    {
        let s = SharedState {
            input_state: 0,
            always_fire_input: false,
            had_read_error: false,
            had_write_error: false,
            write_in_flight: false,
            report6_buffer: Vec::new(),
        };
        assert(s@ =~= new_shared());
        s
    }
}

// ─── Polling ─────────────────────────────────────────────────────────────────

/// The polling side of a connection.
pub struct PollHandle {
    /// Whether anyone listens to input changes.
    pub has_callback: bool,
}

/// What a poll found.
pub struct PollResult {
    /// Report 6 data was buffered.
    pub buffered: bool,
    /// Input states to report, in order.
    pub fired: Vec<u16>,
}

/// How far a poll has come: the input state, what to report and the report 6
/// packets so far.
#[verifier::ext_equal]
pub ghost struct PollProgress {
    pub input_state: u16,
    pub fired: Seq<u16>,
    pub report6: Seq<u8>,
}

/// A poll after one more packet. Packets that are too short or of another kind are
/// ignored.
pub open spec fn after_read(p: PollProgress, read: Seq<u8>, always: bool, listening: bool) -> PollProgress {
    if read.len() >= 3 && read[0] == HID_REPORT_INPUT_STATE {
        let state = from_le16(read[1], read[2]);
        PollProgress {
            input_state: state,
            fired: if listening && (always || state != p.input_state) {
                p.fired.push(state)
            } else {
                p.fired
            },
            report6: p.report6,
        }
    } else if crate::protocol::is_report6(read) {
        PollProgress { report6: p.report6 + read.take(3 + read[2]), ..p }
    } else {
        p
    }
}

/// A poll after the first `n` packets.
pub open spec fn after_reads(
    reads: Seq<Seq<u8>>,
    n: int,
    input_state: u16,
    always: bool,
    listening: bool,
) -> PollProgress
    decreases n,
{
    if n <= 0 {
        PollProgress { input_state, fired: Seq::empty(), report6: Seq::empty() }
    } else {
        after_read(
            after_reads(reads, n - 1, input_state, always, listening),
            reads[n - 1],
            always,
            listening,
        )
    }
}

/// The shared state after a poll. A read error keeps what the input packets said
/// and drops the report 6 packets; after one nothing changes any more.
pub open spec fn polled(s: SharedView, reads: Seq<Seq<u8>>, failed: bool, listening: bool) -> SharedView {
    if s.had_read_error {
        s
    } else {
        let p = after_reads(
            reads,
            reads.len() as int,
            s.input_state,
            s.always_fire_input,
            listening,
        );
        SharedView {
            input_state: p.input_state,
            had_read_error: failed,
            report6: if failed {
                s.report6
            } else {
                s.report6 + p.report6
            },
            ..s
        }
    }
}

/// The input states that a poll reports.
pub open spec fn poll_fires(s: SharedView, reads: Seq<Seq<u8>>, listening: bool) -> Seq<u16> {
    if s.had_read_error {
        Seq::empty()
    } else {
        after_reads(
            reads,
            reads.len() as int,
            s.input_state,
            s.always_fire_input,
            listening,
        ).fired
    }
}

/// Whether a poll buffers report 6 data.
pub open spec fn poll_buffers(s: SharedView, reads: Seq<Seq<u8>>, failed: bool, listening: bool) -> bool {
    !s.had_read_error && !failed && after_reads(
        reads,
        reads.len() as int,
        s.input_state,
        s.always_fire_input,
        listening,
    ).report6.len() > 0
}

impl PollHandle {
    /// Takes in the packets that were read until there were no more, or until a
    /// read failed.
    pub fn poll(&self, shared: &mut SharedState, reads: &Vec<Vec<u8>>, failed: bool) -> (r: PollResult)
        ensures
            final(shared)@ == polled(
                old(shared)@,
                byte_views(reads@),
                failed,
                self.has_callback,
            ),
            r.fired@ == poll_fires(old(shared)@, byte_views(reads@), self.has_callback),
            r.buffered == poll_buffers(
                old(shared)@,
                byte_views(reads@),
                failed,
                self.has_callback,
            ),
    {
        let mut fired: Vec<u16> = Vec::new();
        if shared.had_read_error {
            assert(fired@ =~= Seq::empty());
            return PollResult { buffered: false, fired };
        }
        let ghost start = shared@;
        let ghost views = byte_views(reads@);
        let mut local: Vec<u8> = Vec::new();
        let mut i: usize = 0;
        assert(after_reads(
            views,
            0,
            start.input_state,
            start.always_fire_input,
            self.has_callback,
        ) =~= (PollProgress {
            input_state: shared.input_state,
            fired: fired@,
            report6: local@,
        }));
        while i < reads.len()
            invariant
                i <= reads@.len(),
                views == byte_views(reads@),
                shared@ == (SharedView { input_state: shared.input_state, ..start }),
                after_reads(
                    views,
                    i as int,
                    start.input_state,
                    start.always_fire_input,
                    self.has_callback,
                ) == (PollProgress {
                    input_state: shared.input_state,
                    fired: fired@,
                    report6: local@,
                }),
            decreases reads@.len() - i,
        {
            let read = &reads[i];
            assert(views[i as int] == read@);
            if read.len() >= 3 && read[0] == HID_REPORT_INPUT_STATE {
                let state: u16 = read_le16(read[1], read[2]);
                let changed = state != shared.input_state;
                if changed {
                    shared.input_state = state;
                }
                if self.has_callback && (changed || shared.always_fire_input) {
                    fired.push(state);
                }
            } else if read.len() >= 3 && read[0] == HID_REPORT_DATA {
                let len: usize = 3 + read[2] as usize;
                if read.len() >= len {
                    let packet = copy_range(read.as_slice(), 0, len);
                    let ghost before = local@;
                    local.extend_from_slice(packet.as_slice());
                    assert(read@.take(3 + read@[2]) =~= packet@);
                    assert(local@ =~= before + read@.take(3 + read@[2]));
                }
            }
            i = i + 1;
        }
        if failed {
            shared.had_read_error = true;
            return PollResult { buffered: false, fired };
        }
        let buffered = local.len() > 0;
        shared.report6_buffer.extend_from_slice(local.as_slice());
        assert(shared.report6_buffer@ =~= start.report6 + local@);
        PollResult { buffered, fired }
    }

    /// The current input state.
    pub fn input_state(&self, shared: &SharedState) -> (state: u16)
        ensures
            state == shared@.input_state,
    {
        shared.input_state
    }

    /// Whether a read has failed.
    pub fn has_read_error(&self, shared: &SharedState) -> (failed: bool)
        ensures
            failed == shared@.had_read_error,
    {
        shared.had_read_error
    }
}

// ─── Commands ────────────────────────────────────────────────────────────────

/// Identifies the completion callback of a command to its owner.
pub type CommandCallback = u64;

/// One command's packets, for the writer.
pub type WriteJob = Vec<[u8; 64]>;

/// A command that waits to be sent or for its response.
pub struct PendingCommand {
    /// Packets to send one after the other.
    pub packets: Vec<[u8; 64]>,
    /// Who wants to know the response.
    pub callback: Option<CommandCallback>,
    /// This is a device info request.
    pub is_device_info: bool,
    /// This is a panel lights command.
    pub is_lights: bool,
    /// All packets are on the wire.
    pub sent: bool,
    /// When that was.
    pub sent_at: Option<u64>,
}

/// A command as a value.
#[verifier::ext_equal]
pub ghost struct CommandView {
    pub packets: Seq<Seq<u8>>,
    pub callback: Option<u64>,
    pub is_device_info: bool,
    pub is_lights: bool,
    pub sent: bool,
    pub sent_at: Option<u64>,
}

impl View for PendingCommand {
    type V = CommandView;

    open spec fn view(&self) -> CommandView {
        CommandView {
            packets: packet_bytes(self.packets@),
            callback: self.callback,
            is_device_info: self.is_device_info,
            is_lights: self.is_lights,
            sent: self.sent,
            sent_at: self.sent_at,
        }
    }
}

/// Commands as values.
pub open spec fn commands(q: Seq<PendingCommand>) -> Seq<CommandView> {
    Seq::new(q.len(), |i: int| q[i]@)
}

/// Write jobs as values.
pub open spec fn jobs(q: Seq<WriteJob>) -> Seq<Seq<Seq<u8>>> {
    Seq::new(q.len(), |i: int| packet_bytes(q[i]@))
}

/// A response, and whom it is for.
pub struct Completion {
    pub callback: CommandCallback,
    pub response: Vec<u8>,
}

/// Completions as values.
pub open spec fn completion_views(c: Seq<Completion>) -> Seq<(u64, Seq<u8>)> {
    Seq::new(c.len(), |i: int| (c[i].callback, c[i].response@))
}

/// The command side of a connection.
pub struct CommandHandle {
    pub path: String,
    pub shared: SharedState,
    /// The pad sends input updates and takes commands.
    pub active: bool,
    /// Device info has come.
    pub got_info: bool,
    pub device_info: SmxDeviceInfo,
    pub reassembler: PacketReassembler,
    /// Responses that nobody has read yet.
    pub read_buffers: VecDeque<Vec<u8>>,
    pub pending_commands: VecDeque<PendingCommand>,
    pub current_command: Option<PendingCommand>,
    /// What the writer has to send.
    pub outbox: VecDeque<WriteJob>,
    /// Responses to report.
    pub completions: Vec<Completion>,
    /// The writer still takes commands.
    pub writer_open: bool,
}

/// The command side of a connection as a value.
#[verifier::ext_equal]
pub ghost struct HandleView {
    pub path: Seq<char>,
    pub shared: SharedView,
    pub active: bool,
    pub got_info: bool,
    pub info: DeviceInfoView,
    pub reassembler: ReassemblerView,
    pub inbox: Seq<Seq<u8>>,
    pub queue: Seq<CommandView>,
    pub current: Option<CommandView>,
    pub outbox: Seq<Seq<Seq<u8>>>,
    pub completions: Seq<(u64, Seq<u8>)>,
    pub writer_open: bool,
}

impl View for CommandHandle {
    type V = HandleView;

    open spec fn view(&self) -> HandleView {
        HandleView {
            path: self.path@,
            shared: self.shared@,
            active: self.active,
            got_info: self.got_info,
            info: self.device_info@,
            reassembler: self.reassembler@,
            inbox: byte_views(self.read_buffers@),
            queue: commands(self.pending_commands@),
            current: match self.current_command {
                Some(c) => Some(c@),
                None => None,
            },
            outbox: jobs(self.outbox@),
            completions: completion_views(self.completions@),
            writer_open: self.writer_open,
        }
    }
}

/// A command that waits to be sent.
pub open spec fn new_command(cmd: Seq<u8>, callback: Option<u64>, is_lights: bool) -> CommandView {
    CommandView {
        packets: command_packets(cmd),
        callback,
        is_device_info: false,
        is_lights,
        sent: false,
        sent_at: None,
    }
}

/// The device info request that waits to be sent.
pub open spec fn info_request(callback: Option<u64>) -> CommandView {
    CommandView {
        packets: seq![device_info_request()],
        callback,
        is_device_info: true,
        is_lights: false,
        sent: false,
        sent_at: None,
    }
}

/// A connection with one more command at the end of its queue.
pub open spec fn queued(h: HandleView, cmd: CommandView) -> HandleView {
    HandleView { queue: h.queue.push(cmd), ..h }
}

/// A connection with one more command at the front of its queue.
pub open spec fn queued_first(h: HandleView, cmd: CommandView) -> HandleView {
    HandleView { queue: seq![cmd] + h.queue, ..h }
}

/// A connection on which a plain command was queued.
pub open spec fn sent(h: HandleView, cmd: Seq<u8>) -> HandleView {
    queued(h, new_command(cmd, None, false))
}

/// A connection that has told a callback, if there is one, the response.
pub open spec fn completed(h: HandleView, callback: Option<u64>, response: Seq<u8>) -> HandleView {
    match callback {
        Some(t) => HandleView { completions: h.completions.push((t, response)), ..h },
        None => h,
    }
}

/// Whether a lights command is in a queue.
pub open spec fn has_lights(q: Seq<CommandView>) -> bool {
    exists|i: int| 0 <= i < q.len() && (#[trigger] q[i]).is_lights
}

/// The first `n` commands of a queue without the lights commands.
pub open spec fn without_lights(q: Seq<CommandView>, n: int) -> Seq<CommandView>
    decreases n,
{
    if n <= 0 {
        Seq::empty()
    } else if q[n - 1].is_lights {
        without_lights(q, n - 1)
    } else {
        without_lights(q, n - 1).push(q[n - 1])
    }
}

/// The answers that the first `n` commands of a queue get when they are cancelled:
/// nothing, to each that has a callback.
pub open spec fn cancelled(q: Seq<CommandView>, n: int) -> Seq<(u64, Seq<u8>)>
    decreases n,
{
    if n <= 0 {
        Seq::empty()
    } else {
        match q[n - 1].callback {
            Some(t) => cancelled(q, n - 1).push((t, Seq::empty())),
            None => cancelled(q, n - 1),
        }
    }
}

/// A closed connection: all commands cancelled, the one in flight first.
pub open spec fn closed(h: HandleView) -> HandleView {
    let h1 = match h.current {
        Some(c) => completed(h, c.callback, Seq::empty()),
        None => h,
    };
    HandleView {
        completions: h1.completions + cancelled(h.queue, h.queue.len() as int),
        current: None,
        queue: Seq::empty(),
        inbox: Seq::empty(),
        active: false,
        got_info: false,
        ..h
    }
}

/// A connection after a packet from the device.
///
/// Device info counts only as the answer to a request. Fragments count only while
/// the connection is active; each response that they complete goes to the inbox,
/// and one that says so finishes the command in flight.
pub open spec fn after_packet(h: HandleView, raw: Seq<u8>) -> HandleView {
    match parsed(raw) {
        None => h,
        Some(packet) => match packet {
            PacketView::DeviceInfo(payload) => if h.current is Some
                && h.current->0.is_device_info {
                completed(
                    HandleView {
                        info: device_info_of(payload),
                        got_info: true,
                        current: None,
                        ..h
                    },
                    h.current->0.callback,
                    payload,
                )
            } else {
                h
            },
            PacketView::Fragment { .. } => if !h.active {
                h
            } else {
                let r = reassembled(h.reassembler, packet);
                let inbox = h.inbox + r.completed;
                let h1 = HandleView {
                    reassembler: ReassemblerView { partial: r.partial, completed: Seq::empty() },
                    inbox,
                    ..h
                };
                if finishes_command(packet) && h.current is Some {
                    completed(
                        HandleView { current: None, ..h1 },
                        h.current->0.callback,
                        if inbox.len() > 0 {
                            inbox.last()
                        } else {
                            Seq::empty()
                        },
                    )
                } else {
                    h1
                }
            },
        },
    }
}

/// A connection after all whole packets at the front of `data`; what is left stays
/// buffered.
pub open spec fn after_data(h: HandleView, data: Seq<u8>) -> HandleView
    decreases data.len(),
{
    if data.len() < 3 || data.len() < 3 + data[2] {
        HandleView { shared: SharedView { report6: data, ..h.shared }, ..h }
    } else {
        after_data(after_packet(h, data.take(3 + data[2])), data.skip(3 + data[2]))
    }
}

/// Whether the command in flight has waited too long for its response.
pub open spec fn is_overdue(h: HandleView, now: u64) -> bool {
    h.current matches Some(c) && c.sent && c.sent_at is Some && elapsed(now, c.sent_at->0)
        > COMMAND_TIMEOUT
}

/// A connection that queues an overdue command again, in front.
pub open spec fn retried(h: HandleView, now: u64) -> HandleView {
    if is_overdue(h, now) {
        HandleView {
            current: None,
            queue: seq![CommandView { sent: false, sent_at: None, ..h.current->0 }] + h.queue,
            ..h
        }
    } else {
        h
    }
}

/// A connection that has consumed what was buffered.
pub open spec fn after_reading(h: HandleView, now: u64) -> HandleView {
    let h1 = retried(h, now);
    after_data(h1, h1.shared.report6)
}

/// A connection that has handed the next command to the writer, if none is in
/// flight, or has noted that the one in flight is on the wire.
pub open spec fn after_writing(h: HandleView, now: u64) -> HandleView {
    match h.current {
        Some(c) => if !c.sent && !h.shared.write_in_flight {
            HandleView {
                current: Some(CommandView { sent: true, sent_at: Some(now), ..c }),
                ..h
            }
        } else {
            h
        },
        None => if h.queue.len() == 0 {
            h
        } else if h.writer_open {
            HandleView {
                shared: SharedView { write_in_flight: true, ..h.shared },
                outbox: h.outbox.push(h.queue[0].packets),
                current: Some(h.queue[0]),
                queue: h.queue.skip(1),
                ..h
            }
        } else {
            completed(
                HandleView {
                    shared: SharedView { write_in_flight: false, ..h.shared },
                    queue: h.queue.skip(1),
                    ..h
                },
                h.queue[0].callback,
                Seq::empty(),
            )
        },
    }
}

/// Whether the next command can be handed over, or there is none.
pub open spec fn writing_works(h: HandleView) -> bool {
    h.current is Some || h.queue.len() == 0 || h.writer_open
}

/// Whether a read or a write has failed.
pub open spec fn is_broken(h: HandleView) -> bool {
    h.shared.had_read_error || h.shared.had_write_error
}

/// A connection after one pass over its input and output.
pub open spec fn updated(h: HandleView, now: u64) -> HandleView {
    if is_broken(h) {
        h
    } else {
        after_writing(after_reading(h, now), now)
    }
}

/// Whether a pass over input and output goes well.
pub open spec fn update_works(h: HandleView, now: u64) -> bool {
    !is_broken(h) && writing_works(after_reading(h, now))
}

fn copy_packets(packets: &Vec<[u8; 64]>) -> (r: Vec<[u8; 64]>)
    ensures
        r@ == packets@,
{
    let mut r: Vec<[u8; 64]> = Vec::new();
    let mut i: usize = 0;
    while i < packets.len()
        invariant
            i <= packets@.len(),
            r@ == packets@.take(i as int),
        decreases packets@.len() - i,
    {
        r.push(packets[i]);
        i = i + 1;
        assert(r@ =~= packets@.take(i as int));
    }
    assert(r@ =~= packets@);
    r
}

impl CommandHandle {
    /// The device path.
    pub fn path(&self) -> (path: &str)
        ensures
            path@ == self@.path,
    {
        self.path.as_str()
    }

    /// Whether device info has come.
    pub fn is_connected_with_info(&self) -> (r: bool)
        ensures
            r == self@.got_info,
    {
        self.got_info
    }

    /// What the device said about itself.
    pub fn device_info(&self) -> (info: &SmxDeviceInfo)
        ensures
            info@ == self@.info,
    {
        &self.device_info
    }

    /// The current input state.
    pub fn input_state(&self) -> (state: u16)
        ensures
            state == self@.shared.input_state,
    {
        self.shared.input_state
    }

    /// Sets whether the device is active.
    pub fn set_active(&mut self, active: bool)
        ensures
            final(self)@ == (HandleView { active, ..old(self)@ }),
    {
        self.active = active;
    }

    /// Whether the device is active.
    pub fn is_active(&self) -> (r: bool)
        ensures
            r == self@.active,
    {
        self.active
    }

    /// Sets whether every input packet is reported.
    pub fn set_always_fire_input(&mut self, always: bool)
        ensures
            final(self)@ == (HandleView {
                shared: SharedView { always_fire_input: always, ..old(self)@.shared },
                ..old(self)@
            }),
    {
        self.shared.always_fire_input = always;
    }

    /// Whether a read has failed.
    pub fn has_read_error(&self) -> (r: bool)
        ensures
            r == self@.shared.had_read_error,
    {
        self.shared.had_read_error
    }

    /// Puts a command at the end of the queue.
    fn push_command(&mut self, cmd: PendingCommand)
        ensures
            final(self)@ == queued(old(self)@, cmd@),
    {
        self.pending_commands.push_back(cmd);
        assert(commands(self.pending_commands@) =~= commands(old(self).pending_commands@).push(
            cmd@,
        ));
    }

    /// Queues a command.
    pub fn send_command(&mut self, cmd: &[u8], callback: Option<CommandCallback>)
        ensures
            final(self)@ == queued(old(self)@, new_command(cmd@, callback, false)),
    {
        let packets = build_command_packets(cmd);
        self.push_command(
            PendingCommand {
                packets,
                callback,
                is_device_info: false,
                is_lights: false,
                sent: false,
                sent_at: None,
            },
        );
    }

    /// Queues a command ahead of all others.
    pub fn send_command_priority(&mut self, cmd: &[u8], callback: Option<CommandCallback>)
        ensures
            final(self)@ == queued_first(old(self)@, new_command(cmd@, callback, false)),
    {
        let packets = build_command_packets(cmd);
        let pending = PendingCommand {
            packets,
            callback,
            is_device_info: false,
            is_lights: false,
            sent: false,
            sent_at: None,
        };
        self.pending_commands.push_front(pending);
        assert(commands(self.pending_commands@) =~= seq![pending@] + commands(
            old(self).pending_commands@,
        ));
    }

    /// Queues a panel lights command.
    pub fn send_command_lights(&mut self, cmd: &[u8])
        ensures
            final(self)@ == queued(old(self)@, new_command(cmd@, None, true)),
    {
        let packets = build_command_packets(cmd);
        self.push_command(
            PendingCommand {
                packets,
                callback: None,
                is_device_info: false,
                is_lights: true,
                sent: false,
                sent_at: None,
            },
        );
    }

    /// Whether a lights command waits to be sent, one in flight not counted.
    pub fn has_unsent_lights(&self) -> (r: bool)
        ensures
            r == has_lights(self@.queue),
    {
        let mut i: usize = 0;
        while i < self.pending_commands.len()
            invariant
                i <= self.pending_commands@.len(),
                forall|j: int| 0 <= j < i ==> !(#[trigger] self@.queue[j]).is_lights,
            decreases self.pending_commands@.len() - i,
        {
            assert(self@.queue[i as int] == self.pending_commands@[i as int]@);
            if self.pending_commands[i].is_lights {
                assert(self@.queue[i as int].is_lights);
                return true;
            }
            i = i + 1;
        }
        false
    }

    /// Drops the lights commands that wait to be sent.
    pub fn drop_queued_lights(&mut self)
        ensures
            final(self)@ == (HandleView {
                queue: without_lights(old(self)@.queue, old(self)@.queue.len() as int),
                ..old(self)@
            }),
    {
        let ghost all = self.pending_commands@;
        let mut kept: VecDeque<PendingCommand> = VecDeque::new();
        let ghost mut done: int = 0;
        assert(commands(kept@) =~= without_lights(commands(all), 0));
        assert(self.pending_commands@ =~= all.skip(0));
        while self.pending_commands.len() > 0
            invariant
                0 <= done <= all.len(),
                all == old(self).pending_commands@,
                self.pending_commands@ == all.skip(done),
                commands(kept@) == without_lights(commands(all), done),
                *self == (CommandHandle { pending_commands: self.pending_commands, ..*old(self) }),
            decreases self.pending_commands@.len(),
        {
            let ghost before = kept@;
            if let Some(cmd) = self.pending_commands.pop_front() {
                assert(cmd == all[done]);
                assert(commands(all)[done] == cmd@);
                if !cmd.is_lights {
                    kept.push_back(cmd);
                    assert(commands(kept@) =~= commands(before).push(cmd@));
                }
            }
            proof {
                assert(self.pending_commands@ =~= all.skip(done + 1));
                done = done + 1;
            }
        }
        self.pending_commands = kept;
    }

    /// Takes the oldest response that nobody has read.
    pub fn read_packet(&mut self) -> (packet: Option<Vec<u8>>)
        ensures
            match packet {
                Some(p) => old(self)@.inbox.len() > 0 && p@ == old(self)@.inbox[0] && final(self)@
                    == (HandleView { inbox: old(self)@.inbox.skip(1), ..old(self)@ }),
                None => old(self)@.inbox.len() == 0 && final(self)@ == old(self)@,
            },
    {
        let packet = self.read_buffers.pop_front();
        proof {
            if packet is Some {
                assert(byte_views(self.read_buffers@) =~= byte_views(old(self).read_buffers@).skip(
                    1,
                ));
            }
        }
        packet
    }

    /// One pass over input and output: consumes what was buffered and hands over
    /// the next command. On an error the device is to be disconnected.
    pub fn update(&mut self, now: u64) -> (r: Result<(), SmxError>)
        ensures
            final(self)@ == updated(old(self)@, now),
            r is Ok <==> update_works(old(self)@, now),
            r matches Err(e) ==> e is NotConnected,
    {
        if self.shared.had_read_error || self.shared.had_write_error {
            return Err(SmxError::NotConnected);
        }
        self.check_reads(now);
        self.check_writes(now)
    }

    /// Whether the writer has nothing in flight.
    pub fn writes_idle(&self) -> (r: bool)
        ensures
            r == !self@.shared.write_in_flight,
    {
        !self.shared.write_in_flight
    }

    /// Cancels all commands; their callbacks get nothing.
    pub fn close(&mut self)
        ensures
            final(self)@ == closed(old(self)@),
    {
        let ghost h = self@;
        let current = self.current_command.take();
        if let Some(cmd) = current {
            self.complete(cmd.callback, Vec::new());
            assert(self@.completions =~= completed(h, cmd@.callback, Seq::empty()).completions);
        }
        let ghost start = self@;
        let ghost q = self@.queue;
        let ghost all = self.pending_commands@;
        let ghost mut done: int = 0;
        assert(self@.completions =~= start.completions + cancelled(q, 0));
        assert(self.pending_commands@ =~= all.skip(0));
        while self.pending_commands.len() > 0
            invariant
                0 <= done <= all.len(),
                q == commands(all),
                self.pending_commands@ == all.skip(done),
                self@ == (HandleView {
                    queue: self@.queue,
                    completions: start.completions + cancelled(q, done),
                    ..start
                }),
            decreases self.pending_commands@.len(),
        {
            if let Some(cmd) = self.pending_commands.pop_front() {
                assert(cmd == all[done]);
                assert(q[done] == cmd@);
                let ghost before = self@.completions;
                self.complete(cmd.callback, Vec::new());
                assert(self@.completions =~= start.completions + cancelled(q, done + 1));
            }
            proof {
                assert(self.pending_commands@ =~= all.skip(done + 1));
                done = done + 1;
            }
        }
        self.read_buffers.clear();
        self.active = false;
        self.got_info = false;
        assert(self@.queue =~= Seq::empty());
        assert(self@.inbox =~= Seq::empty());
        assert(self@ =~= closed(h));
    }

    /// Takes the next command's packets for the writer.
    pub fn take_write_job(&mut self) -> (job: Option<WriteJob>)
        ensures
            match job {
                Some(p) => old(self)@.outbox.len() > 0 && packet_bytes(p@) == old(self)@.outbox[0]
                    && final(self)@ == (HandleView {
                    outbox: old(self)@.outbox.skip(1),
                    ..old(self)@
                }),
                None => old(self)@.outbox.len() == 0 && final(self)@ == old(self)@,
            },
    {
        let job = self.outbox.pop_front();
        proof {
            if job is Some {
                assert(jobs(self.outbox@) =~= jobs(old(self).outbox@).skip(1));
            }
        }
        job
    }

    /// Notes that the writer is done with a command; after a failure it takes no
    /// more.
    pub fn write_finished(&mut self, failed: bool)
        ensures
            final(self)@ == (HandleView {
                shared: SharedView {
                    write_in_flight: false,
                    had_write_error: old(self)@.shared.had_write_error || failed,
                    ..old(self)@.shared
                },
                writer_open: old(self)@.writer_open && !failed,
                ..old(self)@
            }),
    {
        if failed {
            self.shared.had_write_error = true;
            self.writer_open = false;
        }
        self.shared.write_in_flight = false;
    }

    /// Notes that the writer takes no more commands.
    pub fn writer_closed(&mut self)
        ensures
            final(self)@ == (HandleView { writer_open: false, ..old(self)@ }),
    {
        self.writer_open = false;
    }

    /// Hands out the responses to report.
    pub fn take_completions(&mut self) -> (c: Vec<Completion>)
        ensures
            completion_views(c@) == old(self)@.completions,
            final(self)@ == (HandleView { completions: Seq::empty(), ..old(self)@ }),
    {
        let mut c: Vec<Completion> = Vec::new();
        std::mem::swap(&mut c, &mut self.completions);
        assert(self@.completions =~= Seq::empty());
        c
    }

    // ─── Private ─────────────────────────────────────────────────────────────

    fn complete(&mut self, callback: Option<CommandCallback>, response: Vec<u8>)
        ensures
            final(self)@ == completed(old(self)@, callback, response@),
            final(self).pending_commands == old(self).pending_commands,
    {
        if let Some(t) = callback {
            self.completions.push(Completion { callback: t, response });
            assert(completion_views(self.completions@) =~= completion_views(
                old(self).completions@,
            ).push((t, response@)));
        }
    }

    fn check_reads(&mut self, now: u64)
        ensures
            final(self)@ == after_reading(old(self)@, now),
    {
        self.retry_overdue(now);
        let ghost h = self@;
        let mut data: Vec<u8> = Vec::new();
        std::mem::swap(&mut data, &mut self.shared.report6_buffer);
        proof {
            lemma_buffer_is_replaced(self@, h, data@);
        }
        self.consume(&data);
    }

    /// Queues the command in flight again if it is overdue.
    fn retry_overdue(&mut self, now: u64)
        ensures
            final(self)@ == retried(old(self)@, now),
    {
        let overdue = match &self.current_command {
            Some(cmd) => cmd.sent && match cmd.sent_at {
                Some(at) => time_since(now, at) > COMMAND_TIMEOUT,
                None => false,
            },
            None => false,
        };
        if overdue {
            if let Some(cmd) = self.current_command.take() {
                let again = PendingCommand { sent: false, sent_at: None, ..cmd };
                self.pending_commands.push_front(again);
                assert(commands(self.pending_commands@) =~= seq![again@] + commands(
                    old(self).pending_commands@,
                ));
            }
        }
    }

    /// Takes in the whole packets at the front of `data`; what is left is buffered.
    fn consume(&mut self, data: &Vec<u8>)
        ensures
            final(self)@ == after_data(old(self)@, data@),
    {
        let ghost h = self@;
        let mut offset: usize = 0;
        assert(data@.skip(0) =~= data@);
        while data.len() - offset >= 3
            invariant
                offset <= data@.len(),
                after_data(self@, data@.skip(offset as int)) == after_data(h, data@),
            ensures
                data@.len() - offset < 3 || data@.len() - offset < 3 + data@[offset + 2],
            decreases data@.len() - offset,
        {
            let len: usize = 3 + data[offset + 2] as usize;
            if data.len() - offset < len {
                break ;
            }
            let packet = copy_range(data.as_slice(), offset, offset + len);
            let ghost left = data@.skip(offset as int);
            let ghost before = self@;
            assert(packet@ =~= left.take(len as int));
            self.handle_packet(&packet);
            proof {
                lemma_next_packet(before, left, len as int);
                assert(left.skip(len as int) =~= data@.skip(offset + len));
            }
            offset = offset + len;
        }
        let rest = copy_range(data.as_slice(), offset, data.len());
        assert(rest@ =~= data@.skip(offset as int));
        let ghost before = self@;
        self.shared.report6_buffer = rest;
        proof {
            lemma_no_packet(before, rest@);
        }
    }

    fn handle_packet(&mut self, raw: &Vec<u8>)
        ensures
            final(self)@ == after_packet(old(self)@, raw@),
    {
        let Some(packet) = parse_report6(raw.as_slice()) else {
            return ;
        };
        match packet {
            ParsedPacket::DeviceInfo(payload) => {
                let expected = match &self.current_command {
                    Some(cmd) => cmd.is_device_info,
                    None => false,
                };
                if !expected {
                    return ;
                }
                self.device_info = parse_device_info(payload.as_slice());
                self.got_info = true;
                if let Some(cmd) = self.current_command.take() {
                    self.complete(cmd.callback, payload);
                }
            },
            ParsedPacket::Fragment { .. } => {
                if !self.active {
                    return ;
                }
                let finished = self.reassembler.push(&packet);
                let responses = self.reassembler.take_completed();
                self.store_responses(responses);
                if finished {
                    if let Some(cmd) = self.current_command.take() {
                        let n: usize = self.read_buffers.len();
                        let response = if n > 0 {
                            copy_bytes(&self.read_buffers[n - 1])
                        } else {
                            Vec::new()
                        };
                        assert(response@ =~= if self@.inbox.len() > 0 {
                            self@.inbox.last()
                        } else {
                            Seq::empty()
                        });
                        self.complete(cmd.callback, response);
                    }
                }
            },
        }
        assert(self@ =~= after_packet(old(self)@, raw@));
    }

    /// Puts whole responses into the inbox.
    fn store_responses(&mut self, responses: Vec<Vec<u8>>)
        ensures
            final(self)@ == (HandleView {
                inbox: old(self)@.inbox + byte_views(responses@),
                ..old(self)@
            }),
    {
        let mut i: usize = 0;
        assert(self@.inbox =~= old(self)@.inbox + byte_views(responses@).take(0));
        while i < responses.len()
            invariant
                i <= responses@.len(),
                self@ == (HandleView {
                    inbox: old(self)@.inbox + byte_views(responses@).take(i as int),
                    ..old(self)@
                }),
            decreases responses@.len() - i,
        {
            let ghost before = self@.inbox;
            self.read_buffers.push_back(copy_bytes(&responses[i]));
            assert(self@.inbox =~= before.push(byte_views(responses@)[i as int]));
            i = i + 1;
            assert(self@.inbox =~= old(self)@.inbox + byte_views(responses@).take(i as int));
        }
        assert(byte_views(responses@).take(i as int) =~= byte_views(responses@));
    }

    fn check_writes(&mut self, now: u64) -> (r: Result<(), SmxError>)
        ensures
            final(self)@ == after_writing(old(self)@, now),
            r is Ok <==> writing_works(old(self)@),
            r matches Err(e) ==> e is NotConnected,
    {
        if let Some(cmd) = &mut self.current_command {
            if !cmd.sent && !self.shared.write_in_flight {
                cmd.sent = true;
                cmd.sent_at = Some(now);
            }
            return Ok(());
        }
        let Some(cmd) = self.pending_commands.pop_front() else {
            return Ok(());
        };
        assert(commands(self.pending_commands@) =~= commands(old(self).pending_commands@).skip(1));
        assert(cmd@ == old(self)@.queue[0]);
        if !self.writer_open {
            self.shared.write_in_flight = false;
            self.complete(cmd.callback, Vec::new());
            return Err(SmxError::NotConnected);
        }
        self.shared.write_in_flight = true;
        let job = copy_packets(&cmd.packets);
        self.outbox.push_back(job);
        assert(jobs(self.outbox@) =~= jobs(old(self).outbox@).push(cmd@.packets));
        self.current_command = Some(cmd);
        Ok(())
    }

    /// Queues a device info request.
    pub fn request_device_info(&mut self, callback: Option<CommandCallback>)
        ensures
            final(self)@ == queued(old(self)@, info_request(callback)),
    {
        let mut packets: Vec<[u8; 64]> = Vec::new();
        packets.push(build_device_info_request());
        assert(packet_bytes(packets@) =~= seq![device_info_request()]);
        self.push_command(
            PendingCommand {
                packets,
                callback,
                is_device_info: true,
                is_lights: false,
                sent: false,
                sent_at: None,
            },
        );
    }
}

/// The connection to a device that was just opened.
pub open spec fn new_connection(path: Seq<char>) -> HandleView {
    HandleView {
        path,
        shared: new_shared(),
        active: false,
        got_info: false,
        info: no_device_info(),
        reassembler: ReassemblerView { partial: Seq::empty(), completed: Seq::empty() },
        inbox: Seq::empty(),
        queue: seq![info_request(None)],
        current: None,
        outbox: Seq::empty(),
        completions: Seq::empty(),
        writer_open: true,
    }
}

/// Makes the two sides of a connection to a device that was just opened. The first
/// thing it will send is a device info request.
pub fn open_connection(path: String, has_callback: bool) -> (r: (PollHandle, CommandHandle))
    ensures
        r.0.has_callback == has_callback,
        r.1@ == new_connection(path@),
{
    let mut handle = CommandHandle {
        path,
        shared: SharedState::new(),
        active: false,
        got_info: false,
        device_info: SmxDeviceInfo {
            is_player2: false,
            serial: String::new(),
            firmware_version: 0,
        },
        reassembler: PacketReassembler::new(),
        read_buffers: VecDeque::new(),
        pending_commands: VecDeque::new(),
        current_command: None,
        outbox: VecDeque::new(),
        completions: Vec::new(),
        writer_open: true,
    };
    handle.request_device_info(None);
    assert(handle@ =~= new_connection(path@));
    (PollHandle { has_callback }, handle)
}

proof fn lemma_next_packet(h: HandleView, data: Seq<u8>, len: int)
    requires
        data.len() >= 3,
        len == 3 + data[2],
        len <= data.len(),
    ensures
        after_data(h, data) == after_data(after_packet(h, data.take(len)), data.skip(len)),
{
}

proof fn lemma_no_packet(h: HandleView, data: Seq<u8>)
    requires
        data.len() < 3 || data.len() < 3 + data[2],
    ensures
        after_data(h, data) == (HandleView {
            shared: SharedView { report6: data, ..h.shared },
            ..h
        }),
{
}

proof fn lemma_buffer_is_replaced(a: HandleView, b: HandleView, data: Seq<u8>)
    requires
        a == (HandleView { shared: SharedView { report6: a.shared.report6, ..b.shared }, ..b }),
    ensures
        after_data(a, data) == after_data(b, data),
    decreases data.len(),
{
    if data.len() < 3 || data.len() < 3 + data[2] {
    } else {
        let packet = data.take(3 + data[2]);
        assert(after_packet(a, packet) == (HandleView {
            shared: SharedView { report6: a.shared.report6, ..after_packet(b, packet).shared },
            ..after_packet(b, packet)
        }));
        lemma_buffer_is_replaced(
            after_packet(a, packet),
            after_packet(b, packet),
            data.skip(3 + data[2]),
        );
    }
}

// ─── Laws ────────────────────────────────────────────────────────────────────

proof fn lemma_packet_keeps_the_writer(h: HandleView, raw: Seq<u8>)
    ensures
        after_packet(h, raw).outbox == h.outbox,
        after_packet(h, raw).queue == h.queue,
        after_packet(h, raw).path == h.path,
        after_packet(h, raw).active == h.active,
        after_packet(h, raw).writer_open == h.writer_open,
        after_packet(h, raw).current == h.current || after_packet(h, raw).current is None,
{
}

proof fn lemma_data_keeps_the_writer(h: HandleView, data: Seq<u8>)
    ensures
        after_data(h, data).outbox == h.outbox,
        after_data(h, data).queue == h.queue,
        after_data(h, data).path == h.path,
        after_data(h, data).active == h.active,
        after_data(h, data).writer_open == h.writer_open,
        after_data(h, data).current == h.current || after_data(h, data).current is None,
    decreases data.len(),
{
    if data.len() < 3 || data.len() < 3 + data[2] {
    } else {
        let packet = data.take(3 + data[2]);
        lemma_packet_keeps_the_writer(h, packet);
        lemma_data_keeps_the_writer(after_packet(h, packet), data.skip(3 + data[2]));
    }
}

/// The states that the first `n` packets with input say, in order.
pub open spec fn input_states(reads: Seq<Seq<u8>>, n: int) -> Seq<u16>
    decreases n,
{
    if n <= 0 {
        Seq::empty()
    } else if reads[n - 1].len() >= 3 && reads[n - 1][0] == HID_REPORT_INPUT_STATE {
        input_states(reads, n - 1).push(from_le16(reads[n - 1][1], reads[n - 1][2]))
    } else {
        input_states(reads, n - 1)
    }
}

/// Unless every packet counts, a poll reports changes and nothing else: no state is
/// reported twice in a row, the first is not the one before the poll, and the last is
/// the one after it. If nothing is reported, nothing has changed.
pub proof fn law_only_changes_are_reported(reads: Seq<Seq<u8>>, n: int, state: u16)
    requires
        0 <= n <= reads.len(),
    ensures
        ({
            let p = after_reads(reads, n, state, false, true);
            &&& p.fired.len() == 0 ==> p.input_state == state
            &&& p.fired.len() > 0 ==> p.fired[0] != state && p.fired.last() == p.input_state
            &&& forall|i: int, j: int|
                0 <= i < p.fired.len() && j == i + 1 && j < p.fired.len() ==> (
                #[trigger] p.fired[i]) != #[trigger] p.fired[j]
        }),
    decreases n,
{
    if n > 0 {
        law_only_changes_are_reported(reads, n - 1, state);
    }
}

/// If every packet counts, a poll reports the state of every packet with input, in
/// order.
pub proof fn law_every_packet_is_reported(reads: Seq<Seq<u8>>, n: int, state: u16)
    requires
        0 <= n <= reads.len(),
    ensures
        after_reads(reads, n, state, true, true).fired == input_states(reads, n),
    decreases n,
{
    if n > 0 {
        law_every_packet_is_reported(reads, n - 1, state);
    }
}

/// Whoever listens, and to what, the input state after a poll is what the last packet
/// with input said.
pub proof fn law_last_input_counts(
    reads: Seq<Seq<u8>>,
    n: int,
    state: u16,
    always: bool,
    listening: bool,
)
    requires
        0 <= n <= reads.len(),
    ensures
        after_reads(reads, n, state, always, listening).input_state == if input_states(
            reads,
            n,
        ).len() == 0 {
            state
        } else {
            input_states(reads, n).last()
        },
    decreases n,
{
    if n > 0 {
        law_last_input_counts(reads, n - 1, state, always, listening);
    }
}

/// Commands go out one at a time and in order: a pass either hands nothing to the
/// writer, or exactly one command. That happens only when none is in flight; the
/// command is the front of the queue and is then the one in flight.
pub proof fn law_one_command_at_a_time(h: HandleView, now: u64)
    ensures
        updated(h, now).outbox == h.outbox || {
            let next = after_reading(h, now).queue[0];
            &&& after_reading(h, now).current is None
            &&& after_reading(h, now).queue.len() > 0
            &&& updated(h, now).outbox == h.outbox.push(next.packets)
            &&& updated(h, now).current == Some(next)
            &&& updated(h, now).queue == after_reading(h, now).queue.skip(1)
        },
{
    let h1 = retried(h, now);
    lemma_data_keeps_the_writer(h1, h1.shared.report6);
}

/// A command that waits for its response is left alone by reading anything that
/// does not answer it: it stays in flight, or is over.
pub proof fn law_reading_keeps_or_ends_the_command(h: HandleView, now: u64)
    requires
        !is_overdue(h, now),
    ensures
        after_reading(h, now).current == h.current || after_reading(h, now).current is None,
        after_reading(h, now).queue == h.queue,
{
    lemma_data_keeps_the_writer(h, h.shared.report6);
}

/// An urgent command is the very next to go out, however long the queue is.
pub proof fn law_priority_goes_next(h: HandleView, cmd: CommandView, now: u64)
    requires
        h.current is None,
        h.writer_open,
    ensures
        after_writing(queued_first(h, cmd), now).current == Some(cmd),
        after_writing(queued_first(h, cmd), now).outbox == h.outbox.push(cmd.packets),
        after_writing(queued_first(h, cmd), now).queue == h.queue,
{
    assert((seq![cmd] + h.queue).skip(1) =~= h.queue);
    assert((seq![cmd] + h.queue)[0] == cmd);
}

/// The answer to a device info request makes the device known, as what the answer
/// says, and ends the request.
pub proof fn law_device_info_is_taken(h: HandleView, flags: u8, payload: Seq<u8>)
    requires
        h.current is Some,
        h.current->0.is_device_info,
        flags & PACKET_FLAG_DEVICE_INFO != 0,
        payload.len() <= u8::MAX,
    ensures
        after_packet(h, report6(flags, payload)).got_info,
        after_packet(h, report6(flags, payload)).info == device_info_of(payload),
        after_packet(h, report6(flags, payload)).current is None,
{
    law_report6_round_trip(flags, payload);
}

/// A whole response in one packet that says the command is finished ends it: its
/// callback gets the response, and so does whoever reads the inbox.
pub proof fn law_response_ends_the_command(h: HandleView, flags: u8, payload: Seq<u8>, t: u64)
    requires
        h.active,
        h.current is Some,
        h.current->0.callback == Some(t),
        flags & PACKET_FLAG_DEVICE_INFO == 0,
        flags & PACKET_FLAG_START_OF_COMMAND != 0,
        flags & PACKET_FLAG_END_OF_COMMAND != 0,
        flags & PACKET_FLAG_HOST_CMD_FINISHED != 0,
        payload.len() <= u8::MAX,
    ensures
        after_packet(h, report6(flags, payload)).current is None,
        after_packet(h, report6(flags, payload)).completions == h.completions.push((t, payload)),
        after_packet(h, report6(flags, payload)).inbox.last() == payload,
{
    law_report6_round_trip(flags, payload);
    let r = reassembled(h.reassembler, parsed(report6(flags, payload))->0);
    assert((h.inbox + r.completed).last() == r.completed.last());
}

/// A command that got no answer in time is sent again before anything else, with
/// the same packets and for the same callback.
pub proof fn law_overdue_command_is_first_again(h: HandleView, now: u64)
    requires
        is_overdue(h, now),
    ensures
        retried(h, now).current is None,
        retried(h, now).queue.len() == h.queue.len() + 1,
        retried(h, now).queue[0].packets == h.current->0.packets,
        retried(h, now).queue[0].callback == h.current->0.callback,
        !retried(h, now).queue[0].sent,
        retried(h, now).queue.skip(1) == h.queue,
{
    assert(retried(h, now).queue.skip(1) =~= h.queue);
}

/// Once a read or a write has failed the connection is over: passes change nothing
/// and report the error, and polls report no input.
pub proof fn law_broken_stays_broken(
    h: HandleView,
    now: u64,
    reads: Seq<Seq<u8>>,
    failed: bool,
    listening: bool,
)
    ensures
        is_broken(h) ==> updated(h, now) == h && !update_works(h, now),
        h.shared.had_read_error ==> polled(h.shared, reads, failed, listening) == h.shared
            && poll_fires(h.shared, reads, listening).len() == 0 && !poll_buffers(
            h.shared,
            reads,
            failed,
            listening,
        ),
        failed ==> polled(h.shared, reads, failed, listening).had_read_error,
{
}

proof fn lemma_without_lights(q: Seq<CommandView>, n: int)
    requires
        0 <= n <= q.len(),
    ensures
        !has_lights(without_lights(q, n)),
        forall|i: int|
            0 <= i < n && !(#[trigger] q[i]).is_lights ==> without_lights(q, n).contains(q[i]),
        !has_lights(q.take(n)) ==> without_lights(q, n) == q.take(n),
    decreases n,
{
    if n > 0 {
        lemma_without_lights(q, n - 1);
        let before = without_lights(q, n - 1);
        let now = without_lights(q, n);
        assert(q.take(n - 1) =~= q.take(n).drop_last());
        assert forall|i: int| 0 <= i < n && !(#[trigger] q[i]).is_lights implies now.contains(
            q[i],
        ) by {
            if i < n - 1 {
                assert(before.contains(q[i]));
                let k = choose|k: int| 0 <= k < before.len() && before[k] == q[i];
                assert(now[k] == q[i]);
            } else {
                assert(now[now.len() - 1] == q[i]);
            }
        }
        if !has_lights(q.take(n)) {
            assert(!q.take(n)[n - 1].is_lights);
            assert forall|i: int| 0 <= i < n - 1 implies !(#[trigger] q.take(n
                - 1)[i]).is_lights by {
                assert(!q.take(n)[i].is_lights);
            }
            assert(now =~= q.take(n));
        }
        assert forall|k: int| 0 <= k < now.len() implies !(#[trigger] now[k]).is_lights by {
            if k < before.len() {
                assert(!before[k].is_lights);
                assert(now[k] == before[k]);
            }
        }
    } else {
        assert(q.take(0) =~= Seq::empty());
    }
}

/// Dropping the queued lights drops exactly them: no lights command is left, every
/// other command is still there, and a queue without lights is not touched.
pub proof fn law_only_lights_are_dropped(q: Seq<CommandView>)
    ensures
        !has_lights(without_lights(q, q.len() as int)),
        forall|i: int|
            0 <= i < q.len() && !(#[trigger] q[i]).is_lights ==> without_lights(
                q,
                q.len() as int,
            ).contains(q[i]),
        !has_lights(q) ==> without_lights(q, q.len() as int) == q,
{
    lemma_without_lights(q, q.len() as int);
    assert(q.take(q.len() as int) =~= q);
}

/// How often a callback waits in a queue.
pub open spec fn waiting_in(q: Seq<CommandView>, t: u64) -> int
    decreases q.len(),
{
    if q.len() == 0 {
        0
    } else {
        waiting_in(q.drop_last(), t) + waits(q.last(), t)
    }
}

/// 1 if the command is for the callback, else 0.
pub open spec fn waits(c: CommandView, t: u64) -> int {
    if c.callback == Some(t) {
        1
    } else {
        0
    }
}

/// How often a callback was answered.
pub open spec fn answered_in(c: Seq<(u64, Seq<u8>)>, t: u64) -> int
    decreases c.len(),
{
    if c.len() == 0 {
        0
    } else {
        answered_in(c.drop_last(), t) + if c.last().0 == t {
            1int
        } else {
            0int
        }
    }
}

/// How often a callback waits on a connection, in flight or in the queue.
pub open spec fn waiting_on(h: HandleView, t: u64) -> int {
    waiting_in(h.queue, t) + match h.current {
        Some(c) => waits(c, t),
        None => 0,
    }
}

/// How often a callback waits or was answered.
pub open spec fn accounted_for(h: HandleView, t: u64) -> int {
    waiting_on(h, t) + answered_in(h.completions, t)
}

proof fn lemma_waiting_push(q: Seq<CommandView>, c: CommandView, t: u64)
    ensures
        waiting_in(q.push(c), t) == waiting_in(q, t) + waits(c, t),
{
    assert(q.push(c).drop_last() =~= q);
}

proof fn lemma_waiting_front(c: CommandView, q: Seq<CommandView>, t: u64)
    ensures
        waiting_in(seq![c] + q, t) == waits(c, t) + waiting_in(q, t),
    decreases q.len(),
{
    if q.len() == 0 {
        assert((seq![c] + q).drop_last() =~= Seq::<CommandView>::empty());
        assert((seq![c] + q).last() == c);
        assert(waiting_in(Seq::<CommandView>::empty(), t) == 0);
    } else {
        assert((seq![c] + q).drop_last() =~= seq![c] + q.drop_last());
        assert((seq![c] + q).last() == q.last());
        lemma_waiting_front(c, q.drop_last(), t);
    }
}

proof fn lemma_answered_push(c: Seq<(u64, Seq<u8>)>, x: (u64, Seq<u8>), t: u64)
    ensures
        answered_in(c.push(x), t) == answered_in(c, t) + if x.0 == t {
            1int
        } else {
            0int
        },
{
    assert(c.push(x).drop_last() =~= c);
}

proof fn lemma_answered_sum(a: Seq<(u64, Seq<u8>)>, b: Seq<(u64, Seq<u8>)>, t: u64)
    ensures
        answered_in(a + b, t) == answered_in(a, t) + answered_in(b, t),
    decreases b.len(),
{
    if b.len() == 0 {
        assert(a + b =~= a);
    } else {
        assert((a + b).drop_last() =~= a + b.drop_last());
        assert((a + b).last() == b.last());
        lemma_answered_sum(a, b.drop_last(), t);
    }
}

proof fn lemma_cancelled(q: Seq<CommandView>, n: int, t: u64)
    requires
        0 <= n <= q.len(),
    ensures
        answered_in(cancelled(q, n), t) == waiting_in(q.take(n), t),
    decreases n,
{
    if n > 0 {
        lemma_cancelled(q, n - 1, t);
        assert(q.take(n) =~= q.take(n - 1).push(q[n - 1]));
        lemma_waiting_push(q.take(n - 1), q[n - 1], t);
        match q[n - 1].callback {
            Some(u) => {
                lemma_answered_push(cancelled(q, n - 1), (u, Seq::empty()), t);
            },
            None => {},
        }
    }
}

proof fn lemma_completed_accounts(h: HandleView, callback: Option<u64>, response: Seq<u8>, t: u64)
    ensures
        accounted_for(completed(h, callback, response), t) == accounted_for(h, t) + if callback
            == Some(t) {
            1int
        } else {
            0int
        },
{
    match callback {
        Some(u) => {
            lemma_answered_push(h.completions, (u, response), t);
        },
        None => {},
    }
}

proof fn lemma_packet_accounts(h: HandleView, raw: Seq<u8>, t: u64)
    ensures
        accounted_for(after_packet(h, raw), t) == accounted_for(h, t),
{
    match parsed(raw) {
        None => {},
        Some(packet) => match packet {
            PacketView::DeviceInfo(payload) => {
                if h.current is Some && h.current->0.is_device_info {
                    let h1 = HandleView {
                        info: device_info_of(payload),
                        got_info: true,
                        current: None,
                        ..h
                    };
                    lemma_completed_accounts(h1, h.current->0.callback, payload, t);
                }
            },
            PacketView::Fragment { .. } => {
                if h.active && finishes_command(packet) && h.current is Some {
                    let r = reassembled(h.reassembler, packet);
                    let inbox = h.inbox + r.completed;
                    let h1 = HandleView {
                        reassembler: ReassemblerView {
                            partial: r.partial,
                            completed: Seq::empty(),
                        },
                        inbox,
                        current: None,
                        ..h
                    };
                    lemma_completed_accounts(
                        h1,
                        h.current->0.callback,
                        if inbox.len() > 0 {
                            inbox.last()
                        } else {
                            Seq::empty()
                        },
                        t,
                    );
                }
            },
        },
    }
}

proof fn lemma_data_accounts(h: HandleView, data: Seq<u8>, t: u64)
    ensures
        accounted_for(after_data(h, data), t) == accounted_for(h, t),
    decreases data.len(),
{
    if data.len() < 3 || data.len() < 3 + data[2] {
    } else {
        let packet = data.take(3 + data[2]);
        lemma_packet_accounts(h, packet, t);
        lemma_data_accounts(after_packet(h, packet), data.skip(3 + data[2]), t);
    }
}

/// A callback is answered exactly once: a pass moves it at most from waiting to
/// answered, a retry keeps it waiting, and closing the connection answers all that
/// wait, so that none does any more.
pub proof fn law_callbacks_are_answered_once(h: HandleView, now: u64, t: u64)
    ensures
        accounted_for(updated(h, now), t) == accounted_for(h, t),
        accounted_for(closed(h), t) == accounted_for(h, t),
        waiting_on(closed(h), t) == 0,
{
    let h1 = retried(h, now);
    if is_overdue(h, now) {
        lemma_waiting_front(
            CommandView { sent: false, sent_at: None, ..h.current->0 },
            h.queue,
            t,
        );
    }
    lemma_data_accounts(h1, h1.shared.report6, t);
    let h2 = after_reading(h, now);
    if h2.current is None && h2.queue.len() > 0 {
        assert(h2.queue =~= seq![h2.queue[0]] + h2.queue.skip(1));
        lemma_waiting_front(h2.queue[0], h2.queue.skip(1), t);
        if !h2.writer_open {
            lemma_completed_accounts(
                HandleView {
                    shared: SharedView { write_in_flight: false, ..h2.shared },
                    queue: h2.queue.skip(1),
                    ..h2
                },
                h2.queue[0].callback,
                Seq::empty(),
                t,
            );
        }
    }
    lemma_cancelled(h.queue, h.queue.len() as int, t);
    assert(h.queue.take(h.queue.len() as int) =~= h.queue);
    assert(waiting_in(Seq::<CommandView>::empty(), t) == 0);
    match h.current {
        Some(c) => {
            lemma_completed_accounts(h, c.callback, Seq::empty(), t);
            lemma_answered_sum(
                completed(h, c.callback, Seq::empty()).completions,
                cancelled(h.queue, h.queue.len() as int),
                t,
            );
        },
        None => {
            lemma_answered_sum(h.completions, cancelled(h.queue, h.queue.len() as int), t);
        },
    }
}

/// A queued command adds its callback once to those that wait.
pub proof fn law_queued_callback_waits_once(h: HandleView, cmd: CommandView, t: u64)
    ensures
        waiting_on(queued(h, cmd), t) == waiting_on(h, t) + waits(cmd, t),
        waiting_on(queued_first(h, cmd), t) == waiting_on(h, t) + waits(cmd, t),
{
    lemma_waiting_push(h.queue, cmd, t);
    lemma_waiting_front(cmd, h.queue, t);
}

/// The value of a lower case hexadecimal digit.
pub open spec fn digit_value(c: char) -> int {
    if '0' <= c && c <= '9' {
        c as int - '0' as int
    } else {
        c as int - 'a' as int + 10
    }
}

proof fn lemma_hex_digit_value(d: u8)
    requires
        d < 16,
    ensures
        digit_value(hex_digit(d)) == d,
        ('0' <= hex_digit(d) && hex_digit(d) <= '9') || ('a' <= hex_digit(d) && hex_digit(d)
            <= 'f'),
{
}

/// What device info says, byte by byte: byte 2 is `1` on a pad jumpered for player 2, the
/// serial number stands in the 16 bytes from byte 4 on and is written as two lower case
/// hexadecimal digits for each, the firmware version stands in bytes 20 and 21. Less than
/// 23 bytes say nothing.
pub proof fn law_device_info_by_number(payload: Seq<u8>, i: int)
    requires
        0 <= i < 16,
    ensures
        payload.len() < 23 ==> !device_info_of(payload).is_player2 && device_info_of(
            payload,
        ).serial.len() == 0 && device_info_of(payload).firmware_version == 0,
        payload.len() >= 23 ==> {
            let info = device_info_of(payload);
            &&& info.is_player2 <==> payload[2] == '1' as u8
            &&& info.firmware_version == payload[20] + 256 * payload[21]
            &&& info.serial.len() == 32
            &&& 16 * digit_value(info.serial[2 * i]) + digit_value(info.serial[2 * i + 1])
                == payload[4 + i]
            &&& forall|k: int|
                0 <= k < 32 ==> {
                    let c = #[trigger] info.serial[k];
                    ('0' <= c && c <= '9') || ('a' <= c && c <= 'f')
                }
        },
{
    if payload.len() >= 23 {
        let info = device_info_of(payload);
        let b = payload.subrange(4, 20)[i];
        assert(b == payload[4 + i]);
        lemma_hex_digit_value((b / 16) as u8);
        lemma_hex_digit_value((b % 16) as u8);
        assert((2 * i) / 2 == i && (2 * i + 1) / 2 == i);
        assert forall|k: int| 0 <= k < 32 implies {
            let c = #[trigger] info.serial[k];
            ('0' <= c && c <= '9') || ('a' <= c && c <= 'f')
        } by {
            let v = payload.subrange(4, 20)[k / 2];
            lemma_hex_digit_value((v / 16) as u8);
            lemma_hex_digit_value((v % 16) as u8);
        }
    }
}

/// What a poll makes of a packet, byte by byte: one that begins with 3 gives the input
/// state in bytes 1 and 2, low byte first; one that begins with 6 is kept, as long as it
/// says it is; any other is ignored.
pub proof fn law_polled_packet_by_number(
    p: PollProgress,
    read: Seq<u8>,
    always: bool,
    listening: bool,
)
    ensures
        ({
            let q = after_read(p, read, always, listening);
            let is_input = read.len() >= 3 && read[0] == 3;
            let is_response = read.len() >= 3 && read[0] == 6 && read.len() >= 3 + read[2];
            &&& is_input ==> q.input_state == read[1] + 256 * read[2] && q.report6 == p.report6
            &&& is_input && listening && (always || q.input_state != p.input_state) ==> q.fired
                == p.fired.push(q.input_state)
            &&& is_input && !(listening && (always || q.input_state != p.input_state)) ==> q.fired
                == p.fired
            &&& is_response ==> q.report6 == p.report6 + read.subrange(0, 3 + read[2])
                && q.input_state == p.input_state && q.fired == p.fired
            &&& !is_input && !is_response ==> q == p
        }),
{
}

/// A command that is on the wire is overdue when it has waited for more than two seconds,
/// and not before.
pub proof fn law_overdue_after_two_seconds(h: HandleView, now: u64)
    requires
        h.current is Some,
        h.current->0.sent,
        h.current->0.sent_at is Some,
    ensures
        is_overdue(h, now) <==> now - h.current->0.sent_at->0 > 2_000_000_000,
{
}

proof fn lemma_cancelled_in_order(q: Seq<CommandView>, n: int)
    requires
        0 <= n <= q.len(),
        forall|i: int| 0 <= i < q.len() ==> (#[trigger] q[i]).callback is Some,
    ensures
        cancelled(q, n).len() == n,
        forall|i: int|
            0 <= i < n ==> #[trigger] cancelled(q, n)[i] == (q[i].callback->0, Seq::<u8>::empty()),
    decreases n,
{
    if n > 0 {
        lemma_cancelled_in_order(q, n - 1);
    }
}

/// Closing a connection answers who waits in order, with nothing: the command in flight
/// first, then the queue from its front.
pub proof fn law_closing_answers_in_order(h: HandleView, i: int)
    requires
        h.current is Some,
        h.current->0.callback is Some,
        forall|k: int| 0 <= k < h.queue.len() ==> (#[trigger] h.queue[k]).callback is Some,
        0 <= i < h.queue.len(),
    ensures
        closed(h).completions.len() == h.completions.len() + 1 + h.queue.len(),
        closed(h).completions[h.completions.len() as int] == (
            h.current->0.callback->0,
            Seq::<u8>::empty(),
        ),
        closed(h).completions[h.completions.len() + 1 + i] == (
            h.queue[i].callback->0,
            Seq::<u8>::empty(),
        ),
        closed(h).queue.len() == 0,
        closed(h).current is None,
{
    lemma_cancelled_in_order(h.queue, h.queue.len() as int);
    let c = cancelled(h.queue, h.queue.len() as int);
    assert(c[i] == (h.queue[i].callback->0, Seq::<u8>::empty()));
    let all = h.completions.push((h.current->0.callback->0, Seq::empty())) + c;
    assert(closed(h).completions == all);
    assert(all[h.completions.len() + 1 + i] == c[i]);
}

/// Commands leave in the order in which they were queued: with nothing in flight and
/// nothing to read, the front of the queue goes to the writer, packet for packet, and the
/// rest stays as it is.
pub proof fn law_front_of_the_queue_goes_first(h: HandleView, a: CommandView, b: CommandView, now: u64)
    requires
        h.current is None,
        h.queue.len() == 0,
        h.writer_open,
        !is_broken(h),
        h.shared.report6.len() == 0,
    ensures
        ({
            let after = updated(queued(queued(h, a), b), now);
            &&& after.outbox == h.outbox.push(a.packets)
            &&& after.current == Some(a)
            &&& after.queue == seq![b]
            &&& after.shared.write_in_flight
        }),
{
    let q = queued(queued(h, a), b);
    assert(q.queue.skip(1) =~= seq![b]);
    assert(after_reading(q, now) == after_data(q, q.shared.report6));
    assert(q.shared.report6.len() == 0);
    assert(after_data(q, q.shared.report6).queue == q.queue);
}

/// A command counts as sent from the pass that finds the writer done with it.
pub proof fn law_command_is_sent_when_the_writer_is_done(h: HandleView, now: u64)
    requires
        h.current is Some,
        !h.current->0.sent,
    ensures
        h.shared.write_in_flight ==> after_writing(h, now) == h,
        !h.shared.write_in_flight ==> {
            let c = after_writing(h, now).current;
            &&& c is Some
            &&& c->0.sent
            &&& c->0.sent_at == Some(now)
            &&& c->0.packets == h.current->0.packets
            &&& c->0.callback == h.current->0.callback
            &&& after_writing(h, now).queue == h.queue
        },
{
}

/// Packets that were buffered are taken one after the other, each as long as it says it
/// is; the beginning of one that is not whole yet stays.
pub proof fn law_buffered_packets_are_taken_in_order(h: HandleView, a: Seq<u8>, rest: Seq<u8>)
    requires
        a.len() >= 3,
        a.len() == 3 + a[2],
    ensures
        after_data(h, a + rest) == after_data(after_packet(h, a), rest),
        rest.len() < 3 ==> after_data(h, rest).shared.report6 == rest,
{
    let data = a + rest;
    assert(data.take(3 + data[2]) =~= a);
    assert(data.skip(3 + data[2]) =~= rest);
}

/// A poll that ends in a failed read keeps what the input packets before it said and
/// nothing of the responses; one that does not adds the responses to those that wait.
pub proof fn law_failed_poll_keeps_the_input(
    s: SharedView,
    reads: Seq<Seq<u8>>,
    failed: bool,
    listening: bool,
)
    requires
        !s.had_read_error,
    ensures
        ({
            let after = polled(s, reads, failed, listening);
            let states = input_states(reads, reads.len() as int);
            &&& after.had_read_error == failed
            &&& after.input_state == if states.len() == 0 {
                s.input_state
            } else {
                states.last()
            }
            &&& failed ==> after.report6 == s.report6
            &&& !failed ==> s.report6.len() <= after.report6.len() && after.report6.take(
                s.report6.len() as int,
            ) == s.report6
            &&& after.write_in_flight == s.write_in_flight
        }),
{
    law_last_input_counts(
        reads,
        reads.len() as int,
        s.input_state,
        s.always_fire_input,
        listening,
    );
    if !failed {
        let p = after_reads(
            reads,
            reads.len() as int,
            s.input_state,
            s.always_fire_input,
            listening,
        );
        assert((s.report6 + p.report6).take(s.report6.len() as int) =~= s.report6);
    }
}

} // verus!
