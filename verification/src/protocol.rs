//! The USB wire protocol: report framing, command fragmentation and the
//! reassembly of fragmented responses.
//!
//! Everything the host sends is cut into 64-byte packets
//! `[report 5][flags][payload length][payload][zero padding]`. Everything but the
//! panel state comes back as report 6 packets `[report 6][flags][payload
//! length][payload]`, which a [`PacketReassembler`] joins again.

use vstd::prelude::*;

verus! {

/// First fragment of a command.
pub const PACKET_FLAG_START_OF_COMMAND: u8 = 0x04;

/// Last fragment of a command.
pub const PACKET_FLAG_END_OF_COMMAND: u8 = 0x01;

/// The device has finished the command that the host sent.
pub const PACKET_FLAG_HOST_CMD_FINISHED: u8 = 0x02;

/// Device info request or response.
pub const PACKET_FLAG_DEVICE_INFO: u8 = 0x80;

/// HID report that carries the panel press bitmask.
pub const HID_REPORT_INPUT_STATE: u8 = 0x03;

/// HID report that carries a host command.
pub const HID_REPORT_COMMAND: u8 = 0x05;

/// HID report that carries command responses.
pub const HID_REPORT_DATA: u8 = 0x06;

/// Asks for the configuration, `G`.
pub const CMD_READ_CONFIG: u8 = 0x47;

/// Asks firmware before version 5 for the configuration, `g`.
pub const CMD_READ_OLD_CONFIG: u8 = 0x67;

/// Writes the configuration, `W`.
pub const CMD_WRITE_CONFIG: u8 = 0x57;

/// Writes the configuration of firmware before version 5, `w`.
pub const CMD_WRITE_OLD_CONFIG: u8 = 0x77;

/// Resets a pad to its factory settings, `f`.
pub const CMD_FACTORY_RESET: u8 = 0x66;

/// Makes a pad calibrate itself, `C`.
pub const CMD_RECALIBRATE: u8 = 0x43;

/// Asks for sensor test data, `y`.
pub const CMD_SENSOR_TEST: u8 = 0x79;

/// Turns the firmware's own lighting on or off, `S`.
pub const CMD_AUTO_LIGHTS: u8 = 0x53;

/// Assigns a serial number, `s`.
pub const CMD_SET_SERIAL: u8 = 0x73;

/// Sets the colors of the strip along a pad's edge, `L`.
pub const CMD_PLATFORM_LIGHTS: u8 = 0x4C;

/// Sets all panel lights of old firmware, `l`.
pub const CMD_LEGACY_LIGHTS: u8 = 0x6C;

/// Sets the panel test mode, `t`.
pub const CMD_PANEL_TEST: u8 = 0x74;

/// Sets the inner 3x3 LEDs of all panels, `4`.
pub const CMD_LIGHTS_INNER: u8 = 0x34;

/// Sets the upper two rows of all panels' outer LEDs, `2`.
pub const CMD_LIGHTS_TOP: u8 = 0x32;

/// Sets the lower two rows of all panels' outer LEDs, `3`.
pub const CMD_LIGHTS_BOTTOM: u8 = 0x33;

/// Separates a command from its argument.
pub const SPACE: u8 = 0x20;

/// The digit `0`.
pub const DIGIT_0: u8 = 0x30;

/// The digit `1`.
pub const DIGIT_1: u8 = 0x31;

/// Ends most commands.
pub const END_OF_LINE: u8 = 0x0A;

/// Size of every packet on the wire.
pub const HID_PACKET_SIZE: usize = 64;

/// Largest payload of one packet: what the three header bytes leave.
pub const HID_MAX_PAYLOAD_SIZE: usize = 61;

/// USB vendor ID of the pads.
pub const SMX_USB_VENDOR_ID: u16 = 0x2341;

/// USB product ID of the pads.
pub const SMX_USB_PRODUCT_ID: u16 = 0x8037;

/// USB product string of the pads.
pub const SMX_USB_PRODUCT_STRING: &'static str = "StepManiaX";

/// Panels on one pad.
pub const NUM_PANELS: usize = 9;

/// LEDs of a panel with the outer 4x4 grid only.
pub const LEDS_PER_PANEL_16: usize = 16;

/// LEDs of a panel with the outer 4x4 and the inner 3x3 grid.
pub const LEDS_PER_PANEL_25: usize = 25;

/// Bytes of RGB data for one pad of 16-LED panels.
pub const BYTES_PER_PAD_16: usize = 432;

/// Bytes of RGB data for one pad of 25-LED panels.
pub const BYTES_PER_PAD_25: usize = 675;

/// LEDs of the strip along a pad's edge.
pub const PLATFORM_STRIP_LEDS: usize = 44;

/// Bytes of a device's serial number.
pub const SERIAL_SIZE: usize = 16;

/// Payload of the legacy lights command that turns all panels off.
pub const LEGACY_LIGHTS_PAYLOAD_SIZE: usize = 108;

/// Panel colors are sent as 6666/10000 of the requested value.
pub const LED_COLOR_SCALE_NUMERATOR: u32 = 6666;

/// See [`LED_COLOR_SCALE_NUMERATOR`].
pub const LED_COLOR_SCALE_DENOMINATOR: u32 = 10000;

/// A command unanswered for longer than this is sent again (nanoseconds).
pub const COMMAND_TIMEOUT: u64 = 2_000_000_000;

/// Shortest time between two config writes (nanoseconds).
pub const CONFIG_WRITE_RATE_LIMIT: u64 = 1_000_000_000;

/// A sensor test request unanswered for this long is given up (nanoseconds).
pub const SENSOR_TEST_TIMEOUT: u64 = 2_000_000_000;

/// Shortest time between two sensor test requests, for about 30 a second
/// (nanoseconds).
pub const SENSOR_TEST_INTERVAL: u64 = 33_333_333;

/// Shortest time between two device enumerations (nanoseconds).
pub const ENUMERATION_INTERVAL: u64 = 1_000_000_000;

/// An active panel test mode is sent again after this time (nanoseconds).
pub const PANEL_TEST_REFRESH: u64 = 1_000_000_000;

/// Time between two light frames, for 30 a second (nanoseconds).
pub const LIGHTS_FRAME_INTERVAL: u64 = 33_333_333;

/// Time between the two halves of a light frame on old firmware (nanoseconds).
pub const LIGHTS_LEGACY_COMMAND_DELAY: u64 = 16_666_667;

/// Lights set by hand pause the automatic animation for this long (nanoseconds).
pub const ANIMATION_PAUSE_DURATION: u64 = 100_000_000;

// ─── Byte order ──────────────────────────────────────────────────────────────

/// The two bytes of `v`, low byte first.
pub open spec fn le16(v: u16) -> Seq<u8> {
    seq![(v % 256) as u8, (v / 256) as u8]
}

/// The value of two bytes, low byte first.
pub open spec fn from_le16(lo: u8, hi: u8) -> u16 {
    (lo + 256 * hi) as u16
}

/// Reads two bytes, low byte first.
pub fn read_le16(lo: u8, hi: u8) -> (v: u16)
    ensures
        v == from_le16(lo, hi),
        v == lo + 256 * hi,
{
    lo as u16 + 256 * (hi as u16)
}

/// Splitting a value into two bytes and reading them back gives the value.
pub proof fn lemma_le16_round_trip(v: u16)
    ensures
        from_le16(le16(v)[0], le16(v)[1]) == v,
{
}

// ─── Panel bits ──────────────────────────────────────────────────────────────

/// The weight of a panel's bit in a word with a bit for each panel: 1 for the first
/// panel, and twice as much for each next one.
pub open spec fn panel_weight(panel: int) -> int {
    if panel == 0 {
        1
    } else if panel == 1 {
        2
    } else if panel == 2 {
        4
    } else if panel == 3 {
        8
    } else if panel == 4 {
        16
    } else if panel == 5 {
        32
    } else if panel == 6 {
        64
    } else if panel == 7 {
        128
    } else {
        256
    }
}

/// A panel's bit is the binary digit of its weight.
pub proof fn lemma_panel_bit_is_a_digit(word: u16, panel: int)
    requires
        0 <= panel < 9,
    ensures
        (word >> (panel as u16)) & 1 != 0 <==> (word as int / panel_weight(panel)) % 2 == 1,
{
    let p = panel as u16;
    assert(p == 0 ==> ((word >> p) & 1 != 0 <==> (word / 1) % 2 == 1)) by (bit_vector);
    assert(p == 1 ==> ((word >> p) & 1 != 0 <==> (word / 2) % 2 == 1)) by (bit_vector);
    assert(p == 2 ==> ((word >> p) & 1 != 0 <==> (word / 4) % 2 == 1)) by (bit_vector);
    assert(p == 3 ==> ((word >> p) & 1 != 0 <==> (word / 8) % 2 == 1)) by (bit_vector);
    assert(p == 4 ==> ((word >> p) & 1 != 0 <==> (word / 16) % 2 == 1)) by (bit_vector);
    assert(p == 5 ==> ((word >> p) & 1 != 0 <==> (word / 32) % 2 == 1)) by (bit_vector);
    assert(p == 6 ==> ((word >> p) & 1 != 0 <==> (word / 64) % 2 == 1)) by (bit_vector);
    assert(p == 7 ==> ((word >> p) & 1 != 0 <==> (word / 128) % 2 == 1)) by (bit_vector);
    assert(p == 8 ==> ((word >> p) & 1 != 0 <==> (word / 256) % 2 == 1)) by (bit_vector);
}

// ─── Time ────────────────────────────────────────────────────────────────────

/// The time `delay` after `t`; the clock stops at its end instead of wrapping.
pub open spec fn time_after(t: u64, delay: u64) -> u64 {
    if t + delay > u64::MAX {
        u64::MAX
    } else {
        (t + delay) as u64
    }
}

/// The time that has passed at `now` since `then`; none if `then` lies ahead.
pub open spec fn elapsed(now: u64, then: u64) -> u64 {
    if now > then {
        (now - then) as u64
    } else {
        0
    }
}

/// Computes [`time_after`].
pub fn add_time(t: u64, delay: u64) -> (r: u64)
    ensures
        r == time_after(t, delay),
{
    if delay > u64::MAX - t {
        u64::MAX
    } else {
        t + delay
    }
}

/// Computes [`elapsed`].
pub fn time_since(now: u64, then: u64) -> (r: u64)
    ensures
        r == elapsed(now, then),
{
    if now > then {
        now - then
    } else {
        0
    }
}

// ─── Host to device ──────────────────────────────────────────────────────────

/// `n` zero bytes.
pub open spec fn zeros(n: int) -> Seq<u8> {
    Seq::new(n as nat, |i: int| 0u8)
}

/// A packet as it goes over the wire.
pub open spec fn wire_packet(flags: u8, payload: Seq<u8>) -> Seq<u8> {
    seq![HID_REPORT_COMMAND, flags, payload.len() as u8] + payload + zeros(
        HID_MAX_PAYLOAD_SIZE - payload.len(),
    )
}

/// How many packets a command of `len` bytes takes: an empty one takes one too.
pub open spec fn packet_count(len: int) -> int {
    if len <= HID_MAX_PAYLOAD_SIZE {
        1
    } else {
        (len + HID_MAX_PAYLOAD_SIZE - 1) / (HID_MAX_PAYLOAD_SIZE as int)
    }
}

/// The part of `cmd` that packet `i` carries.
pub open spec fn packet_payload(cmd: Seq<u8>, i: int) -> Seq<u8> {
    let from = i * HID_MAX_PAYLOAD_SIZE;
    let to = if from + HID_MAX_PAYLOAD_SIZE < cmd.len() {
        from + HID_MAX_PAYLOAD_SIZE
    } else {
        cmd.len() as int
    };
    cmd.subrange(from, to)
}

/// The flags of packet `i`: the first one starts the command, the last one ends
/// it.
pub open spec fn packet_flags(cmd: Seq<u8>, i: int) -> u8 {
    let start: int = if i == 0 {
        PACKET_FLAG_START_OF_COMMAND as int
    } else {
        0
    };
    let end: int = if i == packet_count(cmd.len() as int) - 1 {
        PACKET_FLAG_END_OF_COMMAND as int
    } else {
        0
    };
    (start + end) as u8
}

/// The packets of `cmd`, in the order in which they are sent.
pub open spec fn command_packets(cmd: Seq<u8>) -> Seq<Seq<u8>> {
    Seq::new(
        packet_count(cmd.len() as int) as nat,
        |i: int| wire_packet(packet_flags(cmd, i), packet_payload(cmd, i)),
    )
}

/// The bytes of packets held in arrays.
pub open spec fn packet_bytes(packets: Seq<[u8; 64]>) -> Seq<Seq<u8>> {
    Seq::new(packets.len(), |i: int| packets[i]@)
}

/// The packet that asks for a device's info.
pub open spec fn device_info_request() -> Seq<u8> {
    seq![HID_REPORT_COMMAND, PACKET_FLAG_DEVICE_INFO] + zeros(62)
}

/// Writes one packet of a command.
fn build_packet(flags: u8, cmd: &[u8], from: usize, len: usize) -> (packet: [u8; 64])
    requires
        from + len <= cmd@.len(),
        len <= HID_MAX_PAYLOAD_SIZE,
    ensures
        packet@ == wire_packet(flags, cmd@.subrange(from as int, from + len)),
{
    let mut packet: [u8; 64] = [0u8; 64];
    packet[0] = HID_REPORT_COMMAND;
    packet[1] = flags;
    packet[2] = len as u8;
    let total: usize = cmd.len();
    let mut i: usize = 0;
    while i < len
        invariant
            i <= len,
            from + len <= total,
            total == cmd@.len(),
            len <= HID_MAX_PAYLOAD_SIZE,
            packet@.len() == 64,
            packet@[0] == HID_REPORT_COMMAND,
            packet@[1] == flags,
            packet@[2] == len as u8,
            forall|j: int| 3 <= j < 3 + i ==> packet@[j] == cmd@[from + j - 3],
            forall|j: int| 3 + i <= j < 64 ==> packet@[j] == 0,
        decreases len - i,
    {
        packet[3 + i] = cmd[from + i];
        i = i + 1;
    }
    assert(packet@ =~= wire_packet(flags, cmd@.subrange(from as int, from + len)));
    packet
}

/// Cuts a command into the packets that carry it.
pub fn build_command_packets(cmd: &[u8]) -> (packets: Vec<[u8; 64]>)
    ensures
        packet_bytes(packets@) == command_packets(cmd@),
{
    let mut packets: Vec<[u8; 64]> = Vec::new();
    let mut offset: usize = 0;
    let ghost n = packet_count(cmd@.len() as int);
    loop
        invariant_except_break
            0 <= packets@.len() < n,
            offset == packets@.len() * HID_MAX_PAYLOAD_SIZE,
        invariant
            offset <= cmd@.len(),
            n == packet_count(cmd@.len() as int),
            packets@.len() <= n,
            forall|i: int|
                0 <= i < packets@.len() ==> #[trigger] packets@[i]@ == wire_packet(
                    packet_flags(cmd@, i),
                    packet_payload(cmd@, i),
                ),
        ensures
            packets@.len() == n,
        decreases n - packets@.len(),
    {
        let left: usize = cmd.len() - offset;
        let last = left <= HID_MAX_PAYLOAD_SIZE;
        let len: usize = if last {
            left
        } else {
            HID_MAX_PAYLOAD_SIZE
        };
        let start: u8 = if offset == 0 {
            PACKET_FLAG_START_OF_COMMAND
        } else {
            0
        };
        let end: u8 = if last {
            PACKET_FLAG_END_OF_COMMAND
        } else {
            0
        };
        let ghost i = packets@.len() as int;
        let packet = build_packet(start + end, cmd, offset, len);
        assert(last <==> i == n - 1);
        assert(packet@ == wire_packet(packet_flags(cmd@, i), packet_payload(cmd@, i)));
        packets.push(packet);
        if last {
            break;
        }
        offset = offset + len;
    }
    assert(packet_bytes(packets@) =~= command_packets(cmd@));
    packets
}

/// Builds the packet that asks for a device's info.
pub fn build_device_info_request() -> (packet: [u8; 64])
    ensures
        packet@ == device_info_request(),
{
    let mut packet: [u8; 64] = [0u8; 64];
    packet[0] = HID_REPORT_COMMAND;
    packet[1] = PACKET_FLAG_DEVICE_INFO;
    assert(packet@ =~= device_info_request());
    packet
}

// ─── Device to host ──────────────────────────────────────────────────────────

/// What a report 6 packet says.
pub enum ParsedPacket {
    /// Answer to a device info request.
    DeviceInfo(Vec<u8>),
    /// A piece of a command response.
    Fragment { payload: Vec<u8>, start: bool, end: bool, host_cmd_finished: bool },
}

/// What a report 6 packet says, with its payload as a sequence.
#[verifier::ext_equal]
pub ghost enum PacketView {
    DeviceInfo(Seq<u8>),
    Fragment { payload: Seq<u8>, start: bool, end: bool, host_cmd_finished: bool },
}

impl View for ParsedPacket {
    type V = PacketView;

    open spec fn view(&self) -> PacketView {
        match *self {
            ParsedPacket::DeviceInfo(payload) => PacketView::DeviceInfo(payload@),
            ParsedPacket::Fragment { payload, start, end, host_cmd_finished } => PacketView::Fragment {
                payload: payload@,
                start,
                end,
                host_cmd_finished,
            },
        }
    }
}

/// Whether `raw` holds a whole report 6 packet.
pub open spec fn is_report6(raw: Seq<u8>) -> bool {
    raw.len() >= 3 && raw[0] == HID_REPORT_DATA && raw.len() >= 3 + raw[2]
}

/// A report 6 packet as a device sends it.
pub open spec fn report6(flags: u8, payload: Seq<u8>) -> Seq<u8> {
    seq![HID_REPORT_DATA, flags, payload.len() as u8] + payload
}

/// The meaning of a raw packet; none if it is no whole report 6 packet.
pub open spec fn parsed(raw: Seq<u8>) -> Option<PacketView> {
    if !is_report6(raw) {
        None
    } else {
        let payload = raw.subrange(3, 3 + raw[2]);
        if raw[1] & PACKET_FLAG_DEVICE_INFO != 0 {
            Some(PacketView::DeviceInfo(payload))
        } else {
            Some(
                PacketView::Fragment {
                    payload,
                    start: raw[1] & PACKET_FLAG_START_OF_COMMAND != 0,
                    end: raw[1] & PACKET_FLAG_END_OF_COMMAND != 0,
                    host_cmd_finished: raw[1] & PACKET_FLAG_HOST_CMD_FINISHED != 0,
                },
            )
        }
    }
}

/// Copies part of a slice.
pub fn copy_range(data: &[u8], from: usize, to: usize) -> (r: Vec<u8>)
    requires
        from <= to <= data@.len(),
    ensures
        r@ == data@.subrange(from as int, to as int),
{
    let mut r: Vec<u8> = Vec::new();
    let mut i: usize = from;
    while i < to
        invariant
            from <= i <= to <= data@.len(),
            r@ == data@.subrange(from as int, i as int),
        decreases to - i,
    {
        r.push(data[i]);
        i = i + 1;
    }
    r
}

/// Copies bytes.
pub fn copy_bytes(data: &Vec<u8>) -> (r: Vec<u8>)
    ensures
        r@ == data@,
{
    let r = copy_range(data.as_slice(), 0, data.len());
    assert(data@.subrange(0, data@.len() as int) =~= data@);
    r
}

/// Parses a report 6 packet.
pub fn parse_report6(raw: &[u8]) -> (r: Option<ParsedPacket>)
    ensures
        parsed(raw@) is Some <==> r is Some,
        r matches Some(p) ==> parsed(raw@) == Some(p@),
{
    if raw.len() < 3 || raw[0] != HID_REPORT_DATA {
        return None;
    }
    let len: usize = raw[2] as usize;
    if raw.len() < 3 + len {
        return None;
    }
    let flags: u8 = raw[1];
    let payload = copy_range(raw, 3, 3 + len);
    if flags & PACKET_FLAG_DEVICE_INFO != 0 {
        Some(ParsedPacket::DeviceInfo(payload))
    } else {
        Some(
            ParsedPacket::Fragment {
                payload,
                start: flags & PACKET_FLAG_START_OF_COMMAND != 0,
                end: flags & PACKET_FLAG_END_OF_COMMAND != 0,
                host_cmd_finished: flags & PACKET_FLAG_HOST_CMD_FINISHED != 0,
            },
        )
    }
}

// ─── Reassembly ──────────────────────────────────────────────────────────────

/// Joins the fragments of command responses.
pub struct PacketReassembler {
    pub partial: Vec<u8>,
    pub completed: Vec<Vec<u8>>,
}

/// The response that is still coming in, and the ones that are whole.
#[verifier::ext_equal]
pub ghost struct ReassemblerView {
    pub partial: Seq<u8>,
    pub completed: Seq<Seq<u8>>,
}

/// The contents of byte vectors.
pub open spec fn byte_views(v: Seq<Vec<u8>>) -> Seq<Seq<u8>> {
    Seq::new(v.len(), |i: int| v[i]@)
}

/// What a reassembler holds after a packet: a start drops what came before, an
/// end completes the response.
pub open spec fn reassembled(r: ReassemblerView, packet: PacketView) -> ReassemblerView {
    match packet {
        PacketView::DeviceInfo(_) => r,
        PacketView::Fragment { payload, start, end, host_cmd_finished: _ } => {
            let joined = if start {
                payload
            } else {
                r.partial + payload
            };
            if end {
                ReassemblerView { partial: Seq::empty(), completed: r.completed.push(joined) }
            } else {
                ReassemblerView { partial: joined, completed: r.completed }
            }
        },
    }
}

/// Whether a packet says that the host's command is finished.
pub open spec fn finishes_command(packet: PacketView) -> bool {
    packet matches PacketView::Fragment { host_cmd_finished, .. } && host_cmd_finished
}

impl View for PacketReassembler {
    type V = ReassemblerView;

    open spec fn view(&self) -> ReassemblerView {
        ReassemblerView { partial: self.partial@, completed: byte_views(self.completed@) }
    }
}

impl PacketReassembler {
    /// A reassembler that holds nothing.
    pub fn new() -> (r: Self)
        ensures
            r@ == (ReassemblerView { partial: Seq::empty(), completed: Seq::empty() }),
    {
        let r = PacketReassembler { partial: Vec::new(), completed: Vec::new() };
        assert(r@ =~= (ReassemblerView { partial: Seq::empty(), completed: Seq::empty() }));
        r
    }

    /// Takes in a packet. True if it says that the host's command is finished.
    pub fn push(&mut self, packet: &ParsedPacket) -> (finished: bool)
        ensures
            final(self)@ == reassembled(old(self)@, packet@),
            finished == finishes_command(packet@),
    {
        match packet {
            ParsedPacket::DeviceInfo(_) => false,
            ParsedPacket::Fragment { payload, start, end, host_cmd_finished } => {
                if *start {
                    self.partial.clear();
                }
                self.partial.extend_from_slice(payload.as_slice());
                assert(self.partial@ =~= if *start {
                    payload@
                } else {
                    old(self).partial@ + payload@
                });
                if *end {
                    let mut joined: Vec<u8> = Vec::new();
                    std::mem::swap(&mut joined, &mut self.partial);
                    self.completed.push(joined);
                }
                assert(self@ =~= reassembled(old(self)@, packet@));
                *host_cmd_finished
            },
        }
    }

    /// Hands out the responses that are whole.
    pub fn take_completed(&mut self) -> (r: Vec<Vec<u8>>)
        ensures
            byte_views(r@) == old(self)@.completed,
            final(self)@ == (ReassemblerView {
                partial: old(self)@.partial,
                completed: Seq::empty(),
            }),
    {
        let mut r: Vec<Vec<u8>> = Vec::new();
        std::mem::swap(&mut r, &mut self.completed);
        assert(self@ =~= (ReassemblerView { partial: old(self)@.partial, completed: Seq::empty() }));
        r
    }
}

// ─── Laws ────────────────────────────────────────────────────────────────────

/// The payloads of the first `n` packets of a command, joined.
pub open spec fn joined_payloads(cmd: Seq<u8>, n: int) -> Seq<u8>
    decreases n,
{
    if n <= 0 {
        Seq::empty()
    } else {
        joined_payloads(cmd, n - 1) + packet_payload(cmd, n - 1)
    }
}

/// What a reassembler holds after the first `n` packets of a response that is
/// fragmented as a command is.
pub open spec fn reassembled_packets(r: ReassemblerView, cmd: Seq<u8>, n: int) -> ReassemblerView
    decreases n,
{
    if n <= 0 {
        r
    } else {
        let raw = report6(packet_flags(cmd, n - 1), packet_payload(cmd, n - 1));
        let before = reassembled_packets(r, cmd, n - 1);
        match parsed(raw) {
            Some(packet) => reassembled(before, packet),
            None => before,
        }
    }
}

proof fn lemma_joined_payloads(cmd: Seq<u8>, n: int)
    requires
        0 <= n <= packet_count(cmd.len() as int),
    ensures
        joined_payloads(cmd, n) == cmd.take(
            if n * HID_MAX_PAYLOAD_SIZE < cmd.len() {
                n * HID_MAX_PAYLOAD_SIZE
            } else {
                cmd.len() as int
            },
        ),
    decreases n,
{
    if n > 0 {
        lemma_joined_payloads(cmd, n - 1);
    }
    assert(joined_payloads(cmd, n) =~= cmd.take(
        if n * HID_MAX_PAYLOAD_SIZE < cmd.len() {
            n * HID_MAX_PAYLOAD_SIZE
        } else {
            cmd.len() as int
        },
    ));
}

/// The packets of a command carry the whole command and nothing else: their
/// payloads, joined in order, are the command.
pub proof fn law_packets_carry_the_command(cmd: Seq<u8>)
    ensures
        joined_payloads(cmd, packet_count(cmd.len() as int)) == cmd,
{
    lemma_joined_payloads(cmd, packet_count(cmd.len() as int));
    assert(cmd.take(cmd.len() as int) =~= cmd);
}

/// Every packet is 64 bytes long, is a host command report and says how long its
/// payload is.
pub proof fn law_packet_shape(cmd: Seq<u8>, i: int)
    requires
        0 <= i < packet_count(cmd.len() as int),
    ensures
        command_packets(cmd)[i].len() == HID_PACKET_SIZE,
        command_packets(cmd)[i][0] == HID_REPORT_COMMAND,
        command_packets(cmd)[i][1] == packet_flags(cmd, i),
        command_packets(cmd)[i][2] == packet_payload(cmd, i).len(),
        command_packets(cmd)[i].subrange(3, 3 + packet_payload(cmd, i).len() as int) == packet_payload(
            cmd,
            i,
        ),
{
    assert(command_packets(cmd)[i].subrange(3, 3 + packet_payload(cmd, i).len() as int)
        =~= packet_payload(cmd, i));
}

/// Only the first packet of a command has the start flag, only the last one the
/// end flag, and none has another.
pub proof fn law_only_first_starts_and_last_ends(cmd: Seq<u8>, i: int)
    requires
        0 <= i < packet_count(cmd.len() as int),
    ensures
        packet_flags(cmd, i) & PACKET_FLAG_START_OF_COMMAND != 0 <==> i == 0,
        packet_flags(cmd, i) & PACKET_FLAG_END_OF_COMMAND != 0 <==> i == packet_count(
            cmd.len() as int,
        ) - 1,
        packet_flags(cmd, i) & PACKET_FLAG_HOST_CMD_FINISHED == 0,
        packet_flags(cmd, i) & PACKET_FLAG_DEVICE_INFO == 0,
{
    assert(0u8 & 4 == 0 && 0u8 & 1 == 0 && 0u8 & 2 == 0 && 0u8 & 0x80 == 0 && 1u8 & 4 == 0 && 1u8
        & 1 == 1 && 1u8 & 2 == 0 && 1u8 & 0x80 == 0 && 4u8 & 4 == 4 && 4u8 & 1 == 0 && 4u8 & 2 == 0
        && 4u8 & 0x80 == 0 && 5u8 & 4 == 4 && 5u8 & 1 == 1 && 5u8 & 2 == 0 && 5u8 & 0x80 == 0)
        by (bit_vector);
}

/// A report 6 packet is read as it was written.
pub proof fn law_report6_round_trip(flags: u8, payload: Seq<u8>)
    requires
        payload.len() <= u8::MAX,
    ensures
        parsed(report6(flags, payload)) is Some,
        flags & PACKET_FLAG_DEVICE_INFO != 0 ==> parsed(report6(flags, payload)) == Some(
            PacketView::DeviceInfo(payload),
        ),
        flags & PACKET_FLAG_DEVICE_INFO == 0 ==> parsed(report6(flags, payload)) == Some(
            PacketView::Fragment {
                payload,
                start: flags & PACKET_FLAG_START_OF_COMMAND != 0,
                end: flags & PACKET_FLAG_END_OF_COMMAND != 0,
                host_cmd_finished: flags & PACKET_FLAG_HOST_CMD_FINISHED != 0,
            },
        ),
{
    let raw = report6(flags, payload);
    assert(raw.subrange(3, 3 + raw[2]) =~= payload);
}

proof fn lemma_reassembled_packets(r: ReassemblerView, cmd: Seq<u8>, n: int)
    requires
        0 < n <= packet_count(cmd.len() as int),
    ensures
        n < packet_count(cmd.len() as int) ==> reassembled_packets(r, cmd, n) == (
        ReassemblerView { partial: joined_payloads(cmd, n), completed: r.completed }),
        n == packet_count(cmd.len() as int) ==> reassembled_packets(r, cmd, n) == (
        ReassemblerView {
            partial: Seq::empty(),
            completed: r.completed.push(joined_payloads(cmd, n)),
        }),
    decreases n,
{
    let i = n - 1;
    law_only_first_starts_and_last_ends(cmd, i);
    law_report6_round_trip(packet_flags(cmd, i), packet_payload(cmd, i));
    if n > 1 {
        lemma_reassembled_packets(r, cmd, n - 1);
    } else {
        assert(reassembled_packets(r, cmd, 0) == r);
        assert(joined_payloads(cmd, 0) == Seq::<u8>::empty());
        assert(joined_payloads(cmd, 1) =~= packet_payload(cmd, 0));
    }
}

/// Fragmentation undone: whatever a reassembler held, the packets of a message
/// complete exactly that message, and what was half received before is gone.
pub proof fn law_reassembly_gives_the_message_back(r: ReassemblerView, cmd: Seq<u8>)
    ensures
        reassembled_packets(r, cmd, packet_count(cmd.len() as int)) == (ReassemblerView {
            partial: Seq::empty(),
            completed: r.completed.push(cmd),
        }),
{
    lemma_reassembled_packets(r, cmd, packet_count(cmd.len() as int));
    law_packets_carry_the_command(cmd);
}

/// How a command goes over the wire, byte by byte: as packets of 64 bytes with up to 61
/// bytes of it each, from byte 3 on, and zeros after them. Byte 0 is 5, byte 2 says how
/// many bytes of the command there are, and byte 1 is 4 for the first packet, 1 for the
/// last, 5 for an only one and 0 for the others.
pub proof fn law_command_by_number(cmd: Seq<u8>, i: int, j: int)
    requires
        0 <= i < command_packets(cmd).len(),
        0 <= j < 61,
    ensures
        ({
            let n = command_packets(cmd).len();
            let p = command_packets(cmd)[i];
            let held = if i < n - 1 {
                61
            } else {
                cmd.len() - 61 * (n - 1)
            };
            &&& n == if cmd.len() == 0 {
                1
            } else {
                (cmd.len() + 60) / 61
            }
            &&& p.len() == 64
            &&& p[0] == 5
            &&& p[1] == if n == 1 {
                5int
            } else if i == 0 {
                4
            } else if i == n - 1 {
                1
            } else {
                0
            }
            &&& p[2] == held
            &&& j < held ==> p[3 + j] == cmd[61 * i + j]
            &&& j >= held ==> p[3 + j] == 0
        }),
{
    law_packet_shape(cmd, i);
    let payload = packet_payload(cmd, i);
    if j < payload.len() {
        assert(command_packets(cmd)[i].subrange(3, 3 + payload.len() as int)[j] == payload[j]);
    }
}

/// What a packet from a device means, byte by byte: byte 0 is 6 and byte 2 says how many
/// bytes of payload follow. In byte 1 the weight 128 marks device info; else 4 marks the
/// start of a response, 1 its end, and 2 that the device is done with the command.
pub proof fn law_response_by_number(raw: Seq<u8>)
    ensures
        parsed(raw) is Some <==> raw.len() >= 3 && raw[0] == 6 && raw.len() >= 3 + raw[2],
        parsed(raw) is Some && raw[1] >= 128 ==> parsed(raw)->0 == PacketView::DeviceInfo(
            raw.subrange(3, 3 + raw[2]),
        ),
        parsed(raw) is Some && raw[1] < 128 ==> parsed(raw)->0 == (PacketView::Fragment {
            payload: raw.subrange(3, 3 + raw[2]),
            start: (raw[1] / 4) % 2 == 1,
            end: raw[1] % 2 == 1,
            host_cmd_finished: (raw[1] / 2) % 2 == 1,
        }),
{
    let f = raw[1];
    assert((f & 0x80 != 0 <==> f >= 128) && (f & 4 != 0 <==> (f / 4) % 2 == 1) && (f & 1 != 0 <==> f
        % 2 == 1) && (f & 2 != 0 <==> (f / 2) % 2 == 1)) by (bit_vector);
}

/// A response in pieces is joined in the order in which they come: a first piece drops
/// what was there, a last one completes the response, and what is complete stays in
/// order.
pub proof fn law_pieces_are_joined_in_order(r: ReassemblerView, a: Seq<u8>, b: Seq<u8>)
    ensures
        ({
            let first = PacketView::Fragment {
                payload: a,
                start: true,
                end: false,
                host_cmd_finished: false,
            };
            let last = PacketView::Fragment {
                payload: b,
                start: false,
                end: true,
                host_cmd_finished: false,
            };
            let done = reassembled(reassembled(r, first), last);
            &&& done.completed.len() == r.completed.len() + 1
            &&& done.completed.drop_last() == r.completed
            &&& done.completed.last() == a + b
            &&& done.partial.len() == 0
        }),
{
    let done = r.completed.push(a + b);
    assert(done.drop_last() =~= r.completed);
}

/// The low byte comes first.
pub proof fn law_low_byte_comes_first(v: u16, lo: u8, hi: u8)
    ensures
        le16(v).len() == 2,
        le16(v)[0] + 256 * le16(v)[1] == v,
        from_le16(lo, hi) == lo + 256 * hi,
{
}

/// The packet that asks for device info is 5, 128 and zeros, 64 bytes in all.
pub proof fn law_info_request_by_number(i: int)
    requires
        2 <= i < 64,
    ensures
        device_info_request().len() == 64,
        device_info_request()[0] == 5,
        device_info_request()[1] == 128,
        device_info_request()[i] == 0,
{
}

/// The shape of the pads: nine panels of 16 or 25 LEDs with three bytes of color each, a
/// strip of 44 LEDs, a serial number of 16 bytes. A panel's share of a pad's light data is
/// as long as the others'.
pub proof fn law_shape_of_the_pads(panel: int)
    requires
        0 <= panel < NUM_PANELS,
    ensures
        NUM_PANELS == 9,
        LEDS_PER_PANEL_16 == 16 && LEDS_PER_PANEL_25 == 16 + 9,
        BYTES_PER_PAD_16 == 3 * LEDS_PER_PANEL_16 * NUM_PANELS,
        BYTES_PER_PAD_25 == 3 * LEDS_PER_PANEL_25 * NUM_PANELS,
        75 * (panel + 1) <= BYTES_PER_PAD_25 && 48 * (panel + 1) <= BYTES_PER_PAD_16,
        PLATFORM_STRIP_LEDS == 44,
        SERIAL_SIZE == 16,
        HID_PACKET_SIZE == 64,
{
}

} // verus!
