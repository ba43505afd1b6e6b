//! Stand-ins for pads: a fake device that answers as a pad does, and one that
//! replays a recording.
//!
//! They are plain values. A read hands out the next packet, empty if there is
//! none; an enumerator opens a device by handing out its place in its list.

use std::collections::VecDeque;

use vstd::prelude::*;

use crate::connection::{HidDeviceInfo, PLAYER_2};
use crate::error::SmxError;
use crate::protocol::{
    byte_views, copy_bytes, copy_range, le16, report6, zeros, CMD_READ_CONFIG,
    CMD_READ_OLD_CONFIG, DIGIT_0, HID_REPORT_DATA, HID_REPORT_INPUT_STATE, PACKET_FLAG_DEVICE_INFO,
    PACKET_FLAG_HOST_CMD_FINISHED, SMX_USB_PRODUCT_STRING,
};
use crate::recorder::{
    capture_of, parse_hid_capture, record_views, RecordView, RECORD_READ, RECORD_WRITE,
};
use crate::text::is_first_index;

pub use crate::protocol::HID_REPORT_COMMAND;
pub use crate::recorder::HidCaptureRecord;

verus! {

// ─── Packets ─────────────────────────────────────────────────────────────────

/// The payload of a device info answer.
pub open spec fn device_info_payload(is_p2: bool, firmware: u16, serial: Seq<u8>) -> Seq<u8> {
    seq![
        0u8,
        23u8,
        if is_p2 {
            PLAYER_2
        } else {
            DIGIT_0
        },
        0u8,
    ] + serial + le16(firmware) + seq![0u8]
}

/// The flags of a response in one packet that finishes the command.
pub const SINGLE_RESPONSE_FLAGS: u8 = 0x07;

/// The payload of a small configuration response: 40 bytes, all zero but the
/// first, which is the firmware version.
pub open spec fn config_payload(firmware: u16) -> Seq<u8> {
    seq![
        if firmware >= 5 {
            CMD_READ_CONFIG
        } else {
            CMD_READ_OLD_CONFIG
        },
        40u8,
        if firmware > 255 {
            255u8
        } else {
            firmware as u8
        },
    ] + zeros(39)
}

/// Frames a payload as a report 6 packet.
pub fn build_report6(flags: u8, payload: &[u8]) -> (packet: Vec<u8>)
    ensures
        packet@ == report6(flags, payload@),
{
    let mut packet: Vec<u8> = Vec::new();
    packet.push(HID_REPORT_DATA);
    packet.push(flags);
    packet.push(payload.len() as u8);
    packet.extend_from_slice(payload);
    assert(packet@ =~= report6(flags, payload@));
    packet
}

/// Builds the payload of a device info answer.
pub fn make_device_info_packet(is_p2: bool, firmware: u16, serial: &[u8; 16]) -> (payload: Vec<u8>)
    ensures
        payload@ == device_info_payload(is_p2, firmware, serial@),
        payload@.len() == 23,
{
    let mut payload: Vec<u8> = Vec::new();
    payload.push(0);
    payload.push(23);
    payload.push(
        if is_p2 {
            PLAYER_2
        } else {
            DIGIT_0
        },
    );
    payload.push(0);
    payload.extend_from_slice(serial.as_slice());
    payload.push((firmware % 256) as u8);
    payload.push((firmware / 256) as u8);
    payload.push(0);
    assert(payload@ =~= device_info_payload(is_p2, firmware, serial@));
    payload
}

/// Builds the packets of a small configuration response.
pub fn make_config_response_packets(firmware: u16) -> (packets: Vec<Vec<u8>>)
    ensures
        byte_views(packets@) == seq![report6(SINGLE_RESPONSE_FLAGS, config_payload(firmware))],
{
    let mut payload: Vec<u8> = Vec::new();
    payload.push(
        if firmware >= 5 {
            CMD_READ_CONFIG
        } else {
            CMD_READ_OLD_CONFIG
        },
    );
    payload.push(40);
    payload.push(
        if firmware > 255 {
            255
        } else {
            firmware as u8
        },
    );
    let ghost head = payload@;
    payload.resize(42, 0);
    assert(payload@ =~= head + zeros(39)) by {
        assert(payload@.subrange(0, 3) == head);
        assert(forall|i: int| 0 <= i < 3 ==> payload@[i] == payload@.subrange(0, 3)[i]);
    }
    assert(payload@ =~= config_payload(firmware));
    let mut packets: Vec<Vec<u8>> = Vec::new();
    packets.push(build_report6(SINGLE_RESPONSE_FLAGS, payload.as_slice()));
    assert(byte_views(packets@) =~= seq![
        report6(SINGLE_RESPONSE_FLAGS, config_payload(firmware)),
    ]);
    packets
}

fn copy_all(v: &Vec<Vec<u8>>) -> (r: Vec<Vec<u8>>)
    ensures
        byte_views(r@) == byte_views(v@),
{
    let mut r: Vec<Vec<u8>> = Vec::new();
    let mut i: usize = 0;
    assert(byte_views(r@) =~= byte_views(v@).take(0));
    while i < v.len()
        invariant
            i <= v@.len(),
            byte_views(r@) == byte_views(v@).take(i as int),
        decreases v@.len() - i,
    {
        let ghost before = r@;
        r.push(copy_bytes(&v[i]));
        assert(byte_views(r@) =~= byte_views(before).push(byte_views(v@)[i as int]));
        i = i + 1;
        assert(byte_views(r@) =~= byte_views(v@).take(i as int));
    }
    assert(byte_views(v@).take(i as int) =~= byte_views(v@));
    r
}

// ─── Fake device ─────────────────────────────────────────────────────────────

/// A device whose answers are set up beforehand.
pub struct FakeDevice {
    pub read_queue: VecDeque<Vec<u8>>,
    pub writes: Vec<Vec<u8>>,
    pub fail_reads: bool,
    pub fail_writes: bool,
    /// What it answers to configuration requests.
    pub config_response: Option<Vec<Vec<u8>>>,
    /// What it answers to device info requests.
    pub device_info_response: Option<Vec<u8>>,
    /// Whether it acknowledges all other commands.
    pub auto_ack: bool,
}

/// A fake device as a value.
#[verifier::ext_equal]
pub ghost struct FakeView {
    pub reads: Seq<Seq<u8>>,
    pub writes: Seq<Seq<u8>>,
    pub fail_reads: bool,
    pub fail_writes: bool,
    pub config_response: Option<Seq<Seq<u8>>>,
    pub device_info_response: Option<Seq<u8>>,
    pub auto_ack: bool,
}

impl View for FakeDevice {
    type V = FakeView;

    open spec fn view(&self) -> FakeView {
        FakeView {
            reads: byte_views(self.read_queue@),
            writes: byte_views(self.writes@),
            fail_reads: self.fail_reads,
            fail_writes: self.fail_writes,
            config_response: match self.config_response {
                Some(p) => Some(byte_views(p@)),
                None => None,
            },
            device_info_response: match self.device_info_response {
                Some(p) => Some(p@),
                None => None,
            },
            auto_ack: self.auto_ack,
        }
    }
}

/// A device that says nothing by itself.
pub open spec fn silent_device() -> FakeView {
    FakeView {
        reads: Seq::empty(),
        writes: Seq::empty(),
        fail_reads: false,
        fail_writes: false,
        config_response: None,
        device_info_response: None,
        auto_ack: false,
    }
}

/// The serial number of an answering device.
pub open spec fn fake_serial(is_p2: bool) -> Seq<u8> {
    Seq::new(
        16,
        |i: int|
            ((if is_p2 {
                0xB0int
            } else {
                0xA0int
            }) + i) as u8,
    )
}

/// A device that answers info and configuration requests and acknowledges all
/// else.
pub open spec fn answering_device(is_p2: bool, firmware: u16) -> FakeView {
    FakeView {
        config_response: Some(seq![report6(SINGLE_RESPONSE_FLAGS, config_payload(firmware))]),
        device_info_response: Some(device_info_payload(is_p2, firmware, fake_serial(is_p2))),
        auto_ack: true,
        ..silent_device()
    }
}

/// A device with more packets to read.
pub open spec fn with_reads(d: FakeView, packets: Seq<Seq<u8>>) -> FakeView {
    FakeView { reads: d.reads + packets, ..d }
}

/// The packets with which a device answers a packet that was written to it.
pub open spec fn answers(d: FakeView, packet: Seq<u8>) -> Seq<Seq<u8>> {
    if packet.len() < 4 || packet[0] != HID_REPORT_COMMAND {
        Seq::empty()
    } else if packet[1] & PACKET_FLAG_DEVICE_INFO != 0 {
        match d.device_info_response {
            Some(payload) => seq![report6(PACKET_FLAG_DEVICE_INFO, payload)],
            None => Seq::empty(),
        }
    } else if packet[2] < 1 {
        Seq::empty()
    } else if (packet[3] == CMD_READ_CONFIG || packet[3] == CMD_READ_OLD_CONFIG)
        && d.config_response is Some {
        d.config_response->0
    } else if d.auto_ack {
        seq![seq![HID_REPORT_DATA, PACKET_FLAG_HOST_CMD_FINISHED, 0u8]]
    } else {
        Seq::empty()
    }
}

/// A device after a packet was written to it.
pub open spec fn after_write(d: FakeView, packet: Seq<u8>) -> FakeView {
    with_reads(FakeView { writes: d.writes.push(packet), ..d }, answers(d, packet))
}

impl FakeDevice {
    /// A device that says nothing by itself.
    pub fn new() -> (d: Self)
        ensures
            d@ == silent_device(),
    {
        let d = FakeDevice {
            read_queue: VecDeque::new(),
            writes: Vec::new(),
            fail_reads: false,
            fail_writes: false,
            config_response: None,
            device_info_response: None,
            auto_ack: false,
        };
        assert(d@ =~= silent_device());
        d
    }

    /// A device that answers as a pad does.
    pub fn new_auto(is_p2: bool, firmware: u16) -> (d: Self)
        ensures
            d@ == answering_device(is_p2, firmware),
    {
        let base: u8 = if is_p2 {
            0xB0
        } else {
            0xA0
        };
        let mut serial: [u8; 16] = [0u8; 16];
        let mut i: usize = 0;
        while i < 16
            invariant
                i <= 16,
                base == if is_p2 {
                    0xB0u8
                } else {
                    0xA0u8
                },
                forall|j: int| 0 <= j < i ==> serial@[j] == fake_serial(is_p2)[j],
            decreases 16 - i,
        {
            serial[i] = base + i as u8;
            i = i + 1;
        }
        assert(serial@ =~= fake_serial(is_p2));
        let mut d = FakeDevice::new();
        d.device_info_response = Some(make_device_info_packet(is_p2, firmware, &serial));
        d.config_response = Some(make_config_response_packets(firmware));
        d.auto_ack = true;
        d
    }

    /// Queues a packet to be read.
    pub fn queue_read(&mut self, data: Vec<u8>)
        ensures
            final(self)@ == with_reads(old(self)@, seq![data@]),
    {
        self.read_queue.push_back(data);
        assert(self@.reads =~= old(self)@.reads + seq![data@]);
    }

    /// All packets that were written.
    pub fn get_writes(&self) -> (writes: Vec<Vec<u8>>)
        ensures
            byte_views(writes@) == self@.writes,
    {
        copy_all(&self.writes)
    }

    /// Forgets what was written.
    pub fn clear_writes(&mut self)
        ensures
            final(self)@ == (FakeView { writes: Seq::empty(), ..old(self)@ }),
    {
        self.writes.clear();
        assert(self@.writes =~= Seq::empty());
    }

    /// Sets whether reads fail.
    pub fn set_fail_reads(&mut self, fail: bool)
        ensures
            final(self)@ == (FakeView { fail_reads: fail, ..old(self)@ }),
    {
        self.fail_reads = fail;
    }

    /// Sets whether writes fail.
    pub fn set_fail_writes(&mut self, fail: bool)
        ensures
            final(self)@ == (FakeView { fail_writes: fail, ..old(self)@ }),
    {
        self.fail_writes = fail;
    }

    /// Sets the answer to configuration requests.
    pub fn set_config_response(&mut self, packets: Vec<Vec<u8>>)
        ensures
            final(self)@ == (FakeView {
                config_response: Some(byte_views(packets@)),
                ..old(self)@
            }),
    {
        self.config_response = Some(packets);
    }

    /// Queues an input packet.
    pub fn queue_input_state(&mut self, state: u16)
        ensures
            final(self)@ == with_reads(
                old(self)@,
                seq![seq![HID_REPORT_INPUT_STATE] + le16(state)],
            ),
    {
        let mut packet: Vec<u8> = Vec::new();
        packet.push(HID_REPORT_INPUT_STATE);
        packet.push((state % 256) as u8);
        packet.push((state / 256) as u8);
        assert(packet@ =~= seq![HID_REPORT_INPUT_STATE] + le16(state));
        self.queue_read(packet);
    }

    /// Queues a device info answer.
    pub fn queue_device_info_response(&mut self, is_p2: bool, firmware: u16, serial: &[u8; 16])
        ensures
            final(self)@ == with_reads(
                old(self)@,
                seq![
                    report6(
                        PACKET_FLAG_DEVICE_INFO,
                        device_info_payload(is_p2, firmware, serial@),
                    ),
                ],
            ),
    {
        let payload = make_device_info_packet(is_p2, firmware, serial);
        self.queue_read(build_report6(PACKET_FLAG_DEVICE_INFO, payload.as_slice()));
    }

    /// Queues a report 6 packet.
    pub fn queue_report6(&mut self, flags: u8, payload: &[u8])
        ensures
            final(self)@ == with_reads(old(self)@, seq![report6(flags, payload@)]),
    {
        self.queue_read(build_report6(flags, payload));
    }

    /// Queues a response in one packet that finishes the command.
    pub fn queue_command_response(&mut self, payload: &[u8])
        ensures
            final(self)@ == with_reads(
                old(self)@,
                seq![report6(SINGLE_RESPONSE_FLAGS, payload@)],
            ),
    {
        self.queue_report6(SINGLE_RESPONSE_FLAGS, payload);
    }

    /// Reads the next packet, at most `max` bytes of it.
    pub fn read(&mut self, max: usize) -> (r: Result<Vec<u8>, SmxError>)
        ensures
            match r {
                Err(e) => old(self)@.fail_reads && e is InvalidPacket && final(self)@
                    == old(self)@,
                Ok(packet) => !old(self)@.fail_reads && if old(self)@.reads.len() == 0 {
                    packet@.len() == 0 && final(self)@ == old(self)@
                } else {
                    packet@ == cut(old(self)@.reads[0], max as int) && final(self)@ == (FakeView {
                        reads: old(self)@.reads.skip(1),
                        ..old(self)@
                    })
                },
            },
    {
        if self.fail_reads {
            return Err(SmxError::InvalidPacket);
        }
        match self.read_queue.pop_front() {
            Some(packet) => {
                assert(byte_views(self.read_queue@) =~= byte_views(old(self).read_queue@).skip(1));
                Ok(cut_to(packet, max))
            },
            None => Ok(Vec::new()),
        }
    }

    /// Writes a packet. The device may answer it.
    pub fn write(&mut self, packet: &[u8]) -> (r: Result<usize, SmxError>)
        ensures
            match r {
                Err(e) => old(self)@.fail_writes && e is InvalidPacket && final(self)@
                    == old(self)@,
                Ok(n) => !old(self)@.fail_writes && n == packet@.len() && final(self)@
                    == after_write(old(self)@, packet@),
            },
    {
        if self.fail_writes {
            return Err(SmxError::InvalidPacket);
        }
        let whole = copy_range(packet, 0, packet.len());
        assert(whole@ =~= packet@);
        self.writes.push(whole);
        assert(self@.writes =~= old(self)@.writes.push(packet@));
        if packet.len() >= 4 && packet[0] == HID_REPORT_COMMAND {
            if packet[1] & PACKET_FLAG_DEVICE_INFO != 0 {
                if let Some(payload) = &self.device_info_response {
                    let answer = build_report6(PACKET_FLAG_DEVICE_INFO, payload.as_slice());
                    self.queue_read(answer);
                }
            } else if packet[2] >= 1 {
                if (packet[3] == CMD_READ_CONFIG || packet[3] == CMD_READ_OLD_CONFIG)
                    && self.config_response.is_some() {
                    self.answer_config();
                } else if self.auto_ack {
                    let ack: Vec<u8> = vec![HID_REPORT_DATA, PACKET_FLAG_HOST_CMD_FINISHED, 0u8];
                    assert(ack@ =~= seq![HID_REPORT_DATA, PACKET_FLAG_HOST_CMD_FINISHED, 0u8]);
                    self.queue_read(ack);
                }
            }
        }
        assert(self@ =~= after_write(old(self)@, packet@));
        Ok(packet.len())
    }

    fn answer_config(&mut self)
        requires
            old(self)@.config_response is Some,
        ensures
            final(self)@ == with_reads(old(self)@, old(self)@.config_response->0),
    {
        let ghost all = self@.config_response->0;
        let packets = match &self.config_response {
            Some(p) => copy_all(p),
            None => Vec::new(),
        };
        let mut i: usize = 0;
        assert(self@.reads =~= old(self)@.reads + all.take(0));
        while i < packets.len()
            invariant
                i <= packets@.len(),
                byte_views(packets@) == all,
                self@ == with_reads(old(self)@, all.take(i as int)),
            decreases packets@.len() - i,
        {
            self.queue_read(copy_bytes(&packets[i]));
            assert(packets@[i as int]@ == all[i as int]);
            i = i + 1;
            assert(self@.reads =~= old(self)@.reads + all.take(i as int));
        }
        assert(all.take(i as int) =~= all);
    }
}

impl Default for FakeDevice {
    fn default() -> (d: Self)
        ensures
            d@ == silent_device(),
    {
        FakeDevice::new()
    }
}

/// The first `max` bytes of a packet.
pub open spec fn cut(packet: Seq<u8>, max: int) -> Seq<u8> {
    if packet.len() > max {
        packet.take(max)
    } else {
        packet
    }
}

fn cut_to(packet: Vec<u8>, max: usize) -> (r: Vec<u8>)
    ensures
        r@ == cut(packet@, max as int),
{
    if packet.len() > max {
        let r = copy_range(packet.as_slice(), 0, max);
        assert(r@ =~= packet@.take(max as int));
        r
    } else {
        packet
    }
}

/// The paths of devices.
pub open spec fn device_paths<D>(devices: Seq<(String, D)>) -> Seq<Seq<char>> {
    Seq::new(devices.len(), |i: int| devices[i].0@)
}

/// Lists devices as an enumerator finds them.
fn list_devices<D>(devices: &Vec<(String, D)>) -> (found: Vec<HidDeviceInfo>)
    ensures
        found@.len() == devices@.len(),
        forall|i: int|
            0 <= i < found@.len() ==> (#[trigger] found@[i]).path@ == device_paths(devices@)[i]
                && found@[i].product@ == SMX_USB_PRODUCT_STRING@,
{
    let mut found: Vec<HidDeviceInfo> = Vec::new();
    let mut i: usize = 0;
    while i < devices.len()
        invariant
            i <= devices@.len(),
            found@.len() == i,
            forall|j: int|
                0 <= j < i ==> (#[trigger] found@[j]).path@ == device_paths(devices@)[j]
                    && found@[j].product@ == SMX_USB_PRODUCT_STRING@,
        decreases devices@.len() - i,
    {
        let path = devices[i].0.clone();
        found.push(HidDeviceInfo { path, product: SMX_USB_PRODUCT_STRING.to_owned() });
        i = i + 1;
    }
    found
}

/// Finds the place of the device at a path.
fn find_device<D>(devices: &Vec<(String, D)>, path: &String) -> (r: Result<usize, SmxError>)
    ensures
        match r {
            Ok(i) => is_first_index(device_paths(devices@), path@, i as int),
            Err(e) => e is NotConnected && !device_paths(devices@).contains(path@),
        },
{
    let mut i: usize = 0;
    while i < devices.len()
        invariant
            i <= devices@.len(),
            forall|j: int| 0 <= j < i ==> #[trigger] device_paths(devices@)[j] != path@,
        decreases devices@.len() - i,
    {
        assert(device_paths(devices@)[i as int] == devices@[i as int].0@);
        if devices[i].0 == *path {
            return Ok(i);
        }
        i = i + 1;
    }
    Err(SmxError::NotConnected)
}

/// Fake devices by path.
pub struct FakeEnumerator {
    pub devices: Vec<(String, FakeDevice)>,
}

impl FakeEnumerator {
    /// An enumerator of the given devices.
    pub fn new(devices: Vec<(String, FakeDevice)>) -> (e: Self)
        ensures
            e.devices == devices,
    {
        FakeEnumerator { devices }
    }

    /// All devices, whatever is asked for.
    pub fn enumerate(&self, _vid: u16, _pid: u16) -> (found: Vec<HidDeviceInfo>)
        ensures
            found@.len() == self.devices@.len(),
            forall|i: int|
                0 <= i < found@.len() ==> (#[trigger] found@[i]).path@ == device_paths(
                    self.devices@,
                )[i] && found@[i].product@ == SMX_USB_PRODUCT_STRING@,
    {
        list_devices(&self.devices)
    }

    /// The place of the device at a path.
    pub fn open(&self, path: &String) -> (r: Result<usize, SmxError>)
        ensures
            match r {
                Ok(i) => is_first_index(device_paths(self.devices@), path@, i as int),
                Err(e) => e is NotConnected && !device_paths(self.devices@).contains(path@),
            },
    {
        find_device(&self.devices, path)
    }
}

// ─── Replay ──────────────────────────────────────────────────────────────────

/// A device that replays a recording. What was read between two writes becomes
/// readable once the first of them has been made.
pub struct ReplayDevice {
    /// Packets that are readable after so many writes.
    pub read_batches: Vec<VecDeque<Vec<u8>>>,
    pub actual_writes: Vec<Vec<u8>>,
    pub expected_writes: Vec<Vec<u8>>,
}

/// A replaying device as a value.
#[verifier::ext_equal]
pub ghost struct ReplayView {
    pub batches: Seq<Seq<Seq<u8>>>,
    pub actual: Seq<Seq<u8>>,
    pub expected: Seq<Seq<u8>>,
}

/// Batches of packets as values.
pub open spec fn batch_views(batches: Seq<VecDeque<Vec<u8>>>) -> Seq<Seq<Seq<u8>>> {
    Seq::new(batches.len(), |i: int| byte_views(batches[i]@))
}

impl View for ReplayDevice {
    type V = ReplayView;

    open spec fn view(&self) -> ReplayView {
        ReplayView {
            batches: batch_views(self.read_batches@),
            actual: byte_views(self.actual_writes@),
            expected: byte_views(self.expected_writes@),
        }
    }
}

/// The replay of the first `n` records: each write starts a new batch of reads.
pub open spec fn replay_of(records: Seq<RecordView>, n: int) -> ReplayView
    decreases n,
{
    if n <= 0 {
        ReplayView {
            batches: seq![Seq::<Seq<u8>>::empty()],
            actual: Seq::empty(),
            expected: Seq::empty(),
        }
    } else {
        let r = replay_of(records, n - 1);
        let record = records[n - 1];
        if record.record_type == RECORD_READ {
            ReplayView {
                batches: r.batches.drop_last().push(r.batches.last().push(record.data)),
                ..r
            }
        } else if record.record_type == RECORD_WRITE {
            ReplayView {
                batches: r.batches.push(Seq::empty()),
                expected: r.expected.push(record.data),
                ..r
            }
        } else {
            r
        }
    }
}

/// The first of the batches from `i` to `last` with packets in it; `last + 1` if
/// there is none.
pub open spec fn next_batch(batches: Seq<Seq<Seq<u8>>>, i: int, last: int) -> int
    decreases last + 1 - i,
{
    if i > last {
        last + 1
    } else if batches[i].len() > 0 {
        i
    } else {
        next_batch(batches, i + 1, last)
    }
}

/// The last batch that is readable.
pub open spec fn last_readable(r: ReplayView) -> int {
    if r.actual.len() < r.batches.len() {
        r.actual.len() as int
    } else {
        r.batches.len() - 1
    }
}

proof fn lemma_next_batch(batches: Seq<Seq<Seq<u8>>>, i: int, last: int)
    requires
        0 <= i <= last + 1,
    ensures
        i <= next_batch(batches, i, last) <= last + 1,
        next_batch(batches, i, last) <= last ==> batches[next_batch(batches, i, last)].len() > 0,
    decreases last + 1 - i,
{
    if i <= last && batches[i].len() == 0 {
        lemma_next_batch(batches, i + 1, last);
    }
}

proof fn lemma_replay_has_batches(records: Seq<RecordView>, n: int)
    ensures
        replay_of(records, n).batches.len() == replay_of(records, n).expected.len() + 1,
    decreases n,
{
    if n > 0 {
        lemma_replay_has_batches(records, n - 1);
    }
}

impl ReplayDevice {
    /// A device that replays records.
    pub fn from_records(records: &[HidCaptureRecord]) -> (d: Self)
        ensures
            d@ == replay_of(record_views(records@), records@.len() as int),
    {
        let ghost views = record_views(records@);
        let mut d = ReplayDevice {
            read_batches: Vec::new(),
            actual_writes: Vec::new(),
            expected_writes: Vec::new(),
        };
        d.read_batches.push(VecDeque::new());
        let mut i: usize = 0;
        assert(byte_views(d.read_batches@[0]@) =~= Seq::empty());
        assert(d@ =~= replay_of(views, 0));
        while i < records.len()
            invariant
                i <= records@.len(),
                views == record_views(records@),
                d.read_batches@.len() > 0,
                d@ == replay_of(views, i as int),
            decreases records@.len() - i,
        {
            let record = &records[i];
            assert(views[i as int] == record@);
            let ghost before = d@;
            let ghost held = d.read_batches@;
            if record.record_type == RECORD_READ {
                let last: usize = d.read_batches.len() - 1;
                d.read_batches[last].push_back(copy_bytes(&record.data));
                assert(byte_views(d.read_batches@[last as int]@) =~= byte_views(
                    held[last as int]@,
                ).push(record@.data));
                assert(d@.batches =~= before.batches.drop_last().push(
                    before.batches.last().push(record@.data),
                ));
            } else if record.record_type == RECORD_WRITE {
                d.expected_writes.push(copy_bytes(&record.data));
                d.read_batches.push(VecDeque::new());
                assert(d@.expected =~= before.expected.push(record@.data));
                assert(byte_views(d.read_batches@[held.len() as int]@) =~= Seq::empty());
                assert(d@.batches =~= before.batches.push(Seq::empty()));
            }
            i = i + 1;
        }
        d
    }

    /// A device that replays the contents of a recording.
    pub fn from_file(contents: &[u8]) -> (d: Self)
        ensures
            d@ == replay_of(capture_of(contents@), capture_of(contents@).len() as int),
    {
        let records = parse_hid_capture(contents);
        ReplayDevice::from_records(records.as_slice())
    }

    /// All packets that were written.
    pub fn get_actual_writes(&self) -> (writes: Vec<Vec<u8>>)
        ensures
            byte_views(writes@) == self@.actual,
    {
        copy_all(&self.actual_writes)
    }

    /// The packets that were written in the recording.
    pub fn get_expected_writes(&self) -> (writes: Vec<Vec<u8>>)
        ensures
            byte_views(writes@) == self@.expected,
    {
        copy_all(&self.expected_writes)
    }

    /// Reads the next packet that is readable, at most `max` bytes of it.
    pub fn read(&mut self, max: usize) -> (packet: Vec<u8>)
        ensures
            ({
                let i = next_batch(old(self)@.batches, 0, last_readable(old(self)@));
                if i > last_readable(old(self)@) {
                    packet@.len() == 0 && final(self)@ == old(self)@
                } else {
                    let batch = old(self)@.batches[i];
                    packet@ == cut(batch[0], max as int) && final(self)@ == (ReplayView {
                        batches: old(self)@.batches.update(i, batch.skip(1)),
                        ..old(self)@
                    })
                }
            }),
    {
        let ghost last = last_readable(self@);
        let writes: usize = self.actual_writes.len();
        let mut i: usize = 0;
        while i < self.read_batches.len() && i <= writes
            invariant
                *self == *old(self),
                writes == self@.actual.len(),
                last == last_readable(self@),
                i <= self@.batches.len(),
                i <= last + 1,
                next_batch(self@.batches, 0, last) == next_batch(self@.batches, i as int, last),
            decreases self.read_batches@.len() - i,
        {
            assert(self@.batches[i as int] == byte_views(self.read_batches@[i as int]@));
            if self.read_batches[i].len() > 0 {
                let ghost held = self.read_batches@[i as int]@;
                let packet = match self.read_batches[i].pop_front() {
                    Some(packet) => cut_to(packet, max),
                    None => Vec::new(),
                };
                assert(byte_views(self.read_batches@[i as int]@) =~= byte_views(held).skip(1));
                assert(self@.batches =~= old(self)@.batches.update(
                    i as int,
                    old(self)@.batches[i as int].skip(1),
                ));
                return packet;
            }
            i = i + 1;
        }
        Vec::new()
    }

    /// Writes a packet.
    pub fn write(&mut self, packet: &[u8]) -> (n: usize)
        ensures
            n == packet@.len(),
            final(self)@ == (ReplayView {
                actual: old(self)@.actual.push(packet@),
                ..old(self)@
            }),
    {
        let whole = copy_range(packet, 0, packet.len());
        assert(whole@ =~= packet@);
        self.actual_writes.push(whole);
        assert(self@.actual =~= old(self)@.actual.push(packet@));
        packet.len()
    }
}

/// Replaying devices by path.
pub struct ReplayEnumerator {
    pub devices: Vec<(String, ReplayDevice)>,
}

/// Replaying devices as values.
pub open spec fn replay_views(devices: Seq<(String, ReplayDevice)>) -> Seq<
    (Seq<char>, ReplayView),
> {
    Seq::new(devices.len(), |i: int| (devices[i].0@, devices[i].1@))
}

/// The device that replays a recording, if there is one.
pub open spec fn replayed(path: Seq<char>, contents: Option<Vec<u8>>) -> Seq<
    (Seq<char>, ReplayView),
> {
    match contents {
        Some(c) => seq![
            (path, replay_of(capture_of(c@), capture_of(c@).len() as int)),
        ],
        None => Seq::empty(),
    }
}

impl ReplayEnumerator {
    /// An enumerator of the recordings of a capture directory: the contents of
    /// those for device 0 and device 1 that are there.
    pub fn from_capture_dir(device_0: Option<Vec<u8>>, device_1: Option<Vec<u8>>) -> (e: Self)
        ensures
            replay_views(e.devices@) == replayed("/dev/smx_replay_0"@, device_0) + replayed(
                "/dev/smx_replay_1"@,
                device_1,
            ),
    {
        let mut devices: Vec<(String, ReplayDevice)> = Vec::new();
        if let Some(contents) = &device_0 {
            devices.push(
                ("/dev/smx_replay_0".to_owned(), ReplayDevice::from_file(contents.as_slice())),
            );
        }
        assert(replay_views(devices@) =~= replayed("/dev/smx_replay_0"@, device_0));
        let ghost before = devices@;
        if let Some(contents) = &device_1 {
            devices.push(
                ("/dev/smx_replay_1".to_owned(), ReplayDevice::from_file(contents.as_slice())),
            );
        }
        assert(replay_views(devices@) =~= replay_views(before) + replayed(
            "/dev/smx_replay_1"@,
            device_1,
        ));
        ReplayEnumerator { devices }
    }

    /// An enumerator of the given devices.
    pub fn from_devices(devices: Vec<(String, ReplayDevice)>) -> (e: Self)
        ensures
            e.devices == devices,
    {
        ReplayEnumerator { devices }
    }

    /// All devices, whatever is asked for.
    pub fn enumerate(&self, _vid: u16, _pid: u16) -> (found: Vec<HidDeviceInfo>)
        ensures
            found@.len() == self.devices@.len(),
            forall|i: int|
                0 <= i < found@.len() ==> (#[trigger] found@[i]).path@ == device_paths(
                    self.devices@,
                )[i] && found@[i].product@ == SMX_USB_PRODUCT_STRING@,
    {
        list_devices(&self.devices)
    }

    /// The place of the device at a path.
    pub fn open(&self, path: &String) -> (r: Result<usize, SmxError>)
        ensures
            match r {
                Ok(i) => is_first_index(device_paths(self.devices@), path@, i as int),
                Err(e) => e is NotConnected && !device_paths(self.devices@).contains(path@),
            },
    {
        find_device(&self.devices, path)
    }
}

// ─── Laws ────────────────────────────────────────────────────────────────────

/// A path leads to one device: however often it is opened, every handle is the same
/// place in the list, so what one handle writes or clears, all see.
pub proof fn law_a_path_leads_to_one_device<D>(
    devices: Seq<(String, D)>,
    path: Seq<char>,
    first: int,
    second: int,
)
    requires
        is_first_index(device_paths(devices), path, first),
        is_first_index(device_paths(devices), path, second),
    ensures
        first == second,
        forall|changed: (String, D)|
            #[trigger] devices.update(first, changed)[second] == changed,
{
    let paths = device_paths(devices);
    assert(first < second ==> paths[first] != path);
    assert(second < first ==> paths[second] != path);
}

/// Once the writes are cleared, the next packet that is written is the only one, and
/// neither the reads that wait nor the failures that are set change by clearing.
pub proof fn law_cleared_writes_start_anew(d: FakeView, packet: Seq<u8>)
    ensures
        ({
            let cleared = FakeView { writes: Seq::empty(), ..d };
            &&& cleared.reads == d.reads
            &&& cleared.fail_reads == d.fail_reads
            &&& cleared.fail_writes == d.fail_writes
            &&& after_write(cleared, packet).writes == seq![packet]
            &&& after_write(cleared, packet).reads == after_write(d, packet).reads
        }),
{
}

/// Reads are gated by writes: however much was recorded, only what was read before
/// the next write is readable.
pub proof fn law_reads_are_gated_by_writes(r: ReplayView)
    requires
        r.batches.len() > 0,
    ensures
        ({
            let i = next_batch(r.batches, 0, last_readable(r));
            i <= last_readable(r) ==> 0 <= i <= r.actual.len() && r.batches[i].len() > 0
        }),
{
    lemma_next_batch(r.batches, 0, last_readable(r));
}

/// A replay expects one write for each batch of reads after the first.
pub proof fn law_replay_has_a_batch_for_each_write(records: Seq<RecordView>)
    ensures
        replay_of(records, records.len() as int).batches.len() == replay_of(
            records,
            records.len() as int,
        ).expected.len() + 1,
{
    lemma_replay_has_batches(records, records.len() as int);
}

/// The device info that a fake device sends is read as what it is made for.
pub proof fn law_fake_info_is_read_back(is_p2: bool, firmware: u16, serial: Seq<u8>)
    requires
        serial.len() == 16,
    ensures
        ({
            let info = crate::connection::device_info_of(
                device_info_payload(is_p2, firmware, serial),
            );
            &&& info.is_player2 == is_p2
            &&& info.firmware_version == firmware
            &&& info.serial == crate::connection::hex(serial)
        }),
{
    let payload = device_info_payload(is_p2, firmware, serial);
    assert(payload.len() == 23);
    assert(payload[20] == le16(firmware)[0] && payload[21] == le16(firmware)[1]);
    crate::protocol::lemma_le16_round_trip(firmware);
    assert(payload.subrange(4, 20) =~= serial);
}

/// How a fake device answers a packet, byte by byte: a command packet with the weight 128
/// in byte 1 gets the device info, one whose command begins with `G` or `g` the
/// configuration, and any other with something in it 6, 2, 0 if it acknowledges.
pub proof fn law_fake_answers_by_number(d: FakeView, packet: Seq<u8>)
    requires
        packet.len() >= 4,
        packet[0] == 5,
    ensures
        packet[1] >= 128 && d.device_info_response is Some ==> answers(d, packet) == seq![
            report6(128, d.device_info_response->0),
        ],
        packet[1] < 128 && packet[2] > 0 && (packet[3] == 'G' as u8 || packet[3] == 'g' as u8)
            && d.config_response is Some ==> answers(d, packet) == d.config_response->0,
        packet[1] < 128 && packet[2] > 0 && packet[3] != 'G' as u8 && packet[3] != 'g' as u8
            && d.auto_ack ==> answers(d, packet) == seq![seq![6u8, 2u8, 0u8]],
{
    let f = packet[1];
    assert(f & 0x80 != 0 <==> f >= 128) by (bit_vector);
}

/// A replay takes the records one after the other: what was read (`R`) joins the reads
/// since the last write, and a write (`W`) is expected next and begins new reads.
pub proof fn law_replay_by_number(records: Seq<RecordView>, n: int)
    requires
        0 < n <= records.len(),
    ensures
        ({
            let before = replay_of(records, n - 1);
            let after = replay_of(records, n);
            let r = records[n - 1];
            &&& r.record_type == 'R' as u8 ==> {
                &&& after.expected == before.expected
                &&& after.batches.len() == before.batches.len()
                &&& after.batches.last() == before.batches.last().push(r.data)
            }
            &&& r.record_type == 'W' as u8 ==> {
                &&& after.expected == before.expected.push(r.data)
                &&& after.batches == before.batches.push(Seq::empty())
            }
            &&& r.record_type != 'R' as u8 && r.record_type != 'W' as u8 ==> after == before
        }),
{
    lemma_replay_has_batches(records, n - 1);
}

/// The earliest reads come first: no batch before the one that is read from has anything
/// left.
pub proof fn law_earliest_reads_come_first(
    batches: Seq<Seq<Seq<u8>>>,
    i: int,
    last: int,
    j: int,
)
    requires
        0 <= i <= j < next_batch(batches, i, last),
        j <= last,
    ensures
        batches[j].len() == 0,
    decreases last + 1 - i,
{
    if i <= last && batches[i].len() == 0 && i < j {
        law_earliest_reads_come_first(batches, i + 1, last, j);
    }
}

} // verus!
