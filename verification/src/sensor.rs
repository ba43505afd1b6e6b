//! Sensor test data: the answer to a sensor test request, in which the bits of all
//! nine panels are interleaved.
//!
//! Word `i` of the answer holds bit `i` of every panel's record, panel `p` at bit
//! `p`. A record has three signature bits (0, 1, 0), four bad sensor bits, an
//! unused one, four signed 16-bit levels, the DIP switch in four bits and four bad
//! jumper bits.

use vstd::prelude::*;

use crate::protocol::{lemma_panel_bit_is_a_digit, panel_weight};

verus! {

/// What a sensor test reports.
#[derive(Clone, Copy, Debug, PartialEq, Eq, Structural)]
pub enum SensorTestMode {
    Off,
    UncalibratedValues,
    CalibratedValues,
    Noise,
    Tare,
}

/// The byte that stands for a mode in requests and answers.
pub open spec fn mode_byte(mode: SensorTestMode) -> u8 {
    match mode {
        SensorTestMode::Off => 0,
        SensorTestMode::UncalibratedValues => 0x30,
        SensorTestMode::CalibratedValues => 0x31,
        SensorTestMode::Noise => 0x32,
        SensorTestMode::Tare => 0x33,
    }
}

/// The mode that a byte stands for; `Off` if for none.
pub open spec fn mode_of_byte(b: u8) -> SensorTestMode {
    if b == 0x30 {
        SensorTestMode::UncalibratedValues
    } else if b == 0x31 {
        SensorTestMode::CalibratedValues
    } else if b == 0x32 {
        SensorTestMode::Noise
    } else if b == 0x33 {
        SensorTestMode::Tare
    } else {
        SensorTestMode::Off
    }
}

impl SensorTestMode {
    /// The byte that stands for the mode.
    pub fn byte(self) -> (b: u8)
        ensures
            b == mode_byte(self),
    {
        match self {
            SensorTestMode::Off => 0,
            SensorTestMode::UncalibratedValues => 0x30,
            SensorTestMode::CalibratedValues => 0x31,
            SensorTestMode::Noise => 0x32,
            SensorTestMode::Tare => 0x33,
        }
    }

    /// The mode that a byte stands for; `Off` if for none.
    pub fn from_byte(b: u8) -> (mode: SensorTestMode)
        ensures
            mode == mode_of_byte(b),
    {
        if b == 0x30 {
            SensorTestMode::UncalibratedValues
        } else if b == 0x31 {
            SensorTestMode::CalibratedValues
        } else if b == 0x32 {
            SensorTestMode::Noise
        } else if b == 0x33 {
            SensorTestMode::Tare
        } else {
            SensorTestMode::Off
        }
    }
}

/// The byte of a mode stands for that mode.
pub proof fn law_mode_byte_round_trip(mode: SensorTestMode)
    ensures
        mode_of_byte(mode_byte(mode)) == mode,
{
}

/// Sensor test data of a pad.
#[derive(Clone, Copy, Debug)]
pub struct SensorTestData {
    pub have_data_from_panel: [bool; 9],
    pub sensor_level: [[i16; 4]; 9],
    pub bad_sensor_input: [[bool; 4]; 9],
    pub dip_switch_per_panel: [u8; 9],
    pub bad_jumper: [[bool; 4]; 9],
}

/// Bit `i` of a panel's record; what is missing reads as zero.
pub open spec fn panel_bit(data: Seq<u16>, panel: int, i: int) -> bool {
    i < data.len() && (data[i] >> (panel as u16)) & 1 != 0
}

/// The number in `n` bits of a panel's record from bit `i` on, lowest bit first.
pub open spec fn panel_bits(data: Seq<u16>, panel: int, i: int, n: int) -> int
    decreases n,
{
    if n <= 0 {
        0
    } else {
        (if panel_bit(data, panel, i) {
            1int
        } else {
            0int
        }) + 2 * panel_bits(data, panel, i + 1, n - 1)
    }
}

/// Whether a panel's record has the right signature.
pub open spec fn has_signature(data: Seq<u16>, panel: int) -> bool {
    !panel_bit(data, panel, 0) && panel_bit(data, panel, 1) && !panel_bit(data, panel, 2)
}

/// The level of a panel's sensor, a signed 16-bit number.
pub open spec fn sensor_value(data: Seq<u16>, panel: int, sensor: int) -> int {
    let v = panel_bits(data, panel, 8 + 16 * sensor, 16);
    if v >= 0x8000 {
        v - 0x10000
    } else {
        v
    }
}

/// `out` says of a panel what its record in `data` says. A panel without the right
/// signature says nothing. From firmware 5 on the bad sensor bits are meaningless
/// and left out.
pub open spec fn is_panel_data(data: Seq<u16>, firmware: u16, out: SensorTestData, panel: int) -> bool {
    let have = has_signature(data, panel);
    &&& out.have_data_from_panel@[panel] == have
    &&& out.dip_switch_per_panel@[panel] == if have {
        panel_bits(data, panel, 72, 4)
    } else {
        0
    }
    &&& forall|k: int|
        0 <= k < 4 ==> #[trigger] out.sensor_level@[panel]@[k] == if have {
            sensor_value(data, panel, k)
        } else {
            0
        }
    &&& forall|k: int|
        0 <= k < 4 ==> #[trigger] out.bad_sensor_input@[panel]@[k] == (have && firmware < 5
            && panel_bit(data, panel, 3 + k))
    &&& forall|k: int|
        0 <= k < 4 ==> #[trigger] out.bad_jumper@[panel]@[k] == (have && panel_bit(
            data,
            panel,
            76 + k,
        ))
}

/// `out` is the sensor test data that `data` holds.
pub open spec fn is_sensor_data(data: Seq<u16>, firmware: u16, out: SensorTestData) -> bool {
    forall|panel: int| 0 <= panel < 9 ==> #[trigger] is_panel_data(data, firmware, out, panel)
}

/// The sensor test data that `data` holds.
pub open spec fn sensor_data_of(data: Seq<u16>, firmware: u16) -> SensorTestData {
    choose|out: SensorTestData| is_sensor_data(data, firmware, out)
}

/// No data from any panel.
pub open spec fn is_empty_sensor_data(out: SensorTestData) -> bool {
    is_sensor_data(Seq::empty(), 0, out)
}

/// There is only one reading of a sensor test answer.
pub proof fn law_sensor_data_is_determined(
    data: Seq<u16>,
    firmware: u16,
    a: SensorTestData,
    b: SensorTestData,
)
    requires
        is_sensor_data(data, firmware, a),
        is_sensor_data(data, firmware, b),
    ensures
        a == b,
{
    assert forall|p: int| 0 <= p < 9 implies a.have_data_from_panel@[p]
        == b.have_data_from_panel@[p] && a.dip_switch_per_panel@[p] == b.dip_switch_per_panel@[p]
        && a.sensor_level@[p] == b.sensor_level@[p] && a.bad_sensor_input@[p]
        == b.bad_sensor_input@[p] && a.bad_jumper@[p] == b.bad_jumper@[p] by {
        assert(is_panel_data(data, firmware, a, p));
        assert(is_panel_data(data, firmware, b, p));
        assert(a.sensor_level@[p] =~= b.sensor_level@[p]) by {
            assert forall|k: int| 0 <= k < 4 implies a.sensor_level@[p]@[k]
                == b.sensor_level@[p]@[k] by {}
        }
        assert(a.bad_sensor_input@[p] =~= b.bad_sensor_input@[p]) by {
            assert forall|k: int| 0 <= k < 4 implies a.bad_sensor_input@[p]@[k]
                == b.bad_sensor_input@[p]@[k] by {}
        }
        assert(a.bad_jumper@[p] =~= b.bad_jumper@[p]) by {
            assert forall|k: int| 0 <= k < 4 implies a.bad_jumper@[p]@[k]
                == b.bad_jumper@[p]@[k] by {}
        }
    }
    assert(a.have_data_from_panel =~= b.have_data_from_panel);
    assert(a.dip_switch_per_panel =~= b.dip_switch_per_panel);
    assert(a.sensor_level =~= b.sensor_level);
    assert(a.bad_sensor_input =~= b.bad_sensor_input);
    assert(a.bad_jumper =~= b.bad_jumper);
}

/// The largest number in `n` bits.
spec fn largest(n: int) -> int
    decreases n,
{
    if n <= 0 {
        0
    } else {
        1 + 2 * largest(n - 1)
    }
}

proof fn lemma_panel_bits_bound(data: Seq<u16>, panel: int, i: int, n: int)
    ensures
        0 <= panel_bits(data, panel, i, n) <= largest(n),
    decreases n,
{
    if n > 0 {
        lemma_panel_bits_bound(data, panel, i + 1, n - 1);
    }
}

proof fn lemma_largest_grows(n: int, m: int)
    requires
        0 <= n <= m,
    ensures
        0 <= largest(n) <= largest(m),
    decreases m,
{
    if n < m {
        lemma_largest_grows(n, m - 1);
    } else if n > 0 {
        lemma_largest_grows(n - 1, m - 1);
    }
}

proof fn lemma_largest_16()
    ensures
        largest(16) == 0xFFFF,
        largest(4) == 15,
{
    reveal_with_fuel(largest, 17);
}

/// Reads a bit of a panel's record.
fn get_bit(data: &[u16], panel: usize, i: usize) -> (bit: bool)
    requires
        panel < 9,
    ensures
        bit == panel_bit(data@, panel as int, i as int),
{
    i < data.len() && (data[i] >> (panel as u16)) & 1 != 0
}

/// Reads up to 16 bits of a panel's record as a number.
fn get_bits(data: &[u16], panel: usize, i: usize, n: usize) -> (v: u32)
    requires
        panel < 9,
        n <= 16,
        i <= 100,
    ensures
        v == panel_bits(data@, panel as int, i as int, n as int),
        v <= 0xFFFF,
{
    let mut v: u32 = 0;
    let mut left: usize = n;
    while left > 0
        invariant
            left <= n <= 16,
            i <= 100,
            panel < 9,
            v == panel_bits(data@, panel as int, i + left, n - left),
        decreases left,
    {
        proof {
            lemma_panel_bits_bound(data@, panel as int, i + left, n - left);
            lemma_largest_grows(n - left, 16);
            lemma_largest_16();
        }
        left = left - 1;
        let bit: u32 = if get_bit(data, panel, i + left) {
            1
        } else {
            0
        };
        v = bit + 2 * v;
    }
    proof {
        lemma_panel_bits_bound(data@, panel as int, i as int, n as int);
        lemma_largest_grows(n as int, 16);
        lemma_largest_16();
    }
    v
}

/// No data from any panel.
pub fn empty_sensor_data() -> (out: SensorTestData)
    ensures
        is_empty_sensor_data(out),
        forall|p: int| 0 <= p < 9 ==> !(#[trigger] out.have_data_from_panel@[p]),
{
    SensorTestData {
        have_data_from_panel: [false;9],
        sensor_level: [[0i16;4];9],
        bad_sensor_input: [[false;4];9],
        dip_switch_per_panel: [0u8;9],
        bad_jumper: [[false;4];9],
    }
}

impl Default for SensorTestData {
    fn default() -> (out: Self)
        ensures
            is_empty_sensor_data(out),
    {
        empty_sensor_data()
    }
}

/// Reads one panel's record into `out`, in which the panel says nothing yet.
fn parse_panel(data: &[u16], firmware_version: u16, out: &mut SensorTestData, panel: usize)
    requires
        panel < 9,
        is_panel_data(Seq::empty(), 0, *old(out), panel as int),
    ensures
        is_panel_data(data@, firmware_version, *final(out), panel as int),
        final(out).have_data_from_panel@ == old(out).have_data_from_panel@.update(
            panel as int,
            final(out).have_data_from_panel@[panel as int],
        ),
        final(out).sensor_level@ == old(out).sensor_level@.update(
            panel as int,
            final(out).sensor_level@[panel as int],
        ),
        final(out).bad_sensor_input@ == old(out).bad_sensor_input@.update(
            panel as int,
            final(out).bad_sensor_input@[panel as int],
        ),
        final(out).dip_switch_per_panel@ == old(out).dip_switch_per_panel@.update(
            panel as int,
            final(out).dip_switch_per_panel@[panel as int],
        ),
        final(out).bad_jumper@ == old(out).bad_jumper@.update(
            panel as int,
            final(out).bad_jumper@[panel as int],
        ),
{
    assert(!panel_bit(Seq::empty(), panel as int, 1));
    if get_bit(data, panel, 0) || !get_bit(data, panel, 1) || get_bit(data, panel, 2) {
        assert(out.have_data_from_panel@ =~= out.have_data_from_panel@.update(
            panel as int,
            false,
        ));
        assert(out.sensor_level@ =~= out.sensor_level@.update(
            panel as int,
            out.sensor_level@[panel as int],
        ));
        assert(out.bad_sensor_input@ =~= out.bad_sensor_input@.update(
            panel as int,
            out.bad_sensor_input@[panel as int],
        ));
        assert(out.dip_switch_per_panel@ =~= out.dip_switch_per_panel@.update(panel as int, 0));
        assert(out.bad_jumper@ =~= out.bad_jumper@.update(
            panel as int,
            out.bad_jumper@[panel as int],
        ));
        return ;
    }
    let mut levels: [i16; 4] = [0i16;4];
    let mut bad_inputs: [bool; 4] = [false;4];
    let mut bad_jumpers: [bool; 4] = [false;4];
    let mut k: usize = 0;
    while k < 4
        invariant
            k <= 4,
            panel < 9,
            forall|j: int|
                0 <= j < k ==> #[trigger] levels@[j] == sensor_value(data@, panel as int, j),
            forall|j: int|
                0 <= j < k ==> #[trigger] bad_inputs@[j] == (firmware_version < 5 && panel_bit(
                    data@,
                    panel as int,
                    3 + j,
                )),
            forall|j: int|
                0 <= j < k ==> #[trigger] bad_jumpers@[j] == panel_bit(
                    data@,
                    panel as int,
                    76 + j,
                ),
        decreases 4 - k,
    {
        let v: u32 = get_bits(data, panel, 8 + 16 * k, 16);
        levels[k] = if v >= 0x8000 {
            (v as i32 - 0x10000) as i16
        } else {
            v as i16
        };
        bad_inputs[k] = firmware_version < 5 && get_bit(data, panel, 3 + k);
        bad_jumpers[k] = get_bit(data, panel, 76 + k);
        k = k + 1;
    }
    let dip: u32 = get_bits(data, panel, 72, 4);
    proof {
        lemma_panel_bits_bound(data@, panel as int, 72, 4);
        lemma_largest_16();
    }
    out.have_data_from_panel[panel] = true;
    out.sensor_level[panel] = levels;
    out.bad_sensor_input[panel] = bad_inputs;
    out.dip_switch_per_panel[panel] = dip as u8;
    out.bad_jumper[panel] = bad_jumpers;
}

/// Reads a sensor test answer.
pub fn parse_sensor_test_data(data: &[u16], firmware_version: u16) -> (out: SensorTestData)
    ensures
        is_sensor_data(data@, firmware_version, out),
        out == sensor_data_of(data@, firmware_version),
{
    let mut out = empty_sensor_data();
    let mut panel: usize = 0;
    while panel < 9
        invariant
            panel <= 9,
            forall|p: int|
                0 <= p < panel ==> #[trigger] is_panel_data(data@, firmware_version, out, p),
            forall|p: int|
                panel <= p < 9 ==> #[trigger] is_panel_data(Seq::empty(), 0, out, p),
        decreases 9 - panel,
    {
        let ghost before = out;
        parse_panel(data, firmware_version, &mut out, panel);
        assert forall|p: int| 0 <= p < panel implies #[trigger] is_panel_data(
            data@,
            firmware_version,
            out,
            p,
        ) by {
            assert(is_panel_data(data@, firmware_version, before, p));
            assert(out.sensor_level@[p] == before.sensor_level@[p]);
            assert(out.bad_sensor_input@[p] == before.bad_sensor_input@[p]);
            assert(out.bad_jumper@[p] == before.bad_jumper@[p]);
        }
        assert forall|p: int| panel < p < 9 implies #[trigger] is_panel_data(
            Seq::empty(),
            0,
            out,
            p,
        ) by {
            assert(is_panel_data(Seq::empty(), 0, before, p));
            assert(out.sensor_level@[p] == before.sensor_level@[p]);
            assert(out.bad_sensor_input@[p] == before.bad_sensor_input@[p]);
            assert(out.bad_jumper@[p] == before.bad_jumper@[p]);
        }
        panel = panel + 1;
    }
    assert(is_sensor_data(data@, firmware_version, out));
    proof {
        law_sensor_data_is_determined(
            data@,
            firmware_version,
            out,
            sensor_data_of(data@, firmware_version),
        );
    }
    out
}

// ─── Laws ────────────────────────────────────────────────────────────────────

/// The binary digit of a number at a place, the lowest at place 0.
pub open spec fn binary_digit(v: int, place: int) -> int
    decreases place,
{
    if place <= 0 {
        v % 2
    } else {
        binary_digit(v / 2, place - 1)
    }
}

/// A panel's digit in a word of a sensor test answer.
pub open spec fn digit_of_panel(data: Seq<u16>, panel: int, word: int) -> int {
    (data[word] as int / panel_weight(panel)) % 2
}

/// `answer` carries these values of a panel, as pads write them. Word by word, from the
/// first: the digits 0, 1, 0; four flags for bad sensors; a digit that means nothing;
/// the four levels, each as 16 digits in two's complement, lowest first; the DIP switch
/// as four digits, lowest first; four flags for bad jumpers.
pub open spec fn carries(
    answer: Seq<u16>,
    panel: int,
    bad_sensors: Seq<bool>,
    levels: Seq<i16>,
    dip: u8,
    bad_jumpers: Seq<bool>,
) -> bool {
    &&& answer.len() >= 80
    &&& digit_of_panel(answer, panel, 0) == 0
    &&& digit_of_panel(answer, panel, 1) == 1
    &&& digit_of_panel(answer, panel, 2) == 0
    &&& forall|k: int|
        0 <= k < 4 ==> (#[trigger] bad_sensors[k] <==> digit_of_panel(answer, panel, 3 + k) == 1)
    &&& forall|b: int|
        0 <= b < 16 ==> {
            &&& digit_of_panel(answer, panel, 8 + b) == #[trigger] binary_digit(
                levels[0] as int,
                b,
            )
            &&& digit_of_panel(answer, panel, 24 + b) == binary_digit(levels[1] as int, b)
            &&& digit_of_panel(answer, panel, 40 + b) == binary_digit(levels[2] as int, b)
            &&& digit_of_panel(answer, panel, 56 + b) == binary_digit(levels[3] as int, b)
        }
    &&& forall|b: int|
        0 <= b < 4 ==> digit_of_panel(answer, panel, 72 + b) == #[trigger] binary_digit(
            dip as int,
            b,
        )
    &&& forall|k: int|
        0 <= k < 4 ==> (#[trigger] bad_jumpers[k] <==> digit_of_panel(answer, panel, 76 + k)
            == 1)
}

proof fn lemma_panel_bit_digit(data: Seq<u16>, panel: int, i: int)
    requires
        0 <= panel < 9,
        0 <= i < data.len(),
    ensures
        panel_bit(data, panel, i) <==> digit_of_panel(data, panel, i) == 1,
        digit_of_panel(data, panel, i) == 0 || digit_of_panel(data, panel, i) == 1,
{
    lemma_panel_bit_is_a_digit(data[i], panel);
}

/// Digits that are those of a number from `i` on are read as the number, up to a
/// multiple of what does not fit.
proof fn lemma_digits_are_read(data: Seq<u16>, panel: int, i: int, n: int, v: int)
    requires
        0 <= panel < 9,
        0 <= i,
        0 <= n,
        i + n <= data.len(),
        forall|b: int|
            0 <= b < n ==> digit_of_panel(data, panel, i + b) == #[trigger] binary_digit(v, b),
    ensures
        panel_bits(data, panel, i, n) == v % (1 + largest(n)),
    decreases n,
{
    lemma_largest_grows(0, n);
    if n > 0 {
        assert(digit_of_panel(data, panel, i + 0) == binary_digit(v, 0));
        lemma_panel_bit_digit(data, panel, i);
        assert forall|b: int| 0 <= b < n - 1 implies digit_of_panel(data, panel, (i + 1) + b)
            == #[trigger] binary_digit(v / 2, b) by {
            assert(binary_digit(v, b + 1) == binary_digit(v / 2, b));
            assert(digit_of_panel(data, panel, i + (b + 1)) == binary_digit(v, b + 1));
        }
        lemma_digits_are_read(data, panel, i + 1, n - 1, v / 2);
        lemma_largest_grows(0, n - 1);
        let m = 1 + largest(n - 1);
        let h = v / 2;
        assert(v % (2 * m) == v % 2 + 2 * (h % m)) by {
            vstd::arithmetic::div_mod::lemma_fundamental_div_mod(h, m);
            let q = h / m;
            assert(v == (2 * m) * q + (v % 2 + 2 * (h % m))) by (nonlinear_arith)
                requires
                    v == 2 * h + v % 2,
                    h == m * q + h % m,
            ;
            assert(0 <= h % m < m);
            vstd::arithmetic::div_mod::lemma_fundamental_div_mod_converse(
                v,
                2 * m,
                q,
                v % 2 + 2 * (h % m),
            );
        }
    } else {
        assert(v % 1 == 0);
    }
}

/// A sensor test answer is read as it was written: every panel that an answer carries
/// values of, has them, its four levels in the order in which they stand. Bad sensors
/// count only before firmware 5.
pub proof fn law_sensor_answer_round_trip(
    answer: Seq<u16>,
    firmware: u16,
    out: SensorTestData,
    panel: int,
    bad_sensors: Seq<bool>,
    levels: Seq<i16>,
    dip: u8,
    bad_jumpers: Seq<bool>,
)
    requires
        0 <= panel < 9,
        bad_sensors.len() == 4,
        levels.len() == 4,
        dip < 16,
        bad_jumpers.len() == 4,
        carries(answer, panel, bad_sensors, levels, dip, bad_jumpers),
        is_sensor_data(answer, firmware, out),
    ensures
        out.have_data_from_panel@[panel],
        out.sensor_level@[panel]@ == levels,
        out.dip_switch_per_panel@[panel] == dip,
        out.bad_jumper@[panel]@ == bad_jumpers,
        firmware < 5 ==> out.bad_sensor_input@[panel]@ == bad_sensors,
        firmware >= 5 ==> out.bad_sensor_input@[panel]@ == seq![false, false, false, false],
{
    assert(is_panel_data(answer, firmware, out, panel));
    lemma_panel_bit_digit(answer, panel, 0);
    lemma_panel_bit_digit(answer, panel, 1);
    lemma_panel_bit_digit(answer, panel, 2);
    lemma_largest_16();
    assert forall|k: int| 0 <= k < 4 implies out.sensor_level@[panel]@[k] == levels[k] by {
        assert forall|b: int| 0 <= b < 16 implies digit_of_panel(answer, panel, (8 + 16 * k) + b)
            == #[trigger] binary_digit(levels[k] as int, b) by {
            assert(binary_digit(levels[0] as int, b) == digit_of_panel(answer, panel, 8 + b));
        }
        lemma_digits_are_read(answer, panel, 8 + 16 * k, 16, levels[k] as int);
        assert(out.sensor_level@[panel]@[k] == sensor_value(answer, panel, k));
    }
    lemma_digits_are_read(answer, panel, 72, 4, dip as int);
    assert forall|k: int| 0 <= k < 4 implies out.bad_jumper@[panel]@[k] == bad_jumpers[k]
        && out.bad_sensor_input@[panel]@[k] == (firmware < 5 && bad_sensors[k]) by {
        lemma_panel_bit_digit(answer, panel, 76 + k);
        lemma_panel_bit_digit(answer, panel, 3 + k);
    }
    assert(out.sensor_level@[panel]@ =~= levels);
    assert(out.bad_jumper@[panel]@ =~= bad_jumpers);
    if firmware < 5 {
        assert(out.bad_sensor_input@[panel]@ =~= bad_sensors);
    } else {
        assert(out.bad_sensor_input@[panel]@ =~= seq![false, false, false, false]);
    }
}

/// A panel whose first three digits are not 0, 1, 0 has said nothing.
pub proof fn law_panel_without_signature_says_nothing(
    answer: Seq<u16>,
    firmware: u16,
    out: SensorTestData,
    panel: int,
)
    requires
        0 <= panel < 9,
        is_sensor_data(answer, firmware, out),
        answer.len() < 2 || digit_of_panel(answer, panel, 0) != 0 || digit_of_panel(
            answer,
            panel,
            1,
        ) != 1 || (answer.len() > 2 && digit_of_panel(answer, panel, 2) != 0),
    ensures
        !out.have_data_from_panel@[panel],
        out.sensor_level@[panel]@ == seq![0i16, 0i16, 0i16, 0i16],
        out.dip_switch_per_panel@[panel] == 0,
        out.bad_jumper@[panel]@ == seq![false, false, false, false],
        out.bad_sensor_input@[panel]@ == seq![false, false, false, false],
{
    assert(is_panel_data(answer, firmware, out, panel));
    if answer.len() >= 2 {
        lemma_panel_bit_digit(answer, panel, 0);
        lemma_panel_bit_digit(answer, panel, 1);
    }
    if answer.len() > 2 {
        lemma_panel_bit_digit(answer, panel, 2);
    }
    assert(out.sensor_level@[panel]@ =~= seq![0i16, 0i16, 0i16, 0i16]);
    assert(out.bad_jumper@[panel]@ =~= seq![false, false, false, false]);
    assert(out.bad_sensor_input@[panel]@ =~= seq![false, false, false, false]);
}

/// The four kinds of sensor test data are asked for, and answered, by the digits 0 to 3.
pub proof fn law_modes_are_digits(mode: SensorTestMode, b: u8)
    ensures
        mode_byte(SensorTestMode::UncalibratedValues) == '0' as u8,
        mode_byte(SensorTestMode::CalibratedValues) == '1' as u8,
        mode_byte(SensorTestMode::Noise) == '2' as u8,
        mode_byte(SensorTestMode::Tare) == '3' as u8,
        mode != SensorTestMode::Off ==> (mode_of_byte(b) == mode <==> mode_byte(mode) == b),
{
}

proof fn lemma_zero_word_adds_no_bit(data: Seq<u16>, panel: int, i: int)
    requires
        0 <= panel < 9,
        0 <= i,
    ensures
        panel_bit(data.push(0), panel, i) == panel_bit(data, panel, i),
{
    if i == data.len() {
        lemma_panel_bit_is_a_digit(0, panel);
        assert(0int / panel_weight(panel) == 0) by {
            assert(panel_weight(panel) > 0);
            vstd::arithmetic::div_mod::lemma_div_basics(panel_weight(panel));
        }
    }
}

/// Two answers have the same bits of a panel.
spec fn same_bits(a: Seq<u16>, b: Seq<u16>, panel: int) -> bool {
    forall|i: int| 0 <= i ==> #[trigger] panel_bit(a, panel, i) == panel_bit(b, panel, i)
}

proof fn lemma_same_bits_same_number(a: Seq<u16>, b: Seq<u16>, panel: int, i: int, n: int)
    requires
        same_bits(a, b, panel),
        0 <= i,
    ensures
        panel_bits(a, panel, i, n) == panel_bits(b, panel, i, n),
    decreases n,
{
    if n > 0 {
        assert(panel_bit(a, panel, i) == panel_bit(b, panel, i));
        lemma_same_bits_same_number(a, b, panel, i + 1, n - 1);
    }
}

proof fn lemma_same_bits_same_data(
    a: Seq<u16>,
    b: Seq<u16>,
    panel: int,
    firmware: u16,
    out: SensorTestData,
)
    requires
        same_bits(a, b, panel),
        is_panel_data(a, firmware, out, panel),
    ensures
        is_panel_data(b, firmware, out, panel),
{
    assert(panel_bit(a, panel, 0) == panel_bit(b, panel, 0));
    assert(panel_bit(a, panel, 1) == panel_bit(b, panel, 1));
    assert(panel_bit(a, panel, 2) == panel_bit(b, panel, 2));
    let have = has_signature(b, panel);
    assert(have == has_signature(a, panel));
    lemma_same_bits_same_number(a, b, panel, 72, 4);
    assert forall|k: int| 0 <= k < 4 implies #[trigger] out.sensor_level@[panel]@[k] == if have {
        sensor_value(b, panel, k)
    } else {
        0
    } by {
        lemma_same_bits_same_number(a, b, panel, 8 + 16 * k, 16);
    }
    assert forall|k: int| 0 <= k < 4 implies #[trigger] out.bad_sensor_input@[panel]@[k] == (have
        && firmware < 5 && panel_bit(b, panel, 3 + k)) by {
        assert(panel_bit(a, panel, 3 + k) == panel_bit(b, panel, 3 + k));
    }
    assert forall|k: int| 0 <= k < 4 implies #[trigger] out.bad_jumper@[panel]@[k] == (have
        && panel_bit(b, panel, 76 + k)) by {
        assert(panel_bit(a, panel, 76 + k) == panel_bit(b, panel, 76 + k));
    }
}

/// An answer that is cut short is read as if zeros followed.
pub proof fn law_missing_words_are_zeros(data: Seq<u16>, firmware: u16, out: SensorTestData)
    ensures
        is_sensor_data(data, firmware, out) <==> is_sensor_data(data.push(0), firmware, out),
{
    let longer = data.push(0);
    assert forall|panel: int| 0 <= panel < 9 implies same_bits(data, longer, panel) && same_bits(
        longer,
        data,
        panel,
    ) by {
        assert forall|i: int| 0 <= i implies #[trigger] panel_bit(longer, panel, i) == panel_bit(
            data,
            panel,
            i,
        ) by {
            lemma_zero_word_adds_no_bit(data, panel, i);
        }
        assert forall|i: int| 0 <= i implies #[trigger] panel_bit(data, panel, i) == panel_bit(
            longer,
            panel,
            i,
        ) by {
            lemma_zero_word_adds_no_bit(data, panel, i);
        }
    }
    if is_sensor_data(data, firmware, out) {
        assert forall|panel: int| 0 <= panel < 9 implies #[trigger] is_panel_data(
            longer,
            firmware,
            out,
            panel,
        ) by {
            assert(is_panel_data(data, firmware, out, panel));
            assert(same_bits(data, longer, panel));
            lemma_same_bits_same_data(data, longer, panel, firmware, out);
        }
    }
    if is_sensor_data(longer, firmware, out) {
        assert forall|panel: int| 0 <= panel < 9 implies #[trigger] is_panel_data(
            data,
            firmware,
            out,
            panel,
        ) by {
            assert(is_panel_data(longer, firmware, out, panel));
            assert(same_bits(longer, data, panel));
            lemma_same_bits_same_data(longer, data, panel, firmware, out);
        }
    }
}

} // verus!
