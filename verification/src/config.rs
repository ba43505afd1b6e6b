//! A pad's configuration and its 250-byte wire format.

use vstd::prelude::*;

use crate::protocol::{le16, read_le16};

verus! {

/// Flag of [`SmxConfig::flags`]: pressed panels play the pressed animation while
/// the firmware lights the pad.
pub const AUTO_LIGHTING_USE_PRESSED_ANIMATIONS: u8 = 1;

/// Flag of [`SmxConfig::flags`]: the pad has FSR sensors.
pub const FSR: u8 = 2;

/// Bytes of one panel's settings on the wire.
pub const PANEL_SETTINGS_SIZE: usize = 16;

/// Bytes of a configuration on the wire.
pub const CONFIG_SIZE: usize = 250;

/// Sensor settings of a single panel.
#[derive(Clone, Copy, Debug)]
pub struct PackedSensorSettings {
    pub load_cell_low_threshold: u8,
    pub load_cell_high_threshold: u8,
    pub fsr_low_threshold: [u8; 4],
    pub fsr_high_threshold: [u8; 4],
    pub combined_low_threshold: u16,
    pub combined_high_threshold: u16,
    pub reserved: u16,
}

/// Configuration of a pad.
#[derive(Clone, Copy, Debug)]
pub struct SmxConfig {
    pub master_version: u8,
    pub config_version: u8,
    pub flags: u8,
    pub debounce_nodelay_ms: u16,
    pub debounce_delay_ms: u16,
    pub panel_debounce_us: u16,
    pub auto_calibration_max_deviation: u8,
    pub bad_sensor_minimum_delay_seconds: u8,
    pub auto_calibration_averages_per_update: u16,
    pub auto_calibration_samples_per_average: u16,
    pub auto_calibration_max_tare: u16,
    pub enabled_sensors: [u8; 5],
    pub auto_lights_timeout: u8,
    pub step_color: [u8; 27],
    pub platform_strip_color: [u8; 3],
    pub auto_light_panel_mask: u16,
    pub panel_rotation: u8,
    pub panel_settings: [PackedSensorSettings; 9],
    pub pre_details_delay_ms: u8,
    pub padding: [u8; 32],
    pub padding2: [u8; 17],
}

/// One panel's settings on the wire.
pub open spec fn panel_settings_bytes(p: PackedSensorSettings) -> Seq<u8> {
    seq![p.load_cell_low_threshold] + seq![p.load_cell_high_threshold] + p.fsr_low_threshold@
        + p.fsr_high_threshold@ + le16(p.combined_low_threshold) + le16(p.combined_high_threshold)
        + le16(p.reserved)
}

/// The first `n` panels' settings on the wire, one after the other.
pub open spec fn panels_bytes(panels: Seq<PackedSensorSettings>, n: int) -> Seq<u8>
    decreases n,
{
    if n <= 0 {
        Seq::empty()
    } else {
        panels_bytes(panels, n - 1) + panel_settings_bytes(panels[n - 1])
    }
}

/// A configuration on the wire: its fields in order, low bytes first.
pub open spec fn config_bytes(c: SmxConfig) -> Seq<u8> {
    seq![c.master_version] + seq![c.config_version] + seq![c.flags] + le16(c.debounce_nodelay_ms)
        + le16(c.debounce_delay_ms) + le16(c.panel_debounce_us)
        + seq![c.auto_calibration_max_deviation] + seq![c.bad_sensor_minimum_delay_seconds]
        + le16(c.auto_calibration_averages_per_update) + le16(
        c.auto_calibration_samples_per_average,
    ) + le16(c.auto_calibration_max_tare) + c.enabled_sensors@ + seq![c.auto_lights_timeout]
        + c.step_color@ + c.platform_strip_color@ + le16(c.auto_light_panel_mask)
        + seq![c.panel_rotation] + panels_bytes(c.panel_settings@, 9)
        + seq![c.pre_details_delay_ms] + c.padding@ + c.padding2@
}

/// The configuration with the given bytes.
pub open spec fn config_of_bytes(bytes: Seq<u8>) -> SmxConfig {
    choose|c: SmxConfig| config_bytes(c) == bytes
}

/// The configuration whose bytes are all zero.
pub open spec fn zero_config() -> SmxConfig {
    config_of_bytes(crate::protocol::zeros(CONFIG_SIZE as int))
}

proof fn lemma_panels_bytes_len(panels: Seq<PackedSensorSettings>, n: int)
    requires
        0 <= n,
    ensures
        panels_bytes(panels, n).len() == n * PANEL_SETTINGS_SIZE,
    decreases n,
{
    if n > 0 {
        lemma_panels_bytes_len(panels, n - 1);
    }
}

/// A configuration takes 250 bytes on the wire.
pub proof fn law_config_bytes_len(c: SmxConfig)
    ensures
        config_bytes(c).len() == CONFIG_SIZE,
{
    lemma_panels_bytes_len(c.panel_settings@, 9);
}

// ─── Writing ─────────────────────────────────────────────────────────────────

fn put8(out: &mut Vec<u8>, v: u8)
    ensures
        final(out)@ == old(out)@ + seq![v],
{
    out.push(v);
    assert(out@ =~= old(out)@ + seq![v]);
}

fn put16(out: &mut Vec<u8>, v: u16)
    ensures
        final(out)@ == old(out)@ + le16(v),
{
    out.push((v % 256) as u8);
    out.push((v / 256) as u8);
    assert(out@ =~= old(out)@ + le16(v));
}

fn put_bytes(out: &mut Vec<u8>, bytes: &[u8])
    ensures
        final(out)@ == old(out)@ + bytes@,
{
    out.extend_from_slice(bytes);
    assert(out@ =~= old(out)@ + bytes@);
}

fn put_panel(out: &mut Vec<u8>, p: &PackedSensorSettings)
    ensures
        final(out)@ == old(out)@ + panel_settings_bytes(*p),
{
    put8(out, p.load_cell_low_threshold);
    put8(out, p.load_cell_high_threshold);
    put_bytes(out, p.fsr_low_threshold.as_slice());
    put_bytes(out, p.fsr_high_threshold.as_slice());
    put16(out, p.combined_low_threshold);
    put16(out, p.combined_high_threshold);
    put16(out, p.reserved);
    assert(out@ =~= old(out)@ + panel_settings_bytes(*p));
}

fn put_panels(out: &mut Vec<u8>, panels: &[PackedSensorSettings; 9])
    ensures
        final(out)@ == old(out)@ + panels_bytes(panels@, 9),
{
    let mut i: usize = 0;
    assert(out@ =~= old(out)@ + panels_bytes(panels@, 0));
    while i < 9
        invariant
            i <= 9,
            out@ == old(out)@ + panels_bytes(panels@, i as int),
        decreases 9 - i,
    {
        let ghost before = out@;
        put_panel(out, &panels[i]);
        i = i + 1;
        assert(out@ =~= old(out)@ + panels_bytes(panels@, i as int));
    }
}

/// Writes a configuration in its wire format.
pub fn config_to_bytes(c: &SmxConfig) -> (bytes: Vec<u8>)
    ensures
        bytes@ == config_bytes(*c),
        bytes@.len() == CONFIG_SIZE,
{
    let mut out: Vec<u8> = Vec::new();
    out.push(c.master_version);
    assert(out@ =~= seq![c.master_version]);
    put8(&mut out, c.config_version);
    put8(&mut out, c.flags);
    put16(&mut out, c.debounce_nodelay_ms);
    put16(&mut out, c.debounce_delay_ms);
    put16(&mut out, c.panel_debounce_us);
    put8(&mut out, c.auto_calibration_max_deviation);
    put8(&mut out, c.bad_sensor_minimum_delay_seconds);
    put16(&mut out, c.auto_calibration_averages_per_update);
    put16(&mut out, c.auto_calibration_samples_per_average);
    put16(&mut out, c.auto_calibration_max_tare);
    put_bytes(&mut out, c.enabled_sensors.as_slice());
    put8(&mut out, c.auto_lights_timeout);
    put_bytes(&mut out, c.step_color.as_slice());
    put_bytes(&mut out, c.platform_strip_color.as_slice());
    put16(&mut out, c.auto_light_panel_mask);
    put8(&mut out, c.panel_rotation);
    put_panels(&mut out, &c.panel_settings);
    put8(&mut out, c.pre_details_delay_ms);
    put_bytes(&mut out, c.padding.as_slice());
    put_bytes(&mut out, c.padding2.as_slice());
    proof {
        law_config_bytes_len(*c);
    }
    out
}

// ─── Reading ─────────────────────────────────────────────────────────────────

fn get16(bytes: &[u8], at: usize) -> (v: u16)
    requires
        at + 2 <= bytes@.len(),
    ensures
        le16(v) == bytes@.subrange(at as int, at + 2),
{
    let v = read_le16(bytes[at], bytes[at + 1]);
    assert(le16(v) =~= bytes@.subrange(at as int, at + 2));
    v
}

/// Copies the bytes from `at` on into an array.
pub fn fill_array<const N: usize>(out: &mut [u8; N], bytes: &[u8], at: usize)
    requires
        at + N <= bytes@.len(),
    ensures
        final(out)@ == bytes@.subrange(at as int, at + N),
{
    let len: usize = bytes.len();
    let mut i: usize = 0;
    while i < N
        invariant
            i <= N,
            at + N <= len,
            len == bytes@.len(),
            forall|j: int| 0 <= j < i ==> out@[j] == bytes@[at + j],
        decreases N - i,
    {
        out[i] = bytes[at + i];
        i = i + 1;
    }
    assert(out@ =~= bytes@.subrange(at as int, at + N));
}

/// Reads one panel's settings.
fn get_panel(bytes: &[u8], at: usize) -> (p: PackedSensorSettings)
    requires
        at + PANEL_SETTINGS_SIZE <= bytes@.len(),
    ensures
        panel_settings_bytes(p) == bytes@.subrange(at as int, at + PANEL_SETTINGS_SIZE),
{
    let total: usize = bytes.len();
    let mut fsr_low: [u8; 4] = [0u8; 4];
    let mut fsr_high: [u8; 4] = [0u8; 4];
    fill_array(&mut fsr_low, bytes, at + 2);
    fill_array(&mut fsr_high, bytes, at + 6);
    let p = PackedSensorSettings {
        load_cell_low_threshold: bytes[at],
        load_cell_high_threshold: bytes[at + 1],
        fsr_low_threshold: fsr_low,
        fsr_high_threshold: fsr_high,
        combined_low_threshold: get16(bytes, at + 10),
        combined_high_threshold: get16(bytes, at + 12),
        reserved: get16(bytes, at + 14),
    };
    assert(panel_settings_bytes(p) =~= bytes@.subrange(at as int, at + PANEL_SETTINGS_SIZE));
    p
}

proof fn lemma_join(b: Seq<u8>, i: int, j: int)
    requires
        0 <= i <= j <= b.len(),
    ensures
        b.subrange(0, i) + b.subrange(i, j) == b.subrange(0, j),
{
    assert(b.subrange(0, i) + b.subrange(i, j) =~= b.subrange(0, j));
}

proof fn lemma_single(b: Seq<u8>, i: int)
    requires
        0 <= i < b.len(),
    ensures
        seq![b[i]] == b.subrange(i, i + 1),
{
    assert(seq![b[i]] =~= b.subrange(i, i + 1));
}

/// Reads the settings of all nine panels.
fn get_panels(bytes: &[u8], at: usize) -> (panels: [PackedSensorSettings; 9])
    requires
        at + 144 <= bytes@.len(),
    ensures
        panels_bytes(panels@, 9) == bytes@.subrange(at as int, at + 144),
{
    let total: usize = bytes.len();
    let first = get_panel(bytes, at);
    let mut panels: [PackedSensorSettings; 9] = [first;9];
    let mut i: usize = 0;
    while i < 9
        invariant
            i <= 9,
            at + 144 <= total,
            total == bytes@.len(),
            forall|j: int|
                0 <= j < i ==> panel_settings_bytes(#[trigger] panels@[j]) == bytes@.subrange(
                    at + j * 16,
                    at + j * 16 + 16,
                ),
        decreases 9 - i,
    {
        panels[i] = get_panel(bytes, at + i * 16);
        i = i + 1;
    }
    proof {
        lemma_panels_from_parts(panels@, bytes@, at as int, 9);
    }
    panels
}

proof fn lemma_panels_from_parts(panels: Seq<PackedSensorSettings>, b: Seq<u8>, at: int, n: int)
    requires
        0 <= n <= panels.len(),
        0 <= at,
        at + n * 16 <= b.len(),
        forall|j: int|
            0 <= j < n ==> panel_settings_bytes(#[trigger] panels[j]) == b.subrange(
                at + j * 16,
                at + j * 16 + 16,
            ),
    ensures
        panels_bytes(panels, n) == b.subrange(at, at + n * 16),
    decreases n,
{
    if n > 0 {
        lemma_panels_from_parts(panels, b, at, n - 1);
        assert(panel_settings_bytes(panels[n - 1]) == b.subrange(
            at + (n - 1) * 16,
            at + (n - 1) * 16 + 16,
        ));
    }
    assert(panels_bytes(panels, n) =~= b.subrange(at, at + n * 16));
}

/// Reads a configuration from its wire format.
pub fn config_from_bytes(bytes: &[u8]) -> (c: SmxConfig)
    requires
        bytes@.len() == CONFIG_SIZE,
    ensures
        config_bytes(c) == bytes@,
        c == config_of_bytes(bytes@),
{
    let mut enabled_sensors: [u8; 5] = [0u8; 5];
    let mut step_color: [u8; 27] = [0u8; 27];
    let mut platform_strip_color: [u8; 3] = [0u8; 3];
    let mut padding: [u8; 32] = [0u8; 32];
    let mut padding2: [u8; 17] = [0u8; 17];
    fill_array(&mut enabled_sensors, bytes, 17);
    fill_array(&mut step_color, bytes, 23);
    fill_array(&mut platform_strip_color, bytes, 50);
    fill_array(&mut padding, bytes, 201);
    fill_array(&mut padding2, bytes, 233);
    let c = SmxConfig {
        master_version: bytes[0],
        config_version: bytes[1],
        flags: bytes[2],
        debounce_nodelay_ms: get16(bytes, 3),
        debounce_delay_ms: get16(bytes, 5),
        panel_debounce_us: get16(bytes, 7),
        auto_calibration_max_deviation: bytes[9],
        bad_sensor_minimum_delay_seconds: bytes[10],
        auto_calibration_averages_per_update: get16(bytes, 11),
        auto_calibration_samples_per_average: get16(bytes, 13),
        auto_calibration_max_tare: get16(bytes, 15),
        enabled_sensors,
        auto_lights_timeout: bytes[22],
        step_color,
        platform_strip_color,
        auto_light_panel_mask: get16(bytes, 53),
        panel_rotation: bytes[55],
        panel_settings: get_panels(bytes, 56),
        pre_details_delay_ms: bytes[200],
        padding,
        padding2,
    };
    proof {
        let b = bytes@;
        lemma_single(b, 0);
        lemma_single(b, 1);
        lemma_single(b, 2);
        lemma_single(b, 9);
        lemma_single(b, 10);
        lemma_single(b, 22);
        lemma_single(b, 55);
        lemma_single(b, 200);
        lemma_join(b, 1, 2);
        lemma_join(b, 2, 3);
        lemma_join(b, 3, 5);
        lemma_join(b, 5, 7);
        lemma_join(b, 7, 9);
        lemma_join(b, 9, 10);
        lemma_join(b, 10, 11);
        lemma_join(b, 11, 13);
        lemma_join(b, 13, 15);
        lemma_join(b, 15, 17);
        lemma_join(b, 17, 22);
        lemma_join(b, 22, 23);
        lemma_join(b, 23, 50);
        lemma_join(b, 50, 53);
        lemma_join(b, 53, 55);
        lemma_join(b, 55, 56);
        lemma_join(b, 56, 200);
        lemma_join(b, 200, 201);
        lemma_join(b, 201, 233);
        lemma_join(b, 233, 250);
        assert(b.subrange(0, 250) =~= b);
        assert(config_bytes(c) == b);
        law_bytes_determine_config(c, config_of_bytes(b));
    }
    c
}

// ─── The empty configuration ─────────────────────────────────────────────────

impl SmxConfig {
    /// The configuration whose bytes are all zero.
    pub fn zeroed() -> (c: Self)
        ensures
            c == zero_config(),
            config_bytes(c) == crate::protocol::zeros(CONFIG_SIZE as int),
    {
        let zero: [u8; 250] = [0u8; 250];
        assert(zero@ =~= crate::protocol::zeros(250));
        config_from_bytes(zero.as_slice())
    }
}

// ─── Partial updates ─────────────────────────────────────────────────────────

/// The bytes of `c` with as many leading ones as `payload` has (at most all)
/// replaced by it.
pub open spec fn overwritten(c: SmxConfig, payload: Seq<u8>) -> Seq<u8> {
    Seq::new(
        CONFIG_SIZE as nat,
        |i: int|
            if i < payload.len() {
                payload[i]
            } else {
                config_bytes(c)[i]
            },
    )
}

/// Overwrites the leading bytes of a configuration.
pub fn overwrite_config(c: &SmxConfig, payload: &[u8]) -> (r: SmxConfig)
    ensures
        config_bytes(r) == overwritten(*c, payload@),
        r == config_of_bytes(overwritten(*c, payload@)),
{
    let mut bytes = config_to_bytes(c);
    let n: usize = if payload.len() < CONFIG_SIZE {
        payload.len()
    } else {
        CONFIG_SIZE
    };
    let mut i: usize = 0;
    while i < n
        invariant
            i <= n,
            n <= payload@.len(),
            n <= CONFIG_SIZE,
            bytes@.len() == CONFIG_SIZE,
            forall|j: int| 0 <= j < i ==> bytes@[j] == payload@[j],
            forall|j: int| i <= j < CONFIG_SIZE ==> bytes@[j] == config_bytes(*c)[j],
        decreases n - i,
    {
        bytes[i] = payload[i];
        i = i + 1;
    }
    assert(bytes@ =~= overwritten(*c, payload@));
    config_from_bytes(bytes.as_slice())
}

// ─── Laws ────────────────────────────────────────────────────────────────────

proof fn lemma_sum_parts(a: Seq<u8>, b: Seq<u8>, x: Seq<u8>, y: Seq<u8>)
    requires
        a + x == b + y,
        x.len() == y.len(),
    ensures
        a == b,
        x == y,
{
    let s = a + x;
    assert(s.len() == a.len() + x.len());
    assert(s.len() == b.len() + y.len());
    assert(a =~= s.take(a.len() as int));
    assert(b =~= s.take(b.len() as int));
    assert(x =~= s.skip(a.len() as int));
    assert(y =~= s.skip(b.len() as int));
}

proof fn lemma_le16_injective(a: u16, b: u16)
    requires
        le16(a) == le16(b),
    ensures
        a == b,
{
    assert(le16(a)[0] == le16(b)[0]);
    assert(le16(a)[1] == le16(b)[1]);
}

proof fn lemma_one_injective(a: u8, b: u8)
    requires
        seq![a] == seq![b],
    ensures
        a == b,
{
    assert(seq![a][0] == a);
    assert(seq![b][0] == b);
}

proof fn lemma_panel_injective(a: PackedSensorSettings, b: PackedSensorSettings)
    requires
        panel_settings_bytes(a) == panel_settings_bytes(b),
    ensures
        a == b,
{
    let a1 = seq![a.load_cell_low_threshold];
    let b1 = seq![b.load_cell_low_threshold];
    let a2 = a1 + seq![a.load_cell_high_threshold];
    let b2 = b1 + seq![b.load_cell_high_threshold];
    let a3 = a2 + a.fsr_low_threshold@;
    let b3 = b2 + b.fsr_low_threshold@;
    let a4 = a3 + a.fsr_high_threshold@;
    let b4 = b3 + b.fsr_high_threshold@;
    let a5 = a4 + le16(a.combined_low_threshold);
    let b5 = b4 + le16(b.combined_low_threshold);
    let a6 = a5 + le16(a.combined_high_threshold);
    let b6 = b5 + le16(b.combined_high_threshold);
    lemma_sum_parts(a6, b6, le16(a.reserved), le16(b.reserved));
    lemma_sum_parts(a5, b5, le16(a.combined_high_threshold), le16(b.combined_high_threshold));
    lemma_sum_parts(a4, b4, le16(a.combined_low_threshold), le16(b.combined_low_threshold));
    lemma_sum_parts(a3, b3, a.fsr_high_threshold@, b.fsr_high_threshold@);
    lemma_sum_parts(a2, b2, a.fsr_low_threshold@, b.fsr_low_threshold@);
    lemma_sum_parts(a1, b1, seq![a.load_cell_high_threshold], seq![b.load_cell_high_threshold]);
    lemma_one_injective(a.load_cell_low_threshold, b.load_cell_low_threshold);
    lemma_one_injective(a.load_cell_high_threshold, b.load_cell_high_threshold);
    lemma_le16_injective(a.reserved, b.reserved);
    lemma_le16_injective(a.combined_high_threshold, b.combined_high_threshold);
    lemma_le16_injective(a.combined_low_threshold, b.combined_low_threshold);
    assert(a.fsr_low_threshold =~= b.fsr_low_threshold);
    assert(a.fsr_high_threshold =~= b.fsr_high_threshold);
}

proof fn lemma_panels_injective(
    a: Seq<PackedSensorSettings>,
    b: Seq<PackedSensorSettings>,
    n: int,
)
    requires
        0 <= n <= a.len(),
        n <= b.len(),
        panels_bytes(a, n) == panels_bytes(b, n),
    ensures
        forall|i: int| 0 <= i < n ==> a[i] == b[i],
    decreases n,
{
    if n > 0 {
        lemma_sum_parts(
            panels_bytes(a, n - 1),
            panels_bytes(b, n - 1),
            panel_settings_bytes(a[n - 1]),
            panel_settings_bytes(b[n - 1]),
        );
        lemma_panel_injective(a[n - 1], b[n - 1]);
        lemma_panels_injective(a, b, n - 1);
    }
}

/// The wire format loses nothing: configurations with the same bytes are the
/// same. So reading back what was written gives the configuration, and writing
/// what was read gives the bytes.
pub proof fn law_bytes_determine_config(a: SmxConfig, b: SmxConfig)
    requires
        config_bytes(a) == config_bytes(b),
    ensures
        a == b,
{
    lemma_panels_bytes_len(a.panel_settings@, 9);
    lemma_panels_bytes_len(b.panel_settings@, 9);
    let a1 = seq![a.master_version];
    let b1 = seq![b.master_version];
    let a2 = a1 + seq![a.config_version];
    let b2 = b1 + seq![b.config_version];
    let a3 = a2 + seq![a.flags];
    let b3 = b2 + seq![b.flags];
    let a4 = a3 + le16(a.debounce_nodelay_ms);
    let b4 = b3 + le16(b.debounce_nodelay_ms);
    let a5 = a4 + le16(a.debounce_delay_ms);
    let b5 = b4 + le16(b.debounce_delay_ms);
    let a6 = a5 + le16(a.panel_debounce_us);
    let b6 = b5 + le16(b.panel_debounce_us);
    let a7 = a6 + seq![a.auto_calibration_max_deviation];
    let b7 = b6 + seq![b.auto_calibration_max_deviation];
    let a8 = a7 + seq![a.bad_sensor_minimum_delay_seconds];
    let b8 = b7 + seq![b.bad_sensor_minimum_delay_seconds];
    let a9 = a8 + le16(a.auto_calibration_averages_per_update);
    let b9 = b8 + le16(b.auto_calibration_averages_per_update);
    let a10 = a9 + le16(a.auto_calibration_samples_per_average);
    let b10 = b9 + le16(b.auto_calibration_samples_per_average);
    let a11 = a10 + le16(a.auto_calibration_max_tare);
    let b11 = b10 + le16(b.auto_calibration_max_tare);
    let a12 = a11 + a.enabled_sensors@;
    let b12 = b11 + b.enabled_sensors@;
    let a13 = a12 + seq![a.auto_lights_timeout];
    let b13 = b12 + seq![b.auto_lights_timeout];
    let a14 = a13 + a.step_color@;
    let b14 = b13 + b.step_color@;
    let a15 = a14 + a.platform_strip_color@;
    let b15 = b14 + b.platform_strip_color@;
    let a16 = a15 + le16(a.auto_light_panel_mask);
    let b16 = b15 + le16(b.auto_light_panel_mask);
    let a17 = a16 + seq![a.panel_rotation];
    let b17 = b16 + seq![b.panel_rotation];
    let a18 = a17 + panels_bytes(a.panel_settings@, 9);
    let b18 = b17 + panels_bytes(b.panel_settings@, 9);
    let a19 = a18 + seq![a.pre_details_delay_ms];
    let b19 = b18 + seq![b.pre_details_delay_ms];
    let a20 = a19 + a.padding@;
    let b20 = b19 + b.padding@;
    lemma_sum_parts(a20, b20, a.padding2@, b.padding2@);
    lemma_sum_parts(a19, b19, a.padding@, b.padding@);
    lemma_sum_parts(a18, b18, seq![a.pre_details_delay_ms], seq![b.pre_details_delay_ms]);
    lemma_sum_parts(
        a17,
        b17,
        panels_bytes(a.panel_settings@, 9),
        panels_bytes(b.panel_settings@, 9),
    );
    lemma_sum_parts(a16, b16, seq![a.panel_rotation], seq![b.panel_rotation]);
    lemma_sum_parts(a15, b15, le16(a.auto_light_panel_mask), le16(b.auto_light_panel_mask));
    lemma_sum_parts(a14, b14, a.platform_strip_color@, b.platform_strip_color@);
    lemma_sum_parts(a13, b13, a.step_color@, b.step_color@);
    lemma_sum_parts(a12, b12, seq![a.auto_lights_timeout], seq![b.auto_lights_timeout]);
    lemma_sum_parts(a11, b11, a.enabled_sensors@, b.enabled_sensors@);
    lemma_sum_parts(
        a10,
        b10,
        le16(a.auto_calibration_max_tare),
        le16(b.auto_calibration_max_tare),
    );
    lemma_sum_parts(
        a9,
        b9,
        le16(a.auto_calibration_samples_per_average),
        le16(b.auto_calibration_samples_per_average),
    );
    lemma_sum_parts(
        a8,
        b8,
        le16(a.auto_calibration_averages_per_update),
        le16(b.auto_calibration_averages_per_update),
    );
    lemma_sum_parts(
        a7,
        b7,
        seq![a.bad_sensor_minimum_delay_seconds],
        seq![b.bad_sensor_minimum_delay_seconds],
    );
    lemma_sum_parts(
        a6,
        b6,
        seq![a.auto_calibration_max_deviation],
        seq![b.auto_calibration_max_deviation],
    );
    lemma_sum_parts(a5, b5, le16(a.panel_debounce_us), le16(b.panel_debounce_us));
    lemma_sum_parts(a4, b4, le16(a.debounce_delay_ms), le16(b.debounce_delay_ms));
    lemma_sum_parts(a3, b3, le16(a.debounce_nodelay_ms), le16(b.debounce_nodelay_ms));
    lemma_sum_parts(a2, b2, seq![a.flags], seq![b.flags]);
    lemma_sum_parts(a1, b1, seq![a.config_version], seq![b.config_version]);
    lemma_one_injective(a.master_version, b.master_version);
    lemma_one_injective(a.config_version, b.config_version);
    lemma_one_injective(a.flags, b.flags);
    lemma_one_injective(a.auto_calibration_max_deviation, b.auto_calibration_max_deviation);
    lemma_one_injective(a.bad_sensor_minimum_delay_seconds, b.bad_sensor_minimum_delay_seconds);
    lemma_one_injective(a.auto_lights_timeout, b.auto_lights_timeout);
    lemma_one_injective(a.panel_rotation, b.panel_rotation);
    lemma_one_injective(a.pre_details_delay_ms, b.pre_details_delay_ms);
    lemma_le16_injective(a.debounce_nodelay_ms, b.debounce_nodelay_ms);
    lemma_le16_injective(a.debounce_delay_ms, b.debounce_delay_ms);
    lemma_le16_injective(a.panel_debounce_us, b.panel_debounce_us);
    lemma_le16_injective(
        a.auto_calibration_averages_per_update,
        b.auto_calibration_averages_per_update,
    );
    lemma_le16_injective(
        a.auto_calibration_samples_per_average,
        b.auto_calibration_samples_per_average,
    );
    lemma_le16_injective(a.auto_calibration_max_tare, b.auto_calibration_max_tare);
    lemma_le16_injective(a.auto_light_panel_mask, b.auto_light_panel_mask);
    lemma_panels_injective(a.panel_settings@, b.panel_settings@, 9);
    assert(a.enabled_sensors =~= b.enabled_sensors);
    assert(a.step_color =~= b.step_color);
    assert(a.platform_strip_color =~= b.platform_strip_color);
    assert(a.padding =~= b.padding);
    assert(a.padding2 =~= b.padding2);
    assert(a.panel_settings =~= b.panel_settings);
}

proof fn lemma_panel_by_number(panels: Seq<PackedSensorSettings>, n: int, panel: int)
    requires
        0 <= panel < n <= panels.len(),
    ensures
        panels_bytes(panels, n).len() == 16 * n,
        panels_bytes(panels, n).subrange(16 * panel, 16 * panel + 16) == panel_settings_bytes(
            panels[panel],
        ),
    decreases n,
{
    lemma_panels_bytes_len(panels, n);
    lemma_panels_bytes_len(panels, n - 1);
    let before = panels_bytes(panels, n - 1);
    let last = panel_settings_bytes(panels[n - 1]);
    assert(panels_bytes(panels, n) == before + last);
    if panel < n - 1 {
        lemma_panel_by_number(panels, n - 1, panel);
        assert((before + last).subrange(16 * panel, 16 * panel + 16) =~= before.subrange(
            16 * panel,
            16 * panel + 16,
        ));
    } else {
        assert((before + last).subrange(16 * panel, 16 * panel + 16) =~= last);
    }
}

/// Where the settings stand in the 250 bytes of a configuration, byte by byte, low byte
/// first.
#[verifier::spinoff_prover]
#[verifier::rlimit(30)]
pub proof fn law_config_bytes_by_number(c: SmxConfig)
    ensures
        ({
            let b = config_bytes(c);
            &&& b.len() == 250
            &&& b[0] == c.master_version
            &&& b[1] == c.config_version
            &&& b[2] == c.flags
            &&& b[3] + 256 * b[4] == c.debounce_nodelay_ms
            &&& b[5] + 256 * b[6] == c.debounce_delay_ms
            &&& b[7] + 256 * b[8] == c.panel_debounce_us
            &&& b[9] == c.auto_calibration_max_deviation
            &&& b[10] == c.bad_sensor_minimum_delay_seconds
            &&& b[11] + 256 * b[12] == c.auto_calibration_averages_per_update
            &&& b[13] + 256 * b[14] == c.auto_calibration_samples_per_average
            &&& b[15] + 256 * b[16] == c.auto_calibration_max_tare
            &&& forall|i: int| 0 <= i < 5 ==> #[trigger] c.enabled_sensors@[i] == b[17 + i]
            &&& b[22] == c.auto_lights_timeout
            &&& forall|i: int| 0 <= i < 27 ==> #[trigger] c.step_color@[i] == b[23 + i]
            &&& forall|i: int| 0 <= i < 3 ==> #[trigger] c.platform_strip_color@[i] == b[50 + i]
            &&& b[53] + 256 * b[54] == c.auto_light_panel_mask
            &&& b[55] == c.panel_rotation
            &&& b[200] == c.pre_details_delay_ms
            &&& forall|i: int| 0 <= i < 32 ==> #[trigger] c.padding@[i] == b[201 + i]
            &&& forall|i: int| 0 <= i < 17 ==> #[trigger] c.padding2@[i] == b[233 + i]
        }),
{
    lemma_panels_bytes_len(c.panel_settings@, 9);
    law_config_bytes_len(c);
}

/// Where a panel's settings stand in the 250 bytes of a configuration: 16 bytes for each
/// panel, the first panel's from byte 56 on.
#[verifier::spinoff_prover]
#[verifier::rlimit(30)]
pub proof fn law_panel_settings_by_number(c: SmxConfig, panel: int)
    requires
        0 <= panel < 9,
    ensures
        ({
            let b = config_bytes(c);
            let at = 56 + 16 * panel;
            let p = c.panel_settings@[panel];
            &&& b[at] == p.load_cell_low_threshold
            &&& b[at + 1] == p.load_cell_high_threshold
            &&& forall|k: int| 0 <= k < 4 ==> #[trigger] p.fsr_low_threshold@[k] == b[at + 2 + k]
            &&& forall|k: int| 0 <= k < 4 ==> #[trigger] p.fsr_high_threshold@[k] == b[at + 6 + k]
            &&& b[at + 10] + 256 * b[at + 11] == p.combined_low_threshold
            &&& b[at + 12] + 256 * b[at + 13] == p.combined_high_threshold
            &&& b[at + 14] + 256 * b[at + 15] == p.reserved
        }),
{
    let b = config_bytes(c);
    let at = 56 + 16 * panel;
    let p = c.panel_settings@[panel];
    law_config_bytes_len(c);
    lemma_panel_by_number(c.panel_settings@, 9, panel);
    let all = panels_bytes(c.panel_settings@, 9);
    assert(b.subrange(at, at + 16) =~= all.subrange(16 * panel, 16 * panel + 16));
    let w = panel_settings_bytes(p);
    assert(forall|k: int| 0 <= k < 16 ==> w[k] == b.subrange(at, at + 16)[k]);
    assert(b[at] == w[0] && b[at + 1] == w[1]);
    assert forall|k: int| 0 <= k < 4 implies #[trigger] p.fsr_low_threshold@[k] == b[at + 2
        + k] by {
        assert(w[2 + k] == p.fsr_low_threshold@[k]);
        assert(w[2 + k] == b.subrange(at, at + 16)[2 + k]);
    }
    assert forall|k: int| 0 <= k < 4 implies #[trigger] p.fsr_high_threshold@[k] == b[at + 6
        + k] by {
        assert(w[6 + k] == p.fsr_high_threshold@[k]);
        assert(w[6 + k] == b.subrange(at, at + 16)[6 + k]);
    }
    assert(b[at + 10] == w[10] && b[at + 11] == w[11] && b[at + 12] == w[12] && b[at + 13] == w[13]
        && b[at + 14] == w[14] && b[at + 15] == w[15]);
}

/// Overwriting the leading bytes of a configuration changes exactly the bytes that are
/// given, at most all 250.
pub proof fn law_overwriting_changes_the_front(c: SmxConfig, payload: Seq<u8>, i: int)
    requires
        0 <= i < 250,
    ensures
        overwritten(c, payload).len() == 250,
        i < payload.len() ==> overwritten(c, payload)[i] == payload[i],
        i >= payload.len() ==> overwritten(c, payload)[i] == config_bytes(c)[i],
{
}

/// The flags of a configuration are the weights 1, for pressed animations under automatic
/// lighting, and 2, for FSR sensors, so that both can be told from one byte.
pub proof fn law_flags_by_number(c: SmxConfig, pressed: bool, fsr: bool)
    requires
        c.flags == (if pressed {
            AUTO_LIGHTING_USE_PRESSED_ANIMATIONS as int
        } else {
            0
        }) + (if fsr {
            FSR as int
        } else {
            0
        }),
    ensures
        pressed <==> c.flags % 2 == 1,
        fsr <==> (c.flags / 2) % 2 == 1,
{
}

} // verus!
