//! The 128-byte configuration of firmware before version 5, and its conversion to
//! and from [`SmxConfig`].
//!
//! The layout grew with its own version number (byte 63): panels 0, 3, 5, 6 and 8
//! came with version 2 and the second debounce time with version 3. A version of
//! 0xFF marks an uninitialised record, of which only the oldest fields count.

use vstd::prelude::*;

use crate::config::{PackedSensorSettings, SmxConfig};
use crate::protocol::{from_le16, read_le16};

verus! {

/// Bytes of an old configuration.
pub const OLD_CONFIG_SIZE: usize = 128;

/// Version byte of an uninitialised configuration.
pub const UNINITIALISED_VERSION: u8 = 0xFF;

/// Where the low threshold of a panel lies in an old configuration; the high one
/// follows it.
pub open spec fn threshold_offset(panel: int) -> int {
    if panel == 0 {
        74
    } else if panel == 1 {
        24
    } else if panel == 2 {
        12
    } else if panel == 3 {
        76
    } else if panel == 4 {
        10
    } else if panel == 5 {
        78
    } else if panel == 6 {
        80
    } else if panel == 7 {
        8
    } else {
        82
    }
}

/// Whether a version of the old layout has thresholds for a panel.
pub open spec fn has_thresholds(panel: int, version: u8) -> bool {
    panel == 1 || panel == 2 || panel == 4 || panel == 7 || (version != UNINITIALISED_VERSION
        && version >= 2)
}

/// The settings `p` with thresholds from an old configuration.
pub open spec fn with_thresholds(p: PackedSensorSettings, record: Seq<u8>, panel: int) -> PackedSensorSettings {
    PackedSensorSettings {
        load_cell_low_threshold: record[threshold_offset(panel)],
        load_cell_high_threshold: record[threshold_offset(panel) + 1],
        ..p
    }
}

/// `after` is the configuration `before` with everything in it that the old
/// configuration says, and nothing else changed.
pub open spec fn updated_from_old(record: Seq<u8>, before: SmxConfig, after: SmxConfig) -> bool {
    let version = record[63];
    let known = version != UNINITIALISED_VERSION;
    &&& after.debounce_nodelay_ms == from_le16(record[6], record[7])
    &&& after.panel_debounce_us == from_le16(record[14], record[15])
    &&& after.auto_calibration_max_deviation == record[18]
    &&& after.bad_sensor_minimum_delay_seconds == record[19]
    &&& after.auto_calibration_averages_per_update == from_le16(record[20], record[21])
    &&& after.enabled_sensors@ == record.subrange(26, 31)
    &&& after.auto_lights_timeout == record[31]
    &&& after.step_color@ == record.subrange(32, 59)
    &&& after.panel_rotation == record[59]
    &&& after.auto_calibration_samples_per_average == from_le16(record[60], record[61])
    &&& after.master_version == if known {
        record[62]
    } else {
        before.master_version
    }
    &&& after.config_version == if known {
        version
    } else {
        before.config_version
    }
    &&& after.debounce_delay_ms == if known && version >= 3 {
        from_le16(record[84], record[85])
    } else {
        before.debounce_delay_ms
    }
    &&& forall|panel: int|
        0 <= panel < 9 ==> #[trigger] after.panel_settings@[panel] == if has_thresholds(
            panel,
            version,
        ) {
            with_thresholds(before.panel_settings@[panel], record, panel)
        } else {
            before.panel_settings@[panel]
        }
    &&& after.flags == before.flags
    &&& after.auto_calibration_max_tare == before.auto_calibration_max_tare
    &&& after.platform_strip_color == before.platform_strip_color
    &&& after.auto_light_panel_mask == before.auto_light_panel_mask
    &&& after.pre_details_delay_ms == before.pre_details_delay_ms
    &&& after.padding == before.padding
    &&& after.padding2 == before.padding2
}

/// The configuration `before` with everything in it that the old one says.
pub open spec fn config_from_old(record: Seq<u8>, before: SmxConfig) -> SmxConfig {
    choose|after: SmxConfig| updated_from_old(record, before, after)
}

/// There is only one reading of an old configuration.
pub proof fn law_old_config_is_determined(
    record: Seq<u8>,
    before: SmxConfig,
    a: SmxConfig,
    b: SmxConfig,
)
    requires
        updated_from_old(record, before, a),
        updated_from_old(record, before, b),
    ensures
        a == b,
{
    assert(a.enabled_sensors =~= b.enabled_sensors);
    assert(a.step_color =~= b.step_color);
    assert forall|panel: int| 0 <= panel < 9 implies a.panel_settings@[panel]
        == b.panel_settings@[panel] by {}
    assert(a.panel_settings =~= b.panel_settings);
}

/// Takes a panel's thresholds from an old configuration.
fn take_thresholds(record: &[u8], at: usize, config: &mut SmxConfig, panel: usize)
    requires
        panel < 9,
        at == threshold_offset(panel as int),
        at + 1 < record@.len(),
    ensures
        final(config).panel_settings@ == old(config).panel_settings@.update(
            panel as int,
            with_thresholds(old(config).panel_settings@[panel as int], record@, panel as int),
        ),
        *final(config) == (SmxConfig {
            panel_settings: final(config).panel_settings,
            ..*old(config)
        }),
{
    let p = config.panel_settings[panel];
    config.panel_settings[panel] = PackedSensorSettings {
        load_cell_low_threshold: record[at],
        load_cell_high_threshold: record[at + 1],
        ..p
    };
}

fn apply_old_config(old_bytes: &[u8], config: &mut SmxConfig)
    requires
        old_bytes@.len() >= OLD_CONFIG_SIZE,
    ensures
        updated_from_old(old_bytes@, *old(config), *final(config)),
{
    config.debounce_nodelay_ms = read_le16(old_bytes[6], old_bytes[7]);
    take_thresholds(old_bytes, 8, config, 7);
    take_thresholds(old_bytes, 10, config, 4);
    take_thresholds(old_bytes, 12, config, 2);
    config.panel_debounce_us = read_le16(old_bytes[14], old_bytes[15]);
    config.auto_calibration_max_deviation = old_bytes[18];
    config.bad_sensor_minimum_delay_seconds = old_bytes[19];
    config.auto_calibration_averages_per_update = read_le16(old_bytes[20], old_bytes[21]);
    take_thresholds(old_bytes, 24, config, 1);
    crate::config::fill_array(&mut config.enabled_sensors, old_bytes, 26);
    config.auto_lights_timeout = old_bytes[31];
    crate::config::fill_array(&mut config.step_color, old_bytes, 32);
    config.panel_rotation = old_bytes[59];
    config.auto_calibration_samples_per_average = read_le16(old_bytes[60], old_bytes[61]);

    let version: u8 = old_bytes[63];
    if version == UNINITIALISED_VERSION {
        return ;
    }
    config.master_version = old_bytes[62];
    config.config_version = version;

    if version < 2 {
        return ;
    }
    take_thresholds(old_bytes, 74, config, 0);
    take_thresholds(old_bytes, 76, config, 3);
    take_thresholds(old_bytes, 78, config, 5);
    take_thresholds(old_bytes, 80, config, 6);
    take_thresholds(old_bytes, 82, config, 8);

    if version < 3 {
        return ;
    }
    config.debounce_delay_ms = read_le16(old_bytes[84], old_bytes[85]);
}

/// Brings what an old configuration says into `config`.
pub fn convert_to_new_config(old_bytes: &[u8], config: &mut SmxConfig)
    requires
        old_bytes@.len() >= OLD_CONFIG_SIZE,
    ensures
        updated_from_old(old_bytes@, *old(config), *final(config)),
        *final(config) == config_from_old(old_bytes@, *old(config)),
{
    let ghost before = *config;
    apply_old_config(old_bytes, config);
    proof {
        law_old_config_is_determined(
            old_bytes@,
            before,
            *config,
            config_from_old(old_bytes@, before),
        );
    }
}

// ─── Writing ─────────────────────────────────────────────────────────────────

/// Byte `i` of the old configuration that says what `c` says; `other` where the
/// layout has no field of `c`.
pub open spec fn old_config_byte(c: SmxConfig, i: int, other: u8) -> u8 {
    let p = c.panel_settings@;
    if i == 6 {
        (c.debounce_nodelay_ms % 256) as u8
    } else if i == 7 {
        (c.debounce_nodelay_ms / 256) as u8
    } else if i == 8 {
        p[7].load_cell_low_threshold
    } else if i == 9 {
        p[7].load_cell_high_threshold
    } else if i == 10 {
        p[4].load_cell_low_threshold
    } else if i == 11 {
        p[4].load_cell_high_threshold
    } else if i == 12 {
        p[2].load_cell_low_threshold
    } else if i == 13 {
        p[2].load_cell_high_threshold
    } else if i == 14 {
        (c.panel_debounce_us % 256) as u8
    } else if i == 15 {
        (c.panel_debounce_us / 256) as u8
    } else if i == 18 {
        c.auto_calibration_max_deviation
    } else if i == 19 {
        c.bad_sensor_minimum_delay_seconds
    } else if i == 20 {
        (c.auto_calibration_averages_per_update % 256) as u8
    } else if i == 21 {
        (c.auto_calibration_averages_per_update / 256) as u8
    } else if i == 24 {
        p[1].load_cell_low_threshold
    } else if i == 25 {
        p[1].load_cell_high_threshold
    } else if 26 <= i < 31 {
        c.enabled_sensors@[i - 26]
    } else if i == 31 {
        c.auto_lights_timeout
    } else if 32 <= i < 59 {
        c.step_color@[i - 32]
    } else if i == 59 {
        c.panel_rotation
    } else if i == 60 {
        (c.auto_calibration_samples_per_average % 256) as u8
    } else if i == 61 {
        (c.auto_calibration_samples_per_average / 256) as u8
    } else if i == 62 {
        c.master_version
    } else if i == 63 {
        c.config_version
    } else if i == 74 {
        p[0].load_cell_low_threshold
    } else if i == 75 {
        p[0].load_cell_high_threshold
    } else if i == 76 {
        p[3].load_cell_low_threshold
    } else if i == 77 {
        p[3].load_cell_high_threshold
    } else if i == 78 {
        p[5].load_cell_low_threshold
    } else if i == 79 {
        p[5].load_cell_high_threshold
    } else if i == 80 {
        p[6].load_cell_low_threshold
    } else if i == 81 {
        p[6].load_cell_high_threshold
    } else if i == 82 {
        p[8].load_cell_low_threshold
    } else if i == 83 {
        p[8].load_cell_high_threshold
    } else if i == 84 {
        (c.debounce_delay_ms % 256) as u8
    } else if i == 85 {
        (c.debounce_delay_ms / 256) as u8
    } else {
        other
    }
}

/// An old configuration, filled up to its full size with 0xFF.
pub open spec fn full_size(record: Seq<u8>) -> Seq<u8> {
    Seq::new(
        if record.len() < OLD_CONFIG_SIZE {
            OLD_CONFIG_SIZE as nat
        } else {
            record.len()
        },
        |i: int|
            if i < record.len() {
                record[i]
            } else {
                0xFFu8
            },
    )
}

/// The old configuration that says what `c` says, and what `record` says wherever
/// the layout has no field of `c`.
pub open spec fn updated_old_config(c: SmxConfig, record: Seq<u8>) -> Seq<u8> {
    Seq::new(full_size(record).len(), |i: int| old_config_byte(c, i, full_size(record)[i]))
}

fn set8(data: &mut Vec<u8>, at: usize, v: u8)
    requires
        at < old(data)@.len(),
    ensures
        final(data)@ == old(data)@.update(at as int, v),
{
    data[at] = v;
}

fn set16(data: &mut Vec<u8>, at: usize, v: u16)
    requires
        at + 1 < OLD_CONFIG_SIZE <= old(data)@.len(),
    ensures
        final(data)@ == old(data)@.update(at as int, (v % 256) as u8).update(
            at + 1,
            (v / 256) as u8,
        ),
{
    data[at] = (v % 256) as u8;
    data[at + 1] = (v / 256) as u8;
}

fn set_thresholds(data: &mut Vec<u8>, at: usize, p: &PackedSensorSettings)
    requires
        at + 1 < OLD_CONFIG_SIZE <= old(data)@.len(),
    ensures
        final(data)@ == old(data)@.update(at as int, p.load_cell_low_threshold).update(
            at + 1,
            p.load_cell_high_threshold,
        ),
{
    data[at] = p.load_cell_low_threshold;
    data[at + 1] = p.load_cell_high_threshold;
}

fn set_bytes(data: &mut Vec<u8>, at: usize, bytes: &[u8])
    requires
        at + bytes@.len() <= old(data)@.len(),
    ensures
        final(data)@ == Seq::new(
            old(data)@.len(),
            |i: int|
                if at <= i < at + bytes@.len() {
                    bytes@[i - at]
                } else {
                    old(data)@[i]
                },
        ),
{
    let len: usize = data.len();
    let mut i: usize = 0;
    while i < bytes.len()
        invariant
            i <= bytes@.len(),
            at + bytes@.len() <= len,
            data@.len() == len,
            len == old(data)@.len(),
            forall|j: int| at <= j < at + i ==> data@[j] == bytes@[j - at],
            forall|j: int| 0 <= j < at || at + i <= j < len ==> data@[j] == old(data)@[j],
        decreases bytes@.len() - i,
    {
        data[at + i] = bytes[i];
        i = i + 1;
    }
    assert(data@ =~= Seq::new(
        old(data)@.len(),
        |i: int|
            if at <= i < at + bytes@.len() {
                bytes@[i - at]
            } else {
                old(data)@[i]
            },
    ));
}

/// Writes what a configuration says into an old one, which is filled up to its
/// full size first.
pub fn convert_to_old_config(new_config: &SmxConfig, old_data: &mut Vec<u8>)
    ensures
        final(old_data)@ == updated_old_config(*new_config, old(old_data)@),
{
    if old_data.len() < OLD_CONFIG_SIZE {
        old_data.resize(OLD_CONFIG_SIZE, 0xFF);
    }
    assert(old_data@ =~= full_size(old(old_data)@));
    let ghost base = old_data@;
    set16(old_data, 6, new_config.debounce_nodelay_ms);
    set_thresholds(old_data, 8, &new_config.panel_settings[7]);
    set_thresholds(old_data, 10, &new_config.panel_settings[4]);
    set_thresholds(old_data, 12, &new_config.panel_settings[2]);
    set16(old_data, 14, new_config.panel_debounce_us);
    set8(old_data, 18, new_config.auto_calibration_max_deviation);
    set8(old_data, 19, new_config.bad_sensor_minimum_delay_seconds);
    set16(old_data, 20, new_config.auto_calibration_averages_per_update);
    set_thresholds(old_data, 24, &new_config.panel_settings[1]);
    set_bytes(old_data, 26, new_config.enabled_sensors.as_slice());
    set8(old_data, 31, new_config.auto_lights_timeout);
    set_bytes(old_data, 32, new_config.step_color.as_slice());
    set8(old_data, 59, new_config.panel_rotation);
    set16(old_data, 60, new_config.auto_calibration_samples_per_average);
    set8(old_data, 62, new_config.master_version);
    set8(old_data, 63, new_config.config_version);
    set_thresholds(old_data, 74, &new_config.panel_settings[0]);
    set_thresholds(old_data, 76, &new_config.panel_settings[3]);
    set_thresholds(old_data, 78, &new_config.panel_settings[5]);
    set_thresholds(old_data, 80, &new_config.panel_settings[6]);
    set_thresholds(old_data, 82, &new_config.panel_settings[8]);
    set16(old_data, 84, new_config.debounce_delay_ms);
    assert(old_data@ =~= updated_old_config(*new_config, old(old_data)@));
}

// ─── Laws ────────────────────────────────────────────────────────────────────

/// Two configurations agree in everything that an old configuration can say.
pub open spec fn same_old_fields(a: SmxConfig, b: SmxConfig) -> bool {
    &&& a.debounce_nodelay_ms == b.debounce_nodelay_ms
    &&& a.debounce_delay_ms == b.debounce_delay_ms
    &&& a.panel_debounce_us == b.panel_debounce_us
    &&& a.auto_calibration_max_deviation == b.auto_calibration_max_deviation
    &&& a.bad_sensor_minimum_delay_seconds == b.bad_sensor_minimum_delay_seconds
    &&& a.auto_calibration_averages_per_update == b.auto_calibration_averages_per_update
    &&& a.auto_calibration_samples_per_average == b.auto_calibration_samples_per_average
    &&& a.enabled_sensors@ == b.enabled_sensors@
    &&& a.auto_lights_timeout == b.auto_lights_timeout
    &&& a.step_color@ == b.step_color@
    &&& a.panel_rotation == b.panel_rotation
    &&& a.master_version == b.master_version
    &&& a.config_version == b.config_version
    &&& forall|panel: int|
        0 <= panel < 9 ==> {
            &&& (#[trigger] a.panel_settings@[panel]).load_cell_low_threshold
                == b.panel_settings@[panel].load_cell_low_threshold
            &&& a.panel_settings@[panel].load_cell_high_threshold
                == b.panel_settings@[panel].load_cell_high_threshold
        }
}

/// An old configuration keeps what it can say: writing a configuration of version
/// 3 or later into any old one and reading that gives every field back that the
/// old layout has, whatever the reader held before.
pub proof fn law_old_config_round_trip(
    c: SmxConfig,
    record: Seq<u8>,
    before: SmxConfig,
    after: SmxConfig,
)
    requires
        3 <= c.config_version,
        c.config_version != UNINITIALISED_VERSION,
        updated_from_old(updated_old_config(c, record), before, after),
    ensures
        same_old_fields(after, c),
{
    let w = updated_old_config(c, record);
    assert(w[63] == c.config_version);
    assert(w.subrange(26, 31) =~= c.enabled_sensors@);
    assert(w.subrange(32, 59) =~= c.step_color@);
    assert forall|panel: int| 0 <= panel < 9 implies {
        &&& (#[trigger] after.panel_settings@[panel]).load_cell_low_threshold
            == c.panel_settings@[panel].load_cell_low_threshold
        &&& after.panel_settings@[panel].load_cell_high_threshold
            == c.panel_settings@[panel].load_cell_high_threshold
    } by {
        assert(w[threshold_offset(panel)] == c.panel_settings@[panel].load_cell_low_threshold);
        assert(w[threshold_offset(panel) + 1]
            == c.panel_settings@[panel].load_cell_high_threshold);
    }
}

/// Writing back what was read changes no byte of an old configuration of version 3
/// or later: the bytes that no field covers are kept as they came.
pub proof fn law_old_config_write_back(record: Seq<u8>, before: SmxConfig, after: SmxConfig)
    requires
        record.len() >= OLD_CONFIG_SIZE,
        3 <= record[63],
        record[63] != UNINITIALISED_VERSION,
        updated_from_old(record, before, after),
    ensures
        updated_old_config(after, record) == record,
{
    assert(full_size(record) =~= record);
    assert forall|i: int| 0 <= i < record.len() implies old_config_byte(after, i, record[i])
        == record[i] by {
        if 26 <= i < 31 {
            assert(after.enabled_sensors@[i - 26] == record.subrange(26, 31)[i - 26]);
        } else if 32 <= i < 59 {
            assert(after.step_color@[i - 32] == record.subrange(32, 59)[i - 32]);
        }
        assert(forall|panel: int|
            0 <= panel < 9 ==> #[trigger] after.panel_settings@[panel] == with_thresholds(
                before.panel_settings@[panel],
                record,
                panel,
            ));
    }
    assert(updated_old_config(after, record) =~= record);
}

/// Where the thresholds of the nine panels stand in an old record, byte by byte: of the
/// panels 7, 4, 2 and 1 in every version, of the others from version 2 on. Two bytes each,
/// the low threshold first. A panel that a version does not know keeps what it had, and
/// no other setting of a panel changes.
#[verifier::spinoff_prover]
#[verifier::rlimit(30)]
pub proof fn law_old_thresholds_by_number(record: Seq<u8>, before: SmxConfig, after: SmxConfig)
    requires
        record.len() >= 128,
        updated_from_old(record, before, after),
    ensures
        after.panel_settings@[7].load_cell_low_threshold == record[8],
        after.panel_settings@[7].load_cell_high_threshold == record[9],
        after.panel_settings@[4].load_cell_low_threshold == record[10],
        after.panel_settings@[4].load_cell_high_threshold == record[11],
        after.panel_settings@[2].load_cell_low_threshold == record[12],
        after.panel_settings@[2].load_cell_high_threshold == record[13],
        after.panel_settings@[1].load_cell_low_threshold == record[24],
        after.panel_settings@[1].load_cell_high_threshold == record[25],
        2 <= record[63] < 255 ==> {
            &&& after.panel_settings@[0].load_cell_low_threshold == record[74]
            &&& after.panel_settings@[0].load_cell_high_threshold == record[75]
            &&& after.panel_settings@[3].load_cell_low_threshold == record[76]
            &&& after.panel_settings@[3].load_cell_high_threshold == record[77]
            &&& after.panel_settings@[5].load_cell_low_threshold == record[78]
            &&& after.panel_settings@[5].load_cell_high_threshold == record[79]
            &&& after.panel_settings@[6].load_cell_low_threshold == record[80]
            &&& after.panel_settings@[6].load_cell_high_threshold == record[81]
            &&& after.panel_settings@[8].load_cell_low_threshold == record[82]
            &&& after.panel_settings@[8].load_cell_high_threshold == record[83]
        },
        record[63] < 2 || record[63] == 255 ==> {
            &&& after.panel_settings@[0] == before.panel_settings@[0]
            &&& after.panel_settings@[3] == before.panel_settings@[3]
            &&& after.panel_settings@[5] == before.panel_settings@[5]
            &&& after.panel_settings@[6] == before.panel_settings@[6]
            &&& after.panel_settings@[8] == before.panel_settings@[8]
        },
        forall|panel: int|
            0 <= panel < 9 ==> {
                &&& (#[trigger] after.panel_settings@[panel]).fsr_low_threshold
                    == before.panel_settings@[panel].fsr_low_threshold
                &&& after.panel_settings@[panel].fsr_high_threshold
                    == before.panel_settings@[panel].fsr_high_threshold
                &&& after.panel_settings@[panel].combined_low_threshold
                    == before.panel_settings@[panel].combined_low_threshold
                &&& after.panel_settings@[panel].combined_high_threshold
                    == before.panel_settings@[panel].combined_high_threshold
                &&& after.panel_settings@[panel].reserved == before.panel_settings@[panel].reserved
            },
{
    let p0 = after.panel_settings@[0];
    let p1 = after.panel_settings@[1];
    let p2 = after.panel_settings@[2];
    let p3 = after.panel_settings@[3];
    let p4 = after.panel_settings@[4];
    let p5 = after.panel_settings@[5];
    let p6 = after.panel_settings@[6];
    let p7 = after.panel_settings@[7];
    let p8 = after.panel_settings@[8];
}

/// Where the other settings stand in an old record, byte by byte, low byte first.
pub proof fn law_old_fields_by_number(record: Seq<u8>, before: SmxConfig, after: SmxConfig)
    requires
        record.len() >= 128,
        updated_from_old(record, before, after),
    ensures
        after.debounce_nodelay_ms == record[6] + 256 * record[7],
        after.panel_debounce_us == record[14] + 256 * record[15],
        after.auto_calibration_max_deviation == record[18],
        after.bad_sensor_minimum_delay_seconds == record[19],
        after.auto_calibration_averages_per_update == record[20] + 256 * record[21],
        forall|i: int| 0 <= i < 5 ==> #[trigger] after.enabled_sensors@[i] == record[26 + i],
        after.auto_lights_timeout == record[31],
        forall|i: int| 0 <= i < 27 ==> #[trigger] after.step_color@[i] == record[32 + i],
        after.panel_rotation == record[59],
        after.auto_calibration_samples_per_average == record[60] + 256 * record[61],
        record[63] != 255 ==> after.master_version == record[62] && after.config_version
            == record[63],
        record[63] == 255 ==> after.master_version == before.master_version
            && after.config_version == before.config_version,
        3 <= record[63] < 255 ==> after.debounce_delay_ms == record[84] + 256 * record[85],
        record[63] < 3 || record[63] == 255 ==> after.debounce_delay_ms
            == before.debounce_delay_ms,
{
    assert forall|i: int| 0 <= i < 5 implies #[trigger] after.enabled_sensors@[i] == record[26
        + i] by {
        assert(after.enabled_sensors@[i] == record.subrange(26, 31)[i]);
    }
    assert forall|i: int| 0 <= i < 27 implies #[trigger] after.step_color@[i] == record[32 + i] by {
        assert(after.step_color@[i] == record.subrange(32, 59)[i]);
    }
}

/// Where a configuration is written into an old record, byte by byte. Every byte that is
/// not named here keeps what it was, or is 255 where the record was shorter.
#[verifier::spinoff_prover]
#[verifier::rlimit(30)]
pub proof fn law_old_record_by_number(c: SmxConfig, record: Seq<u8>, i: int)
    requires
        0 <= i < updated_old_config(c, record).len(),
    ensures
        ({
            let w = updated_old_config(c, record);
            let p = c.panel_settings@;
            &&& w.len() == if record.len() < 128 {
                128
            } else {
                record.len()
            }
            &&& w[6] + 256 * w[7] == c.debounce_nodelay_ms
            &&& w[8] == p[7].load_cell_low_threshold && w[9] == p[7].load_cell_high_threshold
            &&& w[10] == p[4].load_cell_low_threshold && w[11] == p[4].load_cell_high_threshold
            &&& w[12] == p[2].load_cell_low_threshold && w[13] == p[2].load_cell_high_threshold
            &&& w[24] == p[1].load_cell_low_threshold && w[25] == p[1].load_cell_high_threshold
            &&& w[74] == p[0].load_cell_low_threshold && w[75] == p[0].load_cell_high_threshold
            &&& w[76] == p[3].load_cell_low_threshold && w[77] == p[3].load_cell_high_threshold
            &&& w[78] == p[5].load_cell_low_threshold && w[79] == p[5].load_cell_high_threshold
            &&& w[80] == p[6].load_cell_low_threshold && w[81] == p[6].load_cell_high_threshold
            &&& w[82] == p[8].load_cell_low_threshold && w[83] == p[8].load_cell_high_threshold
            &&& w[14] + 256 * w[15] == c.panel_debounce_us
            &&& w[18] == c.auto_calibration_max_deviation
            &&& w[19] == c.bad_sensor_minimum_delay_seconds
            &&& w[20] + 256 * w[21] == c.auto_calibration_averages_per_update
            &&& 26 <= i < 31 ==> w[i] == c.enabled_sensors@[i - 26]
            &&& w[31] == c.auto_lights_timeout
            &&& 32 <= i < 59 ==> w[i] == c.step_color@[i - 32]
            &&& w[59] == c.panel_rotation
            &&& w[60] + 256 * w[61] == c.auto_calibration_samples_per_average
            &&& w[62] == c.master_version
            &&& w[63] == c.config_version
            &&& w[84] + 256 * w[85] == c.debounce_delay_ms
            &&& i < 6 || i == 16 || i == 17 || i == 22 || i == 23 || 64 <= i < 74 || i >= 86
                ==> w[i] == if i < record.len() {
                record[i]
            } else {
                255
            }
        }),
{
}

} // verus!
