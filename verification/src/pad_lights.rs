//! The light commands of a pad, and frames of them that wait to be sent.

use vstd::prelude::*;

use crate::lights::{scale_color, scaled};
use crate::protocol::{
    copy_bytes, BYTES_PER_PAD_16, BYTES_PER_PAD_25, CMD_LIGHTS_BOTTOM, CMD_LIGHTS_INNER,
    CMD_LIGHTS_TOP, END_OF_LINE,
};

verus! {

/// Whether light data for both pads has a size that the pads know.
pub open spec fn is_light_data(data: Seq<u8>) -> bool {
    data.len() == 2 * BYTES_PER_PAD_16 || data.len() == 2 * BYTES_PER_PAD_25
}

/// Bytes of one panel in light data for both pads.
pub open spec fn panel_size(data: Seq<u8>) -> int {
    if data.len() == 2 * BYTES_PER_PAD_16 {
        48
    } else {
        75
    }
}

/// Byte `k` of a panel in light data for both pads, scaled.
pub open spec fn light_byte(data: Seq<u8>, pad: int, panel: int, k: int) -> u8 {
    scaled(data[(9 * pad + panel) * panel_size(data) + k])
}

/// The command for the inner 3x3 LEDs of all panels: 27 bytes each, dark where the
/// light data has no inner LEDs.
pub open spec fn inner_command(data: Seq<u8>, pad: int) -> Seq<u8> {
    seq![CMD_LIGHTS_INNER] + Seq::new(
        243,
        |i: int|
            if panel_size(data) == 75 {
                light_byte(data, pad, i / 27, 48 + i % 27)
            } else {
                0u8
            },
    ) + seq![END_OF_LINE]
}

/// The command for the upper two rows of the outer 4x4 LEDs of all panels.
pub open spec fn top_command(data: Seq<u8>, pad: int) -> Seq<u8> {
    seq![CMD_LIGHTS_TOP] + Seq::new(216, |i: int| light_byte(data, pad, i / 24, i % 24)) + seq![
        END_OF_LINE,
    ]
}

/// The command for the lower two rows of the outer 4x4 LEDs of all panels.
pub open spec fn bottom_command(data: Seq<u8>, pad: int) -> Seq<u8> {
    seq![CMD_LIGHTS_BOTTOM] + Seq::new(216, |i: int| light_byte(data, pad, i / 24, 24 + i % 24))
        + seq![END_OF_LINE]
}

/// One of the three commands of a light frame: inner LEDs, upper half, lower half.
pub open spec fn lights_command(data: Seq<u8>, pad: int, k: int) -> Seq<u8> {
    if k == 0 {
        inner_command(data, pad)
    } else if k == 1 {
        top_command(data, pad)
    } else {
        bottom_command(data, pad)
    }
}

fn build_half(data: &[u8], pad: usize, bottom: bool) -> (cmd: Vec<u8>)
    requires
        is_light_data(data@),
        pad < 2,
    ensures
        cmd@ == if bottom {
            bottom_command(data@, pad as int)
        } else {
            top_command(data@, pad as int)
        },
{
    let size: usize = if data.len() == 2 * BYTES_PER_PAD_16 {
        48
    } else {
        75
    };
    let skip: usize = if bottom {
        24
    } else {
        0
    };
    let mut cmd: Vec<u8> = Vec::new();
    cmd.push(
        if bottom {
            CMD_LIGHTS_BOTTOM
        } else {
            CMD_LIGHTS_TOP
        },
    );
    let mut i: usize = 0;
    while i < 216
        invariant
            i <= 216,
            is_light_data(data@),
            pad < 2,
            size == panel_size(data@),
            skip == if bottom {
                24int
            } else {
                0int
            },
            cmd@.len() == 1 + i,
            cmd@[0] == if bottom {
                CMD_LIGHTS_BOTTOM
            } else {
                CMD_LIGHTS_TOP
            },
            forall|j: int|
                1 <= j < 1 + i ==> #[trigger] cmd@[j] == light_byte(
                    data@,
                    pad as int,
                    (j - 1) / 24,
                    skip + (j - 1) % 24,
                ),
        decreases 216 - i,
    {
        assert((9 * pad + i / 24) * size + skip + i % 24 < data@.len()) by (nonlinear_arith)
            requires
                pad < 2,
                i < 216,
                skip <= 24,
                (size == 48 && data@.len() == 864) || (size == 75 && data@.len() == 1350),
        ;
        assert((9 * pad + i / 24) * size >= 0) by (nonlinear_arith)
            requires
                pad >= 0,
                i >= 0,
                size >= 0,
        ;
        cmd.push(scale_color(data[(9 * pad + i / 24) * size + skip + i % 24]));
        i = i + 1;
    }
    cmd.push(END_OF_LINE);
    assert(cmd@ =~= if bottom {
        bottom_command(data@, pad as int)
    } else {
        top_command(data@, pad as int)
    });
    cmd
}

fn build_inner(data: &[u8], pad: usize) -> (cmd: Vec<u8>)
    requires
        is_light_data(data@),
        pad < 2,
    ensures
        cmd@ == inner_command(data@, pad as int),
{
    let full = data.len() == 2 * BYTES_PER_PAD_25;
    let mut cmd: Vec<u8> = Vec::new();
    cmd.push(CMD_LIGHTS_INNER);
    let mut i: usize = 0;
    while i < 243
        invariant
            i <= 243,
            is_light_data(data@),
            pad < 2,
            full == (panel_size(data@) == 75),
            full ==> data@.len() == 1350,
            cmd@.len() == 1 + i,
            cmd@[0] == CMD_LIGHTS_INNER,
            forall|j: int|
                1 <= j < 1 + i ==> #[trigger] cmd@[j] == if full {
                    light_byte(data@, pad as int, (j - 1) / 27, 48 + (j - 1) % 27)
                } else {
                    0u8
                },
        decreases 243 - i,
    {
        if full {
            cmd.push(scale_color(data[(9 * pad + i / 27) * 75 + 48 + i % 27]));
        } else {
            cmd.push(0);
        }
        i = i + 1;
    }
    cmd.push(END_OF_LINE);
    assert(cmd@ =~= inner_command(data@, pad as int));
    cmd
}

/// Builds one of the three commands of a light frame.
pub fn build_lights_command(data: &[u8], pad: usize, k: usize) -> (cmd: Vec<u8>)
    requires
        is_light_data(data@),
        pad < 2,
        k < 3,
    ensures
        cmd@ == lights_command(data@, pad as int, k as int),
{
    if k == 0 {
        build_inner(data, pad)
    } else {
        build_half(data, pad, k == 2)
    }
}

// ─── Waiting frames ──────────────────────────────────────────────────────────

/// A lights command for both pads that waits for its time. An empty command is not
/// sent.
pub struct PendingLightsCommand {
    pub send_at: u64,
    pub pad_command: Vec<Vec<u8>>,
}

/// A waiting lights command as a value.
#[verifier::ext_equal]
pub ghost struct LightsView {
    pub send_at: u64,
    pub commands: Seq<Seq<u8>>,
}

impl View for PendingLightsCommand {
    type V = LightsView;

    open spec fn view(&self) -> LightsView {
        LightsView {
            send_at: self.send_at,
            commands: crate::protocol::byte_views(self.pad_command@),
        }
    }
}

/// Waiting lights commands as values.
pub open spec fn lights_views(pending: Seq<PendingLightsCommand>) -> Seq<LightsView> {
    Seq::new(pending.len(), |i: int| pending[i]@)
}

/// What a pad gets in one of the three commands of a frame: nothing if it is not
/// selected or has no known configuration, and no inner LEDs before version 4.
pub open spec fn share(data: Seq<u8>, pad: int, k: int, selected: bool, version: Option<u8>) -> Seq<u8> {
    if !selected || version is None || (k == 0 && version->0 < 4) {
        Seq::empty()
    } else {
        lights_command(data, pad, k)
    }
}

/// Builds what a pad gets in one of the three commands of a frame.
pub fn build_share(
    data: &[u8],
    pad: usize,
    k: usize,
    selected: bool,
    version: Option<u8>,
) -> (cmd: Vec<u8>)
    requires
        is_light_data(data@),
        pad < 2,
        k < 3,
    ensures
        cmd@ == share(data@, pad as int, k as int, selected, version),
{
    match version {
        Some(v) => if !selected || (k == 0 && v < 4) {
            Vec::new()
        } else {
            build_lights_command(data, pad, k)
        },
        None => Vec::new(),
    }
}

/// One of the three commands of a new frame.
pub open spec fn frame_command(
    data: Seq<u8>,
    k: int,
    selected: Seq<bool>,
    versions: Seq<Option<u8>>,
    send_at: u64,
) -> LightsView {
    LightsView {
        send_at,
        commands: Seq::new(
            2,
            |pad: int| share(data, pad, k, selected[pad], versions[pad]),
        ),
    }
}

/// A waiting command whose shares are replaced by those of a newer frame. A
/// selected pad without a known configuration keeps its share.
pub open spec fn replaced_command(
    waiting: LightsView,
    data: Seq<u8>,
    k: int,
    selected: Seq<bool>,
    versions: Seq<Option<u8>>,
) -> LightsView {
    LightsView {
        send_at: waiting.send_at,
        commands: Seq::new(
            2,
            |pad: int|
                if selected[pad] && versions[pad] is None {
                    waiting.commands[pad]
                } else {
                    share(data, pad, k, selected[pad], versions[pad])
                },
        ),
    }
}

/// A waiting command without one pad's share.
pub open spec fn without_share(waiting: LightsView, pad: int) -> LightsView {
    LightsView { commands: waiting.commands.update(pad, Seq::empty()), ..waiting }
}

/// Builds one of the three commands of a new frame.
pub fn build_frame_command(
    data: &[u8],
    k: usize,
    selected: [bool; 2],
    versions: [Option<u8>; 2],
    send_at: u64,
) -> (cmd: PendingLightsCommand)
    requires
        is_light_data(data@),
        k < 3,
    ensures
        cmd@ == frame_command(data@, k as int, selected@, versions@, send_at),
{
    let mut pad_command: Vec<Vec<u8>> = Vec::new();
    pad_command.push(build_share(data, 0, k, selected[0], versions[0]));
    pad_command.push(build_share(data, 1, k, selected[1], versions[1]));
    let cmd = PendingLightsCommand { send_at, pad_command };
    assert(cmd@.commands =~= frame_command(
        data@,
        k as int,
        selected@,
        versions@,
        send_at,
    ).commands);
    cmd
}

/// Replaces the shares of a waiting command by those of a newer frame.
pub fn replace_shares(
    waiting: &PendingLightsCommand,
    data: &[u8],
    k: usize,
    selected: [bool; 2],
    versions: [Option<u8>; 2],
) -> (cmd: PendingLightsCommand)
    requires
        is_light_data(data@),
        k < 3,
        waiting.pad_command@.len() == 2,
    ensures
        cmd@ == replaced_command(waiting@, data@, k as int, selected@, versions@),
        cmd.pad_command@.len() == 2,
{
    let mut pad_command: Vec<Vec<u8>> = Vec::new();
    let mut pad: usize = 0;
    while pad < 2
        invariant
            pad <= 2,
            is_light_data(data@),
            k < 3,
            waiting.pad_command@.len() == 2,
            pad_command@.len() == pad,
            forall|p: int|
                0 <= p < pad ==> (#[trigger] pad_command@[p])@ == replaced_command(
                    waiting@,
                    data@,
                    k as int,
                    selected@,
                    versions@,
                ).commands[p],
        decreases 2 - pad,
    {
        if selected[pad] && versions[pad].is_none() {
            pad_command.push(copy_bytes(&waiting.pad_command[pad]));
        } else {
            pad_command.push(build_share(data, pad, k, selected[pad], versions[pad]));
        }
        pad = pad + 1;
    }
    let cmd = PendingLightsCommand { send_at: waiting.send_at, pad_command };
    assert(cmd@.commands =~= replaced_command(
        waiting@,
        data@,
        k as int,
        selected@,
        versions@,
    ).commands);
    cmd
}

// ─── Laws ────────────────────────────────────────────────────────────────────

/// A light frame's commands are 245, 218 and 218 bytes long.
pub proof fn law_lights_command_sizes(data: Seq<u8>, pad: int)
    ensures
        lights_command(data, pad, 0).len() == 245,
        lights_command(data, pad, 1).len() == 218,
        lights_command(data, pad, 2).len() == 218,
{
}

/// The three commands carry every color of the pad, each once: byte `k` of a panel
/// is in the upper half, the lower half or the inner command, at its own place.
pub proof fn law_commands_carry_every_color(data: Seq<u8>, pad: int, panel: int, k: int)
    requires
        is_light_data(data),
        0 <= pad < 2,
        0 <= panel < 9,
        0 <= k < panel_size(data),
    ensures
        k < 24 ==> top_command(data, pad)[1 + 24 * panel + k] == light_byte(data, pad, panel, k),
        24 <= k < 48 ==> bottom_command(data, pad)[1 + 24 * panel + k - 24] == light_byte(
            data,
            pad,
            panel,
            k,
        ),
        48 <= k ==> inner_command(data, pad)[1 + 27 * panel + k - 48] == light_byte(
            data,
            pad,
            panel,
            k,
        ),
{
    if k < 24 {
        let i = 24 * panel + k;
        assert(i / 24 == panel && i % 24 == k);
        assert(top_command(data, pad)[1 + i] == light_byte(data, pad, i / 24, i % 24));
    } else if k < 48 {
        let i = 24 * panel + k - 24;
        assert(i / 24 == panel && i % 24 == k - 24);
        assert(bottom_command(data, pad)[1 + i] == light_byte(data, pad, i / 24, 24 + i % 24));
    } else {
        let i = 27 * panel + k - 48;
        assert(i / 27 == panel && i % 27 == k - 48);
        assert(inner_command(data, pad)[1 + i] == light_byte(data, pad, i / 27, 48 + i % 27));
    }
}

/// A pad that is not selected has no share in a new frame, nor in a waiting one
/// that the frame replaces.
pub proof fn law_deselected_pad_gets_nothing(
    waiting: LightsView,
    data: Seq<u8>,
    k: int,
    selected: Seq<bool>,
    versions: Seq<Option<u8>>,
    send_at: u64,
    pad: int,
)
    requires
        0 <= pad < 2,
        !selected[pad],
    ensures
        frame_command(data, k, selected, versions, send_at).commands[pad].len() == 0,
        replaced_command(waiting, data, k, selected, versions).commands[pad].len() == 0,
{
}

/// Selecting one pad more or less does not change the other pad's share.
pub proof fn law_shares_are_independent(
    data: Seq<u8>,
    k: int,
    a: Seq<bool>,
    b: Seq<bool>,
    versions: Seq<Option<u8>>,
    send_at: u64,
    pad: int,
)
    requires
        0 <= pad < 2,
        a[pad] == b[pad],
    ensures
        frame_command(data, k, a, versions, send_at).commands[pad] == frame_command(
            data,
            k,
            b,
            versions,
            send_at,
        ).commands[pad],
{
}

/// `sent` is how a color value goes to the panels: its 6666 ten-thousandths, rounded
/// down.
pub open spec fn is_sent_for(sent: u8, value: u8) -> bool {
    10000 * sent <= 6666 * value < 10000 * sent + 10000
}

/// Which byte of the light data goes where. For both pads there are 1350 bytes, 675 for
/// each pad and 75 for each panel: four rows of four outer LEDs, then three rows of
/// three inner ones, three bytes each; or 864 bytes, 432 for each pad and 48 for each
/// panel, with the outer LEDs only. The first two rows of outer LEDs of all panels go
/// out as command `2`, the other two rows as command `3`, the inner LEDs as command `4`.
pub proof fn law_light_data_by_number(data: Seq<u8>, pad: int, panel: int, k: int)
    requires
        data.len() == 1350 || data.len() == 864,
        0 <= pad < 2,
        0 <= panel < 9,
    ensures
        ({
            let inner = lights_command(data, pad, 0);
            let top = lights_command(data, pad, 1);
            let bottom = lights_command(data, pad, 2);
            let first = if data.len() == 1350 {
                675 * pad + 75 * panel
            } else {
                432 * pad + 48 * panel
            };
            &&& inner.len() == 245 && inner[0] == '4' as u8 && inner[244] == 10
            &&& top.len() == 218 && top[0] == '2' as u8 && top[217] == 10
            &&& bottom.len() == 218 && bottom[0] == '3' as u8 && bottom[217] == 10
            &&& 0 <= k < 24 ==> is_sent_for(top[1 + 24 * panel + k], data[first + k])
            &&& 0 <= k < 24 ==> is_sent_for(bottom[1 + 24 * panel + k], data[first + 24 + k])
            &&& 0 <= k < 27 && data.len() == 1350 ==> is_sent_for(
                inner[1 + 27 * panel + k],
                data[first + 48 + k],
            )
            &&& 0 <= k < 27 && data.len() == 864 ==> inner[1 + 27 * panel + k] == 0
        }),
{
    let size = panel_size(data);
    assert((9 * pad + panel) * size == 9 * pad * size + panel * size) by (nonlinear_arith);
    if 0 <= k < 24 {
        law_commands_carry_every_color(data, pad, panel, k);
        law_commands_carry_every_color(data, pad, panel, 24 + k);
        crate::lights::law_colors_are_sent_at_two_thirds(
            data[(9 * pad + panel) * size + k],
        );
        crate::lights::law_colors_are_sent_at_two_thirds(
            data[(9 * pad + panel) * size + 24 + k],
        );
    }
    if 0 <= k < 27 {
        let i = 27 * panel + k;
        assert(i / 27 == panel && i % 27 == k);
        if data.len() == 1350 {
            law_commands_carry_every_color(data, pad, panel, 48 + k);
            crate::lights::law_colors_are_sent_at_two_thirds(
                data[(9 * pad + panel) * size + 48 + k],
            );
        } else {
            assert(inner_command(data, pad)[1 + i] == 0);
        }
    }
}

/// Who gets light: a selected pad whose configuration is known; the inner LEDs only from
/// version 4 on.
pub proof fn law_who_gets_light(
    data: Seq<u8>,
    pad: int,
    k: int,
    selected: bool,
    version: Option<u8>,
)
    ensures
        !selected || version is None ==> share(data, pad, k, selected, version).len() == 0,
        selected && version is Some && k != 0 ==> share(data, pad, k, selected, version)
            == lights_command(data, pad, k),
        selected && version is Some && k == 0 && version->0 >= 4 ==> share(
            data,
            pad,
            k,
            selected,
            version,
        ) == lights_command(data, pad, k),
        k == 0 && version is Some && version->0 < 4 ==> share(
            data,
            pad,
            k,
            selected,
            version,
        ).len() == 0,
{
}

/// Light data has 864 or 1350 bytes. A waiting command keeps its time when a newer frame
/// takes its place, and a selected pad that is not known yet keeps what waits for it.
pub proof fn law_replacing_keeps_the_time(
    waiting: LightsView,
    data: Seq<u8>,
    k: int,
    selected: Seq<bool>,
    versions: Seq<Option<u8>>,
    pad: int,
)
    requires
        0 <= pad < 2,
    ensures
        is_light_data(data) <==> data.len() == 864 || data.len() == 1350,
        replaced_command(waiting, data, k, selected, versions).send_at == waiting.send_at,
        selected[pad] && versions[pad] is None ==> replaced_command(
            waiting,
            data,
            k,
            selected,
            versions,
        ).commands[pad] == waiting.commands[pad],
{
}

} // verus!
