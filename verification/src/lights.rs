//! Panel animations: loading them from GIFs and drawing the light frames of both
//! pads.

use vstd::prelude::*;

use crate::gif::{
    decode_gif, extract_panel, DecodedFrame, FrameView, PanelFrame, RgbaImage,
};
use crate::protocol::{
    lemma_panel_bit_is_a_digit, panel_weight, LED_COLOR_SCALE_DENOMINATOR,
    LED_COLOR_SCALE_NUMERATOR,
};
use crate::single::{add_display_frame, subtract, time_of_delay, LONGEST_TIME};

verus! {

/// Which of a pad's two animations.
#[derive(Clone, Copy, Debug, PartialEq, Eq, Structural)]
pub enum LightsType {
    Released,
    Pressed,
}

/// Index of an animation among a pad's two.
pub open spec fn type_index(t: LightsType) -> int {
    match t {
        LightsType::Released => 0,
        LightsType::Pressed => 1,
    }
}

impl LightsType {
    /// Index of the animation among a pad's two.
    pub fn index(self) -> (i: usize)
        ensures
            i == type_index(self),
            i < 2,
    {
        match self {
            LightsType::Released => 0,
            LightsType::Pressed => 1,
        }
    }
}

// ─── Colors ──────────────────────────────────────────────────────────────────

/// A color value as the panels get it: 0.6666 of it, rounded down.
pub open spec fn scaled(c: u8) -> u8 {
    (c as int * LED_COLOR_SCALE_NUMERATOR as int / LED_COLOR_SCALE_DENOMINATOR as int) as u8
}

/// Scales a color value for the panels.
pub fn scale_color(c: u8) -> (r: u8)
    ensures
        r == scaled(c),
{
    ((c as u32) * LED_COLOR_SCALE_NUMERATOR / LED_COLOR_SCALE_DENOMINATOR) as u8
}

/// No panel is driven above 169 of 255, black stays black, and brighter stays at
/// least as bright.
pub proof fn law_scaling_is_bounded_and_monotone(a: u8, b: u8)
    requires
        a <= b,
    ensures
        scaled(a) <= scaled(b) <= 169,
        scaled(a) <= a,
        scaled(0) == 0,
{
}

// ─── Loop marker ─────────────────────────────────────────────────────────────

/// Whether a frame is marked as the one to go back to: the pixel at its bottom
/// left is opaque and at least half red.
pub open spec fn is_marked(f: FrameView) -> bool {
    let y = f.image.height - 1;
    f.image.channel(0, y, 3) == 255 && f.image.channel(0, y, 0) >= 128
}

/// The frame to go back to among the first `n`: the first marked one after the
/// very first frame, else the first frame.
pub open spec fn loop_frame_of(frames: Seq<FrameView>, n: int) -> int
    decreases n,
{
    if n <= 1 {
        0
    } else {
        let before = loop_frame_of(frames, n - 1);
        if before == 0 && is_marked(frames[n - 1]) {
            n - 1
        } else {
            before
        }
    }
}

/// Whether an image carries the loop marker.
pub fn has_marker(image: &RgbaImage) -> (marked: bool)
    requires
        image@.wf(),
        image.width > 0,
        image.height > 0,
    ensures
        marked == is_marked(FrameView { image: image@, delay_ms: 0 }),
{
    let y: u32 = image.height - 1;
    image.get_channel(0, y, 3) == 255 && image.get_channel(0, y, 0) >= 128
}

proof fn lemma_loop_frame(frames: Seq<FrameView>, n: int)
    requires
        0 <= n <= frames.len(),
    ensures
        0 <= loop_frame_of(frames, n),
        n > 0 ==> loop_frame_of(frames, n) < n,
        loop_frame_of(frames, n) > 0 ==> is_marked(frames[loop_frame_of(frames, n)]),
        forall|f: int|
            1 <= f < n && is_marked(#[trigger] frames[f]) ==> 0 < loop_frame_of(frames, n) <= f,
    decreases n,
{
    if n > 1 {
        lemma_loop_frame(frames, n - 1);
    }
}

/// The loop goes back to the first marked frame after the first one, and to the
/// first frame if there is none.
pub proof fn law_loop_frame_is_the_first_marked(frames: Seq<FrameView>)
    requires
        frames.len() > 0,
    ensures
        0 <= loop_frame_of(frames, frames.len() as int) < frames.len(),
        loop_frame_of(frames, frames.len() as int) > 0 ==> is_marked(
            frames[loop_frame_of(frames, frames.len() as int)],
        ),
        forall|f: int|
            1 <= f < frames.len() && is_marked(#[trigger] frames[f]) ==> 0 < loop_frame_of(
                frames,
                frames.len() as int,
            ) <= f,
{
    lemma_loop_frame(frames, frames.len() as int);
}

// ─── Animation data ──────────────────────────────────────────────────────────

/// An animation, cut into panels.
#[derive(Debug)]
pub struct PanelAnimationData {
    /// For each panel, its frames.
    pub frames: Vec<Vec<PanelFrame>>,
    /// How long each frame is shown, in single precision.
    pub durations: Vec<u64>,
    /// Frame to go back to after the last one.
    pub loop_frame: usize,
}

/// An animation as a value: LED colors by panel and frame, durations, loop frame.
#[verifier::ext_equal]
pub ghost struct AnimationView {
    pub frames: Seq<Seq<Seq<u8>>>,
    pub durations: Seq<u64>,
    pub loop_frame: int,
}

/// The LED colors of panel frames.
pub open spec fn rgb_views(frames: Seq<PanelFrame>) -> Seq<Seq<u8>> {
    Seq::new(frames.len(), |i: int| frames[i].rgb@)
}

impl View for PanelAnimationData {
    type V = AnimationView;

    open spec fn view(&self) -> AnimationView {
        AnimationView {
            frames: Seq::new(self.frames@.len(), |p: int| rgb_views(self.frames@[p]@)),
            durations: self.durations@,
            loop_frame: self.loop_frame as int,
        }
    }
}

impl PanelAnimationData {
    /// Nine panels with as many frames as there are durations, at least one, each
    /// of 16 or 25 LEDs.
    pub open spec fn wf(&self) -> bool {
        &&& self.durations@.len() > 0
        &&& self.loop_frame < self.durations@.len()
        &&& self.frames@.len() == 9
        &&& forall|p: int|
            0 <= p < 9 ==> (#[trigger] self.frames@[p])@.len() == self.durations@.len()
        &&& forall|p: int, f: int|
            0 <= p < 9 && 0 <= f < self.durations@.len() ==> {
                &&& (#[trigger] self.frames@[p]@[f]).wf()
                &&& self.frames@[p]@[f].num_leds == 16 || self.frames@[p]@[f].num_leds == 25
            }
    }
}

/// The animation that frames of a pad make.
pub open spec fn animation_of(frames: Seq<FrameView>) -> AnimationView {
    AnimationView {
        frames: Seq::new(
            9,
            |p: int| Seq::new(frames.len(), |f: int| crate::gif::panel_rgb(frames[f].image, p)),
        ),
        durations: Seq::new(frames.len(), |f: int| crate::single::frame_time(frames[f].delay_ms)),
        loop_frame: loop_frame_of(frames, frames.len() as int),
    }
}

/// Cuts one panel out of every frame.
pub fn panel_frames(frames: &Vec<DecodedFrame>, panel: usize) -> (r: Vec<PanelFrame>)
    requires
        frames@.len() > 0,
        crate::gif::frames_wf(crate::gif::frame_views(frames@)),
        crate::gif::is_pad_size(frames@[0].rgba.width, frames@[0].rgba.height),
        panel < 9,
    ensures
        r@.len() == frames@.len(),
        forall|f: int|
            0 <= f < r@.len() ==> {
                &&& (#[trigger] r@[f]).wf()
                &&& r@[f].num_leds == crate::gif::leds_of_width(frames@[0].rgba.width)
                &&& r@[f].rgb@ == crate::gif::panel_rgb(frames@[f].rgba@, panel as int)
            },
{
    let mut r: Vec<PanelFrame> = Vec::new();
    let mut f: usize = 0;
    while f < frames.len()
        invariant
            f <= frames@.len(),
            r@.len() == f,
            panel < 9,
            frames@.len() > 0,
            crate::gif::frames_wf(crate::gif::frame_views(frames@)),
            crate::gif::is_pad_size(frames@[0].rgba.width, frames@[0].rgba.height),
            forall|k: int|
                0 <= k < f ==> {
                    &&& (#[trigger] r@[k]).wf()
                    &&& r@[k].num_leds == crate::gif::leds_of_width(frames@[0].rgba.width)
                    &&& r@[k].rgb@ == crate::gif::panel_rgb(frames@[k].rgba@, panel as int)
                },
        decreases frames@.len() - f,
    {
        proof {
            let v = crate::gif::frame_views(frames@);
            assert(v[f as int].image.wf());
            assert(v[0] == frames@[0]@);
        }
        r.push(extract_panel(&frames[f].rgba, panel));
        f = f + 1;
    }
    r
}

/// Finds the loop frame.
pub fn find_loop_frame(frames: &Vec<DecodedFrame>) -> (l: usize)
    requires
        frames@.len() > 0,
        crate::gif::frames_wf(crate::gif::frame_views(frames@)),
        frames@[0].rgba.width > 0,
        frames@[0].rgba.height > 0,
    ensures
        l == loop_frame_of(crate::gif::frame_views(frames@), frames@.len() as int),
        l < frames@.len(),
{
    let ghost v = crate::gif::frame_views(frames@);
    let mut loop_frame: usize = 0;
    let mut f: usize = 1;
    while f < frames.len()
        invariant
            1 <= f <= frames@.len(),
            v == crate::gif::frame_views(frames@),
            crate::gif::frames_wf(v),
            frames@[0].rgba.width > 0,
            frames@[0].rgba.height > 0,
            loop_frame == loop_frame_of(v, f as int),
        decreases frames@.len() - f,
    {
        assert(v[f as int].image.wf());
        assert(v[0] == frames@[0]@);
        if has_marker(&frames[f].rgba) && loop_frame == 0 {
            loop_frame = f;
        }
        f = f + 1;
    }
    proof {
        lemma_loop_frame(v, frames@.len() as int);
    }
    loop_frame
}

/// Cuts the frames of a pad into an animation.
pub fn build_animation(frames: &Vec<DecodedFrame>) -> (anim: PanelAnimationData)
    requires
        frames@.len() > 0,
        crate::gif::frames_wf(crate::gif::frame_views(frames@)),
        crate::gif::is_pad_size(frames@[0].rgba.width, frames@[0].rgba.height),
    ensures
        anim.wf(),
        anim@ == animation_of(crate::gif::frame_views(frames@)),
{
    let ghost v = crate::gif::frame_views(frames@);
    let mut durations: Vec<u64> = Vec::new();
    let mut f: usize = 0;
    while f < frames.len()
        invariant
            f <= frames@.len(),
            durations@ == Seq::new(f as nat, |k: int| crate::single::frame_time(frames@[k].delay_ms)),
        decreases frames@.len() - f,
    {
        durations.push(time_of_delay(frames[f].delay_ms));
        f = f + 1;
        assert(durations@ =~= Seq::new(f as nat, |k: int| crate::single::frame_time(frames@[k].delay_ms)));
    }
    let mut panels: Vec<Vec<PanelFrame>> = Vec::new();
    let mut panel: usize = 0;
    while panel < 9
        invariant
            panel <= 9,
            panels@.len() == panel,
            frames@.len() > 0,
            v == crate::gif::frame_views(frames@),
            crate::gif::frames_wf(v),
            crate::gif::is_pad_size(frames@[0].rgba.width, frames@[0].rgba.height),
            forall|p: int|
                0 <= p < panel ==> (#[trigger] panels@[p])@.len() == frames@.len() && rgb_views(
                    panels@[p]@,
                ) == Seq::new(v.len(), |f: int| crate::gif::panel_rgb(v[f].image, p)),
            forall|p: int, f: int|
                0 <= p < panel && 0 <= f < frames@.len() ==> {
                    &&& (#[trigger] panels@[p]@[f]).wf()
                    &&& panels@[p]@[f].num_leds == 16 || panels@[p]@[f].num_leds == 25
                },
        decreases 9 - panel,
    {
        let cut = panel_frames(frames, panel);
        assert(rgb_views(cut@) =~= Seq::new(
            v.len(),
            |f: int| crate::gif::panel_rgb(v[f].image, panel as int),
        ));
        panels.push(cut);
        panel = panel + 1;
    }
    let loop_frame = find_loop_frame(frames);
    let anim = PanelAnimationData { frames: panels, durations, loop_frame };
    assert(anim@ =~= animation_of(v)) by {
        assert(anim@.frames =~= animation_of(v).frames);
        assert(anim@.durations =~= animation_of(v).durations);
    }
    anim
}

// ─── Playback ────────────────────────────────────────────────────────────────

/// Where a panel is in its animation.
#[derive(Clone, Copy, Debug, PartialEq, Eq, Structural)]
pub struct PlaybackState {
    pub current_frame: usize,
    /// For how long the frame has been shown, in single precision.
    pub time_in_frame: u64,
    pub playing: bool,
}

/// At the first frame, not playing.
pub open spec fn at_rest() -> PlaybackState {
    PlaybackState { current_frame: 0, time_in_frame: 0, playing: false }
}

/// The animations of both pads and how far each panel has played them.
pub struct AnimationState {
    /// The animation of type `t` of a pad is at `2 * pad + t`.
    pub animations: Vec<Option<PanelAnimationData>>,
    /// A panel's place in the animation at `a` is at `9 * a + panel`.
    pub playback: Vec<PlaybackState>,
}

/// The animations and how far they have played, as a value.
#[verifier::ext_equal]
pub ghost struct AnimationStateView {
    pub animations: Seq<Option<AnimationView>>,
    pub playback: Seq<PlaybackState>,
}

impl View for AnimationState {
    type V = AnimationStateView;

    open spec fn view(&self) -> AnimationStateView {
        AnimationStateView {
            animations: Seq::new(
                self.animations@.len(),
                |a: int|
                    match self.animations@[a] {
                        Some(anim) => Some(anim@),
                        None => None,
                    },
            ),
            playback: self.playback@,
        }
    }
}

/// Slot of an animation.
pub open spec fn slot_of(pad: int, t: LightsType) -> int {
    2 * pad + type_index(t)
}

/// Whether a panel's bit is set in an input state.
pub open spec fn is_pressed(input: u16, panel: int) -> bool {
    (input >> (panel as u16)) & 1 != 0
}

/// The color bytes of the frame that a panel shows of an animation.
pub open spec fn shown(s: AnimationStateView, slot: int, panel: int) -> Seq<u8> {
    s.animations[slot]->0.frames[panel][s.playback[9 * slot + panel].current_frame as int]
}

/// Whether the LED that byte `k` belongs to is not black.
pub open spec fn is_lit(rgb: Seq<u8>, k: int) -> bool {
    let led = k / 3 * 3;
    rgb[led] != 0 || rgb[led + 1] != 0 || rgb[led + 2] != 0
}

/// Byte `k` of a panel's 75: the released animation, over which the LEDs of the
/// pressed animation lie that are not black, while the panel is pressed.
pub open spec fn panel_byte(s: AnimationStateView, inputs: Seq<u16>, pad: int, panel: int, k: int) -> u8 {
    let released = slot_of(pad, LightsType::Released);
    let pressed = slot_of(pad, LightsType::Pressed);
    let base = if s.animations[released] is Some && k < shown(s, released, panel).len() {
        shown(s, released, panel)[k]
    } else {
        0u8
    };
    if s.animations[pressed] is Some && is_pressed(inputs[pad], panel) && k < shown(
        s,
        pressed,
        panel,
    ).len() && is_lit(shown(s, pressed, panel), k) {
        shown(s, pressed, panel)[k]
    } else {
        base
    }
}

/// The light data of both pads: 75 bytes for each of 9 panels of 2 pads.
pub open spec fn drawn(s: AnimationStateView, inputs: Seq<u16>) -> Seq<u8> {
    Seq::new(
        1350,
        |i: int| panel_byte(s, inputs, i / 675, (i % 675) / 75, i % 75),
    )
}

/// A panel's playback after one more display frame: where it plays and its frame is
/// over, the next frame comes, or the loop frame after the last.
pub open spec fn advanced(anim: AnimationView, ps: PlaybackState) -> PlaybackState {
    let t = crate::single::later(ps.time_in_frame);
    let d = anim.durations[ps.current_frame as int];
    if !ps.playing {
        ps
    } else if t < d {
        PlaybackState { current_frame: ps.current_frame, time_in_frame: t, playing: true }
    } else {
        PlaybackState {
            current_frame: if ps.current_frame + 1 >= anim.durations.len() {
                anim.loop_frame as usize
            } else {
                (ps.current_frame + 1) as usize
            },
            time_in_frame: crate::single::left_over(t, d),
            playing: true,
        }
    }
}

/// A panel's playback once its frame is drawn: the released animation always plays;
/// the pressed one plays while the panel is pressed and goes back to its start when
/// it is let go. What plays then moves on by one display frame.
pub open spec fn playback_when_drawn(
    s: AnimationStateView,
    inputs: Seq<u16>,
    slot: int,
    panel: int,
) -> PlaybackState {
    let ps = s.playback[9 * slot + panel];
    match s.animations[slot] {
        None => ps,
        Some(anim) => if slot % 2 == 0 || is_pressed(inputs[slot / 2], panel) {
            advanced(
                anim,
                PlaybackState {
                    current_frame: ps.current_frame,
                    time_in_frame: ps.time_in_frame,
                    playing: true,
                },
            )
        } else {
            at_rest()
        },
    }
}

/// The state once a frame is drawn.
pub open spec fn state_when_drawn(s: AnimationStateView, inputs: Seq<u16>) -> AnimationStateView {
    AnimationStateView {
        animations: s.animations,
        playback: Seq::new(36, |i: int| playback_when_drawn(s, inputs, i / 9, i % 9)),
    }
}

/// The state with an animation in a slot, played from its start.
pub open spec fn with_animation(s: AnimationStateView, slot: int, anim: AnimationView) -> AnimationStateView {
    AnimationStateView {
        animations: s.animations.update(slot, Some(anim)),
        playback: Seq::new(
            36,
            |i: int|
                if i / 9 == slot {
                    at_rest()
                } else {
                    s.playback[i]
                },
        ),
    }
}

impl PanelAnimationData {
    /// Moves a panel's playback on by one display frame.
    fn advance(&self, ps: PlaybackState) -> (r: PlaybackState)
        requires
            self.wf(),
            ps.current_frame < self.durations@.len(),
            ps.time_in_frame <= LONGEST_TIME,
        ensures
            r == advanced(self@, ps),
            r.current_frame < self.durations@.len(),
            r.time_in_frame <= LONGEST_TIME,
    {
        if !ps.playing {
            return ps;
        }
        let t: u64 = add_display_frame(ps.time_in_frame);
        let d: u64 = self.durations[ps.current_frame];
        if t < d {
            return PlaybackState {
                current_frame: ps.current_frame,
                time_in_frame: t,
                playing: true,
            };
        }
        let count: usize = self.durations.len();
        PlaybackState {
            current_frame: if ps.current_frame + 1 >= count {
                self.loop_frame
            } else {
                ps.current_frame + 1
            },
            time_in_frame: subtract(t, d),
            playing: true,
        }
    }
}

/// What loading frames gives: the reason why not, or nothing.
pub open spec fn load_error(frames: Seq<FrameView>) -> Option<Seq<char>> {
    if !crate::gif::is_pad_size(frames[0].image.width, frames[0].image.height) {
        Some("The GIF must be 14x15 or 23x24."@)
    } else {
        None
    }
}

impl AnimationState {
    /// There is a place for each animation and panel, every panel is at a frame that
    /// its animation has, and no time has run beyond what display frames add up to.
    pub open spec fn wf(&self) -> bool {
        &&& self.animations@.len() == 4
        &&& self.playback@.len() == 36
        &&& forall|a: int|
            0 <= a < 4 && (#[trigger] self.animations@[a]) is Some ==> self.animations@[a]->0.wf()
        &&& forall|i: int|
            0 <= i < 36 && self.animations@[i / 9] is Some ==> (
            #[trigger] self.playback@[i]).current_frame < self.animations@[i
                / 9]->0.durations@.len()
        &&& forall|i: int|
            0 <= i < 36 ==> (#[trigger] self.playback@[i]).time_in_frame <= LONGEST_TIME
    }

    /// No animations.
    pub fn new() -> (s: Self)
        ensures
            s.wf(),
            s@.animations == Seq::new(4, |a: int| None::<AnimationView>),
            s@.playback == Seq::new(36, |i: int| at_rest()),
    {
        let mut animations: Vec<Option<PanelAnimationData>> = Vec::new();
        animations.push(None);
        animations.push(None);
        animations.push(None);
        animations.push(None);
        let playback: Vec<PlaybackState> = vec![
            PlaybackState { current_frame: 0, time_in_frame: 0, playing: false };
            36
        ];
        let s = AnimationState { animations, playback };
        assert(s@.animations =~= Seq::new(4, |a: int| None::<AnimationView>));
        assert(s@.playback =~= Seq::new(36, |i: int| at_rest()));
        s
    }

    /// Puts an animation into a slot, to be played from its start.
    pub fn load_frames(
        &mut self,
        frames: &Vec<DecodedFrame>,
        pad: usize,
        lights_type: LightsType,
    ) -> (r: Result<(), &'static str>)
        requires
            old(self).wf(),
            frames@.len() > 0,
            crate::gif::frames_wf(crate::gif::frame_views(frames@)),
            pad <= 1,
        ensures
            final(self).wf(),
            match r {
                Ok(()) => load_error(crate::gif::frame_views(frames@)) is None && final(self)@
                    == with_animation(
                    old(self)@,
                    slot_of(pad as int, lights_type),
                    animation_of(crate::gif::frame_views(frames@)),
                ),
                Err(e) => load_error(crate::gif::frame_views(frames@)) == Some(e@) && final(self)@
                    == old(self)@,
            },
    {
        let w: u32 = frames[0].rgba.width;
        let h: u32 = frames[0].rgba.height;
        assert(crate::gif::frame_views(frames@)[0] == frames@[0]@);
        if !((w == 14 && h == 15) || (w == 23 && h == 24)) {
            return Err("The GIF must be 14x15 or 23x24.");
        }
        let anim = build_animation(frames);
        let slot: usize = 2 * pad + lights_type.index();
        let ghost anim_view = anim@;
        self.animations[slot] = Some(anim);
        let mut panel: usize = 0;
        while panel < 9
            invariant
                panel <= 9,
                slot < 4,
                self.animations@.len() == 4,
                self.playback@.len() == 36,
                old(self).playback@.len() == 36,
                self.animations@ == old(self).animations@.update(slot as int, Some(anim)),
                forall|i: int|
                    0 <= i < 36 ==> #[trigger] self.playback@[i] == if 9 * slot <= i < 9 * slot
                        + panel {
                        at_rest()
                    } else {
                        old(self).playback@[i]
                    },
            decreases 9 - panel,
        {
            self.playback[9 * slot + panel] = PlaybackState { current_frame: 0, time_in_frame: 0, playing: false };
            panel = panel + 1;
        }
        assert(self@ =~= with_animation(
            old(self)@,
            slot_of(pad as int, lights_type),
            animation_of(crate::gif::frame_views(frames@)),
        ));
        Ok(())
    }

    /// Decodes a GIF and puts its animation into a slot.
    pub fn load(&mut self, gif_data: &[u8], pad: usize, lights_type: LightsType) -> (r: Result<
        (),
        &'static str,
    >)
        requires
            old(self).wf(),
        ensures
            final(self).wf(),
            r is Err ==> final(self)@ == old(self)@,
            pad > 1 ==> r is Err && r->Err_0@ == "Invalid pad index."@,
            pad <= 1 ==> match crate::gif::decoded_frames(
                crate::gif::gif_items(gif_data@, gif_data@.len()),
            ) {
                Err(e) => r is Err && r->Err_0@ == e,
                Ok(frames) => match load_error(frames) {
                    Some(e) => r is Err && r->Err_0@ == e,
                    None => r is Ok && final(self)@ == with_animation(
                        old(self)@,
                        slot_of(pad as int, lights_type),
                        animation_of(frames),
                    ),
                },
            },
    {
        if pad > 1 {
            return Err("Invalid pad index.");
        }
        match decode_gif(gif_data) {
            Err(e) => Err(e),
            Ok(frames) => self.load_frames(&frames, pad, lights_type),
        }
    }

    /// Draws one panel at the end of `out`.
    fn draw_panel(&self, inputs: &[u16; 2], pad: usize, panel: usize, out: &mut Vec<u8>)
        requires
            self.wf(),
            pad < 2,
            panel < 9,
        ensures
            final(out)@.len() == old(out)@.len() + 75,
            forall|i: int|
                0 <= i < old(out)@.len() ==> #[trigger] final(out)@[i] == old(out)@[i],
            forall|k: int|
                0 <= k < 75 ==> #[trigger] final(out)@[old(out)@.len() + k] == panel_byte(
                    self@,
                    inputs@,
                    pad as int,
                    panel as int,
                    k,
                ),
    {
        let released: usize = 2 * pad;
        let pressed: usize = 2 * pad + 1;
        let down = (inputs[pad] >> (panel as u16)) & 1 != 0;
        let ghost start = out@.len() as int;
        let ghost r_at = 9 * released + panel;
        let ghost p_at = 9 * pressed + panel;
        assert(r_at / 9 == released && r_at % 9 == panel);
        assert(p_at / 9 == pressed && p_at % 9 == panel);
        assert(self.animations@[released as int] is Some ==> self.playback@[r_at].current_frame
            < self.animations@[released as int]->0.durations@.len());
        assert(self.animations@[pressed as int] is Some ==> self.playback@[p_at].current_frame
            < self.animations@[pressed as int]->0.durations@.len());
        let mut k: usize = 0;
        while k < 75
            invariant
                k <= 75,
                k % 3 == 0,
                self.wf(),
                pad < 2,
                panel < 9,
                released == 2 * pad,
                pressed == 2 * pad + 1,
                down == is_pressed(inputs@[pad as int], panel as int),
                self.animations@[released as int] is Some ==> self.playback@[9 * released
                    + panel].current_frame
                    < self.animations@[released as int]->0.durations@.len(),
                self.animations@[pressed as int] is Some ==> self.playback@[9 * pressed
                    + panel].current_frame
                    < self.animations@[pressed as int]->0.durations@.len(),
                start == old(out)@.len(),
                out@.len() == start + k,
                forall|i: int| 0 <= i < start ==> #[trigger] out@[i] == old(out)@[i],
                forall|j: int|
                    start <= j < start + k ==> #[trigger] out@[j] == panel_byte(
                        self@,
                        inputs@,
                        pad as int,
                        panel as int,
                        j - start,
                    ),
            decreases 75 - k,
        {
            let mut r: u8 = 0;
            let mut g: u8 = 0;
            let mut b: u8 = 0;
            if let Some(anim) = &self.animations[released] {
                let frame = &anim.frames[panel][self.playback[9 * released + panel].current_frame];
                assert(frame.rgb@ == shown(self@, released as int, panel as int));
                if k < frame.rgb.len() {
                    r = frame.rgb[k];
                    g = frame.rgb[k + 1];
                    b = frame.rgb[k + 2];
                }
            }
            if down {
                if let Some(anim) = &self.animations[pressed] {
                    let frame =
                        &anim.frames[panel][self.playback[9 * pressed + panel].current_frame];
                    assert(frame.rgb@ == shown(self@, pressed as int, panel as int));
                    if k < frame.rgb.len() {
                        let r2: u8 = frame.rgb[k];
                        let g2: u8 = frame.rgb[k + 1];
                        let b2: u8 = frame.rgb[k + 2];
                        if r2 != 0 || g2 != 0 || b2 != 0 {
                            r = r2;
                            g = g2;
                            b = b2;
                        }
                    }
                }
            }
            proof {
                let s = self@;
                assert(k / 3 * 3 == k && (k + 1) / 3 * 3 == k && (k + 2) / 3 * 3 == k);
                assert(r == panel_byte(s, inputs@, pad as int, panel as int, k as int));
                assert(g == panel_byte(s, inputs@, pad as int, panel as int, k + 1));
                assert(b == panel_byte(s, inputs@, pad as int, panel as int, k + 2));
            }
            out.push(r);
            out.push(g);
            out.push(b);
            k = k + 3;
        }
    }

    /// Draws the light data of both pads into `out`, starts or stops the animations as
    /// the panels are pressed, and moves what plays on by a thirtieth of a second.
    pub fn build_frame_into(&mut self, input_states: [u16; 2], out: &mut Vec<u8>)
        requires
            old(self).wf(),
        ensures
            final(self).wf(),
            final(self)@ == state_when_drawn(old(self)@, input_states@),
            final(out)@ == drawn(old(self)@, input_states@),
    {
        out.clear();
        let mut i: usize = 0;
        while i < 18
            invariant
                i <= 18,
                self.wf(),
                *self == *old(self),
                out@.len() == 75 * i,
                forall|j: int|
                    0 <= j < 75 * i ==> #[trigger] out@[j] == panel_byte(
                        self@,
                        input_states@,
                        j / 675,
                        (j % 675) / 75,
                        j % 75,
                    ),
            decreases 18 - i,
        {
            let ghost before = out@;
            self.draw_panel(&input_states, i / 9, i % 9, out);
            assert forall|j: int| 0 <= j < 75 * (i + 1) implies #[trigger] out@[j] == panel_byte(
                self@,
                input_states@,
                j / 675,
                (j % 675) / 75,
                j % 75,
            ) by {
                if j < 75 * i {
                    assert(out@[j] == before[j]);
                } else {
                    let k = j - 75 * i;
                    assert(out@[before.len() + k] == panel_byte(
                        self@,
                        input_states@,
                        (i / 9) as int,
                        (i % 9) as int,
                        k,
                    ));
                    assert(j / 675 == i / 9);
                    assert((j % 675) / 75 == i % 9);
                    assert(j % 75 == k);
                }
            }
            i = i + 1;
        }
        assert(out@ =~= drawn(old(self)@, input_states@));

        let mut a: usize = 0;
        while a < 36
            invariant
                a <= 36,
                old(self).wf(),
                self.animations == old(self).animations,
                self.playback@.len() == 36,
                forall|j: int|
                    0 <= j < 36 ==> #[trigger] self.playback@[j] == if j < a {
                        playback_when_drawn(old(self)@, input_states@, j / 9, j % 9)
                    } else {
                        old(self).playback@[j]
                    },
                forall|j: int|
                    0 <= j < 36 && self.animations@[j / 9] is Some ==> (
                    #[trigger] self.playback@[j]).current_frame < self.animations@[j
                        / 9]->0.durations@.len(),
                forall|j: int|
                    0 <= j < 36 ==> (#[trigger] self.playback@[j]).time_in_frame <= LONGEST_TIME,
            decreases 36 - a,
        {
            let slot: usize = a / 9;
            let panel: usize = a % 9;
            assert(9 * slot + panel == a);
            if let Some(anim) = &self.animations[slot] {
                let down = (input_states[slot / 2] >> (panel as u16)) & 1 != 0;
                let ps = self.playback[a];
                let next = if slot % 2 == 0 || down {
                    anim.advance(
                        PlaybackState {
                            current_frame: ps.current_frame,
                            time_in_frame: ps.time_in_frame,
                            playing: true,
                        },
                    )
                } else {
                    PlaybackState { current_frame: 0, time_in_frame: 0, playing: false }
                };
                self.playback[a] = next;
            }
            assert(self.playback@[a as int] == playback_when_drawn(
                old(self)@,
                input_states@,
                slot as int,
                panel as int,
            ));
            a = a + 1;
        }
        assert(self.playback@ =~= state_when_drawn(old(self)@, input_states@).playback);
        assert(self@ =~= state_when_drawn(old(self)@, input_states@));
    }

    /// Draws the light data of both pads and moves what plays on, as
    /// [`Self::build_frame_into`] does.
    pub fn build_frame(&mut self, input_states: [u16; 2]) -> (light_data: Vec<u8>)
        requires
            old(self).wf(),
        ensures
            final(self).wf(),
            final(self)@ == state_when_drawn(old(self)@, input_states@),
            light_data@ == drawn(old(self)@, input_states@),
    {
        let mut light_data: Vec<u8> = Vec::new();
        self.build_frame_into(input_states, &mut light_data);
        light_data
    }
}

impl Default for AnimationState {
    fn default() -> (s: Self)
        ensures
            s.wf(),
            s@.animations == Seq::new(4, |a: int| None::<AnimationView>),
            s@.playback == Seq::new(36, |i: int| at_rest()),
    {
        AnimationState::new()
    }
}

// ─── Laws ────────────────────────────────────────────────────────────────────

/// A light frame has 1350 bytes, the size that both pads of 25-LED panels take.
pub proof fn law_frame_size(s: AnimationStateView, inputs: Seq<u16>)
    ensures
        drawn(s, inputs).len() == 2 * crate::protocol::BYTES_PER_PAD_25,
{
}

/// With no animations loaded every frame is dark.
pub proof fn law_no_animation_is_dark(s: AnimationStateView, inputs: Seq<u16>, i: int)
    requires
        s.animations == Seq::new(4, |a: int| None::<AnimationView>),
        0 <= i < 1350,
    ensures
        drawn(s, inputs)[i] == 0,
{
}

/// Loading replaces what was in the slot, and a slot that was not loaded keeps
/// its animation and how far it has played.
pub proof fn law_load_replaces_only_its_slot(
    s: AnimationStateView,
    slot: int,
    first: AnimationView,
    second: AnimationView,
)
    requires
        s.animations.len() == 4,
        s.playback.len() == 36,
        0 <= slot < 4,
    ensures
        with_animation(with_animation(s, slot, first), slot, second) == with_animation(
            s,
            slot,
            second,
        ),
        forall|other: int|
            0 <= other < 4 && other != slot ==> #[trigger] with_animation(s, slot, first).animations[other]
                == s.animations[other],
        forall|i: int|
            0 <= i < 36 && i / 9 != slot ==> #[trigger] with_animation(s, slot, first).playback[i]
                == s.playback[i],
{
    assert(with_animation(with_animation(s, slot, first), slot, second) =~= with_animation(
        s,
        slot,
        second,
    ));
}

/// A frame of no delay or of 28 to 42 ms is shown in exactly one drawn frame: when
/// its animation plays, the next draw shows the frame after it.
pub proof fn law_display_frames_follow_each_other(
    anim: AnimationView,
    ps: PlaybackState,
    delay_ms: u32,
)
    requires
        delay_ms == 0 || 28 <= delay_ms <= 42,
        ps.playing,
        ps.time_in_frame == 0,
        ps.current_frame < anim.durations.len(),
        anim.durations[ps.current_frame as int] == crate::single::frame_time(delay_ms),
    ensures
        advanced(anim, ps).time_in_frame == 0,
        advanced(anim, ps).current_frame == if ps.current_frame + 1 < anim.durations.len() {
            (ps.current_frame + 1) as usize
        } else {
            anim.loop_frame as usize
        },
{
    crate::single::lemma_display_frame_is_shown_once();
}

/// A panel that is let go starts its pressed animation anew: the next time it is
/// pressed, the first frame shows.
pub proof fn law_pressed_animation_starts_anew(
    s: AnimationStateView,
    inputs: Seq<u16>,
    pad: int,
    panel: int,
)
    requires
        0 <= pad < 2,
        0 <= panel < 9,
        s.animations.len() == 4,
        s.animations[2 * pad + 1] is Some,
        !is_pressed(inputs[pad], panel),
    ensures
        state_when_drawn(s, inputs).playback[9 * (2 * pad + 1) + panel] == at_rest(),
{
    let i = 9 * (2 * pad + 1) + panel;
    assert(i / 9 == 2 * pad + 1 && i % 9 == panel);
}

/// One pad's panels do not show in the other pad's half of the frame: a pad's
/// half depends on its own input alone.
pub proof fn law_pads_are_drawn_apart(s: AnimationStateView, a: Seq<u16>, b: Seq<u16>, i: int)
    requires
        0 <= i < 1350,
        a.len() == 2,
        b.len() == 2,
        a[i / 675] == b[i / 675],
    ensures
        drawn(s, a)[i] == drawn(s, b)[i],
{
}

proof fn lemma_weights_share_no_digit(panel: int, other: int)
    requires
        0 <= panel < 9,
        0 <= other < 9,
    ensures
        (panel_weight(panel) / panel_weight(other)) % 2 == if panel == other {
            1int
        } else {
            0int
        },
        0int / panel_weight(other) == 0,
{
    assert(other == 0 ==> (panel_weight(panel) / 1) % 2 == if panel == 0 {
        1int
    } else {
        0int
    });
    assert(other == 1 ==> (panel_weight(panel) / 2) % 2 == if panel == 1 {
        1int
    } else {
        0int
    });
    assert(other == 2 ==> (panel_weight(panel) / 4) % 2 == if panel == 2 {
        1int
    } else {
        0int
    });
    assert(other == 3 ==> (panel_weight(panel) / 8) % 2 == if panel == 3 {
        1int
    } else {
        0int
    });
    assert(other == 4 ==> (panel_weight(panel) / 16) % 2 == if panel == 4 {
        1int
    } else {
        0int
    });
    assert(other == 5 ==> (panel_weight(panel) / 32) % 2 == if panel == 5 {
        1int
    } else {
        0int
    });
    assert(other == 6 ==> (panel_weight(panel) / 64) % 2 == if panel == 6 {
        1int
    } else {
        0int
    });
    assert(other == 7 ==> (panel_weight(panel) / 128) % 2 == if panel == 7 {
        1int
    } else {
        0int
    });
    assert(other == 8 ==> (panel_weight(panel) / 256) % 2 == if panel == 8 {
        1int
    } else {
        0int
    });
}

/// A state with frames loaded as an animation of a pad, to be played from its start.
pub open spec fn with_frames(
    s: AnimationStateView,
    pad: int,
    t: LightsType,
    frames: Seq<FrameView>,
) -> AnimationStateView {
    with_animation(s, slot_of(pad, t), animation_of(frames))
}

/// A byte of a panel in the light data of both pads: 75 bytes for each panel, 9 panels
/// for each pad.
pub open spec fn panel_light(data: Seq<u8>, pad: int, panel: int, k: int) -> u8 {
    data[675 * pad + 75 * panel + k]
}

proof fn lemma_drawn_byte(s: AnimationStateView, inputs: Seq<u16>, pad: int, panel: int, k: int)
    requires
        0 <= pad < 2,
        0 <= panel < 9,
        0 <= k < 75,
    ensures
        panel_light(drawn(s, inputs), pad, panel, k) == panel_byte(s, inputs, pad, panel, k),
{
    let i = 675 * pad + 75 * panel + k;
    assert(i / 675 == pad && i % 675 == 75 * panel + k);
    assert((75 * panel + k) / 75 == panel && i % 75 == k);
}

/// While a panel is at a frame of the released animation of its pad, with no pressed one
/// there, it shows its part of that frame's picture, whatever is stepped on: the LED in a
/// row and column of the panel has the color of its pixel. A picture of 16-LED panels
/// leaves the inner LEDs dark.
#[verifier::spinoff_prover]
#[verifier::rlimit(30)]
pub proof fn law_panels_show_their_part_of_the_picture(
    s: AnimationStateView,
    frames: Seq<FrameView>,
    inputs: Seq<u16>,
    pad: int,
    f: int,
    row: int,
    column: int,
    y: int,
    x: int,
    c: int,
)
    requires
        s.animations.len() == 4,
        s.playback.len() == 36,
        0 <= f < frames.len(),
        0 <= pad < 2,
        s.animations[slot_of(pad, LightsType::Pressed)] is None,
        s.animations[slot_of(pad, LightsType::Released)] == Some(animation_of(frames)),
        s.playback[9 * slot_of(pad, LightsType::Released) + 3 * row + column].current_frame == f,
        0 <= row < 3,
        0 <= column < 3,
        0 <= c < 3,
    ensures
        ({
            let data = drawn(s, inputs);
            let panel = 3 * row + column;
            let image = frames[f].image;
            let outer = 0 <= y < 4 && 0 <= x < 4;
            let inner = 0 <= y < 3 && 0 <= x < 3;
            &&& image.width == 23 && image.height == 24 && outer ==> panel_light(
                data,
                pad,
                panel,
                3 * (4 * y + x) + c,
            ) == image.pixels[92 * (8 * row + 2 * y) + 4 * (8 * column + 2 * x) + c]
            &&& image.width == 23 && image.height == 24 && inner ==> panel_light(
                data,
                pad,
                panel,
                48 + 3 * (3 * y + x) + c,
            ) == image.pixels[92 * (8 * row + 2 * y + 1) + 4 * (8 * column + 2 * x + 1) + c]
            &&& image.width == 14 && image.height == 15 && outer ==> panel_light(
                data,
                pad,
                panel,
                3 * (4 * y + x) + c,
            ) == image.pixels[56 * (5 * row + y) + 4 * (5 * column + x) + c]
            &&& image.width == 14 && image.height == 15 && inner ==> panel_light(
                data,
                pad,
                panel,
                48 + 3 * (3 * y + x) + c,
            ) == 0
        }),
{
    let slot = slot_of(pad, LightsType::Released);
    let panel = 3 * row + column;
    let image = frames[f].image;
    assert(shown(s, slot, panel) == crate::gif::panel_rgb(image, panel));
    if 0 <= y < 4 && 0 <= x < 4 {
        lemma_drawn_byte(s, inputs, pad, panel, 3 * (4 * y + x) + c);
    }
    if 0 <= y < 3 && 0 <= x < 3 {
        lemma_drawn_byte(s, inputs, pad, panel, 48 + 3 * (3 * y + x) + c);
    }
    if image.width == 23 && image.height == 24 {
        crate::gif::law_large_picture(image, row, column, y, x, c);
    }
    if image.width == 14 && image.height == 15 && 0 <= y < 4 && 0 <= x < 4 {
        crate::gif::law_small_picture(image, row, column, y, x, c);
    }
}

/// A picture that is loaded as the released animation of a pad, with no pressed one
/// there, shows on that pad's panels as it lies in the picture, whatever is stepped
/// on: the LED in a row and column of a panel has the color of its pixel. A picture of
/// 16-LED panels leaves the inner LEDs dark.
pub proof fn law_loaded_picture_shows_on_its_panels(
    s: AnimationStateView,
    frames: Seq<FrameView>,
    inputs: Seq<u16>,
    pad: int,
    row: int,
    column: int,
    y: int,
    x: int,
    c: int,
)
    requires
        s.animations.len() == 4,
        s.playback.len() == 36,
        frames.len() > 0,
        0 <= pad < 2,
        s.animations[slot_of(pad, LightsType::Pressed)] is None,
        0 <= row < 3,
        0 <= column < 3,
        0 <= c < 3,
    ensures
        ({
            let data = drawn(with_frames(s, pad, LightsType::Released, frames), inputs);
            let panel = 3 * row + column;
            let image = frames[0].image;
            let outer = 0 <= y < 4 && 0 <= x < 4;
            let inner = 0 <= y < 3 && 0 <= x < 3;
            &&& image.width == 23 && image.height == 24 && outer ==> panel_light(
                data,
                pad,
                panel,
                3 * (4 * y + x) + c,
            ) == image.pixels[92 * (8 * row + 2 * y) + 4 * (8 * column + 2 * x) + c]
            &&& image.width == 23 && image.height == 24 && inner ==> panel_light(
                data,
                pad,
                panel,
                48 + 3 * (3 * y + x) + c,
            ) == image.pixels[92 * (8 * row + 2 * y + 1) + 4 * (8 * column + 2 * x + 1) + c]
            &&& image.width == 14 && image.height == 15 && outer ==> panel_light(
                data,
                pad,
                panel,
                3 * (4 * y + x) + c,
            ) == image.pixels[56 * (5 * row + y) + 4 * (5 * column + x) + c]
            &&& image.width == 14 && image.height == 15 && inner ==> panel_light(
                data,
                pad,
                panel,
                48 + 3 * (3 * y + x) + c,
            ) == 0
        }),
{
    let s1 = with_frames(s, pad, LightsType::Released, frames);
    let slot = slot_of(pad, LightsType::Released);
    let at = 9 * slot + 3 * row + column;
    assert(at / 9 == slot);
    assert(s1.playback[at] == at_rest());
    law_panels_show_their_part_of_the_picture(
        s1,
        frames,
        inputs,
        pad,
        0,
        row,
        column,
        y,
        x,
        c,
    );
}

/// An animation has as many frames as were loaded, each shown for as long as it says, and
/// goes back to the frame that is marked.
pub proof fn law_animation_keeps_the_frames(frames: Seq<FrameView>, panel: int, f: int)
    requires
        0 <= panel < 9,
        0 <= f < frames.len(),
    ensures
        animation_of(frames).durations.len() == frames.len(),
        animation_of(frames).durations[f] == crate::single::frame_time(frames[f].delay_ms),
        animation_of(frames).frames[panel].len() == frames.len(),
        animation_of(frames).frames[panel][f] == crate::gif::panel_rgb(frames[f].image, panel),
        animation_of(frames).loop_frame == loop_frame_of(frames, frames.len() as int),
{
}

/// What plays goes on frame by frame: it stays at a frame until its time is over, then
/// comes the next, and after the last one the loop frame.
pub proof fn law_frames_play_in_order(anim: AnimationView, ps: PlaybackState)
    requires
        ps.playing,
        ps.current_frame < anim.durations.len(),
        0 <= anim.loop_frame <= usize::MAX,
        anim.durations.len() <= usize::MAX,
    ensures
        ({
            let next = advanced(anim, ps);
            let over = crate::single::later(ps.time_in_frame)
                >= anim.durations[ps.current_frame as int];
            &&& next.playing
            &&& !over ==> next.current_frame == ps.current_frame && next.time_in_frame
                == crate::single::later(ps.time_in_frame)
            &&& over && ps.current_frame + 1 < anim.durations.len() ==> next.current_frame
                == ps.current_frame + 1
            &&& over && ps.current_frame + 1 == anim.durations.len() ==> next.current_frame
                == anim.loop_frame
        }),
{
}

/// What a panel shows: where its digit of the pad's input state is 1, the LEDs of the
/// frame that its pressed animation is at, as far as they are not black; everywhere
/// else the frame that its released animation is at, and dark where that has no LED.
pub proof fn law_stepped_on_panel_shows_the_pressed_animation(
    s: AnimationStateView,
    inputs: Seq<u16>,
    pad: int,
    panel: int,
    led: int,
    c: int,
)
    requires
        0 <= pad < 2,
        0 <= panel < 9,
        0 <= led < 25,
        0 <= c < 3,
    ensures
        ({
            let over = s.animations[slot_of(pad, LightsType::Pressed)];
            let under = s.animations[slot_of(pad, LightsType::Released)];
            let top = over->0.frames[panel][s.playback[9 * slot_of(pad, LightsType::Pressed)
                + panel].current_frame as int];
            let base = under->0.frames[panel][s.playback[9 * slot_of(pad, LightsType::Released)
                + panel].current_frame as int];
            let stepped_on = (inputs[pad] as int / panel_weight(panel)) % 2 == 1;
            let k = 3 * led + c;
            panel_light(drawn(s, inputs), pad, panel, k) == if stepped_on && over is Some && k
                < top.len() && !(top[3 * led] == 0 && top[3 * led + 1] == 0 && top[3 * led + 2]
                == 0) {
                top[k]
            } else if under is Some && k < base.len() {
                base[k]
            } else {
                0u8
            }
        }),
{
    let k = 3 * led + c;
    assert(k / 3 == led);
    lemma_panel_bit_is_a_digit(inputs[pad], panel);
    lemma_drawn_byte(s, inputs, pad, panel, k);
}

/// When exactly one panel of a pad is stepped on, that is when the pad's input state is
/// 1, 2, 4 and so on up to 256, a pressed animation shows on that panel of that pad and
/// on no other: all others show what they show when nobody is there.
#[verifier::spinoff_prover]
#[verifier::rlimit(30)]
pub proof fn law_one_stepped_on_panel_lights_up(
    s: AnimationStateView,
    inputs: Seq<u16>,
    pad: int,
    panel: int,
    other: int,
    led: int,
    c: int,
)
    requires
        inputs.len() == 2,
        0 <= pad < 2,
        0 <= panel < 9,
        0 <= other < 9,
        0 <= led < 25,
        0 <= c < 3,
        inputs[pad] == panel_weight(panel),
    ensures
        ({
            let over = s.animations[slot_of(pad, LightsType::Pressed)];
            let top = over->0.frames[panel][s.playback[9 * slot_of(pad, LightsType::Pressed)
                + panel].current_frame as int];
            let nobody = drawn(s, inputs.update(pad, 0));
            let k = 3 * led + c;
            &&& over is Some && k < top.len() && (top[3 * led] != 0 || top[3 * led + 1] != 0
                || top[3 * led + 2] != 0) ==> panel_light(drawn(s, inputs), pad, panel, k) == top[k]
            &&& other != panel ==> panel_light(drawn(s, inputs), pad, other, k) == panel_light(
                nobody,
                pad,
                other,
                k,
            )
            &&& panel_light(drawn(s, inputs), 1 - pad, other, k) == panel_light(
                nobody,
                1 - pad,
                other,
                k,
            )
        }),
{
    let none = inputs.update(pad, 0);
    law_stepped_on_panel_shows_the_pressed_animation(s, inputs, pad, panel, led, c);
    law_stepped_on_panel_shows_the_pressed_animation(s, inputs, pad, other, led, c);
    law_stepped_on_panel_shows_the_pressed_animation(s, none, pad, other, led, c);
    law_stepped_on_panel_shows_the_pressed_animation(s, inputs, 1 - pad, other, led, c);
    law_stepped_on_panel_shows_the_pressed_animation(s, none, 1 - pad, other, led, c);
    lemma_weights_share_no_digit(panel, panel);
    lemma_weights_share_no_digit(panel, other);
    assert(none[pad] == 0);
    assert(none[1 - pad] == inputs[1 - pad]);
}

/// Who is stepped on decides what plays on: the pressed animation of a panel whose digit
/// of the pad's input state is 1 moves on, that of any other panel is back at its start,
/// and the released animation of every panel moves on.
pub proof fn law_stepped_on_panels_play_on(
    s: AnimationStateView,
    inputs: Seq<u16>,
    pad: int,
    panel: int,
)
    requires
        s.animations.len() == 4,
        s.playback.len() == 36,
        0 <= pad < 2,
        0 <= panel < 9,
    ensures
        ({
            let after = state_when_drawn(s, inputs);
            let over = slot_of(pad, LightsType::Pressed);
            let under = slot_of(pad, LightsType::Released);
            let ps = s.playback[9 * over + panel];
            let qs = s.playback[9 * under + panel];
            &&& after.animations == s.animations
            &&& s.animations[over] is Some && (inputs[pad] as int / panel_weight(panel)) % 2 == 1
                ==> after.playback[9 * over + panel] == advanced(
                s.animations[over]->0,
                PlaybackState { playing: true, ..ps },
            )
            &&& s.animations[over] is Some && (inputs[pad] as int / panel_weight(panel)) % 2 == 0
                ==> {
                &&& after.playback[9 * over + panel].current_frame == 0
                &&& after.playback[9 * over + panel].time_in_frame == 0
            }
            &&& s.animations[under] is Some ==> after.playback[9 * under + panel] == advanced(
                s.animations[under]->0,
                PlaybackState { playing: true, ..qs },
            )
        }),
{
    lemma_panel_bit_is_a_digit(inputs[pad], panel);
    let over = 9 * slot_of(pad, LightsType::Pressed) + panel;
    let under = 9 * slot_of(pad, LightsType::Released) + panel;
    assert(over / 9 == 2 * pad + 1 && over % 9 == panel);
    assert(under / 9 == 2 * pad && under % 9 == panel);
}

/// A frame is the one to go back to if the pixel at its bottom left, the first of its
/// last row, is opaque and at least half red.
pub proof fn law_loop_marker_is_at_the_bottom_left(f: FrameView)
    ensures
        ({
            let at = 4 * (f.image.width * (f.image.height - 1));
            is_marked(f) <==> f.image.pixels[at] >= 128 && f.image.pixels[at + 3] == 255
        }),
{
    let y = f.image.height - 1;
    assert((y * f.image.width + 0) * 4 == 4 * (f.image.width * y)) by (nonlinear_arith);
}

/// A color value is sent as its 6666 ten-thousandths, rounded down.
pub proof fn law_colors_are_sent_at_two_thirds(c: u8)
    ensures
        10000 * scaled(c) <= 6666 * c < 10000 * scaled(c) + 10000,
{
}

} // verus!
