//! The animation engine: the process-wide state every event handler
//! mutates, the animator that fades between frames through the frame
//! queue, and the compositor that renders the layered visual state into
//! one target frame.

use crate::color::{
    black, dim_gray, lemma_lerp_color_endpoints, spec_black, spec_dim_gray, spec_lerp_color,
    lerp_color, Color, WideColor,
};
use crate::frame::{
    frame_queue_len, frame_queue_live, frame_queue_model, frame_queue_new, frame_queue_pop,
    frame_queue_push, Frame,
};
use crate::geometry::ControllerInfo;
use crate::notifications::{Notification, SettingsTable};
use crate::progress::{
    ledger_listing, progress_map_entries, progress_map_insert, progress_map_len, progress_map_new,
    progress_model, ProgressEntry, ProgressMap, RATIO_UNIT,
};
use concurrent_queue::ConcurrentQueue;
use vstd::prelude::*;

verus! {

/// The renderer's tick interval: how many milliseconds each queued frame
/// is shown before the next one is popped.
pub const FRAME_DURATION_MS: u32 = 75;

/// Fade duration used by a composite that was given none.
pub const DEFAULT_FADE_MS: u32 = 110;

/// Fade duration of the composites a flash issues.
pub const FLASH_FADE_MS: u32 = 300;

/// Fade duration of the composites the notification lifecycle issues.
pub const NOTIFICATION_FADE_MS: u32 = 200;

/// The top indicator row skips this many LEDs at its start, to route
/// around device quirks.
pub const KEYBOARD_COL_OFFSET_START: usize = 1;

/// The top indicator row leaves this many LEDs free at its end.
pub const KEYBOARD_COL_OFFSET_END: usize = 4;

/// The clear half of a flash, to be run by the caller after the flash's
/// hold time has elapsed: wait `delay_ms`, then call `flash_clear`.
#[derive(Clone, Copy, PartialEq, Eq, Structural, Debug)]
pub struct DeferredFlashClear {
    pub delay_ms: u64,
}

/// The whole animation engine state, constructed once at startup and
/// handed by shared ownership to every event handler and background task.
pub struct EngineState {
    /// The target device's grid.
    pub info: ControllerInfo,
    /// The Progress Ledger: one entry per progress source.
    pub progress: ProgressMap,
    /// Per-application notification settings, loaded once.
    pub settings: SettingsTable,
    /// Notifications opened but not yet correlated with a delivery id.
    pub pending: Vec<Notification>,
    /// Important notifications promoted to a persistent on-device marker.
    pub displayed: Vec<Notification>,
    /// The idle target frame used as animation baseline while unlocked.
    pub base_frame: Frame,
    /// Snapshot of the frame most recently enqueued.
    pub last_frame: Frame,
    /// The FIFO frame queue the renderer drains at a fixed tick.
    pub queue: ConcurrentQueue<Frame>,
    /// Whether the screen is currently locked.
    pub screen_locked: bool,
    /// The transient flash overlay; black means no flash is active.
    pub flash: Color,
    /// Shutdown progress marker read by the renderer: 0 while running.
    pub about_to_shutdown: u8,
}

impl EngineState {
    /// Well-formedness: the grid is sound and wide enough for the
    /// indicator row, every frame held or queued covers the device
    /// exactly, the queue was never closed, and every progress ratio is
    /// at most one.
    pub open spec fn wf(self) -> bool {
        &&& self.info.wf()
        &&& self.info.width > KEYBOARD_COL_OFFSET_START + KEYBOARD_COL_OFFSET_END
        &&& self.base_frame@.len() == self.info.total_leds
        &&& self.last_frame@.len() == self.info.total_leds
        &&& frame_queue_live(self.queue)
        &&& forall|i: int|
            0 <= i < frame_queue_model(self.queue).len() ==> #[trigger] frame_queue_model(
                self.queue,
            )[i].len() == self.info.total_leds
        &&& forall|k: Seq<char>|
            progress_model(self.progress).dom().contains(k) ==> #[trigger] progress_model(
                self.progress,
            )[k].permille <= RATIO_UNIT
        &&& progress_model(self.progress).dom().finite()
    }

    /// The base frame a composite starts from: a dim fixed substrate
    /// while the screen is locked, the idle target frame otherwise.
    pub open spec fn spec_base_sel(self) -> Seq<Color> {
        if self.screen_locked {
            Seq::new(self.info.total_leds as nat, |i: int| spec_dim_gray())
        } else {
            self.base_frame@
        }
    }

    /// Everything except the flash overlay and the animation output (the
    /// "last frame" snapshot and the frame queue) is the same in `pre`
    /// and `post`.
    pub open spec fn same_core(pre: EngineState, post: EngineState) -> bool {
        &&& post.info == pre.info
        &&& post.progress == pre.progress
        &&& post.settings == pre.settings
        &&& post.pending == pre.pending
        &&& post.displayed == pre.displayed
        &&& post.base_frame == pre.base_frame
        &&& post.screen_locked == pre.screen_locked
        &&& post.about_to_shutdown == pre.about_to_shutdown
    }

    /// Everything except the animation output (the "last frame" snapshot
    /// and the frame queue) is the same in `pre` and `post`.
    pub open spec fn same_but_animation(pre: EngineState, post: EngineState) -> bool {
        &&& EngineState::same_core(pre, post)
        &&& post.flash == pre.flash
    }
}

/// Pointwise interpolation of two equally long frames at `num / den`.
pub open spec fn lerp_frame(from: Seq<Color>, to: Seq<Color>, num: int, den: int) -> Seq<Color> {
    Seq::new(from.len(), |j: int| spec_lerp_color(from[j], to[j], num, den))
}

/// The frames a fade of `iters` steps emits: step `i` interpolates at
/// position `(i + 1) / iters`, so the last step lands exactly on `to`.
pub open spec fn fade_frames(from: Seq<Color>, to: Seq<Color>, iters: int) -> Seq<Seq<Color>> {
    Seq::new(iters as nat, |i: int| lerp_frame(from, to, i + 1, iters))
}

/// How one fade call relates the animation output before (`last0`, `q0`)
/// to the output after (`last1`, `q1`): a duration under one tick changes
/// nothing; otherwise the interpolation steps are appended in order and
/// the snapshot lands exactly on the target.
pub open spec fn fade_rel(
    last0: Seq<Color>,
    q0: Seq<Seq<Color>>,
    target: Seq<Color>,
    ms: u32,
    last1: Seq<Color>,
    q1: Seq<Seq<Color>>,
) -> bool {
    let iters = ms / FRAME_DURATION_MS;
    if iters == 0 {
        last1 == last0 && q1 == q0
    } else {
        last1 == target && q1 == q0 + fade_frames(last0, target, iters as int)
    }
}

/// A frame of `n` copies of one color.
pub fn uniform_frame(color: Color, n: usize) -> (frame: Frame)
    ensures
        frame@ =~= Seq::new(n as nat, |i: int| color),
{
    let mut frame: Vec<Color> = Vec::new();
    let mut i: usize = 0;
    while i < n
        invariant
            i <= n,
            frame@ =~= Seq::new(i as nat, |j: int| color),
        decreases n - i,
    {
        frame.push(color);
        i = i + 1;
    }
    frame
}

/// A copy of a frame.
pub fn clone_frame(frame: &Frame) -> (r: Frame)
    ensures
        r@ == frame@,
{
    let r = frame.clone();
    assert(r@ =~= frame@);
    r
}

impl EngineState {
    /// Appends one finished frame to the queue and snapshots it as the
    /// last frame pushed, so the next fade starts from it.
    fn enq_frame(&mut self, frame: Frame)
        requires
            old(self).wf(),
            frame@.len() == old(self).info.total_leds,
        ensures
            final (self).wf(),
            EngineState::same_but_animation(*old(self), *final (self)),
            frame_queue_model(final (self).queue) == frame_queue_model(old(self).queue).push(
                frame@,
            ),
            final (self).last_frame@ == frame@,
    {
        self.last_frame = clone_frame(&frame);
        frame_queue_push(&mut self.queue, frame);
    }

    /// Animates from the last frame pushed to `frame_to` by enqueueing
    /// one interpolation step per renderer tick that fits in
    /// `fade_time_ms`. A duration under one tick enqueues nothing; any
    /// longer duration ends with the last-frame snapshot exactly equal to
    /// the target.
    pub fn fade_into_frame(&mut self, frame_to: &Frame, fade_time_ms: u32)
        requires
            old(self).wf(),
            frame_to@.len() == old(self).info.total_leds,
        ensures
            final (self).wf(),
            EngineState::same_but_animation(*old(self), *final (self)),
            fade_rel(
                old(self).last_frame@,
                frame_queue_model(old(self).queue),
                frame_to@,
                fade_time_ms,
                final (self).last_frame@,
                frame_queue_model(final (self).queue),
            ),
            fade_time_ms >= FRAME_DURATION_MS ==> final (self).last_frame@ == frame_to@,
            fade_time_ms < FRAME_DURATION_MS ==> frame_queue_model(final (self).queue)
                == frame_queue_model(old(self).queue),
    {
        let iterations = fade_time_ms / FRAME_DURATION_MS;
        let frame_from = clone_frame(&self.last_frame);
        let ghost from = frame_from@;
        let ghost to = frame_to@;
        let ghost q0 = frame_queue_model(self.queue);
        if iterations == 0 {
            assert(frame_queue_model(self.queue) == q0);
            return ;
        }
        let mut i: u32 = 1;
        while i <= iterations
            invariant
                old(self).wf(),
                self.wf(),
                EngineState::same_but_animation(*old(self), *self),
                1 <= i <= iterations + 1,
                1 <= iterations <= u32::MAX / FRAME_DURATION_MS,
                from.len() == old(self).info.total_leds,
                to.len() == old(self).info.total_leds,
                frame_from@ == from,
                frame_to@ == to,
                self.info == old(self).info,
                frame_queue_model(self.queue) =~= q0 + fade_frames(from, to, iterations as int)
                    .take(i - 1),
                self.last_frame@ == if i == 1 {
                    from
                } else {
                    lerp_frame(from, to, i - 1, iterations as int)
                },
            decreases iterations + 1 - i,
        {
            let mut frame: Vec<Color> = Vec::new();
            let mut j: usize = 0;
            let n = frame_from.len();
            while j < n
                invariant
                    j <= n,
                    n == from.len(),
                    to.len() == from.len(),
                    frame_from@ == from,
                    frame_to@ == to,
                    1 <= i <= iterations,
                    frame@ =~= lerp_frame(from, to, i as int, iterations as int).take(j as int),
                decreases n - j,
            {
                frame.push(lerp_color(&frame_from[j], &frame_to[j], i, iterations));
                j = j + 1;
            }
            assert(frame@ =~= lerp_frame(from, to, i as int, iterations as int));
            self.enq_frame(frame);
            proof {
                let ff = fade_frames(from, to, iterations as int);
                assert(ff.take(i as int) =~= ff.take(i - 1).push(ff[i - 1]));
                assert(frame_queue_model(self.queue) =~= q0 + ff.take(i as int));
            }
            i = i + 1;
        }
        proof {
            let ff = fade_frames(from, to, iterations as int);
            assert(ff.take(iterations as int) =~= ff);
            assert forall|j: int| 0 <= j < to.len() implies lerp_frame(
                from,
                to,
                iterations as int,
                iterations as int,
            )[j] == to[j] by {
                lemma_lerp_color_endpoints(from[j], to[j], iterations as int);
            }
            assert(lerp_frame(from, to, iterations as int, iterations as int) =~= to);
        }
    }

    /// Pops the oldest queued frame for the renderer, if one is waiting.
    /// The popped frame always covers the whole device.
    pub fn pop_frame(&mut self) -> (r: Option<Frame>)
        requires
            old(self).wf(),
        ensures
            final (self).wf(),
            EngineState::same_but_animation(*old(self), *final (self)),
            final (self).last_frame == old(self).last_frame,
            match r {
                Some(f) => {
                    &&& frame_queue_model(old(self).queue).len() > 0
                    &&& f@ == frame_queue_model(old(self).queue)[0]
                    &&& f@.len() == old(self).info.total_leds
                    &&& frame_queue_model(final (self).queue) == frame_queue_model(
                        old(self).queue,
                    ).skip(1)
                },
                None => {
                    &&& frame_queue_model(old(self).queue).len() == 0
                    &&& frame_queue_model(final (self).queue) == frame_queue_model(
                        old(self).queue,
                    )
                },
            },
    {
        frame_queue_pop(&mut self.queue)
    }

    /// How many frames wait in the queue.
    pub fn queued_frames(&self) -> (n: usize)
        ensures
            n == frame_queue_model(self.queue).len(),
    {
        frame_queue_len(&self.queue)
    }

    /// How many progress sources the ledger tracks.
    pub fn progress_sources(&self) -> (n: usize)
        ensures
            n == progress_model(self.progress).dom().len(),
    {
        progress_map_len(&self.progress)
    }

    /// The base frame of the next composite: a dim fixed substrate while
    /// the screen is locked, otherwise the idle target frame.
    pub fn get_keyboard_base(&self) -> (frame: Frame)
        requires
            self.wf(),
        ensures
            frame@ == self.spec_base_sel(),
            frame@.len() == self.info.total_leds,
    {
        if self.screen_locked {
            let f = uniform_frame(dim_gray(), self.info.total_leds);
            assert(f@ =~= self.spec_base_sel());
            f
        } else {
            clone_frame(&self.base_frame)
        }
    }
}

/// How many LEDs the top indicator row actually spans, once the offsets at
/// either end are excluded.
pub open spec fn spec_corrected_row(width: int) -> int {
    width - KEYBOARD_COL_OFFSET_START - KEYBOARD_COL_OFFSET_END
}

/// One entry's ratio scaled across a row of `corrected` LEDs, in
/// thousandths of a LED.
pub open spec fn spec_scaled(e: ProgressEntry, corrected: int) -> int {
    e.permille * corrected
}

/// How many LEDs of the row one entry fills completely.
pub open spec fn spec_filled(e: ProgressEntry, corrected: int) -> int {
    spec_scaled(e, corrected) / (RATIO_UNIT as int)
}

/// How many LEDs of the row one entry touches: the completely filled run
/// plus the partially filled LED at the fractional boundary, if any.
pub open spec fn spec_touched(e: ProgressEntry, corrected: int) -> int {
    (spec_scaled(e, corrected) + RATIO_UNIT - 1) / (RATIO_UNIT as int)
}

/// The channel sums one entry contributes to bar slot `slot`: its color on
/// every completely filled LED, an exact blend between the base frame and
/// its color at the one partially filled LED, nothing beyond. An entry at
/// ratio zero is skipped entirely and contributes nowhere.
pub open spec fn entry_contrib(e: ProgressEntry, base: Seq<Color>, slot: int, corrected: int) -> (
    int,
    int,
    int,
) {
    if e.permille == 0 {
        (0, 0, 0)
    } else {
        let f = spec_filled(e, corrected);
        if slot < f {
            (e.color.r as int, e.color.g as int, e.color.b as int)
        } else if slot == f {
            let c = spec_lerp_color(
                base[f],
                e.color,
                spec_scaled(e, corrected) % (RATIO_UNIT as int),
                RATIO_UNIT as int,
            );
            (c.r as int, c.g as int, c.b as int)
        } else {
            (0, 0, 0)
        }
    }
}

/// The channel sums all entries together contribute to bar slot `slot`.
pub open spec fn sum_contrib(
    entries: Seq<ProgressEntry>,
    base: Seq<Color>,
    slot: int,
    corrected: int,
) -> (int, int, int)
    decreases entries.len(),
{
    if entries.len() == 0 {
        (0, 0, 0)
    } else {
        let rest = sum_contrib(entries.drop_last(), base, slot, corrected);
        let c = entry_contrib(entries.last(), base, slot, corrected);
        (rest.0 + c.0, rest.1 + c.1, rest.2 + c.2)
    }
}

/// How many entries show a bar at all (ratio above zero).
pub open spec fn count_active(entries: Seq<ProgressEntry>) -> int
    decreases entries.len(),
{
    if entries.len() == 0 {
        0
    } else {
        count_active(entries.drop_last()) + if entries.last().permille > 0 {
            1int
        } else {
            0int
        }
    }
}

/// The longest touched run over all active entries: how many LEDs of the
/// row the averaged bar colors are written to.
pub open spec fn max_colored(entries: Seq<ProgressEntry>, corrected: int) -> int
    decreases entries.len(),
{
    if entries.len() == 0 {
        0
    } else {
        let rest = max_colored(entries.drop_last(), corrected);
        let c = if entries.last().permille > 0 {
            spec_touched(entries.last(), corrected)
        } else {
            0int
        };
        if rest >= c {
            rest
        } else {
            c
        }
    }
}

/// How many notification markers fit into the reserved run of the row.
pub open spec fn spec_shown_notifs(n_notifs: int, corrected: int) -> int {
    let cap = if corrected >= 2 {
        corrected - 2
    } else {
        0int
    };
    if n_notifs <= cap {
        n_notifs
    } else {
        cap
    }
}

/// The colors of the displayed notifications, in list order.
pub open spec fn displayed_colors(s: Seq<Notification>) -> Seq<Color> {
    s.map_values(|n: Notification| n.settings.color)
}

/// The color one position of the composite target frame gets.
///
/// A non-black flash overlay completely overrides the indicator row. With
/// no flash active, a reserved run of the row shows one marker per
/// displayed notification (truncated to the run), the first
/// `max_colored` slots show the channel-wise mean of all active entries'
/// contributions, and every other position keeps the base frame.
pub open spec fn target_color_at(
    p: int,
    entries: Seq<ProgressEntry>,
    base: Seq<Color>,
    flash: Color,
    notifs: Seq<Color>,
    width: int,
) -> Color {
    let corrected = spec_corrected_row(width);
    let start = KEYBOARD_COL_OFFSET_START as int;
    if flash != spec_black() {
        if start <= p < start + corrected {
            flash
        } else {
            base[p]
        }
    } else {
        let shown = spec_shown_notifs(notifs.len() as int, corrected);
        if start + 2 <= p < start + 2 + shown {
            notifs[p - start - 2]
        } else if start <= p < start + max_colored(entries, corrected) {
            let sums = sum_contrib(entries, base, p - start, corrected);
            let n = count_active(entries);
            Color { r: (sums.0 / n) as u8, g: (sums.1 / n) as u8, b: (sums.2 / n) as u8 }
        } else {
            base[p]
        }
    }
}

/// The frame a composite renders from the layered visual state.
pub open spec fn composite_target(
    entries: Seq<ProgressEntry>,
    base: Seq<Color>,
    flash: Color,
    notifs: Seq<Color>,
    width: int,
) -> Seq<Color> {
    Seq::new(base.len(), |p: int| target_color_at(p, entries, base, flash, notifs, width))
}

/// Channel sums are bounded by 255 per active entry, and active entries
/// are never more numerous than all entries.
pub proof fn lemma_sum_contrib_bounds(
    entries: Seq<ProgressEntry>,
    base: Seq<Color>,
    slot: int,
    corrected: int,
)
    ensures
        0 <= count_active(entries) <= entries.len(),
        0 <= sum_contrib(entries, base, slot, corrected).0 <= 255 * count_active(entries),
        0 <= sum_contrib(entries, base, slot, corrected).1 <= 255 * count_active(entries),
        0 <= sum_contrib(entries, base, slot, corrected).2 <= 255 * count_active(entries),
    decreases entries.len(),
{
    if entries.len() > 0 {
        lemma_sum_contrib_bounds(entries.drop_last(), base, slot, corrected);
    }
}

/// No entry's bar reaches past the row: with all ratios at most one,
/// `max_colored` never exceeds the row length.
pub proof fn lemma_max_colored_bounds(entries: Seq<ProgressEntry>, corrected: int)
    requires
        corrected >= 0,
        forall|i: int| 0 <= i < entries.len() ==> #[trigger] entries[i].permille <= RATIO_UNIT,
    ensures
        0 <= max_colored(entries, corrected) <= corrected,
        count_active(entries) >= 0,
        max_colored(entries, corrected) > 0 ==> count_active(entries) > 0,
    decreases entries.len(),
{
    if entries.len() > 0 {
        assert(forall|i: int|
            0 <= i < entries.drop_last().len() ==> #[trigger] entries.drop_last()[i].permille
                <= RATIO_UNIT);
        lemma_max_colored_bounds(entries.drop_last(), corrected);
        let e = entries.last();
        assert(e.permille <= RATIO_UNIT);
        if e.permille > 0 {
            assert(spec_scaled(e, corrected) <= RATIO_UNIT * corrected) by (nonlinear_arith)
                requires
                    e.permille <= RATIO_UNIT,
                    corrected >= 0,
            ;
            assert(spec_scaled(e, corrected) >= 0) by (nonlinear_arith)
                requires
                    e.permille > 0,
                    corrected >= 0,
            ;
            vstd::arithmetic::div_mod::lemma_div_is_ordered(
                spec_scaled(e, corrected) + RATIO_UNIT - 1,
                RATIO_UNIT * corrected + RATIO_UNIT - 1,
                RATIO_UNIT as int,
            );
            vstd::arithmetic::div_mod::lemma_fundamental_div_mod_converse(
                RATIO_UNIT * corrected + RATIO_UNIT - 1,
                RATIO_UNIT as int,
                corrected,
                RATIO_UNIT - 1,
            );
            vstd::arithmetic::div_mod::lemma_div_pos_is_pos(
                spec_scaled(e, corrected) + RATIO_UNIT - 1,
                RATIO_UNIT as int,
            );
        }
    }
}

/// With no progress entries, no notifications and no flash, the composite
/// target is exactly the base frame: nothing is painted over it.
pub proof fn lemma_composite_empty(base: Seq<Color>, width: int)
    ensures
        composite_target(Seq::empty(), base, spec_black(), Seq::empty(), width) =~= base,
{
}

/// A composite over an empty Progress Ledger, an empty displayed list and
/// a black flash overlay fades toward exactly the base frame: the
/// indicator row is left unpainted.
pub proof fn lemma_composite_empty_state(
    pre: EngineState,
    post: EngineState,
    fade_time_ms: Option<u32>,
)
    requires
        spec_composited(pre, post, fade_time_ms),
        progress_model(pre.progress).dom() =~= Set::empty(),
        pre.displayed@.len() == 0,
        pre.flash == spec_black(),
    ensures
        fade_rel(
            pre.last_frame@,
            frame_queue_model(pre.queue),
            pre.spec_base_sel(),
            spec_eff_fade(fade_time_ms),
            post.last_frame@,
            frame_queue_model(post.queue),
        ),
{
    let model = progress_model(pre.progress);
    let kvs = choose|kvs: Seq<(String, ProgressEntry)>|
        {
            &&& #[trigger] ledger_listing(model, kvs)
            &&& fade_rel(
                pre.last_frame@,
                frame_queue_model(pre.queue),
                composite_target(
                    listing_values(kvs),
                    pre.spec_base_sel(),
                    pre.flash,
                    displayed_colors(pre.displayed@),
                    pre.info.width as int,
                ),
                spec_eff_fade(fade_time_ms),
                post.last_frame@,
                frame_queue_model(post.queue),
            )
        };
    crate::progress::lemma_empty_listing(model, kvs);
    assert(listing_values(kvs) =~= Seq::<ProgressEntry>::empty());
    assert(displayed_colors(pre.displayed@) =~= Seq::<Color>::empty());
    lemma_composite_empty(pre.spec_base_sel(), pre.info.width as int);
}

/// Renders the composite target frame from a listing of the progress
/// entries, the chosen base frame, the flash overlay and the displayed
/// notification colors.
pub fn render_target(
    entries: &Vec<ProgressEntry>,
    base: &Frame,
    flash: Color,
    notif_colors: &Vec<Color>,
    width: usize,
) -> (frame: Frame)
    requires
        width > KEYBOARD_COL_OFFSET_START + KEYBOARD_COL_OFFSET_END,
        base@.len() >= width,
        forall|i: int| 0 <= i < entries@.len() ==> #[trigger] entries@[i].permille <= RATIO_UNIT,
    ensures
        frame@ == composite_target(entries@, base@, flash, notif_colors@, width as int),
{
    let corrected = width - KEYBOARD_COL_OFFSET_START - KEYBOARD_COL_OFFSET_END;

    // One pass over the ledger: how many bars are active, and how far the
    // longest one reaches.
    let mut num_bars: usize = 0;
    let mut colored: usize = 0;
    let mut k: usize = 0;
    proof {
        assert(entries@.take(0) =~= Seq::<ProgressEntry>::empty());
    }
    while k < entries.len()
        invariant
            k <= entries@.len(),
            forall|i: int| 0 <= i < entries@.len() ==> #[trigger] entries@[i].permille
                <= RATIO_UNIT,
            corrected >= 1,
            num_bars == count_active(entries@.take(k as int)),
            colored == max_colored(entries@.take(k as int), corrected as int),
            num_bars <= k,
            colored <= corrected,
        decreases entries@.len() - k,
    {
        proof {
            assert(entries@.take(k + 1).drop_last() =~= entries@.take(k as int));
            assert(entries@.take(k + 1).last() == entries@[k as int]);
            lemma_max_colored_bounds(entries@.take(k + 1), corrected as int);
            lemma_sum_contrib_bounds(entries@.take(k + 1), base@, 0, corrected as int);
        }
        let e = entries[k];
        if e.permille > 0 {
            num_bars = num_bars + 1;
            assert(e.permille as int * (corrected as int) <= RATIO_UNIT as int * (usize::MAX
                as int)) by (nonlinear_arith)
                requires
                    e.permille <= RATIO_UNIT,
                    corrected <= usize::MAX,
            ;
            let scaled: u128 = e.permille as u128 * corrected as u128;
            let touched = ((scaled + (RATIO_UNIT - 1) as u128) / RATIO_UNIT as u128) as usize;
            assert(touched == spec_touched(e, corrected as int)
                && spec_touched(e, corrected as int) <= corrected) by {
                assert(spec_scaled(e, corrected as int) <= RATIO_UNIT * (corrected as int)
                    && spec_scaled(e, corrected as int) >= 0) by (nonlinear_arith)
                    requires
                        0 < e.permille <= RATIO_UNIT,
                        corrected >= 1,
                ;
                vstd::arithmetic::div_mod::lemma_div_is_ordered(
                    spec_scaled(e, corrected as int) + RATIO_UNIT - 1,
                    RATIO_UNIT * (corrected as int) + RATIO_UNIT - 1,
                    RATIO_UNIT as int,
                );
                vstd::arithmetic::div_mod::lemma_fundamental_div_mod_converse(
                    RATIO_UNIT * (corrected as int) + RATIO_UNIT - 1,
                    RATIO_UNIT as int,
                    corrected as int,
                    RATIO_UNIT - 1,
                );
                vstd::arithmetic::div_mod::lemma_div_pos_is_pos(
                    spec_scaled(e, corrected as int) + RATIO_UNIT - 1,
                    RATIO_UNIT as int,
                );
            }
            if touched > colored {
                colored = touched;
            }
        }
        k = k + 1;
    }
    proof {
        assert(entries@.take(entries@.len() as int) =~= entries@);
    }

    // Render each position of the target frame.
    let total = base.len();
    let mut frame: Vec<Color> = Vec::new();
    let mut p: usize = 0;
    while p < total
        invariant
            p <= total,
            total == base@.len(),
            base@.len() >= width,
            width > KEYBOARD_COL_OFFSET_START + KEYBOARD_COL_OFFSET_END,
            corrected == width - KEYBOARD_COL_OFFSET_START - KEYBOARD_COL_OFFSET_END,
            forall|i: int| 0 <= i < entries@.len() ==> #[trigger] entries@[i].permille
                <= RATIO_UNIT,
            num_bars == count_active(entries@),
            colored == max_colored(entries@, corrected as int),
            colored <= corrected,
            frame@.len() == p,
            forall|q: int|
                0 <= q < p ==> frame@[q] == target_color_at(
                    q,
                    entries@,
                    base@,
                    flash,
                    notif_colors@,
                    width as int,
                ),
        decreases total - p,
    {
        let c: Color = if flash != black() {
            if p >= KEYBOARD_COL_OFFSET_START && p < KEYBOARD_COL_OFFSET_START + corrected {
                flash
            } else {
                base[p]
            }
        } else {
            let cap = if corrected >= 2 {
                corrected - 2
            } else {
                0
            };
            let shown = if notif_colors.len() <= cap {
                notif_colors.len()
            } else {
                cap
            };
            if p >= KEYBOARD_COL_OFFSET_START + 2 && p < KEYBOARD_COL_OFFSET_START + 2 + shown {
                notif_colors[p - KEYBOARD_COL_OFFSET_START - 2]
            } else if p >= KEYBOARD_COL_OFFSET_START && p < KEYBOARD_COL_OFFSET_START + colored {
                mean_bar_color(entries, base, p - KEYBOARD_COL_OFFSET_START, corrected, num_bars)
            } else {
                base[p]
            }
        };
        frame.push(c);
        p = p + 1;
    }
    assert(frame@ =~= composite_target(entries@, base@, flash, notif_colors@, width as int));
    frame
}

/// A nonnegative sum of at most `255 * n` divided by `n` stays an 8-bit
/// channel value.
proof fn lemma_mean_bounds(s: int, n: int)
    requires
        n > 0,
        0 <= s <= 255 * n,
    ensures
        0 <= s / n <= 255,
{
    vstd::arithmetic::div_mod::lemma_div_is_ordered(s, 255 * n, n);
    vstd::arithmetic::mul::lemma_mul_is_commutative(255, n);
    vstd::arithmetic::div_mod::lemma_div_multiples_vanish(255, n);
    vstd::arithmetic::div_mod::lemma_div_pos_is_pos(s, n);
}

/// The channel-wise mean of all entries' contributions at one bar slot.
fn mean_bar_color(
    entries: &Vec<ProgressEntry>,
    base: &Frame,
    slot: usize,
    corrected: usize,
    num_bars: usize,
) -> (c: Color)
    requires
        corrected >= 1,
        base@.len() > corrected,
        forall|i: int| 0 <= i < entries@.len() ==> #[trigger] entries@[i].permille <= RATIO_UNIT,
        num_bars == count_active(entries@),
        slot < max_colored(entries@, corrected as int),
    ensures
        ({
            let sums = sum_contrib(entries@, base@, slot as int, corrected as int);
            let n = count_active(entries@);
            c == (Color { r: (sums.0 / n) as u8, g: (sums.1 / n) as u8, b: (sums.2 / n) as u8 })
        }),
{
    proof {
        lemma_max_colored_bounds(entries@, corrected as int);
        lemma_sum_contrib_bounds(entries@, base@, slot as int, corrected as int);
    }
    let mut acc = WideColor::zero();
    let mut k: usize = 0;
    proof {
        assert(entries@.take(0) =~= Seq::<ProgressEntry>::empty());
    }
    while k < entries.len()
        invariant
            k <= entries@.len(),
            corrected >= 1,
            base@.len() > corrected,
            forall|i: int| 0 <= i < entries@.len() ==> #[trigger] entries@[i].permille
                <= RATIO_UNIT,
            acc.r == sum_contrib(entries@.take(k as int), base@, slot as int, corrected as int).0,
            acc.g == sum_contrib(entries@.take(k as int), base@, slot as int, corrected as int).1,
            acc.b == sum_contrib(entries@.take(k as int), base@, slot as int, corrected as int).2,
        decreases entries@.len() - k,
    {
        proof {
            assert(entries@.take(k + 1).drop_last() =~= entries@.take(k as int));
            assert(entries@.take(k + 1).last() == entries@[k as int]);
            lemma_sum_contrib_bounds(entries@.take(k as int), base@, slot as int, corrected as int);
            vstd::arithmetic::div_mod::lemma_div_pos_is_pos(
                spec_scaled(entries@[k as int], corrected as int),
                RATIO_UNIT as int,
            );
        }
        let e = entries[k];
        if e.permille > 0 {
            assert(e.permille as int * (corrected as int) <= RATIO_UNIT as int * (usize::MAX
                as int)) by (nonlinear_arith)
                requires
                    e.permille <= RATIO_UNIT,
                    corrected <= usize::MAX,
            ;
            let scaled: u128 = e.permille as u128 * corrected as u128;
            let filled = (scaled / RATIO_UNIT as u128) as usize;
            assert(filled == spec_filled(e, corrected as int) && filled <= corrected) by {
                assert(spec_scaled(e, corrected as int) <= RATIO_UNIT * (corrected as int)
                    && spec_scaled(e, corrected as int) >= 0) by (nonlinear_arith)
                    requires
                        0 < e.permille <= RATIO_UNIT,
                        corrected >= 1,
                ;
                vstd::arithmetic::div_mod::lemma_div_is_ordered(
                    spec_scaled(e, corrected as int),
                    RATIO_UNIT * (corrected as int),
                    RATIO_UNIT as int,
                );
                vstd::arithmetic::div_mod::lemma_div_multiples_vanish(
                    corrected as int,
                    RATIO_UNIT as int,
                );
                vstd::arithmetic::div_mod::lemma_div_pos_is_pos(
                    spec_scaled(e, corrected as int),
                    RATIO_UNIT as int,
                );
            }
            if slot < filled {
                acc.add(&e.color);
            } else if slot == filled {
                let frac = (scaled % RATIO_UNIT as u128) as u32;
                let blended = lerp_color(&base[filled], &e.color, frac, RATIO_UNIT);
                proof {
                    vstd::arithmetic::div_mod::lemma_mod_bound(
                        spec_scaled(e, corrected as int),
                        RATIO_UNIT as int,
                    );
                }
                acc.add(&blended);
            }
        }
        k = k + 1;
    }
    proof {
        assert(entries@.take(entries@.len() as int) =~= entries@);
        lemma_max_colored_bounds(entries@, corrected as int);
        lemma_sum_contrib_bounds(entries@, base@, slot as int, corrected as int);
    }
    let n = num_bars as u128;
    proof {
        let sums = sum_contrib(entries@, base@, slot as int, corrected as int);
        let na = count_active(entries@);
        lemma_mean_bounds(sums.0, na);
        lemma_mean_bounds(sums.1, na);
        lemma_mean_bounds(sums.2, na);
    }
    Color { r: (acc.r / n) as u8, g: (acc.g / n) as u8, b: (acc.b / n) as u8 }
}

/// The values of a keyed listing of the ledger, in listing order.
pub open spec fn listing_values(kvs: Seq<(String, ProgressEntry)>) -> Seq<ProgressEntry> {
    kvs.map_values(|kv: (String, ProgressEntry)| kv.1)
}

/// Removing an element that is not the last leaves the last element in
/// place and commutes with dropping it.
proof fn lemma_remove_inner<A>(s: Seq<A>, i: int)
    requires
        0 <= i < s.len() - 1,
    ensures
        s.remove(i).len() == s.len() - 1,
        s.remove(i).last() == s.last(),
        s.remove(i).drop_last() =~= s.drop_last().remove(i),
{
}

/// Removing one entry takes exactly its activity out of the count.
proof fn lemma_count_active_remove(s: Seq<ProgressEntry>, i: int)
    requires
        0 <= i < s.len(),
    ensures
        count_active(s) == count_active(s.remove(i)) + if s[i].permille > 0 {
            1int
        } else {
            0int
        },
    decreases s.len(),
{
    if i == s.len() - 1 {
        assert(s.remove(i) =~= s.drop_last());
    } else {
        lemma_remove_inner(s, i);
        lemma_count_active_remove(s.drop_last(), i);
        assert(s.drop_last()[i] == s[i]);
    }
}

/// Removing one entry takes exactly its contribution out of the sums.
proof fn lemma_sum_contrib_remove(
    s: Seq<ProgressEntry>,
    i: int,
    base: Seq<Color>,
    slot: int,
    corrected: int,
)
    requires
        0 <= i < s.len(),
    ensures
        ({
            let whole = sum_contrib(s, base, slot, corrected);
            let rest = sum_contrib(s.remove(i), base, slot, corrected);
            let c = entry_contrib(s[i], base, slot, corrected);
            whole.0 == rest.0 + c.0 && whole.1 == rest.1 + c.1 && whole.2 == rest.2 + c.2
        }),
    decreases s.len(),
{
    if i == s.len() - 1 {
        assert(s.remove(i) =~= s.drop_last());
    } else {
        lemma_remove_inner(s, i);
        lemma_sum_contrib_remove(s.drop_last(), i, base, slot, corrected);
        assert(s.drop_last()[i] == s[i]);
    }
}

/// Removing one entry takes exactly its touched run out of the maximum.
proof fn lemma_max_colored_remove(s: Seq<ProgressEntry>, i: int, corrected: int)
    requires
        0 <= i < s.len(),
    ensures
        ({
            let c = if s[i].permille > 0 {
                spec_touched(s[i], corrected)
            } else {
                0int
            };
            let rest = max_colored(s.remove(i), corrected);
            max_colored(s, corrected) == if rest >= c {
                rest
            } else {
                c
            }
        }),
    decreases s.len(),
{
    if i == s.len() - 1 {
        assert(s.remove(i) =~= s.drop_last());
    } else {
        lemma_remove_inner(s, i);
        lemma_max_colored_remove(s.drop_last(), i, corrected);
        assert(s.drop_last()[i] == s[i]);
    }
}

/// Two listings with the same entries in any order agree on the bar
/// count, the painted run, and every slot's channel sums: the fold over
/// the ledger is commutative.
proof fn lemma_folds_permutation(
    s1: Seq<ProgressEntry>,
    s2: Seq<ProgressEntry>,
    base: Seq<Color>,
    corrected: int,
)
    requires
        s1.to_multiset() == s2.to_multiset(),
    ensures
        count_active(s1) == count_active(s2),
        max_colored(s1, corrected) == max_colored(s2, corrected),
        forall|slot: int|
            #[trigger] sum_contrib(s1, base, slot, corrected) == sum_contrib(
                s2,
                base,
                slot,
                corrected,
            ),
    decreases s1.len(),
{
    broadcast use vstd::seq_lib::group_to_multiset_ensures;

    if s1.len() == 0 {
        assert(s1.to_multiset().len() == s1.len());
        assert(s2.to_multiset().len() == s2.len());
        assert(s2 =~= s1);
    } else {
        let x = s1.last();
        assert(s1[s1.len() - 1] == x);
        assert(s1.contains(x));
        assert(s1.to_multiset().count(x) > 0);
        assert(s2.to_multiset().count(x) > 0);
        assert(s2.contains(x));
        let j = choose|j: int| 0 <= j < s2.len() && s2[j] == x;
        assert(s1.remove(s1.len() - 1) =~= s1.drop_last());
        assert(s1.drop_last().to_multiset() =~= s1.to_multiset().remove(x));
        assert(s2.remove(j).to_multiset() =~= s2.to_multiset().remove(x));
        lemma_folds_permutation(s1.drop_last(), s2.remove(j), base, corrected);
        lemma_count_active_remove(s2, j);
        lemma_max_colored_remove(s2, j, corrected);
        assert forall|slot: int|
            #[trigger] sum_contrib(s1, base, slot, corrected) == sum_contrib(
                s2,
                base,
                slot,
                corrected,
            ) by {
            lemma_sum_contrib_remove(s2, j, base, slot, corrected);
            assert(sum_contrib(s1.drop_last(), base, slot, corrected) == sum_contrib(
                s2.remove(j),
                base,
                slot,
                corrected,
            ));
            assert(sum_contrib(s1, base, slot, corrected).0 == sum_contrib(
                s1.drop_last(),
                base,
                slot,
                corrected,
            ).0 + entry_contrib(x, base, slot, corrected).0);
        }
    }
}

/// Two listings of the same ledger hold the same entries, merely in some
/// order: their value sequences have equal multisets.
proof fn lemma_listing_values_permutation(
    model: Map<Seq<char>, ProgressEntry>,
    kvs1: Seq<(String, ProgressEntry)>,
    kvs2: Seq<(String, ProgressEntry)>,
)
    requires
        ledger_listing(model, kvs1),
        ledger_listing(model, kvs2),
    ensures
        listing_values(kvs1).to_multiset() == listing_values(kvs2).to_multiset(),
    decreases kvs1.len(),
{
    broadcast use vstd::seq_lib::group_to_multiset_ensures;

    if kvs1.len() == 0 {
        assert(model.dom() =~= Set::<Seq<char>>::empty()) by {
            if exists|k: Seq<char>| model.dom().contains(k) {
                let k = choose|k: Seq<char>| model.dom().contains(k);
                assert(exists|i: int| 0 <= i < kvs1.len() && kvs1[i].0@ == k);
            }
        }
        crate::progress::lemma_empty_listing(model, kvs2);
        assert(listing_values(kvs1) =~= listing_values(kvs2));
    } else {
        let li = kvs1.len() - 1;
        let k = kvs1[li].0@;
        let v = kvs1[li].1;
        assert(model.contains_pair(k, v));
        assert(model.dom().contains(k));
        let j = choose|j: int| 0 <= j < kvs2.len() && kvs2[j].0@ == k;
        assert(model.contains_pair(kvs2[j].0@, kvs2[j].1));
        assert(kvs2[j].1 == v);

        let model1 = model.remove(k);
        let r1 = kvs1.drop_last();
        let r2 = kvs2.remove(j);
        assert forall|a: int| 0 <= a < r2.len() implies r2[a] == if a < j {
            kvs2[a]
        } else {
            kvs2[a + 1]
        } by {}

        assert(ledger_listing(model1, r1)) by {
            assert forall|i: int| 0 <= i < r1.len() implies model1.contains_pair(
                #[trigger] r1[i].0@,
                r1[i].1,
            ) by {
                assert(r1[i] == kvs1[i]);
                assert(model.contains_pair(kvs1[i].0@, kvs1[i].1));
                assert(kvs1[i].0@ != k);
            }
            assert forall|key: Seq<char>| #[trigger]
                model1.dom().contains(key) implies exists|i: int|
                0 <= i < r1.len() && r1[i].0@ == key by {
                assert(model.dom().contains(key));
                let i = choose|i: int| 0 <= i < kvs1.len() && kvs1[i].0@ == key;
                assert(key != k);
                assert(i != li);
                assert(r1[i] == kvs1[i]);
            }
        }
        assert(ledger_listing(model1, r2)) by {
            assert forall|i: int| 0 <= i < r2.len() implies model1.contains_pair(
                #[trigger] r2[i].0@,
                r2[i].1,
            ) by {
                let orig = if i < j {
                    i
                } else {
                    i + 1
                };
                assert(r2[i] == kvs2[orig]);
                assert(model.contains_pair(kvs2[orig].0@, kvs2[orig].1));
                assert(kvs2[orig].0@ != k) by {
                    if orig < j {
                        assert(kvs2[orig].0@ != kvs2[j].0@);
                    } else {
                        assert(kvs2[j].0@ != kvs2[orig].0@);
                    }
                }
            }
            assert forall|key: Seq<char>| #[trigger]
                model1.dom().contains(key) implies exists|i: int|
                0 <= i < r2.len() && r2[i].0@ == key by {
                assert(model.dom().contains(key));
                let i = choose|i: int| 0 <= i < kvs2.len() && kvs2[i].0@ == key;
                assert(key != k);
                assert(i != j);
                if i < j {
                    assert(r2[i] == kvs2[i]);
                } else {
                    assert(r2[i - 1] == kvs2[i]);
                }
            }
            assert forall|a: int, b: int| 0 <= a < b < r2.len() implies #[trigger] r2[a].0@
                != #[trigger] r2[b].0@ by {
                let oa = if a < j {
                    a
                } else {
                    a + 1
                };
                let ob = if b < j {
                    b
                } else {
                    b + 1
                };
                assert(r2[a] == kvs2[oa] && r2[b] == kvs2[ob]);
                assert(oa < ob);
            }
        }
        lemma_listing_values_permutation(model1, r1, r2);

        assert(listing_values(kvs1).drop_last() =~= listing_values(r1));
        assert(listing_values(kvs1) =~= listing_values(r1).push(v));
        assert(listing_values(r2) =~= listing_values(kvs2).remove(j));
        assert(listing_values(kvs2)[j] == v);
        assert(listing_values(kvs2).remove(j).to_multiset() =~= listing_values(
            kvs2,
        ).to_multiset().remove(v));
        assert(listing_values(kvs2).contains(v)) by {
            assert(listing_values(kvs2)[j] == v);
        }
        assert(listing_values(kvs2).to_multiset().count(v) > 0);
        assert(listing_values(kvs1).to_multiset() =~= listing_values(r1).to_multiset().insert(v));
        assert(listing_values(kvs2).to_multiset() =~= listing_values(
            kvs2,
        ).to_multiset().remove(v).insert(v));
    }
}

/// The compositor is deterministic: the composite target depends only on
/// the ledger's contents, never on the order a listing walked them in
/// (skipping, blending and averaging are commutative across entries).
pub proof fn lemma_composite_target_order_free(
    model: Map<Seq<char>, ProgressEntry>,
    kvs1: Seq<(String, ProgressEntry)>,
    kvs2: Seq<(String, ProgressEntry)>,
    base: Seq<Color>,
    flash: Color,
    notifs: Seq<Color>,
    width: int,
)
    requires
        ledger_listing(model, kvs1),
        ledger_listing(model, kvs2),
    ensures
        composite_target(listing_values(kvs1), base, flash, notifs, width) == composite_target(
            listing_values(kvs2),
            base,
            flash,
            notifs,
            width,
        ),
{
    lemma_listing_values_permutation(model, kvs1, kvs2);
    let corrected = spec_corrected_row(width);
    lemma_folds_permutation(listing_values(kvs1), listing_values(kvs2), base, corrected);
    assert(composite_target(listing_values(kvs1), base, flash, notifs, width) =~= composite_target(
        listing_values(kvs2),
        base,
        flash,
        notifs,
        width,
    ));
}

/// One composite pass has exactly one possible outcome: two runs over the
/// same layered state produce the same animation output.
pub proof fn lemma_recomposited_deterministic(
    model: Map<Seq<char>, ProgressEntry>,
    base_sel: Seq<Color>,
    flash: Color,
    notifs: Seq<Color>,
    width: int,
    last0: Seq<Color>,
    q0: Seq<Seq<Color>>,
    ms: u32,
    last1: Seq<Color>,
    q1: Seq<Seq<Color>>,
    last2: Seq<Color>,
    q2: Seq<Seq<Color>>,
)
    requires
        recomposited(model, base_sel, flash, notifs, width, last0, q0, ms, last1, q1),
        recomposited(model, base_sel, flash, notifs, width, last0, q0, ms, last2, q2),
    ensures
        last1 == last2,
        q1 == q2,
{
    let kvs1 = choose|kvs: Seq<(String, ProgressEntry)>|
        {
            &&& #[trigger] ledger_listing(model, kvs)
            &&& fade_rel(
                last0,
                q0,
                composite_target(listing_values(kvs), base_sel, flash, notifs, width),
                ms,
                last1,
                q1,
            )
        };
    let kvs2 = choose|kvs: Seq<(String, ProgressEntry)>|
        {
            &&& #[trigger] ledger_listing(model, kvs)
            &&& fade_rel(
                last0,
                q0,
                composite_target(listing_values(kvs), base_sel, flash, notifs, width),
                ms,
                last2,
                q2,
            )
        };
    lemma_composite_target_order_free(model, kvs1, kvs2, base_sel, flash, notifs, width);
}

/// The compositor is a pure function of the layered state it reads: two
/// composite calls from the same state with the same duration produce
/// identical animation output.
pub proof fn lemma_composite_deterministic(
    pre: EngineState,
    post1: EngineState,
    post2: EngineState,
    fade_time_ms: Option<u32>,
)
    requires
        spec_composited(pre, post1, fade_time_ms),
        spec_composited(pre, post2, fade_time_ms),
    ensures
        post1.last_frame@ == post2.last_frame@,
        frame_queue_model(post1.queue) == frame_queue_model(post2.queue),
{
    lemma_recomposited_deterministic(
        progress_model(pre.progress),
        pre.spec_base_sel(),
        pre.flash,
        displayed_colors(pre.displayed@),
        pre.info.width as int,
        pre.last_frame@,
        frame_queue_model(pre.queue),
        spec_eff_fade(fade_time_ms),
        post1.last_frame@,
        frame_queue_model(post1.queue),
        post2.last_frame@,
        frame_queue_model(post2.queue),
    );
}

/// The fade duration a composite uses when its caller named none.
pub open spec fn spec_eff_fade(fade_time_ms: Option<u32>) -> u32 {
    match fade_time_ms {
        Some(ms) => ms,
        None => DEFAULT_FADE_MS,
    }
}

/// One composite pass over given layered state: for some listing of the
/// progress ledger `model`, the animation output went from (`last0`, `q0`)
/// to (`last1`, `q1`) by fading toward the composite target of that
/// listing, the base frame `base_sel`, the overlay `flash` and the
/// notification colors `notifs`. The listing is quantified because the
/// ledger promises no iteration order; the target itself does not depend
/// on the order, only its description here
/// does: `lemma_composite_target_order_free` shows the target is the
/// same for every listing.
pub open spec fn recomposited(
    model: Map<Seq<char>, ProgressEntry>,
    base_sel: Seq<Color>,
    flash: Color,
    notifs: Seq<Color>,
    width: int,
    last0: Seq<Color>,
    q0: Seq<Seq<Color>>,
    ms: u32,
    last1: Seq<Color>,
    q1: Seq<Seq<Color>>,
) -> bool {
    exists|kvs: Seq<(String, ProgressEntry)>|
        {
            &&& #[trigger] ledger_listing(model, kvs)
            &&& fade_rel(
                last0,
                q0,
                composite_target(listing_values(kvs), base_sel, flash, notifs, width),
                ms,
                last1,
                q1,
            )
        }
}

/// How one composite call relates `pre` to `post`: the composite target of
/// `pre`'s layered state was rendered and faded into, and nothing else
/// changed.
pub open spec fn spec_composited(pre: EngineState, post: EngineState, fade_time_ms: Option<
    u32,
>) -> bool {
    &&& EngineState::same_but_animation(pre, post)
    &&& recomposited(
        progress_model(pre.progress),
        pre.spec_base_sel(),
        pre.flash,
        displayed_colors(pre.displayed@),
        pre.info.width as int,
        pre.last_frame@,
        frame_queue_model(pre.queue),
        spec_eff_fade(fade_time_ms),
        post.last_frame@,
        frame_queue_model(post.queue),
    )
}

impl EngineState {
    /// Renders the layered visual state (base frame or lock substrate,
    /// Progress Ledger, displayed notifications, flash overlay) into one
    /// target frame and fades into it, with the given duration or a short
    /// default.
    pub fn composite(&mut self, fade_time_ms: Option<u32>)
        requires
            old(self).wf(),
        ensures
            final (self).wf(),
            spec_composited(*old(self), *final (self), fade_time_ms),
    {
        // Colors of the displayed notifications, in list order.
        let mut notif_colors: Vec<Color> = Vec::new();
        let mut i: usize = 0;
        while i < self.displayed.len()
            invariant
                old(self).wf(),
                *self == *old(self),
                i <= self.displayed@.len(),
                notif_colors@ =~= displayed_colors(self.displayed@.take(i as int)),
            decreases self.displayed@.len() - i,
        {
            notif_colors.push(self.displayed[i].settings.color);
            proof {
                assert(self.displayed@.take(i + 1) =~= self.displayed@.take(i as int).push(
                    self.displayed@[i as int],
                ));
                assert(notif_colors@ =~= displayed_colors(self.displayed@.take(i + 1)));
            }
            i = i + 1;
        }
        proof {
            assert(self.displayed@.take(self.displayed@.len() as int) =~= self.displayed@);
        }

        // One listing of the Progress Ledger, and its entries.
        let kvs = progress_map_entries(&self.progress);
        let mut entries: Vec<ProgressEntry> = Vec::new();
        let mut k: usize = 0;
        while k < kvs.len()
            invariant
                k <= kvs@.len(),
                entries@ =~= listing_values(kvs@.take(k as int)),
            decreases kvs@.len() - k,
        {
            entries.push(kvs[k].1);
            proof {
                assert(kvs@.take(k + 1) =~= kvs@.take(k as int).push(kvs@[k as int]));
                assert(entries@ =~= listing_values(kvs@.take(k + 1)));
            }
            k = k + 1;
        }
        proof {
            assert(kvs@.take(kvs@.len() as int) =~= kvs@);
            assert(entries@ =~= listing_values(kvs@));
            assert forall|j: int| 0 <= j < entries@.len() implies #[trigger] entries@[j].permille
                <= RATIO_UNIT by {
                assert(ledger_listing(progress_model(self.progress), kvs@));
                assert(progress_model(self.progress).contains_pair(kvs@[j].0@, kvs@[j].1));
                assert(progress_model(self.progress).dom().contains(kvs@[j].0@));
            }
        }

        let base = self.get_keyboard_base();
        proof {
            assert(self.info.total_leds >= self.info.width) by (nonlinear_arith)
                requires
                    self.info.total_leds == self.info.width * self.info.height,
                    self.info.height >= 1,
                    self.info.width >= 0,
            ;
        }
        let target = render_target(&entries, &base, self.flash, &notif_colors, self.info.width);
        let ghost pre = *self;
        let ms = match fade_time_ms {
            Some(ms) => ms,
            None => DEFAULT_FADE_MS,
        };
        self.fade_into_frame(&target, ms);
        proof {
            assert(ledger_listing(progress_model(pre.progress), kvs@) && fade_rel(
                pre.last_frame@,
                frame_queue_model(pre.queue),
                composite_target(
                    listing_values(kvs@),
                    pre.spec_base_sel(),
                    pre.flash,
                    displayed_colors(pre.displayed@),
                    pre.info.width as int,
                ),
                spec_eff_fade(fade_time_ms),
                self.last_frame@,
                frame_queue_model(self.queue),
            ));
        }
    }

    /// Stores a transient flash overlay and composites at once so it
    /// becomes visible, then hands the caller the deferred clear to run
    /// after `hold_ms` milliseconds: the overlay is last-write-wins, and
    /// an earlier clear firing during a newer flash is accepted behavior.
    pub fn flash_color(&mut self, color: Color, hold_ms: u64) -> (d: DeferredFlashClear)
        requires
            old(self).wf(),
        ensures
            final (self).wf(),
            d.delay_ms == hold_ms,
            final (self).flash == color,
            EngineState::same_core(*old(self), *final (self)),
            recomposited(
                progress_model(old(self).progress),
                old(self).spec_base_sel(),
                color,
                displayed_colors(old(self).displayed@),
                old(self).info.width as int,
                old(self).last_frame@,
                frame_queue_model(old(self).queue),
                FLASH_FADE_MS,
                final (self).last_frame@,
                frame_queue_model(final (self).queue),
            ),
    {
        self.flash = color;
        self.composite(Some(FLASH_FADE_MS));
        DeferredFlashClear { delay_ms: hold_ms }
    }

    /// The deferred half of a flash: stores black (no overlay) and
    /// composites again so the layered state shows through.
    pub fn flash_clear(&mut self)
        requires
            old(self).wf(),
        ensures
            final (self).wf(),
            final (self).flash == spec_black(),
            EngineState::same_core(*old(self), *final (self)),
            recomposited(
                progress_model(old(self).progress),
                old(self).spec_base_sel(),
                spec_black(),
                displayed_colors(old(self).displayed@),
                old(self).info.width as int,
                old(self).last_frame@,
                frame_queue_model(old(self).queue),
                FLASH_FADE_MS,
                final (self).last_frame@,
                frame_queue_model(final (self).queue),
            ),
    {
        self.flash = black();
        self.composite(Some(FLASH_FADE_MS));
    }
}

/// Why an engine could not be built around a device grid.
#[derive(Clone, Copy, PartialEq, Eq, Structural, Debug)]
pub enum EngineInitError {
    /// The grid is too narrow to hold the indicator row and its offsets.
    TopRowTooNarrow,
}

impl EngineState {
    /// Builds the engine around a device grid: empty ledgers, an
    /// all-black base and last frame, an empty queue, no lock, no flash.
    /// Fails exactly when the grid is too narrow for the indicator row.
    pub fn new(info: ControllerInfo, settings: SettingsTable) -> (r: Result<
        EngineState,
        EngineInitError,
    >)
        requires
            info.wf(),
        ensures
            match r {
                Ok(s) => {
                    &&& info.width > KEYBOARD_COL_OFFSET_START + KEYBOARD_COL_OFFSET_END
                    &&& s.wf()
                    &&& s.info == info
                    &&& s.settings == settings
                    &&& s.pending@.len() == 0
                    &&& s.displayed@.len() == 0
                    &&& s.base_frame@ =~= Seq::new(
                        info.total_leds as nat,
                        |i: int| spec_black(),
                    )
                    &&& s.last_frame@ =~= Seq::new(info.total_leds as nat, |i: int| spec_black())
                    &&& frame_queue_model(s.queue).len() == 0
                    &&& progress_model(s.progress) =~= Map::empty()
                    &&& !s.screen_locked
                    &&& s.flash == spec_black()
                    &&& s.about_to_shutdown == 0
                },
                Err(e) => {
                    &&& info.width <= KEYBOARD_COL_OFFSET_START + KEYBOARD_COL_OFFSET_END
                    &&& e == EngineInitError::TopRowTooNarrow
                },
            },
    {
        if info.width <= KEYBOARD_COL_OFFSET_START + KEYBOARD_COL_OFFSET_END {
            return Err(EngineInitError::TopRowTooNarrow);
        }
        let base_frame = uniform_frame(black(), info.total_leds);
        let last_frame = uniform_frame(black(), info.total_leds);
        Ok(
            EngineState {
                info,
                progress: progress_map_new(),
                settings,
                pending: Vec::new(),
                displayed: Vec::new(),
                base_frame,
                last_frame,
                queue: frame_queue_new(),
                screen_locked: false,
                flash: black(),
                about_to_shutdown: 0,
            },
        )
    }

    /// Replaces the idle target frame that unlocked composites start
    /// from. The next composite or fade makes it visible.
    pub fn set_base_frame(&mut self, frame: Frame)
        requires
            old(self).wf(),
            frame@.len() == old(self).info.total_leds,
        ensures
            final (self).wf(),
            final (self).base_frame@ == frame@,
            *final (self) == (EngineState { base_frame: final (self).base_frame, ..*old(self) }),
    {
        self.base_frame = frame;
    }

    /// Seeds the Progress Ledger with a source's display color at ratio
    /// zero, as the configuration prescribes.
    pub fn seed_progress(&mut self, source: String, color: Color)
        requires
            old(self).wf(),
        ensures
            final (self).wf(),
            progress_model(final (self).progress) == progress_model(old(self).progress).insert(
                source@,
                ProgressEntry { color, permille: 0 },
            ),
            *final (self) == (EngineState { progress: final (self).progress, ..*old(self) }),
    {
        progress_map_insert(&mut self.progress, source, ProgressEntry { color, permille: 0 });
    }

    /// Stores the shutdown progress marker the renderer polls.
    pub fn set_about_to_shutdown(&mut self, stage: u8)
        requires
            old(self).wf(),
        ensures
            final (self).wf(),
            final (self).about_to_shutdown == stage,
            *final (self) == (EngineState { about_to_shutdown: stage, ..*old(self) }),
    {
        self.about_to_shutdown = stage;
    }
}

} // verus!
