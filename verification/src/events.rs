//! The event handlers: how each already-parsed desktop event (progress
//! update, screen lock, notification lifecycle) mutates the ledgers and
//! drives the compositor and flash controller.
//!
//! A handler that starts a flash returns the deferred clear for the caller
//! to schedule, since only the caller can sleep.

use crate::color::{black, blue, green, purple, red, spec_black, spec_blue, spec_green,
    spec_purple, spec_red, spec_white, white, Color};
use crate::engine::{
    displayed_colors, recomposited, DeferredFlashClear, EngineState, DEFAULT_FADE_MS,
    FLASH_FADE_MS, NOTIFICATION_FADE_MS,
};
use crate::frame::frame_queue_model;
use crate::notifications::{
    spec_find_by_id, spec_find_last_by_sender, spec_lookup_settings, spec_notif_fresh, spec_purge,
    Notification, DELIVERY_TIMEOUT_MS,
};
use crate::progress::{progress_map_get, progress_map_insert, progress_model, ProgressEntry,
    RATIO_UNIT};
use vstd::prelude::*;
use vstd::pervasive::VecAdditionalExecFns;

verus! {

/// A progress change below this many thousandths does not trigger a
/// recomposite on its own (the ledger is still updated).
pub const PROGRESS_STEP_PERMILLE: u32 = 10;

/// How long the flash of a vanished progress source holds, milliseconds.
pub const PROGRESS_FLASH_HOLD_MS: u64 = 350;

/// How long the flash of an expired notification holds, milliseconds.
pub const AUTO_CLOSE_FLASH_HOLD_MS: u64 = 500;

/// How long the flash of a delivered notification holds, milliseconds.
pub const NOTIFY_FLASH_HOLD_MS: u64 = 900;

/// Fade duration of the composite a lock or unlock issues.
pub const LOCK_FADE_MS: u32 = 1500;

/// The flash color a progress event at ratio zero picks, by whether its
/// bar was visible and whether more entries remain.
pub open spec fn spec_progress_flash_color(progress_visible: bool, count: i64) -> Color {
    if progress_visible {
        if count > 1 {
            spec_green()
        } else {
            spec_red()
        }
    } else {
        if count > 1 {
            spec_blue()
        } else {
            spec_purple()
        }
    }
}

/// Ratios above one are clamped to one.
pub open spec fn spec_clamp_ratio(permille: u32) -> u32 {
    if permille > RATIO_UNIT {
        RATIO_UNIT
    } else {
        permille
    }
}

/// The ledger entry a progress event starts from: the stored entry, or a
/// fresh white one at ratio zero for a source never seen before.
pub open spec fn spec_prev_entry(
    model: Map<Seq<char>, ProgressEntry>,
    key: Seq<char>,
) -> ProgressEntry {
    if model.dom().contains(key) {
        model[key]
    } else {
        ProgressEntry { color: spec_white(), permille: 0 }
    }
}

/// The absolute difference of two ratios.
pub open spec fn spec_ratio_delta(a: u32, b: u32) -> int {
    if a >= b {
        a - b
    } else {
        b - a
    }
}

/// The same notification with the delivery id filled in.
pub open spec fn spec_set_id(n: Notification, id: u32) -> Notification {
    Notification { id, ..n }
}

/// A copy of one notification.
fn clone_notification(n: &Notification) -> (r: Notification)
    ensures
        r == *n,
{
    Notification { id: n.id, sender: n.sender.clone(), settings: n.settings, timestamp: n.timestamp }
}

/// Index of the first notification carrying `id`, if any.
fn find_by_id(list: &Vec<Notification>, id: u32) -> (r: Option<usize>)
    ensures
        match r {
            Some(i) => i < list@.len() && spec_find_by_id(list@, id) == Some(i as int),
            None => spec_find_by_id(list@, id) is None,
        },
{
    let mut i: usize = 0;
    assert(list@.skip(0) =~= list@);
    loop
        invariant_except_break
            i <= list@.len(),
            spec_find_by_id(list@, id) == match spec_find_by_id(list@.skip(i as int), id) {
                Some(j) => Some(j + i),
                None => None::<int>,
            },
        ensures
            i < list@.len(),
            spec_find_by_id(list@, id) == Some(i as int),
        decreases list@.len() - i,
    {
        if i == list.len() {
            return None;
        }
        assert(list@.skip(i as int)[0] == list@[i as int]);
        assert(list@.skip(i as int).skip(1) =~= list@.skip(i as int + 1));
        if list[i].id == id {
            break ;
        }
        i = i + 1;
    }
    Some(i)
}

/// Index of the most recently appended notification from `sender`, if any.
fn find_last_by_sender(list: &Vec<Notification>, sender: &String) -> (r: Option<usize>)
    ensures
        match r {
            Some(i) => i < list@.len() && spec_find_last_by_sender(list@, sender@) == Some(
                i as int,
            ),
            None => spec_find_last_by_sender(list@, sender@) is None,
        },
{
    let mut j: usize = list.len();
    assert(list@.take(list@.len() as int) =~= list@);
    while j > 0
        invariant
            j <= list@.len(),
            spec_find_last_by_sender(list@, sender@) == spec_find_last_by_sender(
                list@.take(j as int),
                sender@,
            ),
        decreases j,
    {
        j = j - 1;
        assert(list@.take(j + 1).drop_last() =~= list@.take(j as int));
        assert(list@.take(j + 1).last() == list@[j as int]);
        if list[j].sender == *sender {
            return Some(j);
        }
    }
    None
}

/// Drops every pending notification whose delivery timeout has passed.
fn purge_stale(list: &mut Vec<Notification>, now: u128)
    ensures
        final (list)@ == spec_purge(old(list)@, now),
{
    broadcast use vstd::prelude::Seq::lemma_filter_push;

    let ghost pred = |n: Notification| spec_notif_fresh(n, now);
    let mut kept: Vec<Notification> = Vec::new();
    let mut j: usize = 0;
    proof {
        assert(list@.take(0) =~= Seq::<Notification>::empty());
        reveal(Seq::filter);
    }
    while j < list.len()
        invariant
            j <= list@.len(),
            pred == (|n: Notification| spec_notif_fresh(n, now)),
            kept@ == list@.take(j as int).filter(pred),
        decreases list@.len() - j,
    {
        proof {
            let tj = list@.take(j as int);
            let x = list@[j as int];
            assert(list@.take(j + 1) =~= tj.push(x));
            tj.lemma_filter_push(x, pred);
        }
        let n = &list[j];
        let fresh = if n.timestamp >= now {
            true
        } else {
            now - n.timestamp <= DELIVERY_TIMEOUT_MS
        };
        if fresh {
            let copy = clone_notification(n);
            kept.push(copy);
        }
        j = j + 1;
    }
    proof {
        assert(list@.take(list@.len() as int) =~= list@);
    }
    *list = kept;
}

impl EngineState {
    /// Applies one progress update: the ledger entry of `source` is
    /// always overwritten with the clamped ratio (an unchanged ratio is
    /// not a no-op at the ledger level), keeping its stored color or
    /// defaulting to white for a new source. A ratio of zero flashes a
    /// diagnostic color chosen from the event's shape; otherwise a change
    /// beyond the recomposite step re-renders, and a smaller change only
    /// updates the ledger.
    pub fn handle_progress(
        &mut self,
        source: String,
        permille: u32,
        progress_visible: bool,
        count: i64,
    ) -> (d: Option<DeferredFlashClear>)
        requires
            old(self).wf(),
        ensures
            final (self).wf(),
            final (self).info == old(self).info,
            final (self).settings == old(self).settings,
            final (self).pending == old(self).pending,
            final (self).displayed == old(self).displayed,
            final (self).base_frame == old(self).base_frame,
            final (self).screen_locked == old(self).screen_locked,
            final (self).about_to_shutdown == old(self).about_to_shutdown,
            ({
                let model0 = progress_model(old(self).progress);
                let clamped = spec_clamp_ratio(permille);
                let prev = spec_prev_entry(model0, source@);
                let model1 = model0.insert(
                    source@,
                    ProgressEntry { color: prev.color, permille: clamped },
                );
                &&& progress_model(final (self).progress) == model1
                &&& if clamped == 0 {
                    let fc = spec_progress_flash_color(progress_visible, count);
                    &&& d == Some(DeferredFlashClear { delay_ms: PROGRESS_FLASH_HOLD_MS })
                    &&& final (self).flash == fc
                    &&& recomposited(
                        model1,
                        old(self).spec_base_sel(),
                        fc,
                        displayed_colors(old(self).displayed@),
                        old(self).info.width as int,
                        old(self).last_frame@,
                        frame_queue_model(old(self).queue),
                        FLASH_FADE_MS,
                        final (self).last_frame@,
                        frame_queue_model(final (self).queue),
                    )
                } else if spec_ratio_delta(prev.permille, clamped) > PROGRESS_STEP_PERMILLE {
                    &&& d is None
                    &&& final (self).flash == old(self).flash
                    &&& recomposited(
                        model1,
                        old(self).spec_base_sel(),
                        old(self).flash,
                        displayed_colors(old(self).displayed@),
                        old(self).info.width as int,
                        old(self).last_frame@,
                        frame_queue_model(old(self).queue),
                        DEFAULT_FADE_MS,
                        final (self).last_frame@,
                        frame_queue_model(final (self).queue),
                    )
                } else {
                    &&& d is None
                    &&& final (self).flash == old(self).flash
                    &&& final (self).last_frame == old(self).last_frame
                    &&& frame_queue_model(final (self).queue) == frame_queue_model(
                        old(self).queue,
                    )
                }
            }),
    {
        let clamped = if permille > RATIO_UNIT {
            RATIO_UNIT
        } else {
            permille
        };
        let prev = progress_map_get(&self.progress, &source);
        let (prev_color, prev_permille): (Color, u32) = match prev {
            Some(e) => (e.color, e.permille),
            None => (white(), 0),
        };
        let delta = if prev_permille >= clamped {
            prev_permille - clamped
        } else {
            clamped - prev_permille
        };
        progress_map_insert(
            &mut self.progress,
            source,
            ProgressEntry { color: prev_color, permille: clamped },
        );
        if clamped == 0 {
            let fc = if progress_visible {
                if count > 1 {
                    green()
                } else {
                    red()
                }
            } else {
                if count > 1 {
                    blue()
                } else {
                    purple()
                }
            };
            Some(self.flash_color(fc, PROGRESS_FLASH_HOLD_MS))
        } else if delta > PROGRESS_STEP_PERMILLE {
            self.composite(None);
            None
        } else {
            None
        }
    }

    /// Applies a screen-lock change: stores the flag and recomposites
    /// with a slow fade, so the substrate dims or returns gradually.
    pub fn handle_screen_lock(&mut self, locked: bool)
        requires
            old(self).wf(),
        ensures
            final (self).wf(),
            final (self).screen_locked == locked,
            final (self).info == old(self).info,
            final (self).progress == old(self).progress,
            final (self).settings == old(self).settings,
            final (self).pending == old(self).pending,
            final (self).displayed == old(self).displayed,
            final (self).base_frame == old(self).base_frame,
            final (self).flash == old(self).flash,
            final (self).about_to_shutdown == old(self).about_to_shutdown,
            recomposited(
                progress_model(old(self).progress),
                final (self).spec_base_sel(),
                old(self).flash,
                displayed_colors(old(self).displayed@),
                old(self).info.width as int,
                old(self).last_frame@,
                frame_queue_model(old(self).queue),
                LOCK_FADE_MS,
                final (self).last_frame@,
                frame_queue_model(final (self).queue),
            ),
    {
        self.screen_locked = locked;
        self.composite(Some(LOCK_FADE_MS));
    }

    /// Applies an opened notification: an application configured in the
    /// settings table gets a pending entry with no id yet; an unknown
    /// application is ignored entirely. Returns whether the notification
    /// is now tracked.
    pub fn handle_notify(&mut self, application: &String, sender: String, timestamp: u128) -> (r:
        bool)
        requires
            old(self).wf(),
        ensures
            final (self).wf(),
            r == (spec_lookup_settings(old(self).settings.entries@, application@) is Some),
            final (self).info == old(self).info,
            final (self).progress == old(self).progress,
            final (self).settings == old(self).settings,
            final (self).displayed == old(self).displayed,
            final (self).base_frame == old(self).base_frame,
            final (self).last_frame == old(self).last_frame,
            frame_queue_model(final (self).queue) == frame_queue_model(old(self).queue),
            final (self).screen_locked == old(self).screen_locked,
            final (self).flash == old(self).flash,
            final (self).about_to_shutdown == old(self).about_to_shutdown,
            match spec_lookup_settings(old(self).settings.entries@, application@) {
                Some(st) => final (self).pending@ == old(self).pending@.push(
                    Notification { id: 0, sender: sender, settings: st, timestamp: timestamp },
                ),
                None => final (self).pending == old(self).pending,
            },
    {
        match self.settings.get(application) {
            Some(st) => {
                self.pending.push(
                    Notification { id: 0, sender: sender, settings: st, timestamp: timestamp },
                );
                true
            },
            None => false,
        }
    }

    /// Applies a delivery reply: the youngest pending notification from
    /// the reply's destination gets the assigned id, and a flash of the
    /// application's color starts if its settings ask for one. Whether or
    /// not a match was found, pending notifications whose delivery
    /// timeout has passed are purged.
    pub fn handle_delivered(&mut self, id: u32, destination: &String, now: u128) -> (d: Option<
        DeferredFlashClear,
    >)
        requires
            old(self).wf(),
        ensures
            final (self).wf(),
            final (self).info == old(self).info,
            final (self).progress == old(self).progress,
            final (self).settings == old(self).settings,
            final (self).displayed == old(self).displayed,
            final (self).base_frame == old(self).base_frame,
            final (self).screen_locked == old(self).screen_locked,
            final (self).about_to_shutdown == old(self).about_to_shutdown,
            ({
                let p0 = old(self).pending@;
                let found = spec_find_last_by_sender(p0, destination@);
                let p1 = match found {
                    Some(i) => p0.update(i, spec_set_id(p0[i], id)),
                    None => p0,
                };
                &&& final (self).pending@ == spec_purge(p1, now)
                &&& match found {
                    Some(i) => {
                        let st = p0[i].settings;
                        if st.flash_on_notify {
                            &&& d == Some(
                                DeferredFlashClear { delay_ms: NOTIFY_FLASH_HOLD_MS },
                            )
                            &&& final (self).flash == st.color
                            &&& recomposited(
                                progress_model(old(self).progress),
                                old(self).spec_base_sel(),
                                st.color,
                                displayed_colors(old(self).displayed@),
                                old(self).info.width as int,
                                old(self).last_frame@,
                                frame_queue_model(old(self).queue),
                                FLASH_FADE_MS,
                                final (self).last_frame@,
                                frame_queue_model(final (self).queue),
                            )
                        } else {
                            &&& d is None
                            &&& final (self).flash == old(self).flash
                            &&& final (self).last_frame == old(self).last_frame
                            &&& frame_queue_model(final (self).queue) == frame_queue_model(
                                old(self).queue,
                            )
                        }
                    },
                    None => {
                        &&& d is None
                        &&& final (self).flash == old(self).flash
                        &&& final (self).last_frame == old(self).last_frame
                        &&& frame_queue_model(final (self).queue) == frame_queue_model(
                            old(self).queue,
                        )
                    },
                }
            }),
    {
        let found = find_last_by_sender(&self.pending, destination);
        let d: Option<DeferredFlashClear> = match found {
            Some(i) => {
                let updated = Notification {
                    id,
                    sender: self.pending[i].sender.clone(),
                    settings: self.pending[i].settings,
                    timestamp: self.pending[i].timestamp,
                };
                let st = updated.settings;
                self.pending.set(i, updated);
                if st.flash_on_notify {
                    Some(self.flash_color(st.color, NOTIFY_FLASH_HOLD_MS))
                } else {
                    None
                }
            },
            None => None,
        };
        purge_stale(&mut self.pending, now);
        d
    }

    /// Applies a close event. A pending notification closed for any
    /// reason is removed; only expiry promotes it further: a flash of its
    /// auto-close color where one is configured, and for an important
    /// application a place in the displayed list plus a recomposite. A
    /// displayed notification closed by id is removed with a recomposite.
    /// An id found nowhere is ignored entirely.
    pub fn handle_closed(&mut self, id: u32, reason: u32) -> (d: Option<DeferredFlashClear>)
        requires
            old(self).wf(),
        ensures
            final (self).wf(),
            final (self).info == old(self).info,
            final (self).progress == old(self).progress,
            final (self).settings == old(self).settings,
            final (self).base_frame == old(self).base_frame,
            final (self).screen_locked == old(self).screen_locked,
            final (self).about_to_shutdown == old(self).about_to_shutdown,
            ({
                let p0 = old(self).pending@;
                let d0 = old(self).displayed@;
                match spec_find_by_id(p0, id) {
                    Some(i) => {
                        let n = p0[i];
                        let fc = n.settings.flash_on_auto_close;
                        let flashed = fc != spec_black();
                        &&& final (self).pending@ == p0.remove(i)
                        &&& if reason != 1 {
                            &&& final (self).displayed == old(self).displayed
                            &&& final (self).flash == old(self).flash
                            &&& d is None
                            &&& final (self).last_frame == old(self).last_frame
                            &&& frame_queue_model(final (self).queue) == frame_queue_model(
                                old(self).queue,
                            )
                        } else {
                            &&& final (self).displayed@ == if n.settings.important {
                                d0.push(n)
                            } else {
                                d0
                            }
                            &&& final (self).flash == if flashed {
                                fc
                            } else {
                                old(self).flash
                            }
                            &&& d == if flashed {
                                Some(DeferredFlashClear { delay_ms: AUTO_CLOSE_FLASH_HOLD_MS })
                            } else {
                                None::<DeferredFlashClear>
                            }
                            &&& if flashed && n.settings.important {
                                exists|mid: (Seq<Color>, Seq<Seq<Color>>)|
                                    {
                                        &&& #[trigger] recomposited(
                                            progress_model(old(self).progress),
                                            old(self).spec_base_sel(),
                                            fc,
                                            displayed_colors(d0),
                                            old(self).info.width as int,
                                            old(self).last_frame@,
                                            frame_queue_model(old(self).queue),
                                            FLASH_FADE_MS,
                                            mid.0,
                                            mid.1,
                                        )
                                        &&& recomposited(
                                            progress_model(old(self).progress),
                                            old(self).spec_base_sel(),
                                            fc,
                                            displayed_colors(d0.push(n)),
                                            old(self).info.width as int,
                                            mid.0,
                                            mid.1,
                                            NOTIFICATION_FADE_MS,
                                            final (self).last_frame@,
                                            frame_queue_model(final (self).queue),
                                        )
                                    }
                            } else if flashed {
                                recomposited(
                                    progress_model(old(self).progress),
                                    old(self).spec_base_sel(),
                                    fc,
                                    displayed_colors(d0),
                                    old(self).info.width as int,
                                    old(self).last_frame@,
                                    frame_queue_model(old(self).queue),
                                    FLASH_FADE_MS,
                                    final (self).last_frame@,
                                    frame_queue_model(final (self).queue),
                                )
                            } else if n.settings.important {
                                recomposited(
                                    progress_model(old(self).progress),
                                    old(self).spec_base_sel(),
                                    old(self).flash,
                                    displayed_colors(d0.push(n)),
                                    old(self).info.width as int,
                                    old(self).last_frame@,
                                    frame_queue_model(old(self).queue),
                                    NOTIFICATION_FADE_MS,
                                    final (self).last_frame@,
                                    frame_queue_model(final (self).queue),
                                )
                            } else {
                                &&& final (self).last_frame == old(self).last_frame
                                &&& frame_queue_model(final (self).queue) == frame_queue_model(
                                    old(self).queue,
                                )
                            }
                        }
                    },
                    None => {
                        &&& final (self).pending == old(self).pending
                        &&& final (self).flash == old(self).flash
                        &&& d is None
                        &&& match spec_find_by_id(d0, id) {
                            Some(j) => {
                                &&& final (self).displayed@ == d0.remove(j)
                                &&& recomposited(
                                    progress_model(old(self).progress),
                                    old(self).spec_base_sel(),
                                    old(self).flash,
                                    displayed_colors(d0.remove(j)),
                                    old(self).info.width as int,
                                    old(self).last_frame@,
                                    frame_queue_model(old(self).queue),
                                    NOTIFICATION_FADE_MS,
                                    final (self).last_frame@,
                                    frame_queue_model(final (self).queue),
                                )
                            },
                            None => {
                                &&& final (self).displayed == old(self).displayed
                                &&& final (self).last_frame == old(self).last_frame
                                &&& frame_queue_model(final (self).queue) == frame_queue_model(
                                    old(self).queue,
                                )
                            },
                        }
                    },
                }
            }),
    {
        let found = find_by_id(&self.pending, id);
        if let Some(i) = found {
            let n = self.pending.remove(i);
            if reason != 1 {
                return None;
            }
            let st = n.settings;
            let mut d: Option<DeferredFlashClear> = None;
            if st.flash_on_auto_close != black() {
                d = Some(self.flash_color(st.flash_on_auto_close, AUTO_CLOSE_FLASH_HOLD_MS));
            }
            let ghost mid_last = self.last_frame@;
            let ghost mid_q = frame_queue_model(self.queue);
            if st.important {
                self.displayed.push(n);
                self.composite(Some(NOTIFICATION_FADE_MS));
                proof {
                    if st.flash_on_auto_close != spec_black() {
                        let w = (mid_last, mid_q);
                        assert(recomposited(
                            progress_model(old(self).progress),
                            old(self).spec_base_sel(),
                            st.flash_on_auto_close,
                            displayed_colors(old(self).displayed@),
                            old(self).info.width as int,
                            old(self).last_frame@,
                            frame_queue_model(old(self).queue),
                            FLASH_FADE_MS,
                            w.0,
                            w.1,
                        ));
                    }
                }
            }
            return d;
        }
        let found_full = find_by_id(&self.displayed, id);
        if let Some(j) = found_full {
            self.displayed.remove(j);
            self.composite(Some(NOTIFICATION_FADE_MS));
            return None;
        }
        None
    }
}

} // verus!
