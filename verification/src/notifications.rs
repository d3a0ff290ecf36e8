//! Notifications tracked on the device: per-application display settings,
//! the pending and displayed notification lists, and the helpers their
//! lifecycle needs.

use crate::color::Color;
use std::time::{SystemTime, UNIX_EPOCH};
use vstd::prelude::*;

verus! {

/// How long an opened notification may wait for its delivery reply before
/// it is purged as broken, in milliseconds.
pub const DELIVERY_TIMEOUT_MS: u128 = 2000;

/// Static display settings of one application, loaded once from
/// configuration. A black `flash_on_auto_close` disables that flash.
#[derive(Clone, Copy, PartialEq, Eq, Structural, Debug)]
pub struct NotificationSettings {
    pub color: Color,
    pub important: bool,
    pub flash_on_notify: bool,
    pub flash_on_auto_close: Color,
}

/// One tracked notification. `id` stays 0 until the bus assigns one;
/// `sender` is the bus address the delivery reply will be addressed to;
/// `timestamp` (milliseconds) only serves the purge of replies that never
/// came.
#[derive(Debug)]
pub struct Notification {
    pub id: u32,
    pub sender: String,
    pub settings: NotificationSettings,
    pub timestamp: u128,
}

/// The settings table: application name to display settings, loaded once
/// at startup. One entry per application; the first entry for a name wins.
pub struct SettingsTable {
    pub entries: Vec<(String, NotificationSettings)>,
}

/// The settings the table holds for an application name, if any.
pub open spec fn spec_lookup_settings(
    entries: Seq<(String, NotificationSettings)>,
    name: Seq<char>,
) -> Option<NotificationSettings>
    decreases entries.len(),
{
    if entries.len() == 0 {
        None
    } else if entries[0].0@ == name {
        Some(entries[0].1)
    } else {
        spec_lookup_settings(entries.skip(1), name)
    }
}

impl SettingsTable {
    /// An empty table.
    pub fn new() -> (t: SettingsTable)
        ensures
            t.entries@.len() == 0,
    {
        SettingsTable { entries: Vec::new() }
    }

    /// Appends the settings for one application name.
    pub fn add(&mut self, name: String, settings: NotificationSettings)
        ensures
            final (self).entries@ == old(self).entries@.push((name, settings)),
    {
        self.entries.push((name, settings));
    }

    /// How many applications the table configures.
    pub fn len(&self) -> (n: usize)
        ensures
            n == self.entries@.len(),
    {
        self.entries.len()
    }

    /// The settings configured for `name`, if any.
    pub fn get(&self, name: &String) -> (r: Option<NotificationSettings>)
        ensures
            r == spec_lookup_settings(self.entries@, name@),
    {
        let mut i: usize = 0;
        assert(self.entries@.skip(0) =~= self.entries@);
        loop
            invariant_except_break
                i <= self.entries@.len(),
                spec_lookup_settings(self.entries@, name@) == spec_lookup_settings(
                    self.entries@.skip(i as int),
                    name@,
                ),
            ensures
                i < self.entries@.len(),
                spec_lookup_settings(self.entries@, name@) == Some(self.entries@[i as int].1),
            decreases self.entries@.len() - i,
        {
            if i == self.entries.len() {
                return None;
            }
            assert(self.entries@.skip(i as int)[0] == self.entries@[i as int]);
            assert(self.entries@.skip(i as int).skip(1) =~= self.entries@.skip(i as int + 1));
            if self.entries[i].0 == *name {
                break ;
            }
            i = i + 1;
        }
        Some(self.entries[i].1)
    }
}

/// Index of the first notification carrying `id`, if any.
pub open spec fn spec_find_by_id(s: Seq<Notification>, id: u32) -> Option<int>
    decreases s.len(),
{
    if s.len() == 0 {
        None
    } else if s[0].id == id {
        Some(0)
    } else {
        match spec_find_by_id(s.skip(1), id) {
            Some(i) => Some(i + 1),
            None => None,
        }
    }
}

/// Index of the most recently appended notification whose sender is
/// `sender`, if any.
pub open spec fn spec_find_last_by_sender(s: Seq<Notification>, sender: Seq<char>) -> Option<int>
    decreases s.len(),
{
    if s.len() == 0 {
        None
    } else if s.last().sender@ == sender {
        Some(s.len() - 1)
    } else {
        spec_find_last_by_sender(s.drop_last(), sender)
    }
}

/// Whether a pending notification is still waiting within its delivery
/// timeout at time `now`.
pub open spec fn spec_notif_fresh(n: Notification, now: u128) -> bool {
    n.timestamp + DELIVERY_TIMEOUT_MS >= now
}

/// The pending list after purging every notification whose delivery
/// timeout has passed at time `now`.
pub open spec fn spec_purge(s: Seq<Notification>, now: u128) -> Seq<Notification> {
    s.filter(|n: Notification| spec_notif_fresh(n, now))
}

/// Relies on `SystemTime::now` and `SystemTime::duration_since`: reads
/// the wall clock as milliseconds since the Unix epoch, about which
/// nothing is promised (a clock before the epoch reads as 0).
#[verifier::external_body]
fn system_millis() -> u128 {
    SystemTime::now().duration_since(UNIX_EPOCH).map(|d| d.as_millis()).unwrap_or(0)
}

/// The current wall-clock time in milliseconds since the Unix epoch; only
/// used to stamp pending notifications for the purge of replies that
/// never came.
pub fn get_timestamp() -> u128 {
    system_millis()
}

} // verus!
