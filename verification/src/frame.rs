//! Complete color frames, the FIFO frame queue that carries them to the
//! renderer, and the rule-based construction of a substrate frame from LED
//! key names.

use crate::color::Color;
use concurrent_queue::ConcurrentQueue;
use vstd::prelude::*;

verus! {

/// One complete snapshot of colors, one per LED of the device.
pub type Frame = Vec<Color>;

#[verifier::external_type_specification]
#[verifier::external_body]
#[verifier::reject_recursive_types(T)]
pub struct ExConcurrentQueue<T>(ConcurrentQueue<T>);

/// The frames held by a frame queue, oldest first.
pub uninterp spec fn frame_queue_model(q: ConcurrentQueue<Frame>) -> Seq<Seq<Color>>;

/// Whether a frame queue has never been closed. Every queue this crate
/// creates stays in that state: nothing here ever closes one.
pub uninterp spec fn frame_queue_live(q: ConcurrentQueue<Frame>) -> bool;

/// Relies on `ConcurrentQueue::unbounded`: a fresh unbounded queue is
/// empty and open.
#[verifier::external_body]
pub(crate) fn frame_queue_new() -> (q: ConcurrentQueue<Frame>)
    ensures
        frame_queue_model(q) == Seq::<Seq<Color>>::empty(),
        frame_queue_live(q),
{
    ConcurrentQueue::unbounded()
}

/// Relies on `ConcurrentQueue::push`: on an unbounded queue that was never
/// closed, a push always succeeds and appends the item in FIFO order.
#[verifier::external_body]
pub(crate) fn frame_queue_push(q: &mut ConcurrentQueue<Frame>, frame: Frame)
    requires
        frame_queue_live(*old(q)),
    ensures
        frame_queue_live(*final (q)),
        frame_queue_model(*final (q)) == frame_queue_model(*old(q)).push(frame@),
{
    let _ = q.push(frame);
}

/// Relies on `ConcurrentQueue::pop`: returns the oldest queued item, or
/// nothing when the queue is empty; a queue that was never closed never
/// reports closure.
#[verifier::external_body]
pub(crate) fn frame_queue_pop(q: &mut ConcurrentQueue<Frame>) -> (r: Option<Frame>)
    requires
        frame_queue_live(*old(q)),
    ensures
        frame_queue_live(*final (q)),
        match r {
            Some(f) => {
                &&& frame_queue_model(*old(q)).len() > 0
                &&& f@ == frame_queue_model(*old(q))[0]
                &&& frame_queue_model(*final (q)) == frame_queue_model(*old(q)).skip(1)
            },
            None => {
                &&& frame_queue_model(*old(q)).len() == 0
                &&& frame_queue_model(*final (q)) == frame_queue_model(*old(q))
            },
        },
{
    q.pop().ok()
}

/// Relies on `ConcurrentQueue::len`: the number of items in the queue.
#[verifier::external_body]
pub(crate) fn frame_queue_len(q: &ConcurrentQueue<Frame>) -> (n: usize)
    ensures
        n == frame_queue_model(*q).len(),
{
    q.len()
}

/// An ordered rule mapping any LED whose key name contains one of `keys`
/// to a fixed color.
pub struct KeyMap {
    pub keys: Vec<String>,
    pub color: Color,
}

/// Whether `needle` occurs as a contiguous run of characters in `hay`.
pub open spec fn str_contains_spec(hay: Seq<char>, needle: Seq<char>) -> bool {
    exists|k: int|
        0 <= k <= hay.len() - needle.len() && #[trigger] hay.subrange(k, k + needle.len())
            == needle
}

/// Relies on `str::contains` with a `&str` pattern: true exactly when the
/// pattern occurs as a substring (UTF-8 byte matches always fall on
/// character boundaries, so this is substring containment of the
/// character sequences).
#[verifier::external_body]
fn str_contains(hay: &str, needle: &str) -> (r: bool)
    ensures
        r == str_contains_spec(hay@, needle@),
{
    hay.contains(needle)
}

/// Whether a rule applies to a LED name: some key of the rule occurs in it.
pub open spec fn keymap_matches(km: KeyMap, name: Seq<char>) -> bool {
    exists|j: int| 0 <= j < km.keys@.len() && str_contains_spec(name, km.keys@[j]@)
}

/// The color of the first rule that applies to a LED name, if any.
pub open spec fn spec_first_match(keymaps: Seq<KeyMap>, name: Seq<char>) -> Option<Color>
    decreases keymaps.len(),
{
    if keymaps.len() == 0 {
        None
    } else if keymap_matches(keymaps[0], name) {
        Some(keymaps[0].color)
    } else {
        spec_first_match(keymaps.skip(1), name)
    }
}

/// The color the first applicable rule gives `name`, if any rule applies.
fn find_keymap_match(keymaps: &Vec<KeyMap>, name: &String) -> (r: Option<Color>)
    ensures
        r == spec_first_match(keymaps@, name@),
{
    let mut m: usize = 0;
    assert(keymaps@.skip(0) =~= keymaps@);
    loop
        invariant_except_break
            m <= keymaps.len(),
            spec_first_match(keymaps@, name@) == spec_first_match(keymaps@.skip(m as int), name@),
        ensures
            m < keymaps.len(),
            spec_first_match(keymaps@, name@) == Some(keymaps@[m as int].color),
        decreases keymaps.len() - m,
    {
        if m == keymaps.len() {
            return None;
        }
        assert(keymaps@.skip(m as int)[0] == keymaps@[m as int]);
        assert(keymaps@.skip(m as int).skip(1) =~= keymaps@.skip(m as int + 1));
        let km = &keymaps[m];
        let mut j: usize = 0;
        let mut matched: bool = false;
        while j < km.keys.len()
            invariant
                j <= km.keys@.len(),
                matched ==> keymap_matches(keymaps@[m as int], name@),
                !matched ==> forall|jj: int|
                    0 <= jj < j ==> !str_contains_spec(name@, km.keys@[jj]@),
                km == keymaps@[m as int],
            decreases km.keys@.len() - j,
        {
            if str_contains(name.as_str(), km.keys[j].as_str()) {
                matched = true;
                assert(keymap_matches(keymaps@[m as int], name@));
            }
            j = j + 1;
        }
        if matched {
            return Some(km.color);
        }
        assert(!keymap_matches(keymaps@[m as int], name@));
        m = m + 1;
    }
}

/// Builds a frame from LED key names by evaluating an ordered list of
/// rules top to bottom; the first rule whose key set matches a name wins,
/// and any LED matching no rule gets the fallback function's color for its
/// index.
pub fn get_frame_by_key_names<F: Fn(usize) -> Color>(
    led_names: &Vec<String>,
    keymaps: &Vec<KeyMap>,
    fallback: F,
) -> (frame: Frame)
    requires
        forall|i: usize| 0 <= i < led_names@.len() ==> #[trigger] call_requires(fallback, (i,)),
    ensures
        frame@.len() == led_names@.len(),
        forall|i: int|
            0 <= i < led_names@.len() ==> match spec_first_match(
                keymaps@,
                #[trigger] led_names@[i]@,
            ) {
                Some(c) => frame@[i] == c,
                None => call_ensures(fallback, (i as usize,), frame@[i]),
            },
{
    let mut frame: Vec<Color> = Vec::new();
    let mut i: usize = 0;
    while i < led_names.len()
        invariant
            i <= led_names@.len(),
            frame@.len() == i,
            forall|p: int|
                0 <= p < i ==> match spec_first_match(keymaps@, #[trigger] led_names@[p]@) {
                    Some(c) => frame@[p] == c,
                    None => call_ensures(fallback, (p as usize,), frame@[p]),
                },
            forall|p: usize| 0 <= p < led_names@.len() ==> #[trigger] call_requires(fallback, (p,)),
        decreases led_names@.len() - i,
    {
        let c = match find_keymap_match(keymaps, &led_names[i]) {
            Some(c) => c,
            None => fallback(i),
        };
        frame.push(c);
        i = i + 1;
    }
    frame
}

} // verus!
