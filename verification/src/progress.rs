//! The Progress Ledger: a concurrent map from opaque source identifiers to
//! a display color and a completion ratio.
//!
//! Ratios are stored in thousandths (a value of `RATIO_UNIT` is 100%), so
//! every computation on them is exact integer arithmetic.

use crate::color::Color;
use dashmap::DashMap;
use vstd::prelude::*;

verus! {

/// The denominator of all progress ratios: a ratio of `RATIO_UNIT`
/// thousandths means complete.
pub const RATIO_UNIT: u32 = 1000;

/// One progress source: its display color and its completion ratio in
/// thousandths, at most `RATIO_UNIT`.
#[derive(Clone, Copy, PartialEq, Eq, Structural, Debug)]
pub struct ProgressEntry {
    pub color: Color,
    pub permille: u32,
}

#[verifier::external_type_specification]
#[verifier::external_body]
#[verifier::reject_recursive_types(K)]
#[verifier::reject_recursive_types(V)]
#[verifier::reject_recursive_types(S)]
pub struct ExDashMap<K, V, S>(DashMap<K, V, S>);

/// The concurrent key-to-entry map holding every active progress source.
pub type ProgressMap = DashMap<String, ProgressEntry>;

/// The entries of a progress map, keyed by the source identifier's
/// characters.
pub uninterp spec fn progress_model(m: ProgressMap) -> Map<Seq<char>, ProgressEntry>;

/// The model of a ledger with no entries.
pub open spec fn empty_progress_model() -> Map<Seq<char>, ProgressEntry> {
    Map::empty()
}

/// Relies on `DashMap::new`: a fresh map holds no entries.
#[verifier::external_body]
pub(crate) fn progress_map_new() -> (m: ProgressMap)
    ensures
        progress_model(m) == empty_progress_model(),
{
    DashMap::new()
}

/// Relies on `DashMap::insert`: stores the value under the key, replacing
/// any earlier value for the same key.
#[verifier::external_body]
pub(crate) fn progress_map_insert(m: &mut ProgressMap, key: String, value: ProgressEntry)
    ensures
        progress_model(*final (m)) == progress_model(*old(m)).insert(key@, value),
{
    m.insert(key, value);
}

/// Relies on `DashMap::get`: returns a copy of the value stored under the
/// key, if the key is present.
#[verifier::external_body]
pub(crate) fn progress_map_get(m: &ProgressMap, key: &String) -> (r: Option<ProgressEntry>)
    ensures
        r == if progress_model(*m).dom().contains(key@) {
            Some(progress_model(*m)[key@])
        } else {
            None::<ProgressEntry>
        },
{
    m.get(key).map(|v| *v)
}

/// Relies on `DashMap::len`: the number of entries in the map.
#[verifier::external_body]
pub(crate) fn progress_map_len(m: &ProgressMap) -> (n: usize)
    ensures
        n == progress_model(*m).dom().len(),
{
    m.len()
}

/// Whether `kvs` lists exactly the entries of `model`, each key once, in
/// some order: every listed pair is in the ledger, every ledger key is
/// listed, and no key is listed twice.
pub open spec fn ledger_listing(
    model: Map<Seq<char>, ProgressEntry>,
    kvs: Seq<(String, ProgressEntry)>,
) -> bool {
    &&& forall|i: int|
        0 <= i < kvs.len() ==> model.contains_pair(#[trigger] kvs[i].0@, kvs[i].1)
    &&& forall|k: Seq<char>|
        #[trigger] model.dom().contains(k) ==> exists|i: int| 0 <= i < kvs.len() && kvs[i].0@ == k
    &&& forall|i: int, j: int| 0 <= i < j < kvs.len() ==> #[trigger] kvs[i].0@ != #[trigger] kvs[j].0@
}

/// Relies on `DashMap::iter`: walks every entry exactly once, in no
/// promised order; each entry is copied out as a key-value pair.
#[verifier::external_body]
pub(crate) fn progress_map_entries(m: &ProgressMap) -> (kvs: Vec<(String, ProgressEntry)>)
    ensures
        ledger_listing(progress_model(*m), kvs@),
{
    m.iter().map(|e| (e.key().clone(), *e.value())).collect()
}

/// A listing of an empty ledger is itself empty.
pub proof fn lemma_empty_listing(
    model: Map<Seq<char>, ProgressEntry>,
    kvs: Seq<(String, ProgressEntry)>,
)
    requires
        ledger_listing(model, kvs),
        model.dom() =~= Set::<Seq<char>>::empty(),
    ensures
        kvs.len() == 0,
{
    if kvs.len() > 0 {
        assert(model.contains_pair(kvs[0].0@, kvs[0].1));
        assert(model.dom().contains(kvs[0].0@));
    }
}

} // verus!
