//! The callsign cache of the dashboard. The network's ISSIs are DMR IDs, which the RadioID
//! directory resolves to callsigns; every ID is asked for at most once, and both a found
//! callsign and a definitive "not in the directory" are kept. This module holds the cache's
//! rules and the reading of its saved file; fetching and the file itself are the
//! application's.
use std::collections::{HashMap, HashSet};
use vstd::prelude::*;

use crate::chars::{
    decimal_string, decimal_text, decimal_u32, lemma_decimal_round_trip, parse_u32, trim_str, trimmed,
};
use vstd::std_specs::iter::IteratorSpec;

verus! {

broadcast use vstd::std_specs::hash::group_hash_axioms;

/// Result of a callsign lookup.
pub enum Lookup {
    /// Resolved to a callsign.
    Found(String),
    /// Looked up and confirmed to have no directory entry; not to be retried.
    NotFound,
    /// Not yet resolved; a fetch has been queued. Callers may ask again later.
    Pending,
}

/// What the cache knows of an ID.
pub enum CallsignEntry {
    Found(String),
    NotFound,
}

/// The outcome of one directory query: a callsign, a definitive absence, or a transient
/// failure (to be retried by a later lookup).
pub enum FetchOutcome {
    Found(String),
    NotFound,
    Failed,
}

/// The resolved IDs and the IDs whose fetch is queued or running.
pub struct CallsignCache {
    pub map: HashMap<u32, CallsignEntry>,
    pub pending: HashSet<u32>,
}

/// The entry kept on disk for a stored string: the empty string stands for "not found".
pub open spec fn disk_entry_ok(v: Seq<char>, e: CallsignEntry) -> bool {
    if v.len() == 0 {
        e is NotFound
    } else {
        e matches CallsignEntry::Found(c) && c@ == v
    }
}

/// The entry for a string stored on disk.
pub fn entry_from_disk(v: String) -> (e: CallsignEntry)
    ensures
        disk_entry_ok(v@, e),
{
    if v.as_str().is_empty() {
        CallsignEntry::NotFound
    } else {
        CallsignEntry::Found(v)
    }
}

/// The string stored on disk for an entry.
pub fn entry_to_disk(e: &CallsignEntry) -> (v: String)
    ensures
        e matches CallsignEntry::Found(c) ==> v@ == c@,
        e is NotFound ==> v@.len() == 0,
{
    match e {
        CallsignEntry::Found(c) => c.clone(),
        CallsignEntry::NotFound => String::new(),
    }
}

/// Interprets a directory answer: without a result list the answer is malformed (a
/// transient failure); an empty list, or a first result whose callsign is empty after
/// trimming, means the ID is not in the directory; otherwise the trimmed callsign is found.
pub fn fetch_outcome(results_len: Option<usize>, first_callsign: &str) -> (r: FetchOutcome)
    ensures
        results_len is None ==> r is Failed,
        results_len == Some(0usize) ==> r is NotFound,
        (results_len matches Some(n) && n > 0) ==> (if trimmed(first_callsign@).len() == 0 {
            r is NotFound
        } else {
            r matches FetchOutcome::Found(c) && c@ == trimmed(first_callsign@)
        }),
{
    match results_len {
        None => FetchOutcome::Failed,
        Some(n) => {
            let cs = trim_str(first_callsign);
            if n == 0 || cs.is_empty() {
                FetchOutcome::NotFound
            } else {
                FetchOutcome::Found(cs.to_owned())
            }
        },
    }
}

pub open spec fn fetch_needed(map: Map<u32, CallsignEntry>, pending: Set<u32>, issi: u32) -> bool {
    !map.contains_key(issi) && !pending.contains(issi)
}

/// The queued IDs after a lookup of `issi`.
pub open spec fn pending_after_get(map: Map<u32, CallsignEntry>, pending: Set<u32>, issi: u32) -> Set<u32> {
    if map.contains_key(issi) {
        pending
    } else {
        pending.insert(issi)
    }
}

/// Each ID is fetched at most once: a lookup that queued a fetch is not followed by another
/// queuing of the same ID, and a resolved ID is never queued.
pub proof fn lemma_fetch_queued_once(map: Map<u32, CallsignEntry>, pending: Set<u32>, issi: u32)
    ensures
        !fetch_needed(map, pending_after_get(map, pending, issi), issi),
        map.contains_key(issi) ==> !fetch_needed(map, pending, issi),
{
}

/// A stored non-empty string reads back as the callsign it stores; together with
/// [`fetch_outcome`], which never yields an empty callsign, an entry survives a save and a
/// load.
pub proof fn lemma_disk_round_trip(v: Seq<char>, e: CallsignEntry)
    requires
        v.len() > 0,
        disk_entry_ok(v, e),
    ensures
        e matches CallsignEntry::Found(c) && c@ == v,
{
}

impl CallsignCache {
    /// A cache holding the entries loaded from disk, with nothing queued.
    pub fn new(map: HashMap<u32, CallsignEntry>) -> (r: Self)
        ensures
            r.map@ == map@,
            r.pending@ == Set::<u32>::empty(),
    {
        CallsignCache { map, pending: HashSet::new() }
    }

    /// Looks up `issi`: a cached entry is answered at once; otherwise the answer is
    /// pending, and the second value says whether a fetch must be queued (only when none is
    /// queued for the ID yet).
    pub fn get(&mut self, issi: u32) -> (r: (Lookup, bool))
        ensures
            final(self).map@ == old(self).map@,
            r.1 == fetch_needed(old(self).map@, old(self).pending@, issi),
            final(self).pending@ == pending_after_get(old(self).map@, old(self).pending@, issi),
            old(self).map@.contains_key(issi) ==> {
                &&& final(self).pending@ == old(self).pending@
                &&& !r.1
                &&& old(self).map@[issi] is NotFound ==> r.0 is NotFound
                &&& old(self).map@[issi] matches CallsignEntry::Found(cs) ==> (r.0 matches Lookup::Found(c) && c@
                    == cs@)
            },
            !old(self).map@.contains_key(issi) ==> {
                &&& final(self).pending@ == old(self).pending@.insert(issi)
                &&& r.0 is Pending
                &&& r.1 == !old(self).pending@.contains(issi)
            },
    {
        match self.map.get(&issi) {
            Some(CallsignEntry::Found(cs)) => (Lookup::Found(cs.clone()), false),
            Some(CallsignEntry::NotFound) => (Lookup::NotFound, false),
            None => {
                let fresh = self.pending.insert(issi);
                (Lookup::Pending, fresh)
            },
        }
    }

    /// Before fetching `issi`: true when it was resolved meanwhile, in which case it is no
    /// longer pending and need not be fetched.
    pub fn already_resolved(&mut self, issi: u32) -> (r: bool)
        ensures
            r == old(self).map@.contains_key(issi),
            final(self).map@ == old(self).map@,
            final(self).pending@ == (if r {
                old(self).pending@.remove(issi)
            } else {
                old(self).pending@
            }),
    {
        if self.map.contains_key(&issi) {
            self.pending.remove(&issi);
            true
        } else {
            false
        }
    }

    /// Records the outcome of the fetch of `issi`, which is then no longer pending. A
    /// callsign or a definitive absence is kept; a failure is not, so that a later lookup
    /// retries. Returns whether the cache changed and must be saved.
    pub fn record(&mut self, issi: u32, outcome: FetchOutcome) -> (save: bool)
        ensures
            final(self).pending@ == old(self).pending@.remove(issi),
            save == !(outcome is Failed),
            outcome is Failed ==> final(self).map@ == old(self).map@,
            outcome is NotFound ==> final(self).map@ == old(self).map@.insert(issi, CallsignEntry::NotFound),
            outcome matches FetchOutcome::Found(cs) ==> {
                &&& final(self).map@.dom() == old(self).map@.dom().insert(issi)
                &&& final(self).map@[issi] matches CallsignEntry::Found(c) && c@ == cs@
                &&& forall|k: u32| k != issi && #[trigger] old(self).map@.contains_key(k) ==> final(self).map@[k]
                    == old(self).map@[k]
            },
    {
        self.pending.remove(&issi);
        match outcome {
            FetchOutcome::Found(cs) => {
                self.map.insert(issi, CallsignEntry::Found(cs));
                true
            },
            FetchOutcome::NotFound => {
                self.map.insert(issi, CallsignEntry::NotFound);
                true
            },
            FetchOutcome::Failed => false,
        }
    }
}

/// The JSON object of strings that the saved cache file holds, as `serde_json` reads it
/// into a map from key to value; none when the text is not such an object.
pub uninterp spec fn disk_object(text: Seq<char>) -> Option<Map<Seq<char>, Seq<char>>>;

/// `serde_json::from_str::<HashMap<String, String>>`: the object's entries, each key once,
/// in no particular order.
#[verifier::external_body]
fn parse_disk_object(text: &str) -> (r: Option<Vec<(String, String)>>)
    ensures
        r is None <==> disk_object(text@) is None,
        r matches Some(v) ==> {
            let o = disk_object(text@)->0;
            &&& forall|i: int| 0 <= i < v@.len() ==> o.contains_key(#[trigger] v@[i].0@) && o[v@[i].0@] == v@[i].1@
            &&& forall|k: Seq<char>| #[trigger] o.contains_key(k) ==> exists|i: int| 0 <= i < v@.len() && v@[i].0@ == k
        },
{
    serde_json::from_str::<HashMap<String, String>>(text).ok().map(|m| m.into_iter().collect())
}

/// The cache entries stored in the text of the saved file `{ "2260324": "YO3XYZ",
/// "2260575": "" }`: one per key that is a decimal ID, a non-empty value being its callsign
/// and an empty one meaning "not in the directory". Keys that are not IDs are skipped;
/// text that is not such an object gives no entries. Where two keys name the same ID, which
/// value is kept is left open.
pub fn cache_map_from_disk(text: &str) -> (m: HashMap<u32, CallsignEntry>)
    ensures
        disk_object(text@) is None ==> m@ == Map::<u32, CallsignEntry>::empty(),
        disk_object(text@) matches Some(o) ==> forall|id: u32| #[trigger]
            m@.contains_key(id) <==> exists|k: Seq<char>| #[trigger] o.contains_key(k) && decimal_u32(k) == Some(id),
        disk_object(text@) matches Some(o) ==> forall|id: u32| #[trigger]
            m@.contains_key(id) ==> exists|k: Seq<char>| #[trigger]
                o.contains_key(k) && decimal_u32(k) == Some(id) && disk_entry_ok(o[k], m@[id]),
{
    let mut m: HashMap<u32, CallsignEntry> = HashMap::new();
    match parse_disk_object(text) {
        None => {
            proof {
                assert(m@ =~= Map::<u32, CallsignEntry>::empty());
            }
            m
        },
        Some(v) => {
            let ghost o = disk_object(text@)->0;
            let mut i: usize = 0;
            while i < v.len()
                invariant
                    0 <= i <= v@.len(),
                    forall|j: int| 0 <= j < v@.len() ==> o.contains_key(#[trigger] v@[j].0@) && o[v@[j].0@] == v@[j].1@,
                    forall|id: u32| #[trigger]
                        m@.contains_key(id) <==> exists|j: int| 0 <= j < i && decimal_u32(#[trigger] v@[j].0@) == Some(id),
                    forall|id: u32| #[trigger]
                        m@.contains_key(id) ==> exists|j: int|
                            0 <= j < i && decimal_u32(#[trigger] v@[j].0@) == Some(id) && disk_entry_ok(v@[j].1@, m@[id]),
                decreases v@.len() - i,
            {
                let key = v[i].0.as_str();
                match parse_u32(key) {
                    Some(id) => {
                        let e = entry_from_disk(v[i].1.clone());
                        let ghost before = m@;
                        m.insert(id, e);
                        proof {
                            assert forall|x: u32| #[trigger]
                                m@.contains_key(x) <==> exists|j: int| 0 <= j < i + 1 && decimal_u32(#[trigger] v@[j].0@) == Some(x) by {
                                if x != id && m@.contains_key(x) {
                                    assert(before.contains_key(x));
                                }
                                if exists|j: int| 0 <= j < i + 1 && decimal_u32(#[trigger] v@[j].0@) == Some(x) {
                                    let j = choose|j: int| 0 <= j < i + 1 && decimal_u32(#[trigger] v@[j].0@) == Some(x);
                                    if j < i {
                                        assert(before.contains_key(x));
                                    }
                                }
                            }
                            assert forall|x: u32| #[trigger] m@.contains_key(x) implies exists|j: int|
                                0 <= j < i + 1 && decimal_u32(#[trigger] v@[j].0@) == Some(x) && disk_entry_ok(v@[j].1@, m@[x]) by {
                                if x == id {
                                    assert(decimal_u32(v@[i as int].0@) == Some(x));
                                } else {
                                    assert(before.contains_key(x));
                                    assert(m@[x] == before[x]);
                                }
                            }
                        }
                    },
                    None => {
                        proof {
                            assert forall|x: u32| #[trigger]
                                m@.contains_key(x) <==> exists|j: int| 0 <= j < i + 1 && decimal_u32(#[trigger] v@[j].0@) == Some(x) by {
                                if exists|j: int| 0 <= j < i + 1 && decimal_u32(#[trigger] v@[j].0@) == Some(x) {
                                    let j = choose|j: int| 0 <= j < i + 1 && decimal_u32(#[trigger] v@[j].0@) == Some(x);
                                    assert(j != i);
                                }
                            }
                        }
                    },
                }
                i = i + 1;
            }
            proof {
                assert forall|id: u32| #[trigger]
                    m@.contains_key(id) <==> exists|k: Seq<char>| #[trigger] o.contains_key(k) && decimal_u32(k) == Some(id) by {
                    if m@.contains_key(id) {
                        let j = choose|j: int| 0 <= j < v@.len() && decimal_u32(#[trigger] v@[j].0@) == Some(id);
                        assert(o.contains_key(v@[j].0@));
                    }
                    if exists|k: Seq<char>| #[trigger] o.contains_key(k) && decimal_u32(k) == Some(id) {
                        let k = choose|k: Seq<char>| #[trigger] o.contains_key(k) && decimal_u32(k) == Some(id);
                        let j = choose|j: int| 0 <= j < v@.len() && v@[j].0@ == k;
                        assert(decimal_u32(v@[j].0@) == Some(id));
                    }
                }
                assert forall|id: u32| #[trigger] m@.contains_key(id) implies exists|k: Seq<char>| #[trigger]
                    o.contains_key(k) && decimal_u32(k) == Some(id) && disk_entry_ok(o[k], m@[id]) by {
                    let j = choose|j: int|
                        0 <= j < v@.len() && decimal_u32(#[trigger] v@[j].0@) == Some(id) && disk_entry_ok(v@[j].1@, m@[id]);
                    assert(o.contains_key(v@[j].0@));
                }
            }
            m
        },
    }
}

/// The string an entry is saved as: its callsign, or empty for "not in the directory".
pub open spec fn disk_value(e: CallsignEntry) -> Seq<char> {
    match e {
        CallsignEntry::Found(c) => c@,
        CallsignEntry::NotFound => Seq::empty(),
    }
}

/// Two entries say the same.
pub open spec fn same_entry(a: CallsignEntry, b: CallsignEntry) -> bool {
    match (a, b) {
        (CallsignEntry::Found(x), CallsignEntry::Found(y)) => x@ == y@,
        (CallsignEntry::NotFound, CallsignEntry::NotFound) => true,
        _ => false,
    }
}

/// `p` is the saved pair of some entry of `m`.
pub open spec fn pair_saved(m: Map<u32, CallsignEntry>, p: (String, String)) -> bool {
    exists|id: u32| #[trigger] m.contains_key(id) && p.0@ == decimal_text(id as nat) && p.1@ == disk_value(m[id])
}

/// The key/value pairs the cache is saved as: each ID as its decimal text with the saved
/// string of its entry, in no particular order.
pub fn cache_disk_pairs(map: &HashMap<u32, CallsignEntry>) -> (r: Vec<(String, String)>)
    ensures
        forall|i: int| 0 <= i < r@.len() ==> #[trigger] pair_saved(map@, r@[i]),
        forall|id: u32| #[trigger] map@.contains_key(id) ==> exists|i: int| 0 <= i < r@.len()
            && r@[i].0@ == decimal_text(id as nat) && r@[i].1@ == disk_value(map@[id]),
{
    let mut out: Vec<(String, String)> = Vec::new();
    let ghost keys = vstd::std_specs::hash::spec_keys_iter(map).remaining();
    for k in it: map.keys()
        invariant
            it.seq() == keys,
            keys.unref().to_set() == map@.dom(),
            forall|i: int| 0 <= i < out@.len() ==> #[trigger] pair_saved(map@, out@[i]),
            forall|id: u32| #[trigger] keys.unref().take(it.index() as int).contains(id) ==> exists|i: int| 0 <= i < out@.len()
                && out@[i].0@ == decimal_text(id as nat) && out@[i].1@ == disk_value(map@[id]),
    {
        let ghost idx = it.index();
        let id = *k;
        let ghost before = out@;
        proof {
            assert(keys.unref()[idx as int] == id);
            assert(keys.unref().to_set().contains(id));
            assert(keys.unref().take(idx + 1) =~= keys.unref().take(idx as int).push(id));
        }
        match map.get(&id) {
            Some(e) => {
                let v = entry_to_disk(e);
                out.push((decimal_string(id), v));
                proof {
                    assert(out@[before.len() as int].1@ == disk_value(map@[id]));
                    assert(map@.contains_key(id));
                    assert(pair_saved(map@, out@[before.len() as int]));
                    assert forall|i: int| 0 <= i < out@.len() implies #[trigger] pair_saved(map@, out@[i]) by {
                        if i < before.len() {
                            assert(out@[i] == before[i]);
                        }
                    }
                    assert forall|x: u32| #[trigger] keys.unref().take(idx + 1).contains(x) implies exists|i: int| 0 <= i < out@.len()
                        && out@[i].0@ == decimal_text(x as nat) && out@[i].1@ == disk_value(map@[x]) by {
                        vstd::seq_lib::lemma_seq_contains_after_push(keys.unref().take(idx as int), id, x);
                        if x == id {
                            assert(out@[before.len() as int].0@ == decimal_text(x as nat));
                        } else {
                            let i = choose|i: int| 0 <= i < before.len()
                                && before[i].0@ == decimal_text(x as nat) && before[i].1@ == disk_value(map@[x]);
                            assert(out@[i] == before[i]);
                        }
                    }
                }
            },
            None => {},
        }
    }
    proof {
        assert(keys.unref().take(keys.len() as int) =~= keys.unref());
        assert forall|id: u32| #[trigger] map@.contains_key(id) implies exists|i: int| 0 <= i < out@.len()
            && out@[i].0@ == decimal_text(id as nat) && out@[i].1@ == disk_value(map@[id]) by {
            assert(keys.unref().to_set().contains(id));
            assert(keys.unref().take(keys.len() as int).contains(id));
        }
    }
    out
}

/// A saved entry reads back as itself: its key as its ID, its value as the same entry
/// (an entry never holds an empty callsign, which [`fetch_outcome`] does not produce).
pub proof fn lemma_saved_entry_reads_back(id: u32, e: CallsignEntry, back: CallsignEntry)
    requires
        !(e matches CallsignEntry::Found(c) && c@.len() == 0),
        disk_entry_ok(disk_value(e), back),
    ensures
        decimal_u32(decimal_text(id as nat)) == Some(id),
        same_entry(e, back),
{
    lemma_decimal_round_trip(id);
}

} // verus!
