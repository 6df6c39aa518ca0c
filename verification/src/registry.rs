//! Subscriber registry and the stack-wide mutable state that the entities share.
//!
//! The registry tracks which ISSIs are registered on the cell and which groups (GSSIs)
//! each of them is affiliated to, and keeps a summary set of every group that has at
//! least one local affiliate so that "does this group have listeners here" is a single
//! lookup.
use std::collections::{HashMap, HashSet, VecDeque};
use vstd::prelude::*;
use vstd::std_specs::iter::IteratorSpec;

verus! {

broadcast use vstd::std_specs::hash::group_hash_axioms;

/// A one-shot or repeating SDS broadcast message injected at runtime from the dashboard.
///
/// `repeat_count == 0` repeats until deleted; a positive value removes the message after
/// that many transmissions.
#[derive(Debug, Clone)]
pub struct LiveSdsMessage {
    /// Unique id, assigned by the stack in increasing order.
    pub id: u32,
    /// Text to broadcast.
    pub text: String,
    /// SDS protocol id (220 shows the text on the radio home screen).
    pub protocol_id: u8,
    /// Source ISSI shown on the radio.
    pub source_issi: u32,
    /// 0 = forever; otherwise the number of transmissions before removal.
    pub repeat_count: u32,
    /// Transmissions so far.
    pub sent_count: u32,
}

/// A registered MS and the groups it is affiliated to.
#[derive(Debug)]
pub struct Subscriber {
    pub issi: u32,
    /// Set of attached GSSIs.
    pub attached_groups: HashSet<u32>,
}

/// True when some subscriber of `m` is affiliated to `gssi`.
pub open spec fn group_has_member(m: Map<u32, Set<u32>>, gssi: u32) -> bool {
    exists|i: u32| #[trigger] m.contains_key(i) && m[i].contains(gssi)
}

/// The groups of `issi` in `m`, empty when `issi` is not registered.
pub open spec fn groups_in(m: Map<u32, Set<u32>>, issi: u32) -> Set<u32> {
    if m.contains_key(issi) {
        m[issi]
    } else {
        Set::empty()
    }
}

/// The summary set after the subscriber holding `dropped` left a registry whose remaining
/// subscribers are `rest`: a group leaves the summary when it was one of the dropped groups
/// and nobody left is affiliated to it.
pub open spec fn attached_after_drop(attached: Set<u32>, dropped: Set<u32>, rest: Map<u32, Set<u32>>) -> Set<u32> {
    attached.filter(|g: u32| !(dropped.contains(g) && !group_has_member(rest, g)))
}

/// Well-formedness of a registry given by its records and its summary set.
pub open spec fn wf_parts(subs: Map<u32, Subscriber>, attached: Set<u32>) -> bool {
    &&& forall|g: u32| #[trigger] attached.contains(g) <==> group_has_member(groups_view(subs), g)
    &&& forall|i: u32| #[trigger] subs.contains_key(i) ==> subs[i].issi == i
}

/// Storing a record under its own ISSI with the groups that ISSI already had keeps a well
/// formed registry well formed.
proof fn lemma_put_keeps_wf(subs: Map<u32, Subscriber>, attached: Set<u32>, issi: u32, s: Subscriber)
    requires
        wf_parts(subs, attached),
        s.issi == issi,
        s.attached_groups@ == groups_in(groups_view(subs), issi),
    ensures
        wf_parts(subs.insert(issi, s), attached),
{
    let v0 = groups_view(subs);
    let v1 = groups_view(subs.insert(issi, s));
    assert forall|g: u32| group_has_member(v1, g) <==> group_has_member(v0, g) by {
        if group_has_member(v1, g) {
            let i = choose|i: u32| #[trigger] v1.contains_key(i) && v1[i].contains(g);
            if i == issi {
                assert(v0.contains_key(issi) && v0[issi].contains(g));
            } else {
                assert(v0.contains_key(i) && v0[i].contains(g));
            }
        }
        if group_has_member(v0, g) {
            let i = choose|i: u32| #[trigger] v0.contains_key(i) && v0[i].contains(g);
            assert(v1.contains_key(i) && v1[i].contains(g));
        }
    }
}

/// Groups of every stored subscriber.
pub open spec fn groups_view(m: Map<u32, Subscriber>) -> Map<u32, Set<u32>> {
    m.map_values(|s: Subscriber| s.attached_groups@)
}

/// Centralized registry of locally registered ISSIs and their group affiliations.
#[derive(Debug)]
pub struct SubscriberRegistry {
    /// Registered ISSIs and their information.
    subscribers: HashMap<u32, Subscriber>,
    /// All GSSIs with at least one local affiliate.
    all_attached_groups: HashSet<u32>,
}

impl View for SubscriberRegistry {
    /// Registered ISSI -> affiliated GSSIs.
    type V = Map<u32, Set<u32>>;

    closed spec fn view(&self) -> Map<u32, Set<u32>> {
        groups_view(self.subscribers@)
    }
}

impl SubscriberRegistry {
    /// The stored subscriber records.
    pub closed spec fn entries(&self) -> Map<u32, Subscriber> {
        self.subscribers@
    }

    /// The summary set of groups with at least one local affiliate.
    pub closed spec fn attached(&self) -> Set<u32> {
        self.all_attached_groups@
    }

    /// Well-formedness: the summary set holds exactly the groups some subscriber is
    /// affiliated to, and every record is stored under its own ISSI.
    pub closed spec fn wf(&self) -> bool {
        &&& forall|g: u32| #[trigger] self.all_attached_groups@.contains(g) <==> group_has_member(self@, g)
        &&& forall|i: u32| #[trigger] self.subscribers@.contains_key(i) ==> self.subscribers@[i].issi == i
    }

    /// The group view of the registry is the group sets of its records, one per ISSI.
    pub proof fn lemma_view_entries(&self)
        ensures
            self@ == groups_view(self.entries()),
            self@.dom() == self.entries().dom(),
    {
    }

    pub fn new() -> (r: Self)
        ensures
            r@ == Map::<u32, Set<u32>>::empty(),
            r.attached() == Set::<u32>::empty(),
            r.wf(),
    {
        let r = SubscriberRegistry { subscribers: HashMap::new(), all_attached_groups: HashSet::new() };
        assert(r@ =~= Map::<u32, Set<u32>>::empty());
        r
    }

    pub fn is_registered(&self, issi: u32) -> (r: bool)
        ensures
            r == self@.contains_key(issi),
    {
        self.subscribers.contains_key(&issi)
    }

    /// True when some registered subscriber other than the records in `self.subscribers`
    /// carries `gssi`, i.e. the group still has a member.
    fn any_member(subscribers: &HashMap<u32, Subscriber>, gssi: u32) -> (r: bool)
        ensures
            r == group_has_member(groups_view(subscribers@), gssi),
    {
        let mut found = false;
        let ghost vals = vstd::std_specs::hash::spec_values_iter(subscribers).remaining();
        for s in it: subscribers.values()
            invariant
                it.seq() == vals,
                found == exists|k: int| 0 <= k < it.index() && (#[trigger] vals[k]).attached_groups@.contains(gssi),
            ensures
                found == exists|k: int| 0 <= k < vals.len() && (#[trigger] vals[k]).attached_groups@.contains(gssi),
        {
            if s.attached_groups.contains(&gssi) {
                found = true;
            }
        }
        proof {
            let gv = groups_view(subscribers@);
            assert(vals.unref().to_set() == subscribers@.values());
            if found {
                let k = choose|k: int| 0 <= k < vals.len() && (#[trigger] vals[k]).attached_groups@.contains(gssi);
                assert(vals.unref()[k] == *vals[k]);
                assert(vals.unref().contains(*vals[k]));
                assert(subscribers@.values().contains(*vals[k]));
                let i = choose|i: u32| subscribers@.contains_key(i) && subscribers@[i] == *vals[k];
                assert(gv.contains_key(i) && gv[i].contains(gssi));
            } else {
                assert forall|i: u32| #[trigger] gv.contains_key(i) implies !gv[i].contains(gssi) by {
                    assert(subscribers@.values().contains(subscribers@[i]));
                    assert(vals.unref().contains(subscribers@[i]));
                    let k = choose|k: int| 0 <= k < vals.unref().len() && vals.unref()[k] == subscribers@[i];
                    assert(*vals[k] == subscribers@[i]);
                }
            }
        }
        found
    }

    /// Tolerant registration: a registered ISSI is replaced by a fresh record without groups,
    /// after its old affiliations have been cleaned up.
    pub fn register(&mut self, issi: u32)
        ensures
            final(self)@ == old(self)@.insert(issi, Set::empty()),
            final(self).attached() == attached_after_drop(
                old(self).attached(),
                groups_in(old(self)@, issi),
                old(self)@.remove(issi),
            ),
            old(self).wf() ==> final(self).wf(),
    {
        self.deregister(issi);
        let ghost mid = *self;
        let fresh = Subscriber { issi, attached_groups: HashSet::new() };
        assert(fresh.attached_groups@ == Set::<u32>::empty());
        self.subscribers.insert(issi, fresh);
        proof {
            assert(self.subscribers@ == mid.subscribers@.insert(issi, fresh));
            assert(mid@ == old(self)@.remove(issi));
            assert(self@ =~= mid@.insert(issi, Set::empty()));
            assert(old(self)@.remove(issi).insert(issi, Set::empty()) =~= old(self)@.insert(issi, Set::empty()));
            assert(self@ =~= old(self)@.insert(issi, Set::empty()));
            if old(self).wf() {
                assert(mid.wf());
                assert forall|g: u32| #[trigger] self.all_attached_groups@.contains(g) <==> group_has_member(self@, g) by {
                    if group_has_member(self@, g) {
                        let i = choose|i: u32| #[trigger] self@.contains_key(i) && self@[i].contains(g);
                        assert(i != issi);
                        assert(mid@.contains_key(i) && mid@[i].contains(g));
                    }
                    if group_has_member(mid@, g) {
                        let i = choose|i: u32| #[trigger] mid@.contains_key(i) && mid@[i].contains(g);
                        assert(self@.contains_key(i) && self@[i].contains(g));
                    }
                }
            }
        }
    }

    /// Gets a mutable reference to the record of `issi`, inserting an empty record first when
    /// the ISSI is not registered. The summary set is not touched, so the registry stays well
    /// formed as long as the caller keeps the record's ISSI and groups.
    pub fn get_subscriber_mut(&mut self, issi: u32) -> (r: &mut Subscriber)
        ensures
            old(self).entries().contains_key(issi) ==> *r == old(self).entries()[issi],
            !old(self).entries().contains_key(issi) ==> r.issi == issi && r.attached_groups@ == Set::<u32>::empty(),
            old(self).wf() ==> r.issi == issi,
            r.attached_groups@ == groups_in(old(self)@, issi),
            final(self).entries() == old(self).entries().insert(issi, *final(r)),
            final(self)@ == old(self)@.insert(issi, final(r).attached_groups@),
            final(self).attached() == old(self).attached(),
            old(self).wf() && final(r).issi == issi && final(r).attached_groups@ == r.attached_groups@
                ==> final(self).wf(),
    {
        proof {
            assert forall|s: Subscriber|
                old(self).wf() && s.issi == issi && s.attached_groups@ == groups_in(old(self)@, issi) implies
                    wf_parts(old(self).subscribers@.insert(issi, s), old(self).all_attached_groups@) by {
                lemma_put_keeps_wf(old(self).subscribers@, old(self).all_attached_groups@, issi, s);
            }
        }
        let r = self.subscribers.entry(issi).or_insert(Subscriber { issi, attached_groups: HashSet::new() });
        r
    }

    /// Deregisters an ISSI and drops the groups that no remaining subscriber is affiliated to
    /// from the summary set.
    pub fn deregister(&mut self, issi: u32)
        ensures
            final(self)@ == old(self)@.remove(issi),
            final(self).attached() == attached_after_drop(
                old(self).attached(),
                groups_in(old(self)@, issi),
                old(self)@.remove(issi),
            ),
            old(self).wf() ==> final(self).wf(),
    {
        let ghost old_self = *self;
        let removed = self.subscribers.remove(&issi);
        proof {
            assert(self@ =~= old(self)@.remove(issi));
        }
        match removed {
            Some(subscriber) => {
                let ghost dropped = subscriber.attached_groups@;
                let ghost rest = self@;
                let ghost start = self.all_attached_groups@;
                let ghost keys = vstd::std_specs::hash::spec_hash_keys_iter(&subscriber.attached_groups).remaining();
                assert(keys.unref().to_set() == dropped);
                for gssi in it: subscriber.attached_groups.iter()
                    invariant
                        it.seq() == keys,
                        self@ == rest,
                        self.subscribers@ == old_self.subscribers@.remove(issi),
                        rest == groups_view(self.subscribers@),
                        self.all_attached_groups@ == start.filter(
                            |g: u32| !(keys.unref().take(it.index() as int).contains(g) && !group_has_member(rest, g)),
                        ),
                {
                    let ghost before = self.all_attached_groups@;
                    let ghost idx = it.index();
                    let still_has_members = Self::any_member(&self.subscribers, *gssi);
                    if !still_has_members {
                        self.all_attached_groups.remove(gssi);
                    }
                    proof {
                        let taken = keys.unref().take(idx as int);
                        let taken1 = keys.unref().take(idx + 1);
                        assert(keys.unref()[idx as int] == *gssi);
                        assert(still_has_members == group_has_member(rest, *gssi));
                        assert forall|g: u32| #[trigger] taken1.contains(g) <==> (taken.contains(g) || g == *gssi) by {
                            if taken1.contains(g) {
                                let j = choose|j: int| 0 <= j < taken1.len() && taken1[j] == g;
                                if j < idx {
                                    assert(taken[j] == g);
                                }
                            }
                            if taken.contains(g) {
                                let j = choose|j: int| 0 <= j < taken.len() && taken[j] == g;
                                assert(taken1[j] == g);
                            }
                            if g == *gssi {
                                assert(taken1[idx as int] == g);
                            }
                        }
                        assert(taken1 =~= taken.push(*gssi));
                        assert(self.all_attached_groups@ =~= start.filter(
                            |g: u32| !(taken1.contains(g) && !group_has_member(rest, g)),
                        ));
                    }
                }
                proof {
                    assert(keys.unref().take(keys.len() as int) =~= keys.unref());
                    assert(old_self.subscribers@[issi] == subscriber);
                    assert(old_self@[issi] == dropped);
                    assert(self.all_attached_groups@ =~= attached_after_drop(start, dropped, rest));
                }
            }
            None => {
                proof {
                    assert(self.all_attached_groups@ =~= attached_after_drop(
                        old(self).attached(),
                        groups_in(old(self)@, issi),
                        old(self)@.remove(issi),
                    ));
                }
            }
        }
        proof {
            if old_self.wf() {
                let rest = old_self@.remove(issi);
                let dropped = groups_in(old_self@, issi);
                assert(self@ == rest);
                assert(self.subscribers@ == old_self.subscribers@.remove(issi));
                assert(self.all_attached_groups@ == attached_after_drop(old_self.attached(), dropped, rest));
                assert forall|g: u32| #[trigger] self.all_attached_groups@.contains(g) <==> group_has_member(self@, g) by {
                    if group_has_member(rest, g) {
                        let i = choose|i: u32| #[trigger] rest.contains_key(i) && rest[i].contains(g);
                        assert(old_self@.contains_key(i) && old_self@[i].contains(g));
                        assert(old_self.all_attached_groups@.contains(g));
                    } else if old_self.all_attached_groups@.contains(g) {
                        assert(group_has_member(old_self@, g));
                        let i = choose|i: u32| #[trigger] old_self@.contains_key(i) && old_self@[i].contains(g);
                        if i != issi {
                            assert(rest.contains_key(i) && rest[i].contains(g));
                        }
                        assert(dropped.contains(g));
                    }
                }
            }
        }
    }

    /// Adds `gssi` to the groups of `issi` (registering it when unknown) and to the summary set.
    pub fn affiliate(&mut self, issi: u32, gssi: u32)
        ensures
            final(self)@ == old(self)@.insert(issi, groups_in(old(self)@, issi).insert(gssi)),
            final(self).attached() == old(self).attached().insert(gssi),
            old(self).wf() ==> final(self).wf(),
    {
        let ghost old_self = *self;
        let subscriber = self.get_subscriber_mut(issi);
        subscriber.attached_groups.insert(gssi);
        self.all_attached_groups.insert(gssi);
        proof {
            assert(self@ =~= old(self)@.insert(issi, groups_in(old(self)@, issi).insert(gssi)));
            if old_self.wf() {
                assert forall|g: u32| #[trigger] self.all_attached_groups@.contains(g) <==> group_has_member(self@, g) by {
                    if group_has_member(old_self@, g) {
                        let i = choose|i: u32| #[trigger] old_self@.contains_key(i) && old_self@[i].contains(g);
                        assert(self@.contains_key(i) && self@[i].contains(g));
                    }
                    if group_has_member(self@, g) && g != gssi {
                        let i = choose|i: u32| #[trigger] self@.contains_key(i) && self@[i].contains(g);
                        assert(old_self@.contains_key(i) && old_self@[i].contains(g));
                    }
                    if g == gssi {
                        assert(self@.contains_key(issi) && self@[issi].contains(g));
                    }
                }
            }
        }
    }

    /// Removes `gssi` from the groups of `issi` (registering it when unknown); the group leaves
    /// the summary set when nobody is affiliated to it any more.
    pub fn deaffiliate(&mut self, issi: u32, gssi: u32)
        ensures
            final(self)@ == old(self)@.insert(issi, groups_in(old(self)@, issi).remove(gssi)),
            final(self).attached() == (if groups_in(old(self)@, issi).contains(gssi) && !group_has_member(
                final(self)@,
                gssi,
            ) {
                old(self).attached().remove(gssi)
            } else {
                old(self).attached()
            }),
            old(self).wf() ==> final(self).wf(),
    {
        let ghost old_self = *self;
        let subscriber = self.get_subscriber_mut(issi);
        let removed = subscriber.attached_groups.remove(&gssi);
        proof {
            assert(self@ =~= old(self)@.insert(issi, groups_in(old(self)@, issi).remove(gssi)));
        }
        if removed {
            let still_has_members = Self::any_member(&self.subscribers, gssi);
            if !still_has_members {
                self.all_attached_groups.remove(&gssi);
            }
        }
        proof {
            if old_self.wf() {
                assert forall|g: u32| #[trigger] self.all_attached_groups@.contains(g) <==> group_has_member(self@, g) by {
                    if g != gssi {
                        if group_has_member(old_self@, g) {
                            let i = choose|i: u32| #[trigger] old_self@.contains_key(i) && old_self@[i].contains(g);
                            assert(self@.contains_key(i) && self@[i].contains(g));
                        }
                        if group_has_member(self@, g) {
                            let i = choose|i: u32| #[trigger] self@.contains_key(i) && self@[i].contains(g);
                            assert(old_self@.contains_key(i) && old_self@[i].contains(g));
                        }
                    } else if !removed {
                        if group_has_member(old_self@, g) {
                            let i = choose|i: u32| #[trigger] old_self@.contains_key(i) && old_self@[i].contains(g);
                            assert(i != issi);
                            assert(self@.contains_key(i) && self@[i].contains(g));
                        }
                        if group_has_member(self@, g) {
                            let i = choose|i: u32| #[trigger] self@.contains_key(i) && self@[i].contains(g);
                            assert(i != issi);
                            assert(old_self@.contains_key(i) && old_self@[i].contains(g));
                        }
                    }
                }
            }
        }
    }

    /// Checks the summary set for `gssi`; on a well-formed registry this is "some registered
    /// subscriber is affiliated to the group".
    pub fn has_group_members(&self, gssi: u32) -> (r: bool)
        ensures
            r == self.attached().contains(gssi),
            self.wf() ==> (r == group_has_member(self@, gssi)),
    {
        self.all_attached_groups.contains(&gssi)
    }

    /// All registered ISSIs, each once, in no particular order.
    pub fn all_registered_issis(&self) -> (r: Vec<u32>)
        ensures
            r@.to_set() == self@.dom(),
            r@.no_duplicates(),
    {
        let mut out: Vec<u32> = Vec::new();
        let ghost keys = vstd::std_specs::hash::spec_keys_iter(&self.subscribers).remaining();
        for k in it: self.subscribers.keys()
            invariant
                it.seq() == keys,
                out@ == keys.unref().take(it.index() as int),
        {
            out.push(*k);
            proof {
                assert(keys.unref().take(it.index() + 1) =~= out@);
            }
        }
        proof {
            assert(keys.unref().take(keys.len() as int) =~= keys.unref());
            assert(keys.unref().to_set() == self.subscribers@.dom());
            assert(out@.to_set() =~= self@.dom());
            assert forall|a: int, b: int| 0 <= a < b < out@.len() implies out@[a] != out@[b] by {
                assert(keys.no_duplicates());
                assert(keys[a] != keys[b]);
            }
        }
        out
    }

    /// Groups the given ISSI is affiliated to (empty when it is not registered), each once.
    pub fn attached_groups_of(&self, issi: u32) -> (r: Vec<u32>)
        ensures
            r@.to_set() == groups_in(self@, issi),
            r@.no_duplicates(),
    {
        let mut out: Vec<u32> = Vec::new();
        match self.subscribers.get(&issi) {
            Some(s) => {
                let ghost keys = vstd::std_specs::hash::spec_hash_keys_iter(&s.attached_groups).remaining();
                for g in it: s.attached_groups.iter()
                    invariant
                        it.seq() == keys,
                        out@ == keys.unref().take(it.index() as int),
                {
                    out.push(*g);
                    proof {
                        assert(keys.unref().take(it.index() + 1) =~= out@);
                    }
                }
                proof {
                    assert(keys.unref().take(keys.len() as int) =~= keys.unref());
                    assert(keys.unref().to_set() == s.attached_groups@);
                    assert(out@.to_set() =~= groups_in(self@, issi));
                    assert forall|a: int, b: int| 0 <= a < b < out@.len() implies out@[a] != out@[b] by {
                        assert(keys.no_duplicates());
                        assert(keys[a] != keys[b]);
                    }
                }
            }
            None => {
                proof {
                    assert(out@.to_set() =~= groups_in(self@, issi));
                }
            }
        }
        out
    }
}

/// Law: registering an ISSI and deregistering it again leaves the registry as if the ISSI
/// had only been deregistered; in particular an ISSI that was not registered leaves no trace.
pub proof fn lemma_register_then_deregister(m: Map<u32, Set<u32>>, issi: u32)
    ensures
        m.insert(issi, Set::empty()).remove(issi) == m.remove(issi),
        !m.contains_key(issi) ==> m.insert(issi, Set::empty()).remove(issi) == m,
{
    assert(m.insert(issi, Set::empty()).remove(issi) =~= m.remove(issi));
    if !m.contains_key(issi) {
        assert(m.remove(issi) =~= m);
    }
}

/// Law: affiliating a registered ISSI to a group it was not affiliated to and then
/// deaffiliating it again restores its groups, and a group whose only member leaves it has no
/// members any more.
pub proof fn lemma_affiliate_then_deaffiliate(m: Map<u32, Set<u32>>, issi: u32, gssi: u32)
    requires
        !groups_in(m, issi).contains(gssi),
    ensures
        ({
            let a = m.insert(issi, groups_in(m, issi).insert(gssi));
            let d = a.insert(issi, groups_in(a, issi).remove(gssi));
            &&& group_has_member(a, gssi)
            &&& groups_in(d, issi) == groups_in(m, issi)
            &&& d.dom() == m.dom().insert(issi)
            &&& (!group_has_member(m, gssi) ==> !group_has_member(d, gssi))
        }),
{
    let a = m.insert(issi, groups_in(m, issi).insert(gssi));
    let d = a.insert(issi, groups_in(a, issi).remove(gssi));
    assert(a.contains_key(issi) && a[issi].contains(gssi));
    assert(groups_in(m, issi).insert(gssi).remove(gssi) =~= groups_in(m, issi));
    assert(d.dom() =~= m.dom().insert(issi));
    if !group_has_member(m, gssi) && group_has_member(d, gssi) {
        let i = choose|i: u32| #[trigger] d.contains_key(i) && d[i].contains(gssi);
        if i != issi {
            assert(m.contains_key(i) && m[i].contains(gssi));
        }
    }
}

impl Default for SubscriberRegistry {
    fn default() -> (r: Self)
        ensures
            r@ == Map::<u32, Set<u32>>::empty(),
            r.wf(),
    {
        Self::new()
    }
}

/// Runtime override for the built-in weather (WX/METAR) service, edited from the dashboard.
/// When present it takes precedence over the configuration file.
#[derive(Debug, Clone, Default)]
pub struct WxRuntimeOverride {
    pub enabled: bool,
    pub service_issi: u32,
    pub periodic_enabled: bool,
    pub periodic_issi: u32,
    pub periodic_is_group: bool,
    pub periodic_icao: String,
    pub periodic_interval_secs: u64,
}

/// Mutable, stack-editable state shared by the entities.
#[derive(Debug)]
pub struct StackState {
    /// Backhaul connection to the switching network; false means fallback mode.
    pub network_connected: bool,
    /// Subscriber registry for local-first routing decisions.
    pub subscribers: SubscriberRegistry,
    /// Live SDS broadcasts injected from the dashboard, sent round-robin.
    pub live_sds_queue: VecDeque<LiveSdsMessage>,
    /// Next id for a live SDS message.
    pub next_live_sds_id: u32,
    /// Runtime ISSI whitelist; `Some(empty)` means an open network, `None` defers to the
    /// configuration.
    pub issi_whitelist_override: Option<Vec<u32>>,
    /// Runtime override of the weather service.
    pub wx_override: Option<WxRuntimeOverride>,
    /// Identity currently reachable on a traffic channel -> (downlink timeslot, usage marker),
    /// keyed by GSSI for group calls and by participant ISSI for individual calls.
    pub active_call_ts: HashMap<u32, (u8, u8)>,
    /// ISSI -> (monitoring frame, monitoring multiframe, cycle length) of every MS granted an
    /// energy-saving mode; an absent MS is always reachable.
    pub ee_monitoring_windows: HashMap<u32, (u8, u8, u8)>,
}

impl Default for StackState {
    fn default() -> (r: Self)
        ensures
            !r.network_connected,
            r.subscribers@ == Map::<u32, Set<u32>>::empty(),
            r.subscribers.wf(),
            r.live_sds_queue@.len() == 0,
            r.next_live_sds_id == 1,
            r.issi_whitelist_override is None,
            r.wx_override is None,
            r.active_call_ts@ == Map::<u32, (u8, u8)>::empty(),
            r.ee_monitoring_windows@ == Map::<u32, (u8, u8, u8)>::empty(),
    {
        StackState {
            network_connected: false,
            subscribers: SubscriberRegistry::new(),
            live_sds_queue: VecDeque::new(),
            next_live_sds_id: 1,
            issi_whitelist_override: None,
            wx_override: None,
            active_call_ts: HashMap::new(),
            ee_monitoring_windows: HashMap::new(),
        }
    }
}

} // verus!
