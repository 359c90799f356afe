//! The resolution of dynamic group membership: which groups are due, what a finished resolution
//! changes, and what is kept of it for the next start.

use vstd::prelude::*;
use vstd::string::*;

use crate::groups::{
    entries_map, is_fresh, resolved_fresh, CacheEntry, CacheView, GroupSource, GroupsCache,
    SourceView,
};
use crate::output::told;
use crate::outside::{lowercase, to_lowercase};
use crate::text::copy_texts;

verus! {

/// A group and what is known of its members.
pub struct GroupState {
    pub name: String,
    pub source: GroupSource,
    /// The names of the members, in lower case; none while they are not resolved.
    pub members: Option<Vec<String>>,
    /// Unix seconds when the members were last resolved.
    pub resolved_at: Option<u64>,
    /// Whether a resolution is under way.
    pub resolving: bool,
    /// Why the last resolution failed.
    pub error: Option<String>,
}

/// What a `GroupState` holds.
#[verifier::ext_equal]
pub struct GroupView {
    pub name: Seq<char>,
    pub source: SourceView,
    pub members: Option<Seq<Seq<char>>>,
    pub resolved_at: Option<u64>,
    pub resolving: bool,
    pub error: Option<Seq<char>>,
}

impl DeepView for GroupState {
    type V = GroupView;

    open spec fn deep_view(&self) -> GroupView {
        GroupView {
            name: self.name@,
            source: self.source.deep_view(),
            members: self.members.deep_view(),
            resolved_at: self.resolved_at,
            resolving: self.resolving,
            error: self.error.deep_view(),
        }
    }
}

impl GroupView {
    /// The membership is unresolved or past its TTL.
    pub open spec fn is_stale(self, now: u64, ttl_minutes: u64) -> bool {
        self.members is None || match self.resolved_at {
            Some(resolved_at) => !is_fresh(resolved_at, now, ttl_minutes),
            None => true,
        }
    }

    /// The members are to be resolved.
    pub open spec fn is_due(self, now: u64, ttl_minutes: u64, force: bool) -> bool {
        self.source.is_dynamic() && (force || self.is_stale(now, ttl_minutes))
    }

    /// The group when a resolution starts: a dynamic group is resolving exactly if it is due.
    pub open spec fn started(self, now: u64, ttl_minutes: u64, force: bool) -> GroupView {
        if self.source.is_dynamic() {
            GroupView { resolving: self.is_due(now, ttl_minutes, force), ..self }
        } else {
            self
        }
    }

    /// The group when its resolution has come back.
    pub open spec fn resolved(self, result: Result<Seq<Seq<char>>, Seq<char>>, now: u64) -> GroupView {
        match result {
            Ok(members) => GroupView {
                members: Some(members.map_values(|name: Seq<char>| lowercase(name))),
                resolved_at: Some(now),
                resolving: false,
                error: None,
                ..self
            },
            Err(message) => GroupView { resolving: false, error: Some(message), ..self },
        }
    }

    /// What is kept of the group for the next start.
    pub open spec fn cached(self) -> Option<(Seq<char>, CacheView)> {
        if self.source.is_dynamic() && self.resolved_at is Some && self.members is Some {
            Some(
                (
                    self.name,
                    CacheView {
                        resolved_at: self.resolved_at->0,
                        fingerprint: self.source.fingerprint(),
                        members: self.members->0,
                    },
                ),
            )
        } else {
            None
        }
    }
}

/// The groups that are due, with their places and sources, in order.
pub open spec fn due_groups(
    groups: Seq<GroupView>,
    now: u64,
    ttl_minutes: u64,
    force: bool,
) -> Seq<(usize, SourceView)>
    decreases groups.len(),
{
    if groups.len() == 0 {
        Seq::empty()
    } else {
        let before = due_groups(groups.drop_last(), now, ttl_minutes, force);
        if groups.last().is_due(now, ttl_minutes, force) {
            before.push(((groups.len() - 1) as usize, groups.last().source))
        } else {
            before
        }
    }
}

impl GroupState {
    fn stale(&self, now: u64, ttl_minutes: u64) -> (stale: bool)
        ensures
            stale == self.deep_view().is_stale(now, ttl_minutes),
    {
        if self.members.is_none() {
            return true;
        }
        match self.resolved_at {
            Some(resolved_at) => !resolved_fresh(resolved_at, now, ttl_minutes),
            None => true,
        }
    }

    /// Starts a resolution of the group: hands out its source where it is due.
    pub fn start(&mut self, now: u64, ttl_minutes: u64, force: bool) -> (source: Option<GroupSource>)
        ensures
            final(self).deep_view() == old(self).deep_view().started(now, ttl_minutes, force),
            source.deep_view() == (if old(self).deep_view().is_due(now, ttl_minutes, force) {
                Some(old(self).deep_view().source)
            } else {
                None
            }),
    {
        if !self.source.is_dynamic() {
            return None;
        }
        let stale = self.stale(now, ttl_minutes);
        if force || stale {
            self.resolving = true;
            Some(self.source.clone())
        } else {
            self.resolving = false;
            None
        }
    }

    /// Takes in what the resolution of the group came to.
    pub fn resolve(&mut self, result: Result<Vec<String>, String>, now: u64)
        ensures
            final(self).deep_view() == old(self).deep_view().resolved(told(result), now),
    {
        self.resolving = false;
        match result {
            Ok(members) => {
                let lower = lower_texts(&members);
                self.members = Some(lower);
                self.error = None;
                self.resolved_at = Some(now);
            },
            Err(message) => {
                self.error = Some(message);
            },
        }
    }

    /// What is kept of the group for the next start.
    pub fn cache_entry(&self) -> (entry: Option<(String, CacheEntry)>)
        ensures
            entry.deep_view() == self.deep_view().cached(),
    {
        if !self.source.is_dynamic() {
            return None;
        }
        match (&self.resolved_at, &self.members) {
            (Some(resolved_at), Some(members)) => {
                let entry = CacheEntry {
                    resolved_at: *resolved_at,
                    fingerprint: self.source.fingerprint(),
                    members: copy_texts(members),
                };
                Some((self.name.clone(), entry))
            },
            _ => None,
        }
    }
}

fn lower_texts(texts: &Vec<String>) -> (lower: Vec<String>)
    ensures
        lower.deep_view() == texts.deep_view().map_values(|name: Seq<char>| lowercase(name)),
{
    let ghost all = texts.deep_view();
    let mut lower: Vec<String> = Vec::new();
    let mut i: usize = 0;
    while i < texts.len()
        invariant
            i <= texts@.len(),
            all == texts.deep_view(),
            lower.deep_view() =~= all.take(i as int).map_values(|name: Seq<char>| lowercase(name)),
        decreases texts@.len() - i,
    {
        assert(all[i as int] == texts@[i as int]@);
        let ghost before = lower.deep_view();
        let text = to_lowercase(texts[i].as_str());
        lower.push(text);
        assert(lower.deep_view() =~= before.push(text@));
        i = i + 1;
    }
    assert(all.take(i as int) =~= all);
    lower
}

/// Starts the resolution of every dynamic group that is unresolved or past its TTL (or of all of
/// them when `force`): marks the groups and hands out the places and sources of those that are
/// due.
pub fn start_resolution(
    groups: &mut Vec<GroupState>,
    now: u64,
    ttl_minutes: u64,
    force: bool,
) -> (targets: Vec<(usize, GroupSource)>)
    ensures
        final(groups).deep_view() == old(groups).deep_view().map_values(
            |group: GroupView| group.started(now, ttl_minutes, force),
        ),
        targets.deep_view() == due_groups(old(groups).deep_view(), now, ttl_minutes, force),
        forall|i: int|
            0 <= i < targets@.len() ==> 0 <= (#[trigger] targets@[i]).0 < old(groups)@.len(),
{
    let ghost all = groups.deep_view();
    let ghost mark = |group: GroupView| group.started(now, ttl_minutes, force);
    let mut targets: Vec<(usize, GroupSource)> = Vec::new();
    let mut i: usize = 0;
    while i < groups.len()
        invariant
            i <= groups@.len(),
            groups@.len() == all.len(),
            all == old(groups).deep_view(),
            old(groups)@.len() == all.len(),
            mark == (|group: GroupView| group.started(now, ttl_minutes, force)),
            forall|j: int| 0 <= j < i ==> (#[trigger] groups@[j]).deep_view() == mark(all[j]),
            forall|j: int| i <= j < all.len() ==> (#[trigger] groups@[j]).deep_view() == all[j],
            targets.deep_view() =~= due_groups(all.take(i as int), now, ttl_minutes, force),
            forall|j: int| 0 <= j < targets@.len() ==> 0 <= (#[trigger] targets@[j]).0 < i,
        decreases groups@.len() - i,
    {
        proof {
            assert(all.take(i + 1).drop_last() =~= all.take(i as int));
            assert(all[i as int] == old(groups)@[i as int].deep_view());
            assert(groups@[i as int].deep_view() == all[i as int]);
        }
        let source = groups[i].start(now, ttl_minutes, force);
        if let Some(source) = source {
            let ghost before = targets.deep_view();
            let target = (i, source);
            targets.push(target);
            assert(targets.deep_view() =~= before.push(target.deep_view()));
        }
        i = i + 1;
    }
    assert(all.take(i as int) =~= all);
    assert(groups.deep_view() =~= all.map_values(mark));
    targets
}

/// The groups when the first `n` resolutions have come back.
pub open spec fn finished_groups(
    groups: Seq<GroupView>,
    targets: Seq<(usize, SourceView)>,
    results: Seq<Result<Vec<String>, String>>,
    now: u64,
    n: int,
) -> Seq<GroupView>
    decreases n,
{
    if n <= 0 {
        groups
    } else {
        let before = finished_groups(groups, targets, results, now, n - 1);
        let at = targets[n - 1].0 as int;
        before.update(at, before[at].resolved(told(results[n - 1]), now))
    }
}

/// What is told of the first of `n` resolutions that failed.
pub open spec fn first_failure(
    groups: Seq<GroupView>,
    targets: Seq<(usize, SourceView)>,
    results: Seq<Result<Vec<String>, String>>,
    n: int,
) -> Option<Seq<char>>
    decreases n,
{
    if n <= 0 {
        None
    } else {
        match first_failure(groups, targets, results, n - 1) {
            Some(message) => Some(message),
            None => match told(results[n - 1]) {
                Ok(_) => None,
                Err(message) => Some(
                    "group '"@ + groups[targets[n - 1].0 as int].name + "': "@ + message,
                ),
            },
        }
    }
}

/// Resolutions that come back change no group's name.
pub proof fn lemma_finished_names(
    groups: Seq<GroupView>,
    targets: Seq<(usize, SourceView)>,
    results: Seq<Result<Vec<String>, String>>,
    now: u64,
    n: int,
)
    requires
        0 <= n <= targets.len(),
        forall|i: int| 0 <= i < targets.len() ==> 0 <= (#[trigger] targets[i]).0 < groups.len(),
    ensures
        finished_groups(groups, targets, results, now, n).len() == groups.len(),
        forall|i: int|
            0 <= i < groups.len() ==> (#[trigger] finished_groups(
                groups,
                targets,
                results,
                now,
                n,
            )[i]).name == groups[i].name && finished_groups(groups, targets, results, now, n)[i].source
                == groups[i].source,
    decreases n,
{
    if n > 0 {
        lemma_finished_names(groups, targets, results, now, n - 1);
        let before = finished_groups(groups, targets, results, now, n - 1);
        let at = targets[n - 1].0 as int;
        assert forall|i: int| 0 <= i < groups.len() implies (#[trigger] finished_groups(
            groups,
            targets,
            results,
            now,
            n,
        )[i]).name == groups[i].name && finished_groups(groups, targets, results, now, n)[i].source
            == groups[i].source by {
            assert(before[i].name == groups[i].name);
        }
    }
}

/// How many resolutions have a group to go to: a result without a target is dropped, and a target
/// without a result is left.
pub open spec fn paired(targets: nat, results: nat) -> int {
    if targets <= results {
        targets as int
    } else {
        results as int
    }
}

/// Takes in what the resolutions came to. A failed one keeps the previous membership and
/// surfaces the error on the group; of the first failure a message is handed back.
pub fn finish_resolution(
    groups: &mut Vec<GroupState>,
    targets: &Vec<(usize, GroupSource)>,
    results: Vec<Result<Vec<String>, String>>,
    now: u64,
) -> (failure: Option<String>)
    requires
        forall|i: int|
            0 <= i < targets@.len() ==> 0 <= (#[trigger] targets@[i]).0 < old(groups)@.len(),
    ensures
        final(groups).deep_view() == finished_groups(
            old(groups).deep_view(),
            targets.deep_view(),
            results@,
            now,
            paired(targets@.len(), results@.len()),
        ),
        failure.deep_view() == first_failure(
            old(groups).deep_view(),
            targets.deep_view(),
            results@,
            paired(targets@.len(), results@.len()),
        ),
{
    let ghost all = groups.deep_view();
    let ghost places = targets.deep_view();
    let ghost told_results = results@;
    let mut failure: Option<String> = None;
    let mut i: usize = 0;
    let total: usize = if targets.len() <= results.len() {
        targets.len()
    } else {
        results.len()
    };
    while i < total
        invariant
            i <= total,
            total == paired(targets@.len(), results@.len()),
            all == old(groups).deep_view(),
            places == targets.deep_view(),
            told_results == results@,
            groups@.len() == all.len(),
            forall|j: int| 0 <= j < places.len() ==> 0 <= (#[trigger] places[j]).0 < all.len(),
            groups.deep_view() =~= finished_groups(all, places, told_results, now, i as int),
            failure.deep_view() == first_failure(all, places, told_results, i as int),
        decreases total - i,
    {
        assert(places[i as int] == targets@[i as int].deep_view());
        let at: usize = targets[i].0;
        let ghost before = groups.deep_view();
        proof {
            lemma_finished_names(all, places, told_results, now, i as int);
            assert(before[at as int] == groups@[at as int].deep_view());
            assert(before[at as int].name == all[at as int].name);
        }
        let result = match &results[i] {
            Ok(members) => Ok(copy_texts(members)),
            Err(message) => {
                if failure.is_none() {
                    failure =
                    Some(
                        "group '".to_string().concat(groups[at].name.as_str()).concat("': ").concat(
                            message.as_str(),
                        ),
                    );
                }
                Err(message.clone())
            },
        };
        assert(told(result) == told(told_results[i as int]));
        groups[at].resolve(result, now);
        assert(groups.deep_view() =~= before.update(
            at as int,
            before[at as int].resolved(told(told_results[i as int]), now),
        ));
        i = i + 1;
    }
    failure
}

/// What is kept of the groups for the next start, in their order.
pub open spec fn cached_entries(groups: Seq<GroupView>) -> Seq<(Seq<char>, CacheView)> {
    groups.filter_map(|group: GroupView| group.cached())
}

/// What is kept of the groups for the next start; of two groups with one name, the later.
pub fn cache_groups(groups: &Vec<GroupState>) -> (cache: GroupsCache)
    ensures
        cache.wf(),
        cache@ == entries_map(cached_entries(groups.deep_view())),
{
    let ghost all = groups.deep_view();
    let ghost keep = |group: GroupView| group.cached();
    let mut cache = GroupsCache::default();
    let mut i: usize = 0;
    assert(cache@ =~= entries_map(all.take(0).filter_map(keep)));
    while i < groups.len()
        invariant
            i <= groups@.len(),
            all == groups.deep_view(),
            keep == (|group: GroupView| group.cached()),
            cache.wf(),
            cache@ == entries_map(all.take(i as int).filter_map(keep)),
        decreases groups@.len() - i,
    {
        let ghost kept = all.take(i as int).filter_map(keep);
        proof {
            assert(all[i as int] == groups@[i as int].deep_view());
            all.lemma_filter_map_take_succ(keep, i as int);
        }
        let entry = groups[i].cache_entry();
        if let Some((name, entry)) = entry {
            proof {
                let after = all.take(i + 1).filter_map(keep);
                assert(after =~= kept.push((name@, entry.deep_view())));
                assert(after.drop_last() =~= kept);
            }
            cache.insert(name, entry);
        } else {
            assert(all.take(i + 1).filter_map(keep) =~= kept);
        }
        i = i + 1;
    }
    assert(all.take(i as int) =~= all);
    cache
}

// ---------------------------------------------------------------------------
// Laws

/// The groups that are due are handed out once each, in their order, and no others.
pub proof fn law_due_groups(groups: Seq<GroupView>, now: u64, ttl_minutes: u64, force: bool)
    requires
        groups.len() <= usize::MAX,
    ensures
        ({
            let due = due_groups(groups, now, ttl_minutes, force);
            &&& forall|k: int|
                0 <= k < due.len() ==> 0 <= (#[trigger] due[k]).0 < groups.len()
                    && groups[due[k].0 as int].is_due(now, ttl_minutes, force) && due[k].1
                    == groups[due[k].0 as int].source
            &&& forall|k: int, l: int|
                0 <= k < l < due.len() ==> (#[trigger] due[k]).0 < (#[trigger] due[l]).0
            &&& forall|i: int|
                0 <= i < groups.len() && (#[trigger] groups[i]).is_due(now, ttl_minutes, force)
                    ==> due.contains((i as usize, groups[i].source))
        }),
    decreases groups.len(),
{
    if groups.len() > 0 {
        let rest = groups.drop_last();
        law_due_groups(rest, now, ttl_minutes, force);
        let before = due_groups(rest, now, ttl_minutes, force);
        let due = due_groups(groups, now, ttl_minutes, force);
        assert forall|k: int| 0 <= k < due.len() implies 0 <= (#[trigger] due[k]).0 < groups.len()
            && groups[due[k].0 as int].is_due(now, ttl_minutes, force) && due[k].1
            == groups[due[k].0 as int].source by {
            if k < before.len() {
                assert(due[k] == before[k]);
            }
        }
        assert forall|k: int, l: int| 0 <= k < l < due.len() implies (#[trigger] due[k]).0 < (
        #[trigger] due[l]).0 by {
            assert(due[k] == before[k]);
            if l < before.len() {
                assert(due[l] == before[l]);
            }
        }
        assert forall|i: int|
            0 <= i < groups.len() && (#[trigger] groups[i]).is_due(
                now,
                ttl_minutes,
                force,
            ) implies due.contains((i as usize, groups[i].source)) by {
            if i < rest.len() {
                assert(rest[i] == groups[i]);
                let k = before.index_of((i as usize, groups[i].source));
                assert(due[k] == before[k]);
            } else {
                assert(due[due.len() - 1] == (i as usize, groups[i].source));
            }
        }
    }
}

/// A failed resolution keeps the membership that was there, and its age, and surfaces the error
/// on the group.
pub proof fn law_failure_keeps_membership(group: GroupView, message: Seq<char>, now: u64)
    ensures
        ({
            let after = group.resolved(Err(message), now);
            &&& after.members == group.members
            &&& after.resolved_at == group.resolved_at
            &&& after.cached() == group.cached()
            &&& after.error == Some(message)
            &&& !after.resolving
        }),
{
}

/// A resolution that worked replaces the membership, whatever it was before: the members are the
/// resolved names in lower case, one for one and in their order, as of now. So two groups that
/// differ only in what was known of their members end up the same. The group's name and source
/// stay.
pub proof fn law_success_replaces_membership(
    group: GroupView,
    other: GroupView,
    members: Seq<Seq<char>>,
    now: u64,
)
    ensures
        ({
            let after = group.resolved(Ok(members), now);
            &&& after.members matches Some(lower) && lower.len() == members.len() && forall|i: int|
                0 <= i < members.len() ==> #[trigger] lower[i] == lowercase(members[i])
            &&& after.resolved_at == Some(now)
            &&& after.error is None
            &&& !after.resolving
            &&& after.name == group.name
            &&& after.source == group.source
            &&& after.members == other.resolved(Ok(members), now).members
            &&& group.name == other.name && group.source == other.source ==> after
                == other.resolved(Ok(members), now)
        }),
{
}

/// What was resolved is what is kept: of a dynamic group the resolved names in lower case, the
/// time of the resolution and the fingerprint of the source; of a static group nothing.
pub proof fn law_resolved_members_are_kept(
    group: GroupView,
    members: Seq<Seq<char>>,
    now: u64,
)
    ensures
        match group.resolved(Ok(members), now).cached() {
            Some((name, entry)) => {
                &&& group.source.is_dynamic()
                &&& name == group.name
                &&& entry.resolved_at == now
                &&& entry.fingerprint == group.source.fingerprint()
                &&& entry.members.len() == members.len()
                &&& forall|i: int|
                    0 <= i < members.len() ==> #[trigger] entry.members[i] == lowercase(members[i])
            },
            None => !group.source.is_dynamic(),
        },
{
}

/// A group is kept exactly if it is dynamic and was resolved, as it was resolved.
pub proof fn law_kept_as_it_was_resolved(group: GroupView)
    ensures
        group.cached() is Some <==> group.source.is_dynamic() && group.members is Some
            && group.resolved_at is Some,
        group.cached() matches Some((name, entry)) ==> {
            &&& name == group.name
            &&& group.members == Some(entry.members)
            &&& group.resolved_at == Some(entry.resolved_at)
            &&& entry.fingerprint == group.source.fingerprint()
        },
{
}

/// A failed resolution changes neither the group's name nor its source.
pub proof fn law_failure_keeps_the_group(group: GroupView, message: Seq<char>, now: u64)
    ensures
        group.resolved(Err(message), now).name == group.name,
        group.resolved(Err(message), now).source == group.source,
{
}

/// A group is due exactly if it is dynamic and the resolution is forced, was never done, or was
/// done at least as many minutes ago as it counts for.
pub proof fn law_due_by_age(group: GroupView, now: u64, ttl_minutes: u64, force: bool)
    ensures
        group.is_due(now, ttl_minutes, force) <==> group.source.is_dynamic() && {
            ||| force
            ||| group.members is None
            ||| group.resolved_at is None
            ||| ttl_minutes == 0
            ||| now - group.resolved_at->0 >= ttl_minutes * 60
        },
{
}

/// The start of a resolution changes nothing of a group but whether it is being resolved, which a
/// dynamic group is exactly if it is due; a static group stays as it is.
pub proof fn law_start_only_marks(group: GroupView, now: u64, ttl_minutes: u64, force: bool)
    ensures
        ({
            let after = group.started(now, ttl_minutes, force);
            &&& after.name == group.name
            &&& after.source == group.source
            &&& after.members == group.members
            &&& after.resolved_at == group.resolved_at
            &&& after.error == group.error
            &&& group.source.is_dynamic() ==> after.resolving == group.is_due(
                now,
                ttl_minutes,
                force,
            )
            &&& !group.source.is_dynamic() ==> after.resolving == group.resolving
        }),
{
}

/// Each result reaches its own group, and only that: where no group is a target twice, the group
/// of the k-th target is resolved by the k-th result.
pub proof fn law_each_result_reaches_its_group(
    groups: Seq<GroupView>,
    targets: Seq<(usize, SourceView)>,
    results: Seq<Result<Vec<String>, String>>,
    now: u64,
    n: int,
    k: int,
)
    requires
        0 <= k < n <= targets.len(),
        forall|i: int| 0 <= i < targets.len() ==> 0 <= (#[trigger] targets[i]).0 < groups.len(),
        forall|i: int, j: int|
            0 <= i < j < targets.len() ==> (#[trigger] targets[i]).0 != (#[trigger] targets[j]).0,
    ensures
        finished_groups(groups, targets, results, now, n)[targets[k].0 as int]
            == groups[targets[k].0 as int].resolved(told(results[k]), now),
    decreases n,
{
    let at = targets[k].0 as int;
    lemma_finished_names(groups, targets, results, now, n - 1);
    if k == n - 1 {
        assert forall|i: int| 0 <= i < n - 1 implies (#[trigger] targets[i]).0 != at by {}
        law_other_groups_unchanged(groups, targets, results, now, n - 1, at);
    } else {
        law_each_result_reaches_its_group(groups, targets, results, now, n - 1, k);
        assert(targets[k].0 != targets[n - 1].0);
    }
}

/// The results are taken in one after the other, each by the group of its target; where a group is
/// a target twice, the later result is taken in behind the earlier one.
pub proof fn law_results_are_taken_in_turn(
    groups: Seq<GroupView>,
    targets: Seq<(usize, SourceView)>,
    results: Seq<Result<Vec<String>, String>>,
    now: u64,
    n: int,
    i: int,
)
    requires
        0 < n <= targets.len(),
        forall|k: int| 0 <= k < targets.len() ==> 0 <= (#[trigger] targets[k]).0 < groups.len(),
        0 <= i < groups.len(),
    ensures
        finished_groups(groups, targets, results, now, 0) == groups,
        ({
            let before = finished_groups(groups, targets, results, now, n - 1);
            let after = finished_groups(groups, targets, results, now, n);
            &&& after.len() == groups.len()
            &&& after[i] == (if i == targets[n - 1].0 {
                before[i].resolved(told(results[n - 1]), now)
            } else {
                before[i]
            })
        }),
{
    lemma_finished_names(groups, targets, results, now, n - 1);
}

/// A failure is told exactly if a resolution failed: that of the first that did, with the name of
/// its group.
pub proof fn law_first_failure_is_told(
    groups: Seq<GroupView>,
    targets: Seq<(usize, SourceView)>,
    results: Seq<Result<Vec<String>, String>>,
    n: int,
)
    requires
        0 <= n <= targets.len(),
        n <= results.len(),
    ensures
        first_failure(groups, targets, results, n) is None <==> forall|k: int|
            0 <= k < n ==> (#[trigger] results[k]) is Ok,
        first_failure(groups, targets, results, n) matches Some(message) ==> exists|k: int|
            0 <= k < n && (#[trigger] results[k]) is Err && message == "group '"@
                + groups[targets[k].0 as int].name + "': "@ + results[k]->Err_0@ && forall|j: int|
                0 <= j < k ==> (#[trigger] results[j]) is Ok,
    decreases n,
{
    if n > 0 {
        law_first_failure_is_told(groups, targets, results, n - 1);
        if first_failure(groups, targets, results, n - 1) is None {
            assert(results[n - 1] is Ok || results[n - 1] is Err);
        }
    }
}

/// As many results are taken in as there are both results and targets.
pub proof fn law_results_are_paired(targets: nat, results: nat)
    ensures
        paired(targets, results) <= targets,
        paired(targets, results) <= results,
        paired(targets, results) == targets || paired(targets, results) == results,
{
}

/// A dynamic group that was resolved is kept for the next start, unless a later one with its name
/// is.
pub proof fn law_cache_keeps_resolved_groups(groups: Seq<GroupView>, i: int)
    requires
        0 <= i < groups.len(),
        groups[i].source.is_dynamic(),
        groups[i].members is Some,
        groups[i].resolved_at is Some,
        forall|j: int|
            i < j < groups.len() ==> (#[trigger] groups[j]).name != groups[i].name
                || !groups[j].source.is_dynamic() || groups[j].members is None
                || groups[j].resolved_at is None,
    ensures
        ({
            let kept = entries_map(cached_entries(groups));
            &&& kept.dom().contains(groups[i].name)
            &&& kept[groups[i].name].members == groups[i].members->0
            &&& kept[groups[i].name].resolved_at == groups[i].resolved_at->0
            &&& kept[groups[i].name].fingerprint == groups[i].source.fingerprint()
        }),
    decreases groups.len(),
{
    let keep = |group: GroupView| group.cached();
    let rest = groups.drop_last();
    let before = cached_entries(rest);
    let last = groups[groups.len() - 1];
    let whole = cached_entries(groups);
    groups.lemma_filter_map_take_succ(keep, groups.len() - 1);
    assert(groups.take(groups.len() as int) =~= groups);
    assert(groups.take(groups.len() - 1) =~= rest);
    if i < rest.len() {
        assert(rest[i] == groups[i]);
        assert forall|j: int| i < j < rest.len() implies (#[trigger] rest[j]).name != rest[i].name
            || !rest[j].source.is_dynamic() || rest[j].members is None || rest[j].resolved_at
            is None by {
            assert(rest[j] == groups[j]);
        }
        law_cache_keeps_resolved_groups(rest, i);
    }
    match last.cached() {
        Some(entry) => {
            assert(whole =~= before.push(entry));
            assert(before.push(entry).drop_last() =~= before);
        },
        None => {
            assert(whole =~= before);
        },
    }
}

/// A group that was resolved is not due again within the TTL, unless it is forced.
pub proof fn law_success_is_fresh(
    group: GroupView,
    members: Seq<Seq<char>>,
    now: u64,
    later: u64,
    ttl_minutes: u64,
)
    requires
        later < now + ttl_minutes * 60,
        ttl_minutes > 0,
    ensures
        !group.resolved(Ok(members), now).is_due(later, ttl_minutes, false),
        group.resolved(Ok(members), now).error is None,
{
}

/// A resolution that is forced is due for every dynamic group, and for no static one.
pub proof fn law_forced_resolution(group: GroupView, now: u64, ttl_minutes: u64)
    ensures
        group.is_due(now, ttl_minutes, true) <==> group.source.is_dynamic(),
{
}

/// A group without a resolution that came back stays as it was.
pub proof fn law_other_groups_unchanged(
    groups: Seq<GroupView>,
    targets: Seq<(usize, SourceView)>,
    results: Seq<Result<Vec<String>, String>>,
    now: u64,
    n: int,
    i: int,
)
    requires
        0 <= n <= targets.len(),
        0 <= i < groups.len(),
        forall|k: int| 0 <= k < targets.len() ==> 0 <= (#[trigger] targets[k]).0 < groups.len(),
        forall|k: int| 0 <= k < n ==> (#[trigger] targets[k]).0 != i,
    ensures
        finished_groups(groups, targets, results, now, n)[i] == groups[i],
    decreases n,
{
    if n > 0 {
        lemma_finished_names(groups, targets, results, now, n - 1);
        law_other_groups_unchanged(groups, targets, results, now, n - 1, i);
        assert(targets[n - 1].0 != i);
    }
}

/// What is kept for the next start holds nothing but the memberships of dynamic groups, each
/// under the fingerprint of its source.
pub proof fn law_cache_holds_dynamic_groups(groups: Seq<GroupView>, name: Seq<char>)
    requires
        entries_map(cached_entries(groups)).dom().contains(name),
    ensures
        exists|i: int|
            0 <= i < groups.len() && (#[trigger] groups[i]).name == name
                && groups[i].source.is_dynamic() && groups[i].members == Some(
                entries_map(cached_entries(groups))[name].members,
            ) && entries_map(cached_entries(groups))[name].fingerprint
                == groups[i].source.fingerprint(),
    decreases groups.len(),
{
    let keep = |group: GroupView| group.cached();
    if groups.len() > 0 {
        let rest = groups.drop_last();
        let before = cached_entries(rest);
        let last = groups[groups.len() - 1];
        match last.cached() {
            Some(entry) => {
                assert(cached_entries(groups) =~= before.push(entry));
                assert(before.push(entry).drop_last() =~= before);
                if entry.0 != name {
                    law_cache_holds_dynamic_groups(rest, name);
                    let i = choose|i: int|
                        0 <= i < rest.len() && (#[trigger] rest[i]).name == name
                            && rest[i].source.is_dynamic() && rest[i].members == Some(
                            entries_map(before)[name].members,
                        ) && entries_map(before)[name].fingerprint
                            == rest[i].source.fingerprint();
                    assert(groups[i] == rest[i]);
                }
            },
            None => {
                assert(cached_entries(groups) =~= before);
                law_cache_holds_dynamic_groups(rest, name);
                let i = choose|i: int|
                    0 <= i < rest.len() && (#[trigger] rest[i]).name == name
                        && rest[i].source.is_dynamic() && rest[i].members == Some(
                        entries_map(before)[name].members,
                    ) && entries_map(before)[name].fingerprint == rest[i].source.fingerprint();
                assert(groups[i] == rest[i]);
            },
        }
    }
}

} // verus!
