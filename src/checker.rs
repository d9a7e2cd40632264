//! Deciding whether a newer version exists: the cache is consulted first,
//! and on a miss the registry's list of versions decides.

use vstd::prelude::*;
use crate::cache::{fresh_result, EntryView, KeyView, ResultCache, CACHE_EXPIRE_TIME};
use crate::outcome::{outcome_view, rfc3339_seconds, OutcomeView, UpdateResult};
use crate::version::{
    compare_keys,
    is_standard_release,
    key_cmp,
    lemma_key_order_total,
    lemma_key_order_transitive,
    parse_version,
    parsed_key,
    standard_release,
    texts,
};

verus! {

/// A published version, as the registry lists it.
#[derive(Debug)]
pub struct VersionInfo {
    /// The version string.
    pub num: String,
    /// When it was published, as an RFC 3339 timestamp.
    pub created_at: String,
    /// Whether it has been withdrawn.
    pub yanked: bool,
}

/// The plain value of a `VersionInfo`.
pub struct VersionInfoView {
    pub num: Seq<char>,
    pub created_at: Seq<char>,
    pub yanked: bool,
}

impl View for VersionInfo {
    type V = VersionInfoView;

    open spec fn view(&self) -> VersionInfoView {
        VersionInfoView { num: self.num@, created_at: self.created_at@, yanked: self.yanked }
    }
}

/// The plain values of a list of versions.
pub open spec fn versions_view(s: Seq<VersionInfo>) -> Seq<VersionInfoView> {
    s.map_values(|v: VersionInfo| v@)
}

/// The plain value of what the registry answered: `None` where it could not
/// be reached or its answer could not be read.
pub open spec fn fetched_view(f: Option<Vec<VersionInfo>>) -> Option<Seq<VersionInfoView>> {
    match f {
        Some(v) => Some(versions_view(v@)),
        None => None,
    }
}

/// Whether a version may be offered: it is not yanked, and it is a standard
/// release unless pre-releases are wanted.
pub open spec fn eligible(v: VersionInfoView, include_prereleases: bool) -> bool {
    !v.yanked && (include_prereleases || is_standard_release(v.num))
}

/// Whether `m` is the best candidate of `vs`: eligible, with no eligible
/// version above it in key order, and none equal to it listed before it.
pub open spec fn is_best(vs: Seq<VersionInfoView>, include_prereleases: bool, m: int) -> bool {
    &&& 0 <= m < vs.len()
    &&& eligible(vs[m], include_prereleases)
    &&& forall|j: int|
        0 <= j < vs.len() && #[trigger] eligible(vs[j], include_prereleases) ==> key_cmp(
            parsed_key(vs[j].num),
            parsed_key(vs[m].num),
        ) <= 0
    &&& forall|j: int|
        0 <= j < m && #[trigger] eligible(vs[j], include_prereleases) ==> key_cmp(
            parsed_key(vs[j].num),
            parsed_key(vs[m].num),
        ) < 0
}

/// The index of the best candidate of `vs`, if any version is eligible.
pub open spec fn best_candidate(vs: Seq<VersionInfoView>, include_prereleases: bool) -> Option<
    int,
> {
    if exists|m: int| is_best(vs, include_prereleases, m) {
        Some(choose|m: int| is_best(vs, include_prereleases, m))
    } else {
        None
    }
}

/// The outcome of a check of `running` for package `name`, given what the
/// registry answered: a newer version where the best candidate is above the
/// running version in key order; nothing where the registry failed, where no
/// version is eligible, or where the running version is at least as high.
pub open spec fn update_outcome(
    name: Seq<char>,
    running: Seq<char>,
    fetched: Option<Seq<VersionInfoView>>,
) -> Option<OutcomeView> {
    match fetched {
        None => None,
        Some(vs) => match best_candidate(vs, !is_standard_release(running)) {
            None => None,
            Some(m) => if key_cmp(parsed_key(running), parsed_key(vs[m].num)) >= 0 {
                None
            } else {
                Some(
                    OutcomeView {
                        crate_name: name,
                        running_version: running,
                        available_version: vs[m].num,
                        release_date: rfc3339_seconds(vs[m].created_at),
                    },
                )
            },
        },
    }
}

proof fn lemma_best_unique(vs: Seq<VersionInfoView>, include_prereleases: bool, a: int, b: int)
    requires
        is_best(vs, include_prereleases, a),
        is_best(vs, include_prereleases, b),
    ensures
        a == b,
{
    lemma_key_order_total(parsed_key(vs[a].num), parsed_key(vs[b].num));
    if a < b {
        assert(eligible(vs[a], include_prereleases));
        assert(eligible(vs[b], include_prereleases));
    } else if b < a {
        assert(eligible(vs[a], include_prereleases));
        assert(eligible(vs[b], include_prereleases));
    }
}

/// The index of the best candidate among `versions`: the highest eligible
/// version in key order, the first listed among equals.
pub fn select_candidate(versions: &Vec<VersionInfo>, include_prereleases: bool) -> (r: Option<
    usize,
>)
    ensures
        match r {
            Some(i) => best_candidate(versions_view(versions@), include_prereleases) == Some(
                i as int,
            ),
            None => best_candidate(versions_view(versions@), include_prereleases) is None,
        },
{
    let ghost vs = versions_view(versions@);
    let mut best: Option<usize> = None;
    let mut best_key: Vec<String> = Vec::new();
    let mut i: usize = 0;
    while i < versions.len()
        invariant
            vs == versions_view(versions@),
            i <= versions@.len(),
            match best {
                None => forall|j: int| 0 <= j < i ==> !#[trigger] eligible(vs[j], include_prereleases),
                Some(b) => {
                    &&& b < i
                    &&& eligible(vs[b as int], include_prereleases)
                    &&& texts(best_key@) == parsed_key(vs[b as int].num)
                    &&& forall|j: int|
                        0 <= j < i && #[trigger] eligible(vs[j], include_prereleases) ==> key_cmp(
                            parsed_key(vs[j].num),
                            parsed_key(vs[b as int].num),
                        ) <= 0
                    &&& forall|j: int|
                        0 <= j < b && #[trigger] eligible(vs[j], include_prereleases) ==> key_cmp(
                            parsed_key(vs[j].num),
                            parsed_key(vs[b as int].num),
                        ) < 0
                },
            },
        decreases versions@.len() - i,
    {
        let v = &versions[i];
        assert(vs[i as int] == v@);
        if !v.yanked && (include_prereleases || standard_release(v.num.as_str())) {
            let key = parse_version(v.num.as_str());
            match best {
                None => {
                    proof {
                        lemma_key_order_total(texts(key@), texts(key@));
                    }
                    best = Some(i);
                    best_key = key;
                },
                Some(b) => {
                    let c = compare_keys(&key, &best_key);
                    if c > 0 {
                        proof {
                            let kb = parsed_key(vs[b as int].num);
                            let ki = parsed_key(vs[i as int].num);
                            lemma_key_order_total(ki, kb);
                            assert forall|j: int|
                                0 <= j < i + 1 && #[trigger] eligible(
                                    vs[j],
                                    include_prereleases,
                                ) implies key_cmp(parsed_key(vs[j].num), ki) <= 0 && (j < i
                                ==> key_cmp(parsed_key(vs[j].num), ki) < 0) by {
                                lemma_key_order_transitive(parsed_key(vs[j].num), kb, ki);
                                lemma_key_order_total(ki, ki);
                            }
                        }
                        best = Some(i);
                        best_key = key;
                    }
                },
            }
        }
        i += 1;
    }
    match best {
        Some(b) => {
            proof {
                assert(is_best(vs, include_prereleases, b as int));
                let m = choose|m: int| is_best(vs, include_prereleases, m);
                lemma_best_unique(vs, include_prereleases, m, b as int);
            }
            Some(b)
        },
        None => None,
    }
}

/// The outcome of a check of `crate_version` of `crate_name`, given what the
/// registry answered (`None` where it failed).
pub fn resolve(crate_name: &str, crate_version: &str, fetched: &Option<Vec<VersionInfo>>) -> (r:
    Option<UpdateResult>)
    ensures
        outcome_view(r) == update_outcome(crate_name@, crate_version@, fetched_view(*fetched)),
{
    match fetched {
        None => None,
        Some(versions) => {
            let include_prereleases = !standard_release(crate_version);
            match select_candidate(versions, include_prereleases) {
                None => None,
                Some(m) => {
                    let chosen = &versions[m];
                    assert(versions_view(versions@)[m as int] == chosen@);
                    let running_key = parse_version(crate_version);
                    let chosen_key = parse_version(chosen.num.as_str());
                    if compare_keys(&running_key, &chosen_key) >= 0 {
                        None
                    } else {
                        Some(
                            UpdateResult::new(
                                String::from_str(crate_name),
                                String::from_str(crate_version),
                                chosen.num.clone(),
                                Some(chosen.created_at.clone()),
                            ),
                        )
                    }
                },
            }
        },
    }
}


/// What a check does next.
#[derive(Debug)]
pub enum CheckStep {
    /// The cache answered: this is the outcome, and the check is done.
    Cached(Option<UpdateResult>),
    /// The registry must be asked for the package's versions; pre-releases
    /// are wanted where the running version is one. Its answer goes to
    /// `UpdateChecker::complete`.
    Query { include_prereleases: bool },
}

/// The plain value of a `CheckStep`.
pub enum StepView {
    Cached(Option<OutcomeView>),
    Query(bool),
}

/// The plain value of a step.
pub open spec fn step_view(s: CheckStep) -> StepView {
    match s {
        CheckStep::Cached(o) => StepView::Cached(outcome_view(o)),
        CheckStep::Query { include_prereleases } => StepView::Query(include_prereleases),
    }
}

/// The first step of a check of `key` (package name, running version) at
/// time `now`: the cached outcome where the cache is used and holds a fresh
/// entry; otherwise a query, for pre-releases too where the running version
/// is not a standard release.
pub open spec fn first_step(
    bypass_cache: bool,
    cached: Map<KeyView, EntryView>,
    key: KeyView,
    now: u64,
) -> StepView {
    if !bypass_cache && fresh_result(cached, key, now) is Some {
        StepView::Cached(fresh_result(cached, key, now)->0)
    } else {
        StepView::Query(!is_standard_release(key.1))
    }
}

/// Checks packages for newer versions, with a cache of earlier outcomes.
pub struct UpdateChecker {
    bypass_cache: bool,
    cache: ResultCache,
}

impl UpdateChecker {
    /// Whether the cache is well formed.
    pub closed spec fn wf(&self) -> bool {
        self.cache.wf()
    }

    /// Whether every check asks the registry, whatever the cache holds.
    pub closed spec fn bypasses_cache(&self) -> bool {
        self.bypass_cache
    }

    /// What the cache holds.
    pub closed spec fn cached(&self) -> Map<KeyView, EntryView> {
        self.cache@
    }

    /// A checker with an empty cache; with `bypass_cache`, every check asks
    /// the registry.
    pub fn new(bypass_cache: bool) -> (r: Self)
        ensures
            r.wf(),
            r.bypasses_cache() == bypass_cache,
            r.cached() == Map::<KeyView, EntryView>::empty(),
    {
        UpdateChecker { bypass_cache, cache: ResultCache::new() }
    }

    /// A checker that starts from `cache`.
    pub fn with_cache(bypass_cache: bool, cache: ResultCache) -> (r: Self)
        requires
            cache.wf(),
        ensures
            r.wf(),
            r.bypasses_cache() == bypass_cache,
            r.cached() == cache@,
    {
        UpdateChecker { bypass_cache, cache }
    }

    /// The cache, to be persisted.
    pub fn cache(&self) -> (r: &ResultCache)
        requires
            self.wf(),
        ensures
            r.wf(),
            r@ == self.cached(),
    {
        &self.cache
    }

    /// Begins a check of `crate_version` of `crate_name` at time `now`
    /// (seconds since the Unix epoch): answers from the cache where it may
    /// and the entry is fresh, and asks for a registry query otherwise.
    pub fn check(&self, crate_name: &str, crate_version: &str, now: u64) -> (r: CheckStep)
        requires
            self.wf(),
        ensures
            step_view(r) == first_step(
                self.bypasses_cache(),
                self.cached(),
                (crate_name@, crate_version@),
                now,
            ),
    {
        if !self.bypass_cache {
            match self.cache.get(crate_name, crate_version, now) {
                Some(result) => {
                    return CheckStep::Cached(result);
                },
                None => {},
            }
        }
        CheckStep::Query { include_prereleases: !standard_release(crate_version) }
    }

    /// Ends a check of `crate_version` of `crate_name` begun at time `now`,
    /// given the registry's answer (`None` where it failed): decides the
    /// outcome, stores it in the cache (also where it is absent), and
    /// returns it.
    pub fn complete(
        &mut self,
        crate_name: &str,
        crate_version: &str,
        now: u64,
        fetched: Option<Vec<VersionInfo>>,
    ) -> (r: Option<UpdateResult>)
        requires
            old(self).wf(),
        ensures
            final(self).wf(),
            final(self).bypasses_cache() == old(self).bypasses_cache(),
            outcome_view(r) == update_outcome(crate_name@, crate_version@, fetched_view(fetched)),
            final(self).cached() == old(self).cached().insert(
                (crate_name@, crate_version@),
                EntryView { timestamp: now, result: outcome_view(r) },
            ),
    {
        let result = resolve(crate_name, crate_version, &fetched);
        let stored = crate::outcome::duplicate_outcome(&result);
        self.cache.put(crate_name, crate_version, stored, now);
        result
    }
}

/// A check never fails: where the registry cannot be reached or read, or
/// lists only yanked versions, the outcome is that there is no update.
pub proof fn lemma_fail_open(name: Seq<char>, running: Seq<char>, vs: Seq<VersionInfoView>)
    ensures
        update_outcome(name, running, None) is None,
        (forall|i: int| 0 <= i < vs.len() ==> #[trigger] vs[i].yanked) ==> update_outcome(
            name,
            running,
            Some(vs),
        ) is None,
{
    if forall|i: int| 0 <= i < vs.len() ==> #[trigger] vs[i].yanked {
        let with_pre = !is_standard_release(running);
        if exists|m: int| is_best(vs, with_pre, m) {
            let m = choose|m: int| is_best(vs, with_pre, m);
            assert(vs[m].yanked);
        }
    }
}

/// A second check of the same package and version, with the cache in use,
/// made while the first one's entry is fresh, does not query the registry
/// and gives the first check's outcome.
pub proof fn lemma_repeat_check_cached(
    cached: Map<KeyView, EntryView>,
    name: Seq<char>,
    running: Seq<char>,
    fetched: Option<Seq<VersionInfoView>>,
    first_at: u64,
    second_at: u64,
)
    requires
        first_at <= second_at < first_at + CACHE_EXPIRE_TIME,
    ensures
        ({
            let outcome = update_outcome(name, running, fetched);
            let after = cached.insert(
                (name, running),
                EntryView { timestamp: first_at, result: outcome },
            );
            first_step(false, after, (name, running), second_at) == StepView::Cached(outcome)
        }),
{
}

} // verus!
