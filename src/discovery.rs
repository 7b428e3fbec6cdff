use vstd::prelude::*;
use tokio::task::JoinHandle;
use crate::registry::Registry;
use crate::text::{same_text, strip_prefix, strip_prefix_of};

verus! {

/// The label that marks a container as a backend.
pub const BACKEND_LABEL: &'static str = "dev.plane.backend";

/// The prefix of a backend container's name as the runtime lists it (with its leading `/`).
pub const LISTED_NAME_PREFIX: &'static str = "/plane-";

/// The prefix of a backend container's `name` attribute in a start event.
pub const EVENT_NAME_PREFIX: &'static str = "plane-";

/// The attribute of a start event that holds the container's name.
pub const NAME_ATTRIBUTE: &'static str = "name";

/// A running container as the runtime lists it. Labels are key/value pairs with distinct keys.
#[derive(Debug, Clone)]
pub struct ContainerSummary {
    pub id: Option<String>,
    pub labels: Option<Vec<(String, String)>>,
    pub names: Option<Vec<String>>,
}

/// The actor of a runtime event. Attributes are key/value pairs with distinct keys.
#[derive(Debug, Clone)]
pub struct EventActor {
    pub id: Option<String>,
    pub attributes: Option<Vec<(String, String)>>,
}

/// A "container started" event from the runtime.
#[derive(Debug, Clone)]
pub struct StartEvent {
    pub actor: Option<EventActor>,
}

/// A container whose logs are to be read, with the backend it belongs to.
#[derive(Debug, Clone)]
pub struct Subscription {
    pub container_id: String,
    pub backend_id: String,
}

/// Why a listed container or a start event leads to no subscription.
#[derive(Debug, Clone, Copy, PartialEq, Eq, Structural)]
pub enum Skip {
    NoLabels,
    NotBackend,
    NoNames,
    NoBackendName,
    NoId,
    NoActor,
    NoAttributes,
    NoNameAttribute,
    BadName,
}

/// The value of the first pair whose key is `k`.
pub open spec fn lookup(pairs: Seq<(String, String)>, k: Seq<char>) -> Option<Seq<char>>
    decreases pairs.len(),
{
    if pairs.len() == 0 {
        None
    } else if pairs[0].0@ == k {
        Some(pairs[0].1@)
    } else {
        lookup(pairs.drop_first(), k)
    }
}

/// The backend named by the first name that carries the listed-name prefix.
pub open spec fn first_backend_name(names: Seq<String>) -> Option<Seq<char>>
    decreases names.len(),
{
    if names.len() == 0 {
        None
    } else if strip_prefix_of(names[0]@, LISTED_NAME_PREFIX@) is Some {
        strip_prefix_of(names[0]@, LISTED_NAME_PREFIX@)
    } else {
        first_backend_name(names.drop_first())
    }
}

/// The (container id, backend id) that a listed container is subscribed under, or why it is
/// skipped: it needs the backend label, a name with the listed-name prefix, and an id.
pub open spec fn container_eligibility(c: ContainerSummary) -> Result<(Seq<char>, Seq<char>), Skip> {
    match c.labels {
        None => Err(Skip::NoLabels),
        Some(labels) => if lookup(labels@, BACKEND_LABEL@) is None {
            Err(Skip::NotBackend)
        } else {
            match c.names {
                None => Err(Skip::NoNames),
                Some(names) => match first_backend_name(names@) {
                    None => Err(Skip::NoBackendName),
                    Some(backend) => match c.id {
                        None => Err(Skip::NoId),
                        Some(id) => Ok((id@, backend)),
                    },
                },
            }
        },
    }
}

/// The (container id, backend id) that a start event is subscribed under, or why it is
/// skipped: its actor needs attributes with the backend label and a `name` with the event
/// name prefix, and an id.
pub open spec fn event_eligibility(e: StartEvent) -> Result<(Seq<char>, Seq<char>), Skip> {
    match e.actor {
        None => Err(Skip::NoActor),
        Some(actor) => match actor.attributes {
            None => Err(Skip::NoAttributes),
            Some(attrs) => if lookup(attrs@, BACKEND_LABEL@) is None {
                Err(Skip::NotBackend)
            } else {
                match lookup(attrs@, NAME_ATTRIBUTE@) {
                    None => Err(Skip::NoNameAttribute),
                    Some(name) => match strip_prefix_of(name, EVENT_NAME_PREFIX@) {
                        None => Err(Skip::BadName),
                        Some(backend) => match actor.id {
                            None => Err(Skip::NoId),
                            Some(id) => Ok((id@, backend)),
                        },
                    },
                }
            },
        },
    }
}

/// Whether a computed subscription is the one a specification result describes.
pub open spec fn agrees(
    r: Result<Subscription, Skip>,
    spec: Result<(Seq<char>, Seq<char>), Skip>,
) -> bool {
    match r {
        Ok(s) => spec == Ok::<(Seq<char>, Seq<char>), Skip>((s.container_id@, s.backend_id@)),
        Err(e) => spec == Err::<(Seq<char>, Seq<char>), Skip>(e),
    }
}

/// The value of the first pair whose key is `k`.
pub fn find_value(pairs: &Vec<(String, String)>, k: &str) -> (r: Option<String>)
    ensures
        r matches Some(v) ==> lookup(pairs@, k@) == Some(v@),
        r is None ==> lookup(pairs@, k@) is None,
{
    let mut i: usize = 0;
    assert(pairs@.skip(0) =~= pairs@);
    while i < pairs.len()
        invariant
            i <= pairs@.len(),
            lookup(pairs@, k@) == lookup(pairs@.skip(i as int), k@),
        decreases pairs@.len() - i,
    {
        proof {
            assert(pairs@.skip(i as int).drop_first() =~= pairs@.skip(i + 1));
        }
        if same_text(pairs[i].0.as_str(), k) {
            return Some(pairs[i].1.clone());
        }
        i = i + 1;
    }
    None
}

/// The backend named by the first name that carries the listed-name prefix.
pub fn backend_from_names(names: &Vec<String>) -> (r: Option<String>)
    ensures
        r matches Some(b) ==> first_backend_name(names@) == Some(b@),
        r is None ==> first_backend_name(names@) is None,
{
    let mut i: usize = 0;
    assert(names@.skip(0) =~= names@);
    while i < names.len()
        invariant
            i <= names@.len(),
            first_backend_name(names@) == first_backend_name(names@.skip(i as int)),
        decreases names@.len() - i,
    {
        proof {
            assert(names@.skip(i as int).drop_first() =~= names@.skip(i + 1));
        }
        let stripped = strip_prefix(names[i].as_str(), LISTED_NAME_PREFIX);
        if stripped.is_some() {
            return stripped;
        }
        i = i + 1;
    }
    None
}

/// Decides whether a listed container gets a log reader, and under which backend.
pub fn container_subscription(c: &ContainerSummary) -> (r: Result<Subscription, Skip>)
    ensures
        agrees(r, container_eligibility(*c)),
{
    let labels = match &c.labels {
        None => return Err(Skip::NoLabels),
        Some(labels) => labels,
    };
    if find_value(labels, BACKEND_LABEL).is_none() {
        return Err(Skip::NotBackend);
    }
    let names = match &c.names {
        None => return Err(Skip::NoNames),
        Some(names) => names,
    };
    let backend_id = match backend_from_names(names) {
        None => return Err(Skip::NoBackendName),
        Some(b) => b,
    };
    match &c.id {
        None => Err(Skip::NoId),
        Some(id) => Ok(Subscription { container_id: id.clone(), backend_id }),
    }
}

/// Decides whether a start event gets a log reader, and under which backend.
pub fn event_subscription(e: &StartEvent) -> (r: Result<Subscription, Skip>)
    ensures
        agrees(r, event_eligibility(*e)),
{
    let actor = match &e.actor {
        None => return Err(Skip::NoActor),
        Some(actor) => actor,
    };
    let attrs = match &actor.attributes {
        None => return Err(Skip::NoAttributes),
        Some(attrs) => attrs,
    };
    if find_value(attrs, BACKEND_LABEL).is_none() {
        return Err(Skip::NotBackend);
    }
    let name = match find_value(attrs, NAME_ATTRIBUTE) {
        None => return Err(Skip::NoNameAttribute),
        Some(name) => name,
    };
    let backend_id = match strip_prefix(name.as_str(), EVENT_NAME_PREFIX) {
        None => return Err(Skip::BadName),
        Some(b) => b,
    };
    match &actor.id {
        None => Err(Skip::NoId),
        Some(id) => Ok(Subscription { container_id: id.clone(), backend_id }),
    }
}

/// Whether `s` is the subscription that the (container id, backend id) pair `ids` describes.
pub open spec fn names(s: Subscription, ids: (Seq<char>, Seq<char>)) -> bool {
    s.container_id@ == ids.0 && s.backend_id@ == ids.1
}

/// Registers the subscription's container and starts its reader by calling `spawn` with that
/// subscription, only if the container has no reader yet. Otherwise nothing changes and
/// `spawn` is handed back uncalled.
pub fn enlist<F: FnOnce(Subscription) -> JoinHandle<()>>(
    registry: &mut Registry,
    sub: Subscription,
    spawn: F,
) -> (unused: Option<F>)
    requires
        forall|s: Subscription|
            names(s, (sub.container_id@, sub.backend_id@)) ==> #[trigger] spawn.requires((s,)),
    ensures
        unused is Some <==> old(registry)@.contains(sub.container_id@),
        unused matches Some(f) ==> f == spawn && *final(registry) == *old(registry),
        final(registry)@ == old(registry)@.insert(sub.container_id@),
{
    if registry.contains(&sub.container_id) {
        return Some(spawn);
    }
    let id = sub.container_id.clone();
    assert(spawn.requires((sub,)));
    let start = move || -> (h: JoinHandle<()>)
        requires
            spawn.requires((sub,)),
    { spawn(sub) };
    let _ = registry.register_if_absent(id, start);
    None
}

/// The result of handling one listed container or start event.
pub enum Enlisted<F> {
    /// A reader was started: the spawn function was called with the item's subscription.
    Started,
    /// The container already has a reader: the spawn function comes back uncalled.
    Known(F),
    /// The item gets no reader: the spawn function comes back uncalled.
    Skipped(Skip, F),
}

/// What handling an item whose eligibility is `e` returns, and does to the registry: a reader
/// is started exactly when the item is eligible and its container is new; otherwise the
/// registry, handles included, stays as it was.
pub open spec fn enlisted<F>(
    e: Result<(Seq<char>, Seq<char>), Skip>,
    before: Registry,
    after: Registry,
    spawn: F,
    r: Enlisted<F>,
) -> bool {
    match e {
        Err(skip) => r == Enlisted::Skipped(skip, spawn) && after == before,
        Ok((id, _)) => if before@.contains(id) {
            r == Enlisted::Known(spawn) && after == before
        } else {
            r is Started && after@ == before@.insert(id)
        },
    }
}

fn enlist_eligible<F: FnOnce(Subscription) -> JoinHandle<()>>(
    registry: &mut Registry,
    decided: Result<Subscription, Skip>,
    spawn: F,
) -> (r: Enlisted<F>)
    requires
        forall|s: Subscription|
            (decided matches Ok(d) && names(s, (d.container_id@, d.backend_id@)))
                ==> #[trigger] spawn.requires((s,)),
    ensures
        match decided {
            Err(skip) => r == Enlisted::Skipped(skip, spawn) && *final(registry) == *old(registry),
            Ok(d) => enlisted(
                Ok::<(Seq<char>, Seq<char>), Skip>((d.container_id@, d.backend_id@)),
                *old(registry),
                *final(registry),
                spawn,
                r,
            ),
        },
{
    match decided {
        Err(skip) => Enlisted::Skipped(skip, spawn),
        Ok(sub) => match enlist(registry, sub, spawn) {
            None => Enlisted::Started,
            Some(f) => Enlisted::Known(f),
        },
    }
}

/// Handles one container listed at startup: registers it and starts its reader, with the
/// subscription its eligibility gives, if it is an eligible backend container that has no
/// reader yet.
pub fn enlist_container<F: FnOnce(Subscription) -> JoinHandle<()>>(
    registry: &mut Registry,
    c: &ContainerSummary,
    spawn: F,
) -> (r: Enlisted<F>)
    requires
        forall|s: Subscription|
            (container_eligibility(*c) matches Ok(ids) && names(s, ids))
                ==> #[trigger] spawn.requires((s,)),
    ensures
        enlisted(container_eligibility(*c), *old(registry), *final(registry), spawn, r),
{
    enlist_eligible(registry, container_subscription(c), spawn)
}

/// Handles one start event: registers its container and starts its reader, with the
/// subscription its eligibility gives, if it is an eligible backend container that has no
/// reader yet.
pub fn enlist_event<F: FnOnce(Subscription) -> JoinHandle<()>>(
    registry: &mut Registry,
    e: &StartEvent,
    spawn: F,
) -> (r: Enlisted<F>)
    requires
        forall|s: Subscription|
            (event_eligibility(*e) matches Ok(ids) && names(s, ids))
                ==> #[trigger] spawn.requires((s,)),
    ensures
        enlisted(event_eligibility(*e), *old(registry), *final(registry), spawn, r),
{
    enlist_eligible(registry, event_subscription(e), spawn)
}

/// The registered set after a run of eligibility decisions, from `ids`: each eligible item
/// adds its container id.
pub open spec fn registered_after(
    ids: Set<Seq<char>>,
    decisions: Seq<Result<(Seq<char>, Seq<char>), Skip>>,
) -> Set<Seq<char>>
    decreases decisions.len(),
{
    if decisions.len() == 0 {
        ids
    } else {
        let before = registered_after(ids, decisions.drop_last());
        match decisions.last() {
            Ok((id, _)) => before.insert(id),
            Err(_) => before,
        }
    }
}

/// The eligibility decisions for a list of containers, in order.
pub open spec fn container_decisions(cs: Seq<ContainerSummary>) -> Seq<
    Result<(Seq<char>, Seq<char>), Skip>,
> {
    cs.map_values(|c: ContainerSummary| container_eligibility(c))
}

/// Whether item `j` of a run of decisions, from the registered set `ids`, starts a reader:
/// it is eligible and its container was not registered by then.
pub open spec fn starts_reader(
    ids: Set<Seq<char>>,
    decisions: Seq<Result<(Seq<char>, Seq<char>), Skip>>,
    j: int,
) -> bool {
    &&& decisions[j] is Ok
    &&& !registered_after(ids, decisions.take(j)).contains(decisions[j]->Ok_0.0)
}

/// What the startup pass gives for item `i`: its skip, the subscription to start when it
/// starts a reader, or `None` when its container is already registered or listed earlier.
pub open spec fn startup_entry(
    ids: Set<Seq<char>>,
    decisions: Seq<Result<(Seq<char>, Seq<char>), Skip>>,
    i: int,
    r: Result<Option<Subscription>, Skip>,
) -> bool {
    match decisions[i] {
        Err(skip) => r == Err::<Option<Subscription>, Skip>(skip),
        Ok(pair) => if starts_reader(ids, decisions, i) {
            r matches Ok(Some(s)) && names(s, pair)
        } else {
            r == Ok::<Option<Subscription>, Skip>(None)
        },
    }
}

/// Whether `k` is one of the strings in `v`.
pub fn listed_in(v: &Vec<String>, k: &String) -> (r: bool)
    ensures
        r == exists|j: int| 0 <= j < v@.len() && v@[j]@ == k@,
{
    let mut i: usize = 0;
    while i < v.len()
        invariant
            i <= v@.len(),
            forall|j: int| 0 <= j < i ==> v@[j]@ != k@,
        decreases v@.len() - i,
    {
        if same_text(v[i].as_str(), k.as_str()) {
            return true;
        }
        i = i + 1;
    }
    false
}

/// The startup pass over the listed containers, in order: for each one, why it is skipped,
/// or the subscription to start for it, or `None` when its container already has a reader
/// in `registry` or was listed earlier. Each eligible new container thus gets exactly one
/// subscription, with the backend of its first listing.
pub fn startup_subscriptions(registry: &Registry, containers: &Vec<ContainerSummary>) -> (r: Vec<
    Result<Option<Subscription>, Skip>,
>)
    ensures
        r@.len() == containers@.len(),
        forall|i: int|
            0 <= i < containers@.len() ==> startup_entry(
                registry@,
                container_decisions(containers@),
                i,
                #[trigger] r@[i],
            ),
{
    let ghost ids = registry@;
    let ghost ds = container_decisions(containers@);
    let mut out: Vec<Result<Option<Subscription>, Skip>> = Vec::new();
    let mut seen: Vec<String> = Vec::new();
    let mut i: usize = 0;
    assert(ds.take(0) =~= Seq::<Result<(Seq<char>, Seq<char>), Skip>>::empty());
    while i < containers.len()
        invariant
            i <= containers@.len(),
            ids == registry@,
            ds == container_decisions(containers@),
            ds.len() == containers@.len(),
            out@.len() == i,
            forall|k: Seq<char>|
                #[trigger] registered_after(ids, ds.take(i as int)).contains(k) <==> (ids.contains(k)
                    || exists|j: int| 0 <= j < seen@.len() && seen@[j]@ == k),
            forall|j: int| 0 <= j < i ==> startup_entry(ids, ds, j, #[trigger] out@[j]),
        decreases containers@.len() - i,
    {
        let ghost prev = registered_after(ids, ds.take(i as int));
        proof {
            assert(ds.take(i + 1).drop_last() =~= ds.take(i as int));
            assert(ds.take(i + 1).last() == ds[i as int]);
            assert(ds[i as int] == container_eligibility(containers@[i as int]));
        }
        let d = container_subscription(&containers[i]);
        match d {
            Err(skip) => {
                out.push(Err(skip));
            },
            Ok(sub) => {
                let known = registry.contains(&sub.container_id) || listed_in(
                    &seen,
                    &sub.container_id,
                );
                let ghost old_seen = seen@;
                seen.push(sub.container_id.clone());
                proof {
                    assert forall|k: Seq<char>|
                        #[trigger] registered_after(ids, ds.take(i + 1)).contains(k) <==> (
                        ids.contains(k) || exists|j: int| 0 <= j < seen@.len() && seen@[j]@ == k) by {
                        if exists|j: int| 0 <= j < old_seen.len() && old_seen[j]@ == k {
                            let j = choose|j: int| 0 <= j < old_seen.len() && old_seen[j]@ == k;
                            assert(seen@[j] == old_seen[j]);
                        }
                        if exists|j: int| 0 <= j < seen@.len() && seen@[j]@ == k {
                            let j = choose|j: int| 0 <= j < seen@.len() && seen@[j]@ == k;
                            if j < old_seen.len() {
                                assert(seen@[j] == old_seen[j]);
                            }
                        }
                        assert(seen@[old_seen.len() as int]@ == sub.container_id@);
                    }
                    assert(prev.contains(sub.container_id@) == known);
                }
                if known {
                    out.push(Ok(None));
                } else {
                    out.push(Ok(Some(sub)));
                }
            },
        }
        i = i + 1;
    }
    out
}

/// Over a run of `register_if_absent` calls with `keys`, starting from the registered set
/// `ids`, the number of calls with key `k` that called their factory. By its contract a call
/// calls its factory exactly when its key is not yet registered (otherwise it hands the
/// factory back), and registers the key either way.
pub open spec fn starts_for(ids: Set<Seq<char>>, keys: Seq<Seq<char>>, k: Seq<char>) -> nat
    decreases keys.len(),
{
    if keys.len() == 0 {
        0
    } else {
        (if keys[0] == k && !ids.contains(k) {
            1nat
        } else {
            0nat
        }) + starts_for(ids.insert(keys[0]), keys.drop_first(), k)
    }
}

/// Whatever the order and repetition of `register_if_absent` calls, the factories of key `k`
/// are called exactly once in all if `k` occurs and was not registered before, and never
/// otherwise.
pub proof fn lemma_one_start_per_key(ids: Set<Seq<char>>, keys: Seq<Seq<char>>, k: Seq<char>)
    ensures
        starts_for(ids, keys, k) == (if keys.contains(k) && !ids.contains(k) {
            1nat
        } else {
            0nat
        }),
    decreases keys.len(),
{
    if keys.len() > 0 {
        let rest = keys.drop_first();
        lemma_one_start_per_key(ids.insert(keys[0]), rest, k);
        if rest.contains(k) {
            let j = choose|j: int| 0 <= j < rest.len() && rest[j] == k;
            assert(keys[j + 1] == k);
        }
        if keys.contains(k) && keys[0] != k {
            let j = choose|j: int| 0 <= j < keys.len() && keys[j] == k;
            assert(rest[j - 1] == k);
        }
        if keys[0] == k {
            assert(keys.contains(k));
        }
    }
}

/// Calling `register_if_absent` `n >= 1` times with the same container id, in whatever order
/// the callers' exclusive access puts them, calls exactly one of the factories, once, when the
/// id was not registered before.
pub proof fn lemma_repeated_registration_starts_once(
    ids: Set<Seq<char>>,
    k: Seq<char>,
    n: nat,
)
    requires
        n >= 1,
        !ids.contains(k),
    ensures
        starts_for(ids, Seq::new(n, |i: int| k), k) == 1,
{
    let keys = Seq::new(n, |i: int| k);
    assert(keys[0] == k);
    lemma_one_start_per_key(ids, keys, k);
}

proof fn lemma_registered_after_contains(
    ids: Set<Seq<char>>,
    decisions: Seq<Result<(Seq<char>, Seq<char>), Skip>>,
    k: Seq<char>,
)
    ensures
        registered_after(ids, decisions).contains(k) <==> (ids.contains(k) || exists|j: int|
            0 <= j < decisions.len() && decisions[j] is Ok && decisions[j]->Ok_0.0 == k),
    decreases decisions.len(),
{
    if decisions.len() > 0 {
        let init = decisions.drop_last();
        lemma_registered_after_contains(ids, init, k);
        if exists|j: int| 0 <= j < init.len() && init[j] is Ok && init[j]->Ok_0.0 == k {
            let j = choose|j: int| 0 <= j < init.len() && init[j] is Ok && init[j]->Ok_0.0 == k;
            assert(decisions[j] == init[j]);
        }
        if exists|j: int|
            0 <= j < decisions.len() && decisions[j] is Ok && decisions[j]->Ok_0.0 == k {
            let j = choose|j: int|
                0 <= j < decisions.len() && decisions[j] is Ok && decisions[j]->Ok_0.0 == k;
            if j < init.len() {
                assert(init[j] == decisions[j]);
            }
        }
    }
}

/// For a container listed at startup whose id `k` has no reader yet, the startup pass gives a
/// subscription at exactly one listing of `k`, the first, so its backend is the one first
/// listed; afterwards `k` is registered, and a later start event for it starts nothing and
/// leaves the registry, handles included, as it was.
pub proof fn lemma_startup_containers_start_once<F>(
    ids: Set<Seq<char>>,
    listed: Seq<ContainerSummary>,
    i: int,
)
    requires
        0 <= i < listed.len(),
        container_eligibility(listed[i]) is Ok,
        !ids.contains(container_eligibility(listed[i])->Ok_0.0),
    ensures
        ({
            let ds = container_decisions(listed);
            let k = container_eligibility(listed[i])->Ok_0.0;
            &&& registered_after(ids, ds).contains(k)
            &&& exists|j: int|
                0 <= j < ds.len() && starts_reader(ids, ds, j) && ds[j]->Ok_0.0 == k && forall|
                    m: int,
                | 0 <= m < j ==> !(ds[m] is Ok && ds[m]->Ok_0.0 == k)
            &&& forall|j1: int, j2: int|
                0 <= j1 < ds.len() && 0 <= j2 < ds.len() && starts_reader(ids, ds, j1)
                    && starts_reader(ids, ds, j2) && ds[j1]->Ok_0.0 == k && ds[j2]->Ok_0.0
                    == k ==> j1 == j2
            &&& forall|e: StartEvent, before: Registry, after: Registry, spawn: F, r: Enlisted<F>|
                before@.contains(k) && event_eligibility(e) is Ok && event_eligibility(e)->Ok_0.0
                    == k && enlisted(event_eligibility(e), before, after, spawn, r) ==> r
                    == Enlisted::Known(spawn) && after == before
        }),
{
    let ds = container_decisions(listed);
    let k = container_eligibility(listed[i])->Ok_0.0;
    let ids0 = ids;
    assert(ds[i] == container_eligibility(listed[i]));
    lemma_registered_after_contains(ids0, ds, k);
    let j0 = lemma_first_match(ds, k, i);
    lemma_registered_after_contains(ids0, ds.take(j0), k);
    assert forall|m: int| 0 <= m < j0 implies !(ds.take(j0)[m] is Ok && ds.take(j0)[m]->Ok_0.0
        == k) by {
        assert(ds.take(j0)[m] == ds[m]);
    }
    assert(starts_reader(ids0, ds, j0));
    assert forall|j: int|
        0 <= j < ds.len() && starts_reader(ids0, ds, j) && ds[j]->Ok_0.0 == k implies j
        == j0 by {
        if j > j0 {
            lemma_registered_after_contains(ids0, ds.take(j), k);
            assert(ds.take(j)[j0] == ds[j0]);
        }
    }
}

proof fn lemma_first_match(
    decisions: Seq<Result<(Seq<char>, Seq<char>), Skip>>,
    k: Seq<char>,
    i: int,
) -> (j: int)
    requires
        0 <= i < decisions.len(),
        decisions[i] is Ok,
        decisions[i]->Ok_0.0 == k,
    ensures
        0 <= j <= i,
        decisions[j] is Ok,
        decisions[j]->Ok_0.0 == k,
        forall|m: int| 0 <= m < j ==> !(decisions[m] is Ok && decisions[m]->Ok_0.0 == k),
    decreases i,
{
    if exists|m: int| 0 <= m < i && decisions[m] is Ok && decisions[m]->Ok_0.0 == k {
        let m = choose|m: int| 0 <= m < i && decisions[m] is Ok && decisions[m]->Ok_0.0 == k;
        lemma_first_match(decisions, k, m)
    } else {
        i
    }
}

} // verus!