use vstd::prelude::*;
use dashmap::DashMap;
use tokio::task::JoinHandle;

verus! {

/// dashmap's concurrent map, held opaque; its keys are spoken of through `registered_ids`.
#[verifier::external_type_specification]
#[verifier::external_body]
#[verifier::reject_recursive_types(K)]
#[verifier::reject_recursive_types(V)]
#[verifier::reject_recursive_types(S)]
pub struct ExDashMap<K, V, S>(DashMap<K, V, S>);

/// tokio's handle to a spawned task, carried through opaque.
#[verifier::external_type_specification]
#[verifier::external_body]
#[verifier::reject_recursive_types(T)]
pub struct ExJoinHandle<T>(JoinHandle<T>);

/// tokio's task error, named by the handle's `Future` impl.
#[verifier::external_type_specification]
#[verifier::external_body]
pub struct ExJoinError(tokio::task::JoinError);

/// The container identifiers that a map of reader handles holds as keys.
pub uninterp spec fn registered_ids(m: DashMap<String, JoinHandle<()>>) -> Set<Seq<char>>;

/// Relies on `DashMap::new`: a new map holds no key.
#[verifier::external_body]
fn map_new() -> (r: DashMap<String, JoinHandle<()>>)
    ensures
        registered_ids(r) == Set::<Seq<char>>::empty(),
{
    DashMap::new()
}

/// Relies on `DashMap::contains_key`: whether the key is present.
#[verifier::external_body]
fn map_contains(m: &DashMap<String, JoinHandle<()>>, k: &String) -> (r: bool)
    ensures
        r == registered_ids(*m).contains(k@),
{
    m.contains_key(k)
}

/// Relies on `DashMap::insert`: afterwards the key is present, and no other key was added
/// or removed.
#[verifier::external_body]
fn map_insert(m: &mut DashMap<String, JoinHandle<()>>, k: String, v: JoinHandle<()>)
    ensures
        registered_ids(*final(m)) == registered_ids(*old(m)).insert(k@),
{
    m.insert(k, v);
}

/// The set of containers that have a log reader, each started at most once.
///
/// An entry is never removed: a container identifier is taken not to be reused while the
/// process runs. Mutation goes through `&mut self`, so the check for a key and its insertion
/// form one step for every caller.
pub struct Registry {
    tasks: DashMap<String, JoinHandle<()>>,
}

impl View for Registry {
    type V = Set<Seq<char>>;

    closed spec fn view(&self) -> Set<Seq<char>> {
        registered_ids(self.tasks)
    }
}

impl Registry {
    pub fn new() -> (r: Registry)
        ensures
            r@ == Set::<Seq<char>>::empty(),
    {
        Registry { tasks: map_new() }
    }

    pub fn contains(&self, container_id: &String) -> (r: bool)
        ensures
            r == self@.contains(container_id@),
    {
        map_contains(&self.tasks, container_id)
    }

    /// Calls `factory` and keeps the handle it returns if `container_id` has no entry yet.
    /// Otherwise leaves the registry as it is, the existing handle included, and hands
    /// `factory` back uncalled. A handle can only come from calling the factory, so a `None`
    /// means it was called, once.
    pub fn register_if_absent<F: FnOnce() -> JoinHandle<()>>(
        &mut self,
        container_id: String,
        factory: F,
    ) -> (unused: Option<F>)
        requires
            factory.requires(()),
        ensures
            unused is Some <==> old(self)@.contains(container_id@),
            unused matches Some(f) ==> f == factory && *final(self) == *old(self),
            final(self)@ == old(self)@.insert(container_id@),
    {
        if map_contains(&self.tasks, &container_id) {
            Some(factory)
        } else {
            let handle = factory();
            map_insert(&mut self.tasks, container_id, handle);
            None
        }
    }
}

} // verus!
