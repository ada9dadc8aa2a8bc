use vstd::prelude::*;

use crate::types::Id;

verus! {

/// Why a resource could not be loaded.
#[derive(Clone, Copy, Debug, PartialEq, Eq, Structural)]
pub enum ResourceError {
    LoadFailed,
}

/// A resource that can be identified by an id of kind `Id`.
pub trait Resource {
    type Id;
}

/// Loads resources of type `Res` by key.
pub trait ResourceLoader<Res> {
    fn load(&self, key: &str) -> Result<Res, ResourceError>;
}

/// Caches the resources that a loader loads, under ids issued in order from 0.
pub struct ResourceManager<Res: Resource, Load: ResourceLoader<Res>> {
    loader: Load,
    cache: Vec<Res>,
}

impl<Res: Resource, Load: ResourceLoader<Res>> ResourceManager<Res, Load> {
    /// The loaded resources: the one with id `i` at index `i`.
    pub closed spec fn cache(&self) -> Seq<Res> {
        self.cache@
    }

    /// The loader.
    pub closed spec fn loader_of(&self) -> Load {
        self.loader
    }

    /// The loader.
    pub fn loader(&self) -> (r: &Load)
        ensures
            *r == self.loader_of(),
    {
        &self.loader
    }

    /// An empty cache.
    pub fn new(loader: Load) -> (r: Self)
        ensures
            r.cache().len() == 0,
            r.loader_of() == loader,
    {
        ResourceManager { loader, cache: Vec::new() }
    }

    /// Installs the outcome of a load: a loaded resource goes under the next
    /// id, which is returned; a failure changes nothing and is passed on.
    pub fn install(&mut self, loaded: Result<Res, ResourceError>) -> (r: Result<Id<Res::Id>, ResourceError>)
        requires
            old(self).cache().len() < u32::MAX,
        ensures
            final(self).loader_of() == old(self).loader_of(),
            match loaded {
                Ok(v) => r matches Ok(id) && id.val == old(self).cache().len() && final(self).cache()
                    == old(self).cache().push(v),
                Err(e) => r == Err::<Id<Res::Id>, ResourceError>(e) && final(self).cache() == old(
                    self,
                ).cache(),
            },
    {
        match loaded {
            Ok(v) => {
                let id = Id::new(self.cache.len() as u32);
                self.cache.push(v);
                Ok(id)
            },
            Err(e) => Err(e),
        }
    }

    /// Loads `key` through the loader and caches the result under a new id.
    /// A failed load changes nothing.
    pub fn load(&mut self, key: &str) -> (r: Result<Id<Res::Id>, ResourceError>)
        requires
            old(self).cache().len() < u32::MAX,
        ensures
            final(self).loader_of() == old(self).loader_of(),
            r matches Ok(id) ==> id.val == old(self).cache().len() && final(self).cache().len()
                == old(self).cache().len() + 1 && final(self).cache().subrange(
                0,
                old(self).cache().len() as int,
            ) == old(self).cache(),
            r is Err ==> final(self).cache() == old(self).cache(),
    {
        let loaded = self.loader.load(key);
        let ghost before = self.cache();
        let r = self.install(loaded);
        proof {
            if r is Ok {
                assert(self.cache().subrange(0, before.len() as int) =~= before);
            }
        }
        r
    }

    /// The number of loaded resources.
    pub fn len(&self) -> (r: usize)
        ensures
            r == self.cache().len(),
    {
        self.cache.len()
    }

    /// The resource loaded under `id`, which must have been issued.
    pub fn get(&self, id: Id<Res::Id>) -> (r: &Res)
        requires
            id.val < self.cache().len(),
        ensures
            *r == self.cache()[id.val as int],
    {
        &self.cache[id.val as usize]
    }
}

/// Ids are issued in order without reuse: two successful loads, one after
/// the other, return ids that differ, the second one greater by one, and the
/// first resource is still found under its id.
pub proof fn lemma_ids_distinct<Res: Resource, Load: ResourceLoader<Res>>(
    m0: &ResourceManager<Res, Load>,
    m1: &ResourceManager<Res, Load>,
    m2: &ResourceManager<Res, Load>,
    a: Id<Res::Id>,
    b: Id<Res::Id>,
)
    requires
        a.val == m0.cache().len() && m1.cache().len() == m0.cache().len() + 1,
        b.val == m1.cache().len() && m2.cache().len() == m1.cache().len() + 1,
        m2.cache().subrange(0, m1.cache().len() as int) == m1.cache(),
    ensures
        a.val != b.val,
        b.val == a.val + 1,
        a.val < m2.cache().len() && m2.cache()[a.val as int] == m1.cache()[a.val as int],
{
    assert(m2.cache().subrange(0, m1.cache().len() as int)[a.val as int] == m2.cache()[a.val as int]);
}

} // verus!
