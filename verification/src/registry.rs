//! The service registry: handlers by service name.
//!
//! Names are unique. Registering a name again replaces the handler that was
//! there (the last registration wins) and hands the replaced handler back,
//! so that the caller can tell. Every name keeps, for as long as the registry
//! lives, the slot that its first registration gave it.

use vstd::hash_map::StringHashMap;
use vstd::prelude::*;

verus! {

/// Handlers by service name, with hash-based lookup.
pub struct Registry<H> {
    index: StringHashMap<usize>,
    handlers: Vec<H>,
}

impl<H> View for Registry<H> {
    type V = Map<Seq<char>, H>;

    /// The handler registered under each name.
    closed spec fn view(&self) -> Map<Seq<char>, H> {
        Map::new(
            |name: Seq<char>| self.index@.contains_key(name),
            |name: Seq<char>| self.handlers@[self.index@[name] as int],
        )
    }
}

impl<H> Registry<H> {
    /// Every name points at a handler, and no two names at the same one.
    #[verifier::type_invariant]
    pub closed spec fn wf(&self) -> bool {
        &&& forall|name: Seq<char>| #[trigger]
            self.index@.contains_key(name) ==> self.index@[name] < self.handlers@.len()
        &&& forall|a: Seq<char>, b: Seq<char>|
            #![trigger self.index@[a], self.index@[b]]
            self.index@.contains_key(a) && self.index@.contains_key(b) && a != b
                ==> self.index@[a] != self.index@[b]
    }

    /// The slot of each registered name.
    pub closed spec fn slots(&self) -> Map<Seq<char>, usize> {
        self.index@
    }

    /// The handler in each slot.
    pub closed spec fn handlers(&self) -> Seq<H> {
        self.handlers@
    }

    /// The slot that `name` resolves to, if it is registered.
    pub open spec fn spec_resolve(&self, name: Seq<char>) -> Option<usize> {
        if self.slots().contains_key(name) {
            Some(self.slots()[name])
        } else {
            None
        }
    }

    /// How the view, the slots and the handlers hang together.
    pub proof fn lemma_view(&self)
        requires
            self.wf(),
        ensures
            forall|name: Seq<char>| #[trigger]
                self.slots().contains_key(name) ==> self.slots()[name] < self.handlers().len(),
            self@.dom() == self.slots().dom(),
            forall|name: Seq<char>| #[trigger]
                self@.contains_key(name) ==> self@[name] == self.handlers()[self.slots()[name] as int],
    {
        assert(self@.dom() =~= self.slots().dom());
    }

    /// A registry without services.
    pub fn new() -> (registry: Self)
        ensures
            registry@ == Map::<Seq<char>, H>::empty(),
            registry.slots() == Map::<Seq<char>, usize>::empty(),
            registry.handlers() == Seq::<H>::empty(),
    {
        let registry = Registry { index: StringHashMap::new(), handlers: Vec::new() };
        assert(registry@ =~= Map::<Seq<char>, H>::empty());
        registry
    }

    /// Whether a handler is registered under `name`.
    pub fn contains(&self, name: &str) -> (found: bool)
        ensures
            found == self@.contains_key(name@),
    {
        self.index.contains_key(name)
    }

    /// The slot of the handler registered under `name`.
    pub fn resolve(&self, name: &str) -> (slot: Option<usize>)
        ensures
            slot == self.spec_resolve(name@),
            slot matches Some(s) ==> s < self.handlers().len(),
    {
        proof {
            use_type_invariant(self);
        }
        match self.index.get(name) {
            Some(slot) => Some(*slot),
            None => None,
        }
    }

    /// Registers `handler` under `name`. A handler already registered under
    /// that name is replaced and returned.
    pub fn register(&mut self, name: &str, handler: H) -> (replaced: Option<H>)
        ensures
            final(self)@ == old(self)@.insert(name@, handler),
            replaced == (if old(self)@.contains_key(name@) {
                Some(old(self)@[name@])
            } else {
                None
            }),
            forall|other: Seq<char>| #[trigger]
                old(self).slots().contains_key(other) ==> final(self).spec_resolve(other)
                    == old(self).spec_resolve(other),
            final(self).slots().dom() == old(self).slots().dom().insert(name@),
    {
        let found = self.resolve(name);
        // Taken apart and put together again, so that the invariant is
        // checked once, on the whole.
        let mut taken = Registry::new();
        std::mem::swap(self, &mut taken);
        proof {
            use_type_invariant(&taken);
        }
        let Registry { mut index, mut handlers } = taken;
        let replaced = match found {
            Some(slot) => {
                handlers.push(handler);
                Some(handlers.swap_remove(slot))
            },
            None => {
                let slot: usize = handlers.len();
                handlers.push(handler);
                index.insert(name.to_owned(), slot);
                None
            },
        };
        *self = Registry { index, handlers };
        assert(self@ =~= old(self)@.insert(name@, handler));
        assert(self.slots().dom() =~= old(self).slots().dom().insert(name@));
        replaced
    }

    /// The handler registered under `name`, for the length of one dispatch.
    pub fn lookup(&mut self, name: &str) -> (found: Option<&mut H>)
        ensures
            found is Some <==> old(self)@.contains_key(name@),
            found matches Some(h) ==> *h == old(self)@[name@]
                && final(self)@ == old(self)@.insert(name@, *final(h)),
            found is None ==> final(self)@ == old(self)@,
            final(self).slots() == old(self).slots(),
    {
        proof {
            use_type_invariant(&*self);
        }
        match self.resolve(name) {
            Some(slot) => self.handler_mut(slot),
            None => None,
        }
    }

    /// The handler in `slot`, for the length of one dispatch.
    pub fn handler_mut(&mut self, slot: usize) -> (found: Option<&mut H>)
        ensures
            found is Some <==> slot < old(self).handlers().len(),
            found matches Some(h) ==> *h == old(self).handlers()[slot as int]
                && final(self).handlers() == old(self).handlers().update(slot as int, *final(h)),
            found is None ==> final(self).handlers() == old(self).handlers(),
            final(self).slots() == old(self).slots(),
        no_unwind
    {
        proof {
            use_type_invariant(&*self);
        }
        if slot < self.handlers.len() {
            Some(&mut self.handlers[slot])
        } else {
            None
        }
    }

    /// The number of registered services.
    pub fn len(&self) -> (n: usize)
        ensures
            n == self.slots().dom().len(),
    {
        self.index.len()
    }
}

} // verus!
