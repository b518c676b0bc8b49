use vstd::prelude::*;
use vstd::string::*;

use std::collections::HashMap;

use crate::errors::{MakerError, MakerErrorType};

verus! {

use vstd::std_specs::hash::spec_keys_iter;
use vstd::std_specs::iter::IteratorSpec;

broadcast use vstd::std_specs::hash::group_hash_axioms;

/// The error of starting bot `name` while it runs.
pub fn already_running(name: &String) -> (e: MakerError)
    ensures
        e.error_type == MakerErrorType::BotRunnerError,
        e.message@ == "Bot "@ + name@ + " already running"@,
        e.source is None,
        e.location is None,
{
    proof {
        reveal_strlit("Bot ");
        reveal_strlit(" already running");
    }
    let message = "Bot ".to_owned().concat(name.as_str()).concat(" already running");
    MakerError::new(message, MakerErrorType::BotRunnerError)
}

/// The bots that run now, each with the handle that stops it.
pub struct BotRegistry<T> {
    pub running: HashMap<u8, T>,
}

impl<T> BotRegistry<T> {
    /// The identifiers of the running bots.
    pub open spec fn ids(&self) -> Set<u8> {
        self.running@.dom()
    }

    /// An empty registry.
    pub fn new() -> (r: BotRegistry<T>)
        ensures
            r.ids() == Set::<u8>::empty(),
    {
        BotRegistry { running: HashMap::new() }
    }

    /// Whether bot `id` runs.
    pub fn is_running(&self, id: u8) -> (r: bool)
        ensures
            r == self.ids().contains(id),
    {
        self.running.contains_key(&id)
    }

    /// Records that bot `id`, named `name`, runs with `handle`; fails, changing
    /// nothing and handing the handle back, if it runs already.
    pub fn start(&mut self, id: u8, name: &String, handle: T) -> (r: Result<(), (MakerError, T)>)
        ensures
            old(self).ids().contains(id) ==> {
                &&& final(self).ids() == old(self).ids()
                &&& r matches Err((e, _)) && e.error_type == MakerErrorType::BotRunnerError
                    && e.message@ == "Bot "@ + name@ + " already running"@
            },
            !old(self).ids().contains(id) ==> {
                &&& final(self).ids() == old(self).ids().insert(id)
                &&& r is Ok
            },
    {
        if self.is_running(id) {
            return Err((already_running(name), handle));
        }
        self.running.insert(id, handle);
        Ok(())
    }

    /// Removes bot `id` and hands back its handle, if it runs.
    pub fn stop(&mut self, id: u8) -> (r: Option<T>)
        ensures
            r is Some <==> old(self).ids().contains(id),
            final(self).ids() == old(self).ids().remove(id),
    {
        self.running.remove(&id)
    }

    /// The identifiers of the running bots, each once, in no set order.
    pub fn running_ids(&self) -> (r: Vec<u8>)
        ensures
            r@.to_set() == self.ids(),
            r@.no_duplicates(),
    {
        let mut r: Vec<u8> = Vec::new();
        for k in it: self.running.keys()
            invariant
                r@ == it.seq().subrange(0, it.index()).unref(),
        {
            r.push(*k);
            assert(r@ =~= it.seq().subrange(0, it.index() + 1).unref());
        }
        proof {
            let all = spec_keys_iter(&self.running).remaining();
            assert(r@ =~= all.unref());
        }
        r
    }
}

} // verus!
