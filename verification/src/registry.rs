//! The registry of RPC methods: which handler answers which method name.

use vstd::prelude::*;
use crate::error::RpcError;
use crate::message::RpcMessage;
use crate::table::Table;

verus! {

/// The handlers that clients can call, by method name. `C` is the type of a
/// handler.
pub struct RpcMethodRegistry<C> {
    methods: Table<String, C>,
}

impl<C> View for RpcMethodRegistry<C> {
    type V = Map<Seq<char>, C>;

    closed spec fn view(&self) -> Map<Seq<char>, C> {
        self.methods.view()
    }
}

impl<C> RpcMethodRegistry<C> {
    #[verifier::type_invariant]
    closed spec fn well_formed(self) -> bool {
        self.methods.wf()
    }

    /// An empty registry.
    pub fn new() -> (r: Self)
        ensures
            r@ == Map::<Seq<char>, C>::empty(),
            r@.dom().finite(),
    {
        RpcMethodRegistry { methods: Table::new() }
    }

    /// Registers `callback` as the handler of `method`. A method that already
    /// has a handler keeps it, and the registration fails.
    pub fn handle(&mut self, method: &str, callback: C) -> (r: Result<(), RpcError>)
        ensures
            old(self)@.dom().finite(),
            final(self)@.dom().finite(),
            final(self)@.dom().len() == old(self)@.dom().len() + if r is Ok { 1int } else { 0int },
            match r {
                Ok(()) => !old(self)@.contains_key(method@)
                    && final(self)@ == old(self)@.insert(method@, callback),
                Err(e) => old(self)@.contains_key(method@) && final(self)@ == old(self)@
                    && (e matches RpcError::AlreadyExists(m) && m@ == method@),
            },
    {
        proof { use_type_invariant(&*self); }
        proof { self.methods.lemma_view(); }
        let name = String::from_str(method);
        if self.methods.contains_key(&name) {
            return Err(RpcError::AlreadyExists(name));
        }
        let mut methods = Table::new();
        std::mem::swap(&mut methods, &mut self.methods);
        methods.insert(name, callback);
        proof { methods.lemma_view(); }
        self.methods = methods;
        Ok(())
    }

    /// Number of registered methods.
    pub fn len(&self) -> (n: usize)
        ensures
            self@.dom().finite(),
            n == self@.dom().len(),
    {
        proof {
            use_type_invariant(self);
            self.methods.lemma_view();
        }
        self.methods.len()
    }

    /// The handler that a call of `message` goes to.
    pub fn resolve(&self, message: &RpcMessage) -> (r: Result<&C, RpcError>)
        ensures
            match r {
                Ok(cb) => self@.contains_key(message.method@) && *cb == self@[message.method@],
                Err(e) => !self@.contains_key(message.method@)
                    && (e matches RpcError::NotFound(m) && m@ == message.method@),
            },
    {
        proof { use_type_invariant(self); }
        match self.methods.get(&message.method) {
            Some(cb) => Ok(cb),
            None => Err(RpcError::NotFound(message.method.clone())),
        }
    }
}

/// After `handle(m, cb)`, whatever it returned, `m` resolves: to the handler
/// it had before if it had one, else to `cb`; every other method resolves as
/// before, and the registry holds one method more exactly when `m` was new.
pub proof fn law_handle_then_resolve<C>(
    before: Map<Seq<char>, C>,
    after: Map<Seq<char>, C>,
    m: Seq<char>,
    cb: C,
    other: Seq<char>,
)
    requires
        before.dom().finite(),
        before.contains_key(m) ==> after == before,
        !before.contains_key(m) ==> after == before.insert(m, cb),
        other != m,
    ensures
        after.dom().len() == before.dom().len() + if before.contains_key(m) { 0int } else { 1int },
        after.contains_key(m),
        before.contains_key(m) ==> after[m] == before[m],
        !before.contains_key(m) ==> after[m] == cb,
        after.contains_key(other) == before.contains_key(other),
        before.contains_key(other) ==> after[other] == before[other],
{
}

} // verus!
