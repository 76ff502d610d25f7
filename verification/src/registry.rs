//! The dispatch registry: an ordered collection of handlers, invoked through
//! the one capability they share, never by their concrete type.

use crate::poll::Fault;
use vstd::prelude::*;

verus! {

/// The capability that every handler offers: it can be invoked with
/// arguments of type `A` and answers with an `R` or with a fault.
pub trait Handler<A, R> {
    /// Invoked with `args`, the handler may answer `out`.
    spec fn replies(&self, args: &A, out: &Result<R, Fault>) -> bool;

    /// Invokes the handler.
    fn invoke(&self, args: &A) -> (out: Result<R, Fault>)
        ensures
            self.replies(args, &out),
    ;
}

/// An owning handle to a handler of any concrete type. Registries of such
/// handles hold handlers of different types side by side.
#[verifier::reject_recursive_types(A)]
#[verifier::reject_recursive_types(R)]
pub struct AnyHandler<A, R> {
    inner: Box<dyn Handler<A, R>>,
}

impl<A, R> AnyHandler<A, R> {
    /// Invoked with `args`, the handler behind the handle may answer `out`.
    pub closed spec fn answers(&self, args: &A, out: &Result<R, Fault>) -> bool {
        self.inner.replies(args, out)
    }

    /// Moves `handler` to the heap and forgets its type; the handle answers as `handler` does.
    pub fn new<H: Handler<A, R> + 'static>(handler: H) -> (any: AnyHandler<A, R>)
        ensures
            forall|args: &A, out: &Result<R, Fault>| #[trigger]
                any.answers(args, out) <==> handler.replies(args, out),
    {
        AnyHandler { inner: Box::new(Held { handler }) }
    }
}

impl<A, R> Handler<A, R> for AnyHandler<A, R> {
    open spec fn replies(&self, args: &A, out: &Result<R, Fault>) -> bool {
        self.answers(args, out)
    }

    /// Invokes the handler behind the handle.
    fn invoke(&self, args: &A) -> (out: Result<R, Fault>) {
        self.inner.invoke(args)
    }
}

/// A handler as it lies behind a handle: it answers as the handler does.
struct Held<H> {
    handler: H,
}

impl<A, R, H: Handler<A, R>> Handler<A, R> for Held<H> {
    closed spec fn replies(&self, args: &A, out: &Result<R, Fault>) -> bool {
        self.handler.replies(args, out)
    }

    /// Invokes the handler.
    fn invoke(&self, args: &A) -> (out: Result<R, Fault>) {
        self.handler.invoke(args)
    }
}

/// One registration: a handler and the tag it was registered under.
pub struct Entry<H> {
    /// The tag given at registration.
    pub tag: u64,
    /// The handler.
    pub handler: H,
}

/// Handlers in the order in which they were registered.
pub struct Registry<H> {
    entries: Vec<Entry<H>>,
}

impl<H> View for Registry<H> {
    type V = Seq<Entry<H>>;

    closed spec fn view(&self) -> Seq<Entry<H>> {
        self.entries@
    }
}

impl<H> Registry<H> {
    /// A registry without handlers.
    pub fn new() -> (reg: Registry<H>)
        ensures
            reg@ == Seq::<Entry<H>>::empty(),
    {
        Registry { entries: Vec::new() }
    }

    /// How many handlers are registered.
    pub fn len(&self) -> (n: usize)
        ensures
            n == self@.len(),
    {
        self.entries.len()
    }

    /// Appends a handler under `tag`; the handlers registered before keep
    /// their places.
    pub fn register(&mut self, tag: u64, handler: H)
        ensures
            final(self)@ == old(self)@.push(Entry { tag, handler }),
            final(self)@.len() == old(self)@.len() + 1,
            final(self)@[old(self)@.len() as int] == (Entry { tag, handler }),
            forall|i: int| 0 <= i < old(self)@.len() ==> final(self)@[i] == old(self)@[i],
    {
        self.entries.push(Entry { tag, handler });
    }

    /// The tag of the handler registered in place `i`, if there is one.
    pub fn tag_at(&self, i: usize) -> (tag: Option<u64>)
        ensures
            tag == if i < self@.len() {
                Some(self@[i as int].tag)
            } else {
                None
            },
    {
        if i < self.entries.len() {
            Some(self.entries[i].tag)
        } else {
            None
        }
    }

    /// The place of the first handler registered under `tag`, if there is
    /// one.
    pub fn lookup(&self, tag: u64) -> (place: Option<usize>)
        ensures
            match place {
                Some(i) => {
                    &&& i < self@.len()
                    &&& self@[i as int].tag == tag
                    &&& forall|j: int| 0 <= j < i ==> (#[trigger] self@[j]).tag != tag
                },
                None => forall|j: int| 0 <= j < self@.len() ==> (#[trigger] self@[j]).tag != tag,
            },
    {
        let mut i: usize = 0;
        while i < self.entries.len()
            invariant
                i <= self.entries@.len(),
                forall|j: int| 0 <= j < i ==> (#[trigger] self.entries@[j]).tag != tag,
            decreases self.entries@.len() - i,
        {
            if self.entries[i].tag == tag {
                return Some(i);
            }
            i += 1;
        }
        None
    }

    /// Invokes every handler with `args`, in the order of registration, and
    /// returns the answers in that order. The registry stays as it is.
    pub fn dispatch_all<A, R>(&self, args: &A) -> (out: Vec<Result<R, Fault>>) where
        H: Handler<A, R>,

        ensures
            out@.len() == self@.len(),
            forall|i: int|
                0 <= i < self@.len() ==> (#[trigger] self@[i]).handler.replies(args, &out@[i]),
    {
        let mut out: Vec<Result<R, Fault>> = Vec::new();
        let mut i: usize = 0;
        while i < self.entries.len()
            invariant
                i <= self.entries@.len(),
                out@.len() == i,
                forall|j: int|
                    0 <= j < i ==> (#[trigger] self.entries@[j]).handler.replies(args, &out@[j]),
            decreases self.entries@.len() - i,
        {
            let answer = self.entries[i].handler.invoke(args);
            out.push(answer);
            i += 1;
        }
        out
    }
}

/// A handler of one of two types. Nested, it holds handlers of any fixed
/// choice of types side by side, each still known by its capability alone.
pub enum Either<L, R> {
    /// A handler of the first type.
    Left(L),
    /// A handler of the second type.
    Right(R),
}

impl<A, T, L: Handler<A, T>, R: Handler<A, T>> Handler<A, T> for Either<L, R> {
    open spec fn replies(&self, args: &A, out: &Result<T, Fault>) -> bool {
        match self {
            Either::Left(h) => h.replies(args, out),
            Either::Right(h) => h.replies(args, out),
        }
    }

    /// Invokes the handler it holds.
    fn invoke(&self, args: &A) -> (out: Result<T, Fault>) {
        match self {
            Either::Left(h) => h.invoke(args),
            Either::Right(h) => h.invoke(args),
        }
    }
}

/// A handler that barks.
pub struct Dog;

/// A handler that mews.
pub struct Cat;

impl Handler<(), &'static str> for Dog {
    open spec fn replies(&self, args: &(), out: &Result<&'static str, Fault>) -> bool {
        *out matches Ok(s) && s@ == "woof"@
    }

    /// Answers "woof".
    fn invoke(&self, args: &()) -> (out: Result<&'static str, Fault>) {
        Ok("woof")
    }
}

impl Handler<(), &'static str> for Cat {
    open spec fn replies(&self, args: &(), out: &Result<&'static str, Fault>) -> bool {
        *out matches Ok(s) && s@ == "meow"@
    }

    /// Answers "meow".
    fn invoke(&self, args: &()) -> (out: Result<&'static str, Fault>) {
        Ok("meow")
    }
}

} // verus!
