//! Commands: an effect paired with an optional continuation that turns the
//! shell's encoded response into an event.
use vstd::prelude::*;
use core::marker::PhantomData;
use crate::codec::{decode_string, decodes_to, encodable, encode_string, is_string_encoding, lemma_encoding_injective};
use crate::time::Response;

verus! {

/// Why a command could not be resolved. Answering a command that has no
/// continuation is a wiring defect, not a data error: callers must not do it.
#[derive(Debug, Clone, Copy, PartialEq, Eq, Structural)]
pub enum ResolveError {
    /// The payload is not an encoding of the response the continuation expects.
    Decode,
}

/// A type-erased continuation: it decodes a payload and yields an event. It
/// is not consumed by a call, so a streaming effect may resolve it many times.
pub trait Callback<Ev>: Sized {
    /// The continuation may be called on any payload.
    spec fn ready(&self) -> bool;

    /// The payload decodes to the response this continuation expects.
    spec fn accepts(&self, value: Seq<u8>) -> bool;

    /// `ev` is an event that the continuation may yield for the payload.
    spec fn produces(&self, value: Seq<u8>, ev: Ev) -> bool;

    fn call(&self, value: &Vec<u8>) -> (r: Result<Ev, ResolveError>)
        requires
            self.ready(),
        ensures
            r is Ok <==> self.accepts(value@),
            r matches Ok(ev) ==> self.produces(value@, ev),
            r matches Err(e) ==> e == ResolveError::Decode,
    ;
}

/// The continuation built by [`Command::new`]: decode the payload into a
/// [`Response`], then apply `function`.
pub struct Decode<F> {
    pub function: F,
}

impl<Ev, F: Fn(Response) -> Ev> Callback<Ev> for Decode<F> {
    open spec fn ready(&self) -> bool {
        forall|resp: Response| self.function.requires((resp,))
    }

    open spec fn accepts(&self, value: Seq<u8>) -> bool {
        is_string_encoding(value)
    }

    open spec fn produces(&self, value: Seq<u8>, ev: Ev) -> bool {
        exists|resp: Response|
            decodes_to(value, resp.0@) && self.function.ensures((resp,), ev)
    }

    fn call(&self, value: &Vec<u8>) -> (r: Result<Ev, ResolveError>) {
        match decode_string(value) {
            Some(s) => {
                let resp = Response(s);
                let ghost given = resp;
                let ev = (self.function)(resp);
                assert(decodes_to(value@, given.0@) && self.function.ensures((given,), ev));
                Ok(ev)
            },
            None => Err(ResolveError::Decode),
        }
    }
}

/// A continuation post-composed with `function`: the inner continuation's
/// event is handed on as a typed value, with no second encoding.
pub struct Lifted<K, G, Ev> {
    pub inner: K,
    pub function: G,
    pub child: PhantomData<Ev>,
}

impl<Ev, ParentEv, K: Callback<Ev>, G: Fn(Ev) -> ParentEv> Callback<ParentEv> for Lifted<K, G, Ev> {
    open spec fn ready(&self) -> bool {
        &&& self.inner.ready()
        &&& forall|ev: Ev| self.function.requires((ev,))
    }

    open spec fn accepts(&self, value: Seq<u8>) -> bool {
        self.inner.accepts(value)
    }

    open spec fn produces(&self, value: Seq<u8>, ev: ParentEv) -> bool {
        exists|child: Ev| self.inner.produces(value, child) && self.function.ensures((child,), ev)
    }

    fn call(&self, value: &Vec<u8>) -> (r: Result<ParentEv, ResolveError>) {
        match self.inner.call(value) {
            Ok(child) => {
                let ghost given = child;
                let ev = (self.function)(child);
                assert(self.inner.produces(value@, given) && self.function.ensures((given,), ev));
                Ok(ev)
            },
            Err(e) => Err(e),
        }
    }
}

/// The intent for a side effect: an effect descriptor and, unless the effect
/// is fire-and-forget, the continuation that turns its result into an event.
pub struct Command<Ef, Ev, K> {
    pub effect: Ef,
    pub resolve: Option<K>,
    pub event: PhantomData<Ev>,
}

impl<Ef, Ev, F: Fn(Response) -> Ev> Command<Ef, Ev, Decode<F>> {
    /// A command whose continuation decodes the response and applies `resolve`.
    /// A payload that does not decode is reported when resolving, not here.
    pub fn new(effect: Ef, resolve: F) -> (r: Self)
        requires
            forall|resp: Response| resolve.requires((resp,)),
        ensures
            r.effect == effect,
            r.resolve == Some(Decode { function: resolve }),
            r.wf(),
    {
        Command { effect, resolve: Some(Decode { function: resolve }), event: PhantomData }
    }

    /// Resolves the command with the canonical encoding of `value`: the event
    /// is what the continuation makes of a response equal to `value`.
    pub fn resolve_response(&self, value: &Response) -> (r: Result<Ev, ResolveError>)
        requires
            self.wf(),
            self.resolve is Some,
            encodable(value.0@),
        ensures
            self.resolve matches Some(k) ==> r matches Ok(ev) && exists|resp: Response|
                resp.0@ == value.0@ && k.function.ensures((resp,), ev),
    {
        match encode_string(&value.0) {
            Some(bytes) => {
                assert(decodes_to(bytes@, value.0@));
                let r = self.resolve(&bytes);
                proof {
                    if r is Ok {
                        let ev = r->Ok_0;
                        let k = self.resolve->Some_0;
                        let resp = choose|resp: Response| decodes_to(bytes@, resp.0@) && k.function.ensures((resp,), ev);
                        lemma_encoding_injective(resp.0@, value.0@);
                    }
                }
                r
            },
            None => {
                proof {
                    assert(false);
                }
                Err(ResolveError::Decode)
            },
        }
    }
}

impl<Ef, Ev, K: Callback<Ev>> Command<Ef, Ev, K> {
    /// Well-formed: a continuation, if any, can be called on every payload.
    pub open spec fn wf(&self) -> bool {
        self.resolve matches Some(k) ==> k.ready()
    }

    /// A command with no continuation, for an effect that expects no response.
    pub fn new_without_callback(effect: Ef) -> (r: Self)
        ensures
            r.effect == effect,
            r.resolve is None,
            r.wf(),
    {
        Command { effect, resolve: None, event: PhantomData }
    }

    /// Runs the continuation on an encoded response; fails with `Decode`
    /// when the payload is not what the continuation expects. A command
    /// without continuation must not be resolved.
    pub fn resolve(&self, value: &Vec<u8>) -> (r: Result<Ev, ResolveError>)
        requires
            self.wf(),
            self.resolve is Some,
        ensures
            self.resolve matches Some(k) ==> {
                &&& (r is Ok <==> k.accepts(value@))
                &&& (r matches Ok(ev) ==> k.produces(value@, ev))
                &&& (r matches Err(e) ==> e == ResolveError::Decode)
            },
    {
        match &self.resolve {
            Some(k) => k.call(value),
            None => {
                proof {
                    assert(false);
                }
                Err(ResolveError::Decode)
            },
        }
    }

    /// Post-composes the continuation with `f`, keeping the effect.
    fn map<ParentEv, G: Fn(Ev) -> ParentEv + Copy>(self, f: G) -> (r: Command<Ef, ParentEv, Lifted<K, G, Ev>>)
        ensures
            r.effect == self.effect,
            self.resolve is None <==> r.resolve is None,
            self.resolve matches Some(k) ==> r.resolve == Some(Lifted { inner: k, function: f, child: PhantomData::<Ev> }),
    {
        let resolve = match self.resolve {
            Some(k) => Some(Lifted { inner: k, function: f, child: PhantomData }),
            None => None,
        };
        Command { effect: self.effect, resolve, event: PhantomData }
    }

    /// Turns commands over a child event type into commands over a parent
    /// event type, post-composing every continuation with `f`. Effects and
    /// their order are kept.
    pub fn lift<ParentEv, G: Fn(Ev) -> ParentEv + Copy>(commands: Vec<Self>, f: G) -> (r: Vec<Command<Ef, ParentEv, Lifted<K, G, Ev>>>)
        ensures
            r.len() == commands.len(),
            forall|i: int| 0 <= i < r.len() ==> lifted_from(#[trigger] r[i], commands[i], f),
    {
        let mut commands = commands;
        let ghost orig = commands@;
        let mut out: Vec<Command<Ef, ParentEv, Lifted<K, G, Ev>>> = Vec::new();
        let mut rev: Vec<Command<Ef, ParentEv, Lifted<K, G, Ev>>> = Vec::new();
        while commands.len() > 0
            invariant
                commands@.len() + rev@.len() == orig.len(),
                forall|i: int| 0 <= i < commands@.len() ==> commands@[i] == orig[i],
                forall|j: int| 0 <= j < rev@.len() ==> lifted_from(#[trigger] rev@[j], orig[orig.len() - 1 - j], f),
            decreases commands.len(),
        {
            let c = commands.pop().unwrap();
            let m = c.map(f);
            rev.push(m);
        }
        while rev.len() > 0
            invariant
                rev@.len() + out@.len() == orig.len(),
                forall|j: int| 0 <= j < rev@.len() ==> lifted_from(#[trigger] rev@[j], orig[orig.len() - 1 - j], f),
                forall|i: int| 0 <= i < out@.len() ==> lifted_from(#[trigger] out@[i], orig[i], f),
            decreases rev.len(),
        {
            let c = rev.pop().unwrap();
            out.push(c);
        }
        out
    }
}

/// `k` post-composed with `f`, then with `g`.
pub open spec fn lifted_twice<Ev, MidEv, K, F, G>(k: K, f: F, g: G) -> Lifted<Lifted<K, F, Ev>, G, MidEv> {
    Lifted { inner: Lifted { inner: k, function: f, child: PhantomData::<Ev> }, function: g, child: PhantomData::<MidEv> }
}

/// Lifting twice composes the two functions: the twice-lifted command keeps
/// the effect, accepts exactly the payloads the original accepts, and yields
/// exactly the events `g(f(e))` for the events `e` the original yields.
pub proof fn lemma_lift_composes<Ef, Ev, MidEv, TopEv, K, F, G>(
    original: Command<Ef, Ev, K>,
    once: Command<Ef, MidEv, Lifted<K, F, Ev>>,
    twice: Command<Ef, TopEv, Lifted<Lifted<K, F, Ev>, G, MidEv>>,
    f: F,
    g: G,
)
    where
        K: Callback<Ev>,
        F: Fn(Ev) -> MidEv,
        G: Fn(MidEv) -> TopEv,
    requires
        lifted_from(once, original, f),
        lifted_from(twice, once, g),
    ensures
        twice.effect == original.effect,
        original.resolve is None <==> twice.resolve is None,
        original.resolve matches Some(k) ==> twice.resolve == Some(lifted_twice::<Ev, MidEv, K, F, G>(k, f, g)),
        original.resolve matches Some(k) ==> forall|v: Seq<u8>| #[trigger] lifted_twice::<Ev, MidEv, K, F, G>(k, f, g).accepts(v) == k.accepts(v),
        original.resolve matches Some(k) ==> forall|v: Seq<u8>, top: TopEv| #[trigger] lifted_twice::<Ev, MidEv, K, F, G>(k, f, g).produces(v, top)
            <==> exists|e: Ev, mid: MidEv|
                #![trigger k.produces(v, e), g.ensures((mid,), top)]
                k.produces(v, e) && f.ensures((e,), mid) && g.ensures((mid,), top),
{
    if let Some(k) = original.resolve {
        let composed = lifted_twice::<Ev, MidEv, K, F, G>(k, f, g);
        assert forall|v: Seq<u8>, top: TopEv| #[trigger] composed.produces(v, top)
            <==> exists|e: Ev, mid: MidEv|
                #![trigger k.produces(v, e), g.ensures((mid,), top)]
                k.produces(v, e) && f.ensures((e,), mid) && g.ensures((mid,), top) by {
            if composed.produces(v, top) {
                let mid = choose|mid: MidEv| composed.inner.produces(v, mid) && g.ensures((mid,), top);
                let e = choose|e: Ev| k.produces(v, e) && f.ensures((e,), mid);
                assert(k.produces(v, e) && f.ensures((e,), mid) && g.ensures((mid,), top));
            }
            if exists|e: Ev, mid: MidEv|
                #![trigger k.produces(v, e), g.ensures((mid,), top)]
                k.produces(v, e) && f.ensures((e,), mid) && g.ensures((mid,), top) {
                let (e, mid) = choose|e: Ev, mid: MidEv|
                    #![trigger k.produces(v, e), g.ensures((mid,), top)]
                    k.produces(v, e) && f.ensures((e,), mid) && g.ensures((mid,), top);
                assert(k.produces(v, e) && f.ensures((e,), mid));
                assert(composed.inner == Lifted { inner: k, function: f, child: PhantomData::<Ev> });
                let inner = composed.inner;
                assert(inner.inner.produces(v, e) && inner.function.ensures((e,), mid));
                assert(exists|child: Ev| inner.inner.produces(v, child) && inner.function.ensures((child,), mid));
                assert(inner.produces(v, mid));
                assert(composed.produces(v, top));
            }
        }
    }
}

/// `lifted` is `original` with its continuation post-composed with `f`.
pub open spec fn lifted_from<Ef, Ev, ParentEv, K, G>(
    lifted: Command<Ef, ParentEv, Lifted<K, G, Ev>>,
    original: Command<Ef, Ev, K>,
    f: G,
) -> bool {
    &&& lifted.effect == original.effect
    &&& match original.resolve {
        Some(k) => lifted.resolve == Some(Lifted { inner: k, function: f, child: PhantomData::<Ev> }),
        None => lifted.resolve is None,
    }
}

} // verus!
