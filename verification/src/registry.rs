//! Which handler serves a request: by the scheme alone where the handler streams,
//! by browser and scheme where it does not.

use crate::origin::{initiator, initiator_origin, optional_chars, FrameInfo};
use std::collections::HashMap;
use vstd::hash_map::StringHashMap;
use vstd::prelude::*;

verus! {

/// The streaming handlers, one per scheme, consulted before the buffered ones.
#[verifier::reject_recursive_types(H)]
pub struct StreamingRegistry<H> {
    handlers: StringHashMap<H>,
}

impl<H> View for StreamingRegistry<H> {
    type V = Map<Seq<char>, H>;

    closed spec fn view(&self) -> Map<Seq<char>, H> {
        self.handlers@
    }
}

impl<H> StreamingRegistry<H> {
    /// A registry without handlers.
    pub fn new() -> (registry: Self)
        ensures
            registry@ == Map::<Seq<char>, H>::empty(),
    {
        StreamingRegistry { handlers: StringHashMap::new() }
    }
}

/// Registers a streaming handler for `scheme` (such as `"duck"`). Later
/// registrations for the same scheme replace earlier ones.
pub fn register_streaming_scheme_handler<H>(
    registry: &mut StreamingRegistry<H>,
    scheme: &str,
    handler: H,
)
    ensures
        final(registry)@ == old(registry)@.insert(scheme@, handler),
{
    registry.handlers.insert(scheme.to_owned(), handler);
}

/// The handler registered for `scheme`, if any. Decides whether a request streams
/// or falls through to the buffered path.
pub fn streaming_handler_for<'a, H>(
    registry: &'a StreamingRegistry<H>,
    scheme: &str,
) -> (handler: Option<&'a H>)
    ensures
        match handler {
            Some(handler) => registry@.dom().contains(scheme@) && *handler == registry@[scheme@],
            None => !registry@.dom().contains(scheme@),
        },
{
    registry.handlers.get(scheme)
}

/// What serves the buffered requests of a scheme in a browser: the webview's label,
/// its handler and its scripts, say. One entry per browser and scheme.
#[verifier::reject_recursive_types(E)]
pub struct SchemeRegistry<E> {
    browsers: HashMap<i32, StringHashMap<E>>,
}

impl<E> View for SchemeRegistry<E> {
    type V = Map<(i32, Seq<char>), E>;

    closed spec fn view(&self) -> Map<(i32, Seq<char>), E> {
        Map::new(
            |key: (i32, Seq<char>)|
                self.browsers@.dom().contains(key.0) && self.browsers@[key.0]@.dom().contains(
                    key.1,
                ),
            |key: (i32, Seq<char>)| self.browsers@[key.0]@[key.1],
        )
    }
}

impl<E> SchemeRegistry<E> {
    /// A registry without entries.
    pub fn new() -> (registry: Self)
        ensures
            registry@ == Map::<(i32, Seq<char>), E>::empty(),
    {
        let registry = SchemeRegistry { browsers: HashMap::new() };
        assert(registry@ =~= Map::<(i32, Seq<char>), E>::empty());
        registry
    }

    /// Enters what serves a scheme in a browser, in place of what did before.
    pub fn register(&mut self, browser: i32, scheme: &str, entry: E)
        ensures
            final(self)@ == old(self)@.insert((browser, scheme@), entry),
    {
        broadcast use vstd::std_specs::hash::group_hash_axioms;

        let mut schemes = match self.browsers.remove(&browser) {
            Some(schemes) => schemes,
            None => StringHashMap::new(),
        };
        schemes.insert(scheme.to_owned(), entry);
        self.browsers.insert(browser, schemes);
        assert(self@ =~= old(self)@.insert((browser, scheme@), entry));
    }

    /// What serves a scheme in a browser, if anything does.
    pub fn find(&self, browser: i32, scheme: &str) -> (entry: Option<&E>)
        ensures
            match entry {
                Some(entry) => self@.dom().contains((browser, scheme@)) && *entry == self@[(
                    browser,
                    scheme@,
                )],
                None => !self@.dom().contains((browser, scheme@)),
            },
    {
        broadcast use vstd::std_specs::hash::group_hash_axioms;

        match self.browsers.get(&browser) {
            Some(schemes) => schemes.get(scheme),
            None => None,
        }
    }
}

/// What a request of a browser for a scheme is served by, and the origin of the
/// main frame that initiated it. `None` where there is no browser, or nothing is
/// registered for it.
pub fn create_resource_handler<'a, E>(
    registry: &'a SchemeRegistry<E>,
    browser: Option<i32>,
    scheme: &str,
    frame: Option<&FrameInfo>,
) -> (created: Option<(&'a E, Option<String>)>)
    ensures
        created is Some <==> browser is Some && registry@.dom().contains((browser->0, scheme@)),
        created matches Some((entry, origin)) ==> {
            &&& *entry == registry@[(browser->0, scheme@)]
            &&& optional_chars(origin) == initiator(frame)
        },
{
    match browser {
        None => None,
        Some(browser) => match registry.find(browser, scheme) {
            None => None,
            Some(entry) => Some((entry, initiator_origin(frame))),
        },
    }
}

/// A later registration replaces an earlier one for its scheme, and leaves the
/// other schemes alone.
pub proof fn the_last_registration_counts<H>(
    handlers: Map<Seq<char>, H>,
    scheme: Seq<char>,
    first: H,
    second: H,
)
    ensures
        handlers.insert(scheme, first).insert(scheme, second) == handlers.insert(scheme, second),
        forall|other: Seq<char>|
            other != scheme ==> (#[trigger] handlers.insert(scheme, first).dom().contains(other)
                <==> handlers.dom().contains(other)) && handlers.insert(scheme, first)[other]
                == handlers[other],
{
    assert(handlers.insert(scheme, first).insert(scheme, second) =~= handlers.insert(
        scheme,
        second,
    ));
}

} // verus!
